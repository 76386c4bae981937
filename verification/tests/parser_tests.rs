use tejx::ast::{BindingNode, Expression, Statement};
use tejx::parser::template::{split_template, TemplatePart};
use tejx::parser::Parser;
use tejx::token::{Token, TokenType};

fn tok(token_type: TokenType, value: &str, line: usize, column: usize) -> Token {
    Token { token_type, value: value.to_string(), line, column }
}

fn eof(line: usize, column: usize) -> Token {
    tok(TokenType::EndOfFile, "", line, column)
}

#[test]
fn empty_input_gives_empty_program() {
    let mut p = Parser::new(vec![eof(1, 1)], "empty.tx");
    let prog = p.parse_program();
    assert!(prog.statements.is_empty());
    assert!(!p.has_errors());
    assert!(p.get_errors().is_empty());
}

#[test]
fn let_declaration_with_initializer() {
    let tokens = vec![
        tok(TokenType::Let, "let", 1, 1),
        tok(TokenType::Identifier, "x", 1, 5),
        tok(TokenType::Equals, "=", 1, 7),
        tok(TokenType::Number, "42", 1, 9),
        tok(TokenType::Semicolon, ";", 1, 11),
        eof(1, 12),
    ];
    let mut p = Parser::new(tokens, "a.tx");
    let prog = p.parse_program();
    assert!(!p.has_errors());
    assert_eq!(prog.statements.len(), 1);
    match &prog.statements[0] {
        Statement::VarDeclaration { pattern, type_annotation, initializer, is_const, line, .. } => {
            assert_eq!(*pattern, BindingNode::Identifier("x".to_string()));
            assert_eq!(type_annotation, "");
            assert!(!*is_const);
            assert_eq!(*line, 1);
            match initializer.as_deref() {
                Some(Expression::NumberLiteral { value, .. }) => assert_eq!(value, "42"),
                other => panic!("unexpected initializer {:?}", other),
            }
        },
        other => panic!("unexpected statement {:?}", other),
    }
}

#[test]
fn const_declaration_with_type() {
    let tokens = vec![
        tok(TokenType::Const, "const", 3, 1),
        tok(TokenType::Identifier, "s", 3, 7),
        tok(TokenType::Colon, ":", 3, 8),
        tok(TokenType::TypeString, "string", 3, 10),
        tok(TokenType::Equals, "=", 3, 17),
        tok(TokenType::String, "hi", 3, 19),
        tok(TokenType::Semicolon, ";", 3, 23),
        eof(3, 24),
    ];
    let mut p = Parser::new(tokens, "a.tx");
    let prog = p.parse_program();
    assert!(!p.has_errors());
    match &prog.statements[0] {
        Statement::VarDeclaration { type_annotation, is_const, line, initializer, .. } => {
            assert_eq!(type_annotation, "string");
            assert!(*is_const);
            assert_eq!(*line, 3);
            assert!(matches!(initializer.as_deref(), Some(Expression::StringLiteral { value, .. }) if value == "hi"));
        },
        other => panic!("unexpected statement {:?}", other),
    }
}

#[test]
fn missing_semicolon_is_reported_after_previous_token() {
    let tokens = vec![
        tok(TokenType::Let, "let", 1, 1),
        tok(TokenType::Identifier, "x", 1, 5),
        tok(TokenType::Equals, "=", 1, 7),
        tok(TokenType::Number, "100", 1, 9),
        eof(2, 1),
    ];
    let mut p = Parser::new(tokens, "m.tx");
    let prog = p.parse_program();
    assert_eq!(prog.statements.len(), 1);
    assert!(p.has_errors());
    let errs = p.get_errors();
    assert_eq!(errs.len(), 1);
    assert_eq!(errs[0].message, "Expected ';' after variable declaration.");
    assert_eq!(errs[0].line, 1);
    assert_eq!(errs[0].column, 12);
    assert_eq!(errs[0].filename, "m.tx");
}

#[test]
fn split_equals_tokens_are_joined_into_equality() {
    let tokens = vec![
        tok(TokenType::Identifier, "a", 1, 1),
        tok(TokenType::Equals, "=", 1, 3),
        tok(TokenType::Equals, "=", 1, 4),
        tok(TokenType::Identifier, "b", 1, 6),
        tok(TokenType::Semicolon, ";", 1, 7),
        eof(1, 8),
    ];
    let mut p = Parser::new(tokens, "j.tx");
    let prog = p.parse_program();
    assert!(!p.has_errors());
    match &prog.statements[0] {
        Statement::ExpressionStmt { _expression, .. } => match _expression.as_ref() {
            Expression::BinaryExpr { left, op, right, .. } => {
                assert_eq!(*op, TokenType::EqualEqual);
                assert!(matches!(left.as_ref(), Expression::Identifier { name, .. } if name == "a"));
                assert!(matches!(right.as_ref(), Expression::Identifier { name, .. } if name == "b"));
            },
            other => panic!("unexpected expression {:?}", other),
        },
        other => panic!("unexpected statement {:?}", other),
    }
}

#[test]
fn unexpected_token_is_reported_and_parsing_goes_on() {
    let tokens = vec![
        tok(TokenType::CloseParen, ")", 1, 1),
        tok(TokenType::Semicolon, ";", 1, 2),
        tok(TokenType::Let, "let", 2, 1),
        tok(TokenType::Identifier, "y", 2, 5),
        tok(TokenType::Semicolon, ";", 2, 6),
        eof(2, 7),
    ];
    let mut p = Parser::new(tokens, "e.tx");
    let prog = p.parse_program();
    assert!(p.has_errors());
    assert_eq!(p.get_errors()[0].message, "Unexpected token ')'");
    assert_eq!(p.get_errors()[0].line, 1);
    assert_eq!(p.get_errors()[0].column, 1);
    assert!(prog
        .statements
        .iter()
        .any(|s| matches!(s, Statement::VarDeclaration { pattern: BindingNode::Identifier(n), .. } if n == "y")));
}

#[test]
fn function_declaration_with_return() {
    let tokens = vec![
        tok(TokenType::Function, "function", 1, 1),
        tok(TokenType::Identifier, "id", 1, 10),
        tok(TokenType::OpenParen, "(", 1, 12),
        tok(TokenType::Identifier, "a", 1, 13),
        tok(TokenType::Colon, ":", 1, 14),
        tok(TokenType::TypeInt, "int", 1, 16),
        tok(TokenType::CloseParen, ")", 1, 19),
        tok(TokenType::Colon, ":", 1, 20),
        tok(TokenType::TypeInt, "int", 1, 22),
        tok(TokenType::OpenBrace, "{", 1, 26),
        tok(TokenType::Return, "return", 2, 5),
        tok(TokenType::Identifier, "a", 2, 12),
        tok(TokenType::Semicolon, ";", 2, 13),
        tok(TokenType::CloseBrace, "}", 3, 1),
        eof(3, 2),
    ];
    let mut p = Parser::new(tokens, "f.tx");
    let prog = p.parse_program();
    assert!(!p.has_errors(), "{:?}", p.get_errors());
    match &prog.statements[0] {
        Statement::FunctionDeclaration(f) => {
            assert_eq!(f.name, "id");
            assert_eq!(f.params.len(), 1);
            assert_eq!(f.params[0].name, "a");
            assert_eq!(f.params[0].type_annotation, "int");
            assert_eq!(f.return_type, "int");
            assert!(!f._is_async);
            match f.body.as_ref() {
                Statement::BlockStmt { statements, .. } => {
                    assert_eq!(statements.len(), 1);
                    assert!(matches!(&statements[0], Statement::ReturnStmt { value: Some(_), .. }));
                },
                other => panic!("unexpected body {:?}", other),
            }
        },
        other => panic!("unexpected statement {:?}", other),
    }
}

#[test]
fn async_declaration_reported_when_disabled() {
    let tokens = vec![
        tok(TokenType::Async, "async", 1, 1),
        tok(TokenType::Function, "function", 1, 7),
        tok(TokenType::Identifier, "g", 1, 16),
        tok(TokenType::OpenParen, "(", 1, 17),
        tok(TokenType::CloseParen, ")", 1, 18),
        tok(TokenType::OpenBrace, "{", 1, 20),
        tok(TokenType::CloseBrace, "}", 1, 21),
        eof(1, 22),
    ];
    let mut p = Parser::new(tokens, "s.tx");
    p.async_enabled = false;
    let prog = p.parse_program();
    assert_eq!(p.get_errors().len(), 1);
    assert_eq!(p.get_errors()[0].message, "async/await is disabled");
    assert!(matches!(&prog.statements[0], Statement::FunctionDeclaration(f) if f._is_async && f.name == "g"));
}

#[test]
fn previous_gives_token_before_the_current_one() {
    let tokens = vec![
        tok(TokenType::Identifier, "a", 1, 1),
        tok(TokenType::Semicolon, ";", 1, 2),
        eof(1, 3),
    ];
    let mut p = Parser::new(tokens, "p.tx");
    p.parse_program();
    assert_eq!(p.previous().token_type, TokenType::Semicolon);
}

#[test]
fn template_with_two_interpolations() {
    let parts = split_template("Hi ${name}, you are ${age + 1}!");
    assert_eq!(
        parts,
        vec![
            TemplatePart::Text("Hi ".to_string()),
            TemplatePart::Interpolation("name".to_string()),
            TemplatePart::Text(", you are ".to_string()),
            TemplatePart::Interpolation("age + 1".to_string()),
            TemplatePart::Text("!".to_string()),
        ]
    );
}

#[test]
fn template_nested_braces_and_unclosed() {
    assert_eq!(
        split_template("a${ {x: 1} }b"),
        vec![
            TemplatePart::Text("a".to_string()),
            TemplatePart::Interpolation(" {x: 1} ".to_string()),
            TemplatePart::Text("b".to_string()),
        ]
    );
    assert_eq!(split_template("plain"), vec![TemplatePart::Text("plain".to_string())]);
    assert_eq!(split_template(""), vec![]);
    // An unclosed `${` leaves the text before it twice: once before the `${`,
    // once in the rest of the string.
    assert_eq!(
        split_template("ab${x"),
        vec![TemplatePart::Text("ab".to_string()), TemplatePart::Text("ab${x".to_string())]
    );
}

fn parse_ok(tokens: Vec<Token>) -> Vec<Statement> {
    let mut p = Parser::new(tokens, "t.tx");
    let prog = p.parse_program();
    assert!(!p.has_errors(), "{:?}", p.get_errors());
    prog.statements
}

#[test]
fn named_import_from_path() {
    let stmts = parse_ok(vec![
        tok(TokenType::Import, "import", 1, 1),
        tok(TokenType::OpenBrace, "{", 1, 8),
        tok(TokenType::Identifier, "a", 1, 10),
        tok(TokenType::Comma, ",", 1, 11),
        tok(TokenType::Identifier, "b", 1, 13),
        tok(TokenType::CloseBrace, "}", 1, 15),
        tok(TokenType::From, "from", 1, 17),
        tok(TokenType::String, "./util", 1, 22),
        tok(TokenType::Semicolon, ";", 1, 30),
        eof(1, 31),
    ]);
    match &stmts[0] {
        Statement::ImportDecl { _names, source, _is_default, .. } => {
            assert_eq!(_names, &vec!["a".to_string(), "b".to_string()]);
            assert_eq!(source, "./util");
            assert!(!*_is_default);
        },
        other => panic!("unexpected statement {:?}", other),
    }
}

#[test]
fn std_module_import() {
    let stmts = parse_ok(vec![
        tok(TokenType::Import, "import", 1, 1),
        tok(TokenType::Identifier, "std", 1, 8),
        tok(TokenType::Colon, ":", 1, 11),
        tok(TokenType::Identifier, "math", 1, 12),
        tok(TokenType::Semicolon, ";", 1, 16),
        eof(1, 17),
    ]);
    assert!(matches!(&stmts[0], Statement::ImportDecl { source, _names, .. } if source == "std:math" && _names.is_empty()));
}

#[test]
fn if_else_and_while() {
    let stmts = parse_ok(vec![
        tok(TokenType::If, "if", 1, 1),
        tok(TokenType::OpenParen, "(", 1, 4),
        tok(TokenType::Identifier, "a", 1, 5),
        tok(TokenType::Less, "<", 1, 7),
        tok(TokenType::Number, "3", 1, 9),
        tok(TokenType::CloseParen, ")", 1, 10),
        tok(TokenType::OpenBrace, "{", 1, 12),
        tok(TokenType::CloseBrace, "}", 1, 13),
        tok(TokenType::Else, "else", 1, 15),
        tok(TokenType::Break, "break", 1, 20),
        tok(TokenType::Semicolon, ";", 1, 25),
        tok(TokenType::While, "while", 2, 1),
        tok(TokenType::OpenParen, "(", 2, 7),
        tok(TokenType::True, "true", 2, 8),
        tok(TokenType::CloseParen, ")", 2, 12),
        tok(TokenType::Continue, "continue", 2, 14),
        tok(TokenType::Semicolon, ";", 2, 22),
        eof(2, 23),
    ]);
    assert_eq!(stmts.len(), 2);
    match &stmts[0] {
        Statement::IfStmt { condition, then_branch, else_branch, .. } => {
            assert!(matches!(condition.as_ref(), Expression::BinaryExpr { op: TokenType::Less, .. }));
            assert!(matches!(then_branch.as_ref(), Statement::BlockStmt { statements, .. } if statements.is_empty()));
            assert!(matches!(else_branch.as_deref(), Some(Statement::BreakStmt { .. })));
        },
        other => panic!("unexpected statement {:?}", other),
    }
    match &stmts[1] {
        Statement::WhileStmt { condition, body, .. } => {
            assert!(matches!(condition.as_ref(), Expression::BooleanLiteral { value: true, .. }));
            assert!(matches!(body.as_ref(), Statement::ContinueStmt { .. }));
        },
        other => panic!("unexpected statement {:?}", other),
    }
}

#[test]
fn for_of_loop_over_array_literal() {
    let stmts = parse_ok(vec![
        tok(TokenType::For, "for", 1, 1),
        tok(TokenType::OpenParen, "(", 1, 5),
        tok(TokenType::Let, "let", 1, 6),
        tok(TokenType::Identifier, "x", 1, 10),
        tok(TokenType::Of, "of", 1, 12),
        tok(TokenType::OpenBracket, "[", 1, 15),
        tok(TokenType::Number, "1", 1, 16),
        tok(TokenType::Comma, ",", 1, 17),
        tok(TokenType::Number, "2", 1, 19),
        tok(TokenType::CloseBracket, "]", 1, 20),
        tok(TokenType::CloseParen, ")", 1, 21),
        tok(TokenType::OpenBrace, "{", 1, 23),
        tok(TokenType::CloseBrace, "}", 1, 24),
        eof(1, 25),
    ]);
    match &stmts[0] {
        Statement::ForOfStmt { variable, iterable, .. } => {
            assert_eq!(*variable, BindingNode::Identifier("x".to_string()));
            assert!(matches!(iterable.as_ref(), Expression::ArrayLiteral { elements, .. } if elements.len() == 2));
        },
        other => panic!("unexpected statement {:?}", other),
    }
}

#[test]
fn classic_for_loop_with_increment_joined() {
    let stmts = parse_ok(vec![
        tok(TokenType::For, "for", 1, 1),
        tok(TokenType::OpenParen, "(", 1, 5),
        tok(TokenType::Let, "let", 1, 6),
        tok(TokenType::Identifier, "i", 1, 10),
        tok(TokenType::Equals, "=", 1, 12),
        tok(TokenType::Number, "0", 1, 14),
        tok(TokenType::Semicolon, ";", 1, 15),
        tok(TokenType::Identifier, "i", 1, 17),
        tok(TokenType::Less, "<", 1, 19),
        tok(TokenType::Number, "10", 1, 21),
        tok(TokenType::Semicolon, ";", 1, 23),
        tok(TokenType::Identifier, "i", 1, 25),
        tok(TokenType::Plus, "+", 1, 26),
        tok(TokenType::Plus, "+", 1, 27),
        tok(TokenType::CloseParen, ")", 1, 28),
        tok(TokenType::OpenBrace, "{", 1, 30),
        tok(TokenType::CloseBrace, "}", 1, 31),
        eof(1, 32),
    ]);
    match &stmts[0] {
        Statement::ForStmt { init, condition, increment, .. } => {
            assert!(matches!(init.as_deref(), Some(Statement::VarDeclaration { .. })));
            assert!(matches!(condition.as_deref(), Some(Expression::BinaryExpr { op: TokenType::Less, .. })));
            assert!(increment.is_some());
        },
        other => panic!("unexpected statement {:?}", other),
    }
}

#[test]
fn enum_and_type_alias() {
    let stmts = parse_ok(vec![
        tok(TokenType::Enum, "enum", 1, 1),
        tok(TokenType::Identifier, "Color", 1, 6),
        tok(TokenType::OpenBrace, "{", 1, 12),
        tok(TokenType::Identifier, "Red", 1, 14),
        tok(TokenType::Comma, ",", 1, 17),
        tok(TokenType::Identifier, "Green", 1, 19),
        tok(TokenType::CloseBrace, "}", 1, 25),
        tok(TokenType::TypeAlias, "type", 2, 1),
        tok(TokenType::Identifier, "Id", 2, 6),
        tok(TokenType::Equals, "=", 2, 9),
        tok(TokenType::TypeInt, "int", 2, 11),
        tok(TokenType::Semicolon, ";", 2, 14),
        eof(2, 15),
    ]);
    match &stmts[0] {
        Statement::EnumDeclaration(e) => {
            assert_eq!(e.name, "Color");
            assert_eq!(e._members.len(), 2);
            assert_eq!(e._members[1]._name, "Green");
        },
        other => panic!("unexpected statement {:?}", other),
    }
    assert!(matches!(&stmts[1], Statement::TypeAliasDeclaration { name, _type_def, .. } if name == "Id" && _type_def == "int"));
}

#[test]
fn export_of_a_constant() {
    let stmts = parse_ok(vec![
        tok(TokenType::Export, "export", 1, 1),
        tok(TokenType::Const, "const", 1, 8),
        tok(TokenType::Identifier, "k", 1, 14),
        tok(TokenType::Equals, "=", 1, 16),
        tok(TokenType::Number, "1", 1, 18),
        tok(TokenType::Semicolon, ";", 1, 19),
        eof(1, 20),
    ]);
    match &stmts[0] {
        Statement::ExportDecl { declaration, _is_default, .. } => {
            assert!(!*_is_default);
            assert!(matches!(declaration.as_ref(), Statement::VarDeclaration { is_const: true, .. }));
        },
        other => panic!("unexpected statement {:?}", other),
    }
}

#[test]
fn call_member_and_template_expression() {
    let mut p = Parser::new(
        vec![
            tok(TokenType::Identifier, "console", 1, 1),
            tok(TokenType::Dot, ".", 1, 8),
            tok(TokenType::Identifier, "log", 1, 9),
            tok(TokenType::OpenParen, "(", 1, 12),
            tok(TokenType::TemplateString, "n=${n}", 1, 13),
            tok(TokenType::CloseParen, ")", 1, 21),
            tok(TokenType::Semicolon, ";", 1, 22),
            eof(1, 23),
        ],
        "t.tx",
    );
    p.set_interpolations(4, vec![vec![tok(TokenType::Identifier, "n", 1, 1), eof(1, 2)]]);
    let stmts = p.parse_program().statements;
    assert!(!p.has_errors());
    match &stmts[0] {
        Statement::ExpressionStmt { _expression, .. } => match _expression.as_ref() {
            Expression::CallExpr { callee, args, .. } => {
                assert!(matches!(callee.as_ref(), Expression::MemberAccessExpr { member, .. } if member == "log"));
                assert_eq!(args.len(), 1);
                match &args[0] {
                    Expression::BinaryExpr { left, op, right, .. } => {
                        assert_eq!(*op, TokenType::Plus);
                        assert!(matches!(left.as_ref(), Expression::StringLiteral { value, .. } if value == "n="));
                        assert!(matches!(right.as_ref(), Expression::Identifier { name, .. } if name == "n"));
                    },
                    other => panic!("unexpected argument {:?}", other),
                }
            },
            other => panic!("unexpected expression {:?}", other),
        },
        other => panic!("unexpected statement {:?}", other),
    }
}

#[test]
fn unclosed_block_is_reported() {
    let mut p = Parser::new(
        vec![tok(TokenType::OpenBrace, "{", 4, 2), tok(TokenType::Identifier, "x", 4, 4), tok(TokenType::Semicolon, ";", 4, 5), eof(5, 1)],
        "u.tx",
    );
    let prog = p.parse_program();
    assert_eq!(prog.statements.len(), 1);
    assert!(p.has_errors());
    assert!(p.get_errors()[0].message.contains("4:2"), "{:?}", p.get_errors());
}

#[test]
fn missing_binding_pattern_is_the_only_diagnostic() {
    let mut p = Parser::new(
        vec![
            tok(TokenType::Let, "let", 1, 1),
            tok(TokenType::Equals, "=", 1, 5),
            tok(TokenType::Number, "1", 1, 7),
            tok(TokenType::Semicolon, ";", 1, 8),
            eof(1, 9),
        ],
        "f",
    );
    let prog = p.parse_program();
    assert_eq!(prog.statements.len(), 1);
    let errs = p.get_errors();
    assert_eq!(errs.len(), 1);
    assert_eq!(errs[0].message, "Expected binding pattern");
    assert_eq!((errs[0].line, errs[0].column), (1, 5));
}

#[test]
fn unexpected_token_moves_one_place() {
    let mut p = Parser::new(
        vec![
            tok(TokenType::Semicolon, ";", 1, 1),
            tok(TokenType::Semicolon, ";", 1, 2),
            eof(1, 3),
        ],
        "f",
    );
    let prog = p.parse_program();
    assert_eq!(prog.statements.len(), 1);
    assert_eq!(p.get_errors().len(), 1);
    assert_eq!(p.get_errors()[0].message, "Unexpected token ';'");
}

#[test]
fn class_with_one_field_gets_default_constructor() {
    let stmts = parse_ok(vec![
        tok(TokenType::Class, "class", 1, 1),
        tok(TokenType::Identifier, "A", 1, 7),
        tok(TokenType::OpenBrace, "{", 1, 9),
        tok(TokenType::Identifier, "x", 1, 11),
        tok(TokenType::Colon, ":", 1, 12),
        tok(TokenType::Identifier, "int", 1, 14),
        tok(TokenType::Semicolon, ";", 1, 17),
        tok(TokenType::CloseBrace, "}", 1, 19),
        eof(1, 20),
    ]);
    assert_eq!(stmts.len(), 1);
    match &stmts[0] {
        Statement::ClassDeclaration(c) => {
            assert_eq!(c.name, "A");
            assert_eq!(c._members.len(), 1);
            assert_eq!(c._members[0]._name, "x");
            assert_eq!(c._members[0]._type_name, "int");
            assert!(!c._members[0]._is_static);
            assert!(c._members[0]._initializer.is_none());
            assert!(c.methods.is_empty());
            assert!(c._getters.is_empty());
            assert!(c._setters.is_empty());
            assert_eq!(c._parent_name, "");
            let ctor = c._constructor.as_ref().unwrap();
            assert_eq!(ctor.name, "constructor");
            assert!(ctor.params.is_empty());
            assert_eq!(ctor.return_type, "void");
            match ctor.body.as_ref() {
                Statement::BlockStmt { statements, .. } => assert!(statements.is_empty()),
                _ => panic!("constructor body is not a block"),
            }
        }
        _ => panic!("not a class declaration"),
    }
}

#[test]
fn array_pattern_with_rest() {
    let stmts = parse_ok(vec![
        tok(TokenType::Let, "let", 1, 1),
        tok(TokenType::OpenBracket, "[", 1, 5),
        tok(TokenType::Identifier, "a", 1, 6),
        tok(TokenType::Comma, ",", 1, 7),
        tok(TokenType::Identifier, "b", 1, 9),
        tok(TokenType::Comma, ",", 1, 10),
        tok(TokenType::Ellipsis, "...", 1, 12),
        tok(TokenType::Identifier, "c", 1, 15),
        tok(TokenType::CloseBracket, "]", 1, 16),
        tok(TokenType::Equals, "=", 1, 18),
        tok(TokenType::Identifier, "xs", 1, 20),
        tok(TokenType::Semicolon, ";", 1, 22),
        eof(1, 23),
    ]);
    match &stmts[0] {
        Statement::VarDeclaration { pattern, .. } => {
            let expected = BindingNode::ArrayBinding {
                elements: vec![BindingNode::Identifier("a".to_string()), BindingNode::Identifier("b".to_string())],
                rest: Some(Box::new(BindingNode::Identifier("c".to_string()))),
            };
            assert_eq!(*pattern, expected);
        }
        _ => panic!("not a declaration"),
    }
}

#[test]
fn object_pattern_with_renamed_entry() {
    let stmts = parse_ok(vec![
        tok(TokenType::Let, "let", 1, 1),
        tok(TokenType::OpenBrace, "{", 1, 5),
        tok(TokenType::Identifier, "x", 1, 6),
        tok(TokenType::Comma, ",", 1, 7),
        tok(TokenType::Identifier, "y", 1, 9),
        tok(TokenType::Colon, ":", 1, 10),
        tok(TokenType::Identifier, "z", 1, 12),
        tok(TokenType::CloseBrace, "}", 1, 13),
        tok(TokenType::Equals, "=", 1, 15),
        tok(TokenType::Identifier, "o", 1, 17),
        tok(TokenType::Semicolon, ";", 1, 18),
        eof(1, 19),
    ]);
    match &stmts[0] {
        Statement::VarDeclaration { pattern, .. } => {
            let expected = BindingNode::ObjectBinding {
                entries: vec![
                    ("x".to_string(), BindingNode::Identifier("x".to_string())),
                    ("y".to_string(), BindingNode::Identifier("z".to_string())),
                ],
            };
            assert_eq!(*pattern, expected);
        }
        _ => panic!("not a declaration"),
    }
}

#[test]
fn union_of_array_and_generic_type_annotation() {
    let stmts = parse_ok(vec![
        tok(TokenType::Let, "let", 1, 1),
        tok(TokenType::Identifier, "v", 1, 5),
        tok(TokenType::Colon, ":", 1, 6),
        tok(TokenType::Identifier, "number", 1, 8),
        tok(TokenType::OpenBracket, "[", 1, 14),
        tok(TokenType::CloseBracket, "]", 1, 15),
        tok(TokenType::Pipe, "|", 1, 17),
        tok(TokenType::Identifier, "Map", 1, 19),
        tok(TokenType::Less, "<", 1, 22),
        tok(TokenType::Identifier, "string", 1, 23),
        tok(TokenType::Comma, ",", 1, 29),
        tok(TokenType::Identifier, "int", 1, 31),
        tok(TokenType::Greater, ">", 1, 34),
        tok(TokenType::Semicolon, ";", 1, 35),
        eof(1, 36),
    ]);
    match &stmts[0] {
        Statement::VarDeclaration { type_annotation, initializer, .. } => {
            assert_eq!(type_annotation, "number[] | Map<string, int>");
            assert!(initializer.is_none());
        }
        _ => panic!("not a declaration"),
    }
}

fn template_expr(value: &str, lists: Vec<Vec<Token>>) -> Expression {
    let mut p = Parser::new(
        vec![tok(TokenType::TemplateString, value, 2, 5), tok(TokenType::Semicolon, ";", 2, 20), eof(2, 21)],
        "t.tx",
    );
    p.set_interpolations(0, lists);
    match p.parse_program().statements.remove(0) {
        Statement::ExpressionStmt { _expression, .. } => *_expression,
        other => panic!("unexpected statement {:?}", other),
    }
}

#[test]
fn template_interpolation_is_parsed() {
    let e = template_expr("a${x}b", vec![vec![tok(TokenType::Identifier, "x", 1, 1), eof(1, 2)]]);
    match e {
        Expression::BinaryExpr { left, op: TokenType::Plus, right, .. } => {
            assert!(matches!(right.as_ref(), Expression::StringLiteral { value, .. } if value == "b"));
            match left.as_ref() {
                Expression::BinaryExpr { left, op: TokenType::Plus, right, .. } => {
                    assert!(matches!(left.as_ref(), Expression::StringLiteral { value, .. } if value == "a"));
                    assert!(matches!(right.as_ref(), Expression::Identifier { name, .. } if name == "x"));
                }
                other => panic!("unexpected {:?}", other),
            }
        }
        other => panic!("unexpected {:?}", other),
    }
}

#[test]
fn template_interpolation_with_operator() {
    let e = template_expr(
        "${a + 1}",
        vec![vec![
            tok(TokenType::Identifier, "a", 1, 1),
            tok(TokenType::Plus, "+", 1, 3),
            tok(TokenType::Number, "1", 1, 5),
            eof(1, 6),
        ]],
    );
    match e {
        Expression::BinaryExpr { left, op: TokenType::Plus, right, .. } => {
            assert!(matches!(left.as_ref(), Expression::Identifier { name, .. } if name == "a"));
            assert!(matches!(right.as_ref(), Expression::NumberLiteral { value, .. } if value == "1"));
        }
        other => panic!("unexpected {:?}", other),
    }
}

#[test]
fn template_without_interpolation_tokens_gives_error_name() {
    let e = template_expr("${x}", vec![]);
    assert!(matches!(e, Expression::Identifier { name, _line: 2, _col: 5 } if name == "__error__"));
    let empty = template_expr("${}", vec![vec![eof(3, 1)]]);
    assert!(matches!(empty, Expression::Identifier { name, _line: 3, _col: 1 } if name == "__error__"));
    let plain = template_expr("", vec![]);
    assert!(matches!(plain, Expression::StringLiteral { value, .. } if value.is_empty()));
}

#[test]
fn class_header_with_generics_parent_and_protocols() {
    let stmts = parse_ok(vec![
        tok(TokenType::Class, "class", 1, 1),
        tok(TokenType::Identifier, "Box", 1, 7),
        tok(TokenType::Less, "<", 1, 10),
        tok(TokenType::Identifier, "T", 1, 11),
        tok(TokenType::Comma, ",", 1, 12),
        tok(TokenType::Identifier, "U", 1, 14),
        tok(TokenType::Greater, ">", 1, 15),
        tok(TokenType::Extends, "extends", 1, 17),
        tok(TokenType::Identifier, "Base", 1, 25),
        tok(TokenType::Implements, "implements", 1, 30),
        tok(TokenType::Identifier, "P", 1, 41),
        tok(TokenType::Comma, ",", 1, 42),
        tok(TokenType::Identifier, "Q", 1, 44),
        tok(TokenType::OpenBrace, "{", 1, 46),
        tok(TokenType::CloseBrace, "}", 1, 47),
        eof(1, 48),
    ]);
    match &stmts[0] {
        Statement::ClassDeclaration(c) => {
            assert_eq!(c.name, "Box");
            assert_eq!(c.generic_params, vec!["T".to_string(), "U".to_string()]);
            assert_eq!(c._parent_name, "Base");
            assert_eq!(c._implemented_protocols, vec!["P".to_string(), "Q".to_string()]);
        }
        other => panic!("unexpected statement {:?}", other),
    }
}

#[test]
fn class_with_method_getter_and_constructor() {
    let stmts = parse_ok(vec![
        tok(TokenType::Class, "class", 1, 1),
        tok(TokenType::Identifier, "A", 1, 7),
        tok(TokenType::OpenBrace, "{", 1, 9),
        tok(TokenType::Identifier, "x", 2, 3),
        tok(TokenType::Colon, ":", 2, 4),
        tok(TokenType::Identifier, "int", 2, 6),
        tok(TokenType::Semicolon, ";", 2, 9),
        tok(TokenType::Constructor, "constructor", 3, 3),
        tok(TokenType::OpenParen, "(", 3, 14),
        tok(TokenType::CloseParen, ")", 3, 15),
        tok(TokenType::OpenBrace, "{", 3, 17),
        tok(TokenType::CloseBrace, "}", 3, 18),
        tok(TokenType::Identifier, "run", 4, 3),
        tok(TokenType::OpenParen, "(", 4, 6),
        tok(TokenType::CloseParen, ")", 4, 7),
        tok(TokenType::OpenBrace, "{", 4, 9),
        tok(TokenType::CloseBrace, "}", 4, 10),
        tok(TokenType::Get, "get", 5, 3),
        tok(TokenType::Identifier, "size", 5, 7),
        tok(TokenType::OpenParen, "(", 5, 11),
        tok(TokenType::CloseParen, ")", 5, 12),
        tok(TokenType::OpenBrace, "{", 5, 14),
        tok(TokenType::CloseBrace, "}", 5, 15),
        tok(TokenType::CloseBrace, "}", 6, 1),
        eof(6, 2),
    ]);
    match &stmts[0] {
        Statement::ClassDeclaration(c) => {
            assert_eq!(c._members.len(), 1);
            assert_eq!(c._members[0]._name, "x");
            assert_eq!(c.methods.len(), 1);
            assert_eq!(c.methods[0].func.name, "run");
            assert_eq!(c.methods[0].func.return_type, "void");
            assert!(c.methods[0].func.params.is_empty());
            assert_eq!(c._getters.len(), 1);
            assert_eq!(c._getters[0]._name, "size");
            let ctor = c._constructor.as_ref().unwrap();
            assert_eq!(ctor.name, "constructor");
            assert!(matches!(ctor.body.as_ref(), Statement::BlockStmt { statements, _line: 3, _col: 17 } if statements.is_empty()));
            assert_eq!((ctor._line, ctor._col), (1, 1));
        }
        other => panic!("unexpected statement {:?}", other),
    }
}

#[test]
fn class_setter_is_read_with_its_parameter() {
    let stmts = parse_ok(vec![
        tok(TokenType::Class, "class", 1, 1),
        tok(TokenType::Identifier, "Box", 1, 7),
        tok(TokenType::OpenBrace, "{", 1, 11),
        tok(TokenType::KwSet, "set", 2, 3),
        tok(TokenType::Identifier, "size", 2, 7),
        tok(TokenType::OpenParen, "(", 2, 11),
        tok(TokenType::Identifier, "v", 2, 12),
        tok(TokenType::CloseParen, ")", 2, 13),
        tok(TokenType::OpenBrace, "{", 2, 15),
        tok(TokenType::CloseBrace, "}", 2, 16),
        tok(TokenType::CloseBrace, "}", 3, 1),
        eof(3, 2),
    ]);
    assert_eq!(stmts.len(), 1);
    match &stmts[0] {
        Statement::ClassDeclaration(c) => {
            assert_eq!(c._setters.len(), 1);
            assert_eq!(c._setters[0]._name, "size");
            assert_eq!(c._setters[0]._param_name, "v");
            assert!(c.methods.is_empty());
            assert!(c._getters.is_empty());
        }
        other => panic!("unexpected statement {:?}", other),
    }
}

#[test]
fn function_parameters_rest_and_return_type() {
    let stmts = parse_ok(vec![
        tok(TokenType::Function, "function", 1, 1),
        tok(TokenType::Identifier, "f", 1, 10),
        tok(TokenType::OpenParen, "(", 1, 11),
        tok(TokenType::Identifier, "a", 1, 12),
        tok(TokenType::Colon, ":", 1, 13),
        tok(TokenType::TypeInt, "int", 1, 15),
        tok(TokenType::Comma, ",", 1, 18),
        tok(TokenType::Identifier, "b", 1, 20),
        tok(TokenType::Comma, ",", 1, 21),
        tok(TokenType::Ellipsis, "...", 1, 23),
        tok(TokenType::Identifier, "rest", 1, 26),
        tok(TokenType::Colon, ":", 1, 30),
        tok(TokenType::TypeString, "string", 1, 32),
        tok(TokenType::OpenBracket, "[", 1, 38),
        tok(TokenType::CloseBracket, "]", 1, 39),
        tok(TokenType::CloseParen, ")", 1, 40),
        tok(TokenType::Colon, ":", 1, 41),
        tok(TokenType::TypeString, "string", 1, 43),
        tok(TokenType::OpenBrace, "{", 1, 50),
        tok(TokenType::CloseBrace, "}", 1, 51),
        eof(1, 52),
    ]);
    assert_eq!(stmts.len(), 1);
    match &stmts[0] {
        Statement::FunctionDeclaration(f) => {
            assert_eq!(f.name, "f");
            let got: Vec<(&str, &str, bool)> = f
                .params
                .iter()
                .map(|p| (p.name.as_str(), p.type_annotation.as_str(), p._is_rest))
                .collect();
            assert_eq!(got, vec![("a", "int", false), ("b", "", false), ("rest", "string[]", true)]);
            assert!(f.params.iter().all(|p| p._default_value.is_none()));
            assert_eq!(f.return_type, "string");
            assert!(matches!(f.body.as_ref(), Statement::BlockStmt { statements, _line: 1, _col: 50 } if statements.is_empty()));
        }
        other => panic!("unexpected statement {:?}", other),
    }
}

#[test]
fn second_function_keeps_its_parameters() {
    let stmts = parse_ok(vec![
        tok(TokenType::Function, "function", 1, 1),
        tok(TokenType::Identifier, "g", 1, 10),
        tok(TokenType::OpenParen, "(", 1, 11),
        tok(TokenType::CloseParen, ")", 1, 12),
        tok(TokenType::OpenBrace, "{", 1, 14),
        tok(TokenType::CloseBrace, "}", 1, 15),
        tok(TokenType::Function, "function", 2, 1),
        tok(TokenType::Identifier, "h", 2, 10),
        tok(TokenType::OpenParen, "(", 2, 11),
        tok(TokenType::Identifier, "x", 2, 12),
        tok(TokenType::CloseParen, ")", 2, 13),
        tok(TokenType::OpenBrace, "{", 2, 15),
        tok(TokenType::CloseBrace, "}", 2, 16),
        eof(2, 17),
    ]);
    assert_eq!(stmts.len(), 2);
    match &stmts[1] {
        Statement::FunctionDeclaration(f) => {
            assert_eq!(f.name, "h");
            assert_eq!(f.params.len(), 1);
            assert_eq!(f.params[0].name, "x");
            assert_eq!(f.return_type, "");
        }
        other => panic!("unexpected statement {:?}", other),
    }
}

#[test]
fn binary_operator_between_two_operands() {
    let e = template_expr(
        "${n * 2}",
        vec![vec![
            tok(TokenType::Identifier, "n", 1, 1),
            tok(TokenType::Star, "*", 1, 3),
            tok(TokenType::Number, "2", 1, 5),
            eof(1, 6),
        ]],
    );
    match e {
        Expression::BinaryExpr { left, op: TokenType::Star, right, _line: 1, _col: 3 } => {
            assert!(matches!(left.as_ref(), Expression::Identifier { name, .. } if name == "n"));
            assert!(matches!(right.as_ref(), Expression::NumberLiteral { value, .. } if value == "2"));
        }
        other => panic!("unexpected {:?}", other),
    }
}
