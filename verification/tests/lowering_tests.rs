use tejx::ast::Statement;
use tejx::lowering::Lowering;
use tejx::parser::Parser;
use tejx::token::{Token, TokenType};
use tejx::types::TejxType;

fn tok(token_type: TokenType, value: &str) -> Token {
    Token { token_type, value: value.to_string(), line: 1, column: 1 }
}

fn declarations() -> Vec<Statement> {
    let tokens = vec![
        tok(TokenType::Class, "class"),
        tok(TokenType::Identifier, "Box"),
        tok(TokenType::Less, "<"),
        tok(TokenType::Identifier, "T"),
        tok(TokenType::Greater, ">"),
        tok(TokenType::OpenBrace, "{"),
        tok(TokenType::CloseBrace, "}"),
        tok(TokenType::Export, "export"),
        tok(TokenType::Class, "class"),
        tok(TokenType::Identifier, "Plain"),
        tok(TokenType::OpenBrace, "{"),
        tok(TokenType::CloseBrace, "}"),
        tok(TokenType::Export, "export"),
        tok(TokenType::Function, "function"),
        tok(TokenType::Identifier, "id"),
        tok(TokenType::OpenParen, "("),
        tok(TokenType::CloseParen, ")"),
        tok(TokenType::OpenBrace, "{"),
        tok(TokenType::CloseBrace, "}"),
        tok(TokenType::EndOfFile, ""),
    ];
    let mut p = Parser::new(tokens, "d.tx");
    let prog = p.parse_program();
    assert!(!p.has_errors(), "{:?}", p.get_errors());
    prog.statements
}

#[test]
fn global_definitions_get_g_prefix() {
    let mut l = Lowering::new();
    assert_eq!(l.define("count".to_string(), TejxType::Int32), "g_count");
    let (mangled, ty) = l.lookup("count").unwrap();
    assert_eq!(mangled, "g_count");
    assert_eq!(ty, TejxType::Int32);
    assert!(l.captured_vars_by_owner.is_empty());
    assert!(l.lookup("missing").is_none());
}

#[test]
fn defining_twice_in_one_scope_keeps_the_first_entry() {
    let mut l = Lowering::new();
    l.enter_scope();
    assert_eq!(l.define("x".to_string(), TejxType::Bool), "x$1");
    assert_eq!(l.define("x".to_string(), TejxType::String), "x$1");
    let (m, ty) = l.lookup("x").unwrap();
    assert_eq!(m, "x$1");
    assert_eq!(ty, TejxType::Bool);
    assert_eq!(l.define("y".to_string(), TejxType::Bool), "y$2");
}

#[test]
fn definitions_store_alias_resolved_types() {
    let mut l = Lowering::new();
    l.register_type_alias("Id", TejxType::Int64);
    l.enter_scope();
    l.define("k".to_string(), TejxType::Class("Id".to_string(), vec![]));
    assert_eq!(l.lookup("k").unwrap().1, TejxType::Int64);
}

#[test]
fn nested_definitions_are_numbered_apart() {
    let mut l = Lowering::new();
    l.enter_scope();
    assert_eq!(l.define("x".to_string(), TejxType::Bool), "x$1");
    l.exit_scope();
    l.enter_scope();
    assert_eq!(l.define("x".to_string(), TejxType::String), "x$2");
    let (m, ty) = l.lookup("x").unwrap();
    assert_eq!(m, "x$2");
    assert_eq!(ty, TejxType::String);
}

#[test]
fn lookup_across_a_lambda_captures_once() {
    let mut l = Lowering::new();
    l.push_env_owner("f_outer".to_string());
    assert_eq!(l.captured_vars_by_owner, vec![("f_outer".to_string(), vec![])]);
    l.enter_scope();
    let m = l.define("n".to_string(), TejxType::Class("Box".to_string(), vec![TejxType::Int64]));
    l.enter_lambda_scope();
    let (found, ty) = l.lookup("n").unwrap();
    assert_eq!(found, m);
    assert_eq!(ty, TejxType::Class("Box".to_string(), vec![TejxType::Int64]));
    assert_eq!(l.captured_vars_by_owner, vec![("f_outer".to_string(), vec![m.clone()])]);
    l.lookup("n");
    assert_eq!(l.captured_vars_by_owner, vec![("f_outer".to_string(), vec![m])]);
}

#[test]
fn captures_without_an_owner_are_not_recorded() {
    let mut l = Lowering::new();
    l.enter_scope();
    l.define("n".to_string(), TejxType::Int32);
    l.enter_lambda_scope();
    assert!(l.lookup("n").is_some());
    assert!(l.captured_vars_by_owner.is_empty());
}

#[test]
fn env_owner_stack_and_lambda_owners() {
    let mut l = Lowering::new();
    assert_eq!(l.current_env_owner(), None);
    l.register_lambda_env_owner("lambda_0");
    l.push_env_owner("f_a".to_string());
    l.push_env_owner("f_b".to_string());
    assert_eq!(l.current_env_owner(), Some("f_b".to_string()));
    l.register_lambda_env_owner("lambda_1");
    l.pop_env_owner();
    assert_eq!(l.current_env_owner(), Some("f_a".to_string()));
    l.pop_env_owner();
    l.pop_env_owner();
    assert_eq!(l.current_env_owner(), None);
    assert_eq!(l.captured_vars_by_owner.len(), 2);
}

#[test]
fn globals_and_same_level_names_are_not_captured() {
    let mut l = Lowering::new();
    l.define("g".to_string(), TejxType::Int32);
    l.enter_lambda_scope();
    l.define("local".to_string(), TejxType::Int32);
    l.enter_scope();
    assert!(l.lookup("g").is_some());
    assert!(l.lookup("local").is_some());
    assert!(l.captured_vars_by_owner.is_empty());
}

#[test]
fn leaving_a_lambda_restores_the_outer_level() {
    let mut l = Lowering::new();
    l.enter_scope();
    l.define("a".to_string(), TejxType::Int32);
    l.enter_lambda_scope();
    l.exit_scope();
    l.enter_scope();
    l.push_env_owner("f".to_string());
    l.lookup("a");
    assert_eq!(l.captured_vars_by_owner, vec![("f".to_string(), vec![])]);
}

#[test]
fn shadowing_gives_the_inner_type() {
    let mut l = Lowering::new();
    l.enter_scope();
    l.define("v".to_string(), TejxType::Int32);
    l.enter_scope();
    l.define("v".to_string(), TejxType::DynamicArray(Box::new(TejxType::Char)));
    let (_, ty) = l.lookup("v").unwrap();
    assert_eq!(ty, TejxType::DynamicArray(Box::new(TejxType::Char)));
    l.exit_scope();
    let (_, ty) = l.lookup("v").unwrap();
    assert_eq!(ty, TejxType::Int32);
}

#[test]
fn duplicate_copies_nested_types() {
    let t = TejxType::Function(
        vec![TejxType::Object(vec![("k".to_string(), true, TejxType::Union(vec![TejxType::Int16, TejxType::Void]))])],
        Box::new(TejxType::FixedArray(Box::new(TejxType::Slice(Box::new(TejxType::Any))), 4)),
    );
    assert_eq!(t.duplicate(), t);
}

#[test]
fn template_names_drop_the_function_prefix() {
    let l = Lowering::new();
    assert_eq!(l.function_template_name("f_map"), "map");
    assert_eq!(l.function_template_name("map"), "map");
    assert_eq!(l.function_template_name("f_"), "");
}

#[test]
fn monomorph_parts_are_made_symbol_safe() {
    let l = Lowering::new();
    assert_eq!(l.sanitize_monomorph_part("Map<string, int[]>"), "Map_string_int_arr_");
    assert_eq!(l.sanitize_monomorph_part("int | string"), "int_or_string");
    assert_eq!(l.sanitize_monomorph_part("{ x: int; y: bool }"), "_obj_x_int_y_bool_");
    assert_eq!(l.sanitize_monomorph_part("A & B"), "A_and_B");
    assert_eq!(l.sanitize_monomorph_part("plain"), "plain");
}

#[test]
fn concrete_types_have_no_parameters_left() {
    let l = Lowering::new();
    assert!(l.is_concrete_type(&TejxType::Int64));
    assert!(l.is_concrete_type(&TejxType::Class("Point".to_string(), vec![])));
    assert!(!l.is_concrete_type(&TejxType::Class("T".to_string(), vec![])));
    assert!(!l.is_concrete_type(&TejxType::Class("K2".to_string(), vec![])));
    assert!(l.is_concrete_type(&TejxType::Class("t".to_string(), vec![])));
    assert!(!l.is_concrete_type(&TejxType::Class("<inferred>".to_string(), vec![])));
    assert!(!l.is_concrete_type(&TejxType::Class("$MISSING_GENERIC_0".to_string(), vec![TejxType::Int32])));
    assert!(l.is_concrete_type(&TejxType::Class("List".to_string(), vec![TejxType::Int32])));
    assert!(!l.is_concrete_type(&TejxType::DynamicArray(Box::new(TejxType::Class("U".to_string(), vec![])))));
    assert!(!l.is_concrete_type(&TejxType::Function(
        vec![TejxType::Int32],
        Box::new(TejxType::Class("R".to_string(), vec![]))
    )));
    assert!(!l.is_concrete_type(&TejxType::Object(vec![(
        "v".to_string(),
        false,
        TejxType::Class("V".to_string(), vec![])
    )])));
}

#[test]
fn aliases_resolve_inside_types() {
    let mut l = Lowering::new();
    l.register_type_alias("Id", TejxType::Int64);
    l.register_type_alias("Ids", TejxType::DynamicArray(Box::new(TejxType::Class("Id".to_string(), vec![]))));
    let t = TejxType::Function(vec![TejxType::Class("Ids".to_string(), vec![])], Box::new(TejxType::Class("Id".to_string(), vec![])));
    assert_eq!(
        l.resolve_alias_type(&t),
        TejxType::Function(vec![TejxType::DynamicArray(Box::new(TejxType::Int64))], Box::new(TejxType::Int64))
    );
    l.register_type_alias("Id", TejxType::Bool);
    assert_eq!(l.resolve_alias_type(&TejxType::Class("Id".to_string(), vec![])), TejxType::Bool);
    assert_eq!(
        l.resolve_alias_type(&TejxType::Class("Other".to_string(), vec![TejxType::Char])),
        TejxType::Class("Other".to_string(), vec![TejxType::Char])
    );
}

#[test]
fn alias_cycles_stop_after_twenty_levels() {
    let mut l = Lowering::new();
    l.register_type_alias("A", TejxType::Class("B".to_string(), vec![]));
    l.register_type_alias("B", TejxType::Class("A".to_string(), vec![]));
    let r = l.resolve_alias_type(&TejxType::Class("A".to_string(), vec![]));
    assert_eq!(r, TejxType::Class("B".to_string(), vec![]));
}

#[test]
fn narrowing_holds_in_the_inner_scope_only() {
    let mut l = Lowering::new();
    l.register_type_alias("Num", TejxType::Int64);
    l.enter_scope();
    let m = l.define("v".to_string(), TejxType::Any);
    l.enter_scope();
    l.narrow_type("v".to_string(), TejxType::Class("Num".to_string(), vec![]));
    let (m2, ty) = l.lookup("v").unwrap();
    assert_eq!(m2, m);
    assert_eq!(ty, TejxType::Int64);
    l.exit_scope();
    let (m3, ty) = l.lookup("v").unwrap();
    assert_eq!(m3, m);
    assert_eq!(ty, TejxType::Any);
    l.narrow_type("nope".to_string(), TejxType::Bool);
    assert!(l.lookup("nope").is_none());
}

#[test]
fn templates_are_found_directly_and_through_exports() {
    let l = Lowering::new();
    let stmts = declarations();
    let boxed = l.find_class_template(&stmts, "Box").unwrap();
    assert_eq!(boxed.generic_params, vec!["T".to_string()]);
    assert!(!l.should_lower_class(boxed));
    let plain = l.find_class_template(&stmts, "Plain").unwrap();
    assert!(l.should_lower_class(plain));
    assert!(l.find_class_template(&stmts, "id").is_none());
    assert_eq!(l.find_function_template(&stmts, "id").unwrap().name, "id");
    assert!(l.find_function_template(&stmts, "Box").is_none());
}

#[test]
fn resolving_aliases_twice_changes_nothing() {
    let mut l = Lowering::new();
    l.register_type_alias("ID", TejxType::Int32);
    let t = TejxType::DynamicArray(Box::new(TejxType::Class("ID".to_string(), vec![])));
    let once = l.resolve_alias_type(&t);
    assert_eq!(once, TejxType::DynamicArray(Box::new(TejxType::Int32)));
    assert_eq!(l.resolve_alias_type(&once), once);
}

#[test]
fn new_table_knows_the_stdlib_directory() {
    let l = Lowering::new();
    assert_eq!(l.stdlib_path, "stdlib");
}
