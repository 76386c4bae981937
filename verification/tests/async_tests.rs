use tejx::hir::{HIRExpression, HIRStatement};
use tejx::lowering::{push_entry_point, Lowering};
use tejx::token::TokenType as T;
use tejx::types::TejxType;

fn call_name(e: &HIRExpression) -> &str {
    match e {
        HIRExpression::Call { callee, .. } => callee.as_str(),
        other => panic!("not a call: {:?}", other),
    }
}

fn stmt_call(s: &HIRStatement) -> &HIRExpression {
    match s {
        HIRStatement::ExpressionStmt { expr, .. } => expr,
        other => panic!("not an expression statement: {:?}", other),
    }
}

fn items(s: &HIRStatement) -> &Vec<HIRStatement> {
    match s {
        HIRStatement::Block { statements, .. } => statements,
        other => panic!("not a block: {:?}", other),
    }
}

#[test]
fn worker_scope_defines_context_and_promise() {
    let mut l = Lowering::new();
    l.enter_scope();
    assert_eq!(l.define("a".to_string(), TejxType::Int32), "a$1");
    let pid = l.begin_async_worker();
    assert_eq!(pid, "promise_id_local$3");
    let (ctx, ty) = l.lookup("ctx").unwrap();
    assert_eq!(ctx, "ctx$2");
    assert_eq!(ty, TejxType::DynamicArray(Box::new(TejxType::Int64)));
    let _ = l.finish_async_function("f", &Vec::new(), 1, pid, None);
    assert!(l.lookup("ctx").is_none());
    assert_eq!(l.lookup("a").unwrap().0, "a$1");
}

#[test]
fn async_function_is_split_into_worker_and_wrapper() {
    let mut l = Lowering::new();
    l.enter_scope();
    l.define("a".to_string(), TejxType::Int32);
    let pid = l.begin_async_worker();
    let params = vec![("a".to_string(), TejxType::Int32), ("b".to_string(), TejxType::Bool)];
    let body = HIRStatement::Return { line: 7, value: None };
    let (worker, state, wrapper) = l.finish_async_function("fetch", &params, 7, pid, Some(body));

    match &worker {
        HIRStatement::Function { name, params: ps, _return_type, body, is_extern, async_params, line } => {
            assert_eq!(name, "f_fetch_worker");
            assert_eq!(ps.len(), 1);
            assert_eq!(ps[0].0, "ctx");
            assert_eq!(ps[0].1, TejxType::DynamicArray(Box::new(TejxType::Int64)));
            assert_eq!(*_return_type, TejxType::Void);
            assert!(!is_extern);
            assert_eq!(async_params.as_ref().unwrap(), &params);
            assert_eq!(*line, 7);
            let b = items(body);
            assert_eq!(b.len(), 2);
            assert!(matches!(&b[0], HIRStatement::VarDecl { name, initializer: None, .. } if name == "promise_id_local$3"));
            match &b[1] {
                HIRStatement::Try { try_block, catch_var, catch_block, finally_block, .. } => {
                    assert_eq!(catch_var.as_deref(), Some("err"));
                    assert!(finally_block.is_none());
                    let t = items(try_block);
                    assert!(matches!(&t[0], HIRStatement::Return { line: 7, value: None }));
                    assert_eq!(call_name(stmt_call(&t[1])), "rt_promise_resolve");
                    assert_eq!(call_name(stmt_call(&t[2])), "tejx_dec_async_ops");
                    let c = items(catch_block);
                    assert_eq!(call_name(stmt_call(&c[0])), "rt_promise_reject");
                    assert_eq!(call_name(stmt_call(&c[1])), "tejx_dec_async_ops");
                }
                other => panic!("unexpected {:?}", other),
            }
        }
        other => panic!("unexpected {:?}", other),
    }

    assert!(matches!(&state, HIRStatement::Block { line: 0, statements } if statements.is_empty()));

    let w = items(&wrapper);
    assert_eq!(w.len(), 5);
    match &w[0] {
        HIRStatement::VarDecl { name, initializer: Some(init), .. } => {
            assert_eq!(name, "__p_7");
            assert_eq!(call_name(init), "rt_promise_new");
        }
        other => panic!("unexpected {:?}", other),
    }
    match &w[1] {
        HIRStatement::VarDecl { name, initializer: Some(HIRExpression::ArrayLiteral { elements, .. }), .. } => {
            assert_eq!(name, "__ctx_7");
            assert_eq!(elements.len(), 2 + 2 + 512);
            assert_eq!(call_name(&elements[0]), "rt_promise_clone");
            assert!(matches!(&elements[1], HIRExpression::Literal { value, ty: TejxType::Int32, .. } if value == "0"));
            assert!(matches!(&elements[2], HIRExpression::Variable { name, ty: TejxType::Int32, .. } if name == "a$1"));
            assert!(matches!(&elements[3], HIRExpression::Variable { name, ty: TejxType::Bool, .. } if name == "b"));
            assert!(elements[4..].iter().all(|e| matches!(e, HIRExpression::Literal { value, .. } if value == "0")));
        }
        other => panic!("unexpected {:?}", other),
    }
    assert_eq!(call_name(stmt_call(&w[2])), "tejx_inc_async_ops");
    match stmt_call(&w[3]) {
        HIRExpression::Call { callee, args, .. } => {
            assert_eq!(callee, "tejx_enqueue_task");
            assert!(matches!(&args[0], HIRExpression::Literal { value, .. } if value == "@f_fetch_worker"));
            assert!(matches!(&args[1], HIRExpression::Variable { name, .. } if name == "__ctx_7"));
        }
        other => panic!("unexpected {:?}", other),
    }
    assert!(matches!(&w[4], HIRStatement::Return { value: Some(HIRExpression::Variable { name, .. }), .. } if name == "__p_7"));
}

fn function_named(name: &str) -> HIRStatement {
    HIRStatement::Function {
        name: name.to_string(),
        params: Vec::new(),
        _return_type: TejxType::Void,
        body: Box::new(HIRStatement::Block { line: 0, statements: Vec::new() }),
        is_extern: false,
        async_params: None,
        line: 0,
    }
}

#[test]
fn entry_point_calls_main_after_top_level_statements() {
    let mut functions = vec![function_named("f_helper"), function_named("f_main")];
    let top = vec![HIRStatement::Return { line: 3, value: None }];
    push_entry_point(&mut functions, top, false, TejxType::Int32);
    assert_eq!(functions.len(), 5);
    let names: Vec<&str> = functions
        .iter()
        .map(|f| match f {
            HIRStatement::Function { name, .. } => name.as_str(),
            _ => "",
        })
        .collect();
    assert_eq!(names, vec!["f_helper", "f_main", "f_async_add", "rt_main_async_worker", "tejx_main"]);
    match &functions[4] {
        HIRStatement::Function { params, _return_type, body, .. } => {
            assert!(params.is_empty());
            assert_eq!(*_return_type, TejxType::Void);
            let b = items(body);
            assert_eq!(b.len(), 2);
            assert!(matches!(&b[0], HIRStatement::Return { line: 3, .. }));
            match stmt_call(&b[1]) {
                HIRExpression::Call { callee, args, ty, .. } => {
                    assert_eq!(callee, "f_main");
                    assert!(args.is_empty());
                    assert_eq!(*ty, TejxType::Int32);
                }
                other => panic!("unexpected {:?}", other),
            }
        }
        other => panic!("unexpected {:?}", other),
    }
}

#[test]
fn entry_point_awaits_async_main_and_skips_missing_main() {
    let mut functions = vec![function_named("f_main")];
    push_entry_point(&mut functions, Vec::new(), true, TejxType::Void);
    match &functions[3] {
        HIRStatement::Function { body, .. } => {
            let b = items(body);
            assert_eq!(b.len(), 1);
            match stmt_call(&b[0]) {
                HIRExpression::Call { callee, args, .. } => {
                    assert_eq!(callee, "rt_await");
                    assert_eq!(call_name(&args[0]), "f_main");
                }
                other => panic!("unexpected {:?}", other),
            }
        }
        other => panic!("unexpected {:?}", other),
    }
    let mut none = vec![function_named("f_other")];
    push_entry_point(&mut none, Vec::new(), false, TejxType::Void);
    match &none[3] {
        HIRStatement::Function { name, body, .. } => {
            assert_eq!(name, "tejx_main");
            assert!(items(body).is_empty());
        }
        other => panic!("unexpected {:?}", other),
    }
}

fn tok(token_type: tejx::token::TokenType, value: &str) -> tejx::token::Token {
    tejx::token::Token { token_type, value: value.to_string(), line: 1, column: 1 }
}

#[test]
fn variadic_functions_and_async_main_are_found() {
    let tokens = vec![
        tok(T::Function, "function"),
        tok(T::Identifier, "sum"),
        tok(T::OpenParen, "("),
        tok(T::Identifier, "first"),
        tok(T::Comma, ","),
        tok(T::Ellipsis, "..."),
        tok(T::Identifier, "rest"),
        tok(T::CloseParen, ")"),
        tok(T::OpenBrace, "{"),
        tok(T::CloseBrace, "}"),
        tok(T::Function, "function"),
        tok(T::Identifier, "plain"),
        tok(T::OpenParen, "("),
        tok(T::Identifier, "x"),
        tok(T::CloseParen, ")"),
        tok(T::OpenBrace, "{"),
        tok(T::CloseBrace, "}"),
        tok(T::Async, "async"),
        tok(T::Function, "function"),
        tok(T::Identifier, "main"),
        tok(T::OpenParen, "("),
        tok(T::CloseParen, ")"),
        tok(T::OpenBrace, "{"),
        tok(T::CloseBrace, "}"),
        tok(T::EndOfFile, ""),
    ];
    let mut p = tejx::parser::Parser::new(tokens, "v.tx");
    p.async_enabled = true;
    let prog = p.parse_program();
    assert!(!p.has_errors(), "{:?}", p.get_errors());
    let mut l = Lowering::new();
    assert!(l.scan_program(&prog));
    assert_eq!(l.variadic_count("sum"), Some(1));
    assert_eq!(l.variadic_count("plain"), None);
    assert_eq!(l.variadic_count("main"), None);
}
