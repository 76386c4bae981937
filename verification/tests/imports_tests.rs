use tejx::ast::Statement;
use tejx::imports::{
    contains_str, decision_diagnostic, export_problems, import_decision, import_path, merge_module, needs_prelude,
    prelude_import,
    rename_default_exports, splice_module, ImportDecision,
};

#[test]
fn missing_module_is_e0200() {
    match import_decision("./nope", None, &vec![], &vec![]) {
        ImportDecision::NotFound { message, code } => {
            assert_eq!(message, "Module not found: './nope'");
            assert_eq!(code, "E0200");
        },
        other => panic!("unexpected {:?}", other),
    }
}

#[test]
fn module_on_the_stack_is_circular() {
    let d = import_decision("./a", Some("/p/a.tx".to_string()), &vec!["/p/a.tx".to_string()], &vec!["/p/a.tx".to_string()]);
    match d {
        ImportDecision::Circular { message, code } => {
            assert_eq!(message, "Circular dependency detected: './a'");
            assert_eq!(code, "E0204");
        },
        other => panic!("unexpected {:?}", other),
    }
}

#[test]
fn loaded_module_is_dropped_and_new_one_loaded() {
    assert!(matches!(
        import_decision("./b", Some("/p/b.tx".to_string()), &vec!["/p/b.tx".to_string()], &vec![]),
        ImportDecision::AlreadyLoaded
    ));
    match import_decision("std:io", Some("/lib/io.tx".to_string()), &vec!["/p/b.tx".to_string()], &vec!["/p/m.tx".to_string()]) {
        ImportDecision::Load(p) => assert_eq!(p, "/lib/io.tx"),
        other => panic!("unexpected {:?}", other),
    }
}

#[test]
fn prelude_goes_first_unless_present() {
    assert!(contains_str("std/prelude.tx", "prelude.tx"));
    assert!(!contains_str("tx", "prelude.tx"));
    assert!(contains_str("abc", ""));
    assert!(needs_prelude("main.tx", &vec![]));
    assert!(!needs_prelude("lib/prelude.tx", &vec![]));
    assert!(!needs_prelude("runtime.tx", &vec![]));
    let p = prelude_import();
    assert!(matches!(&p, Statement::ImportDecl { source, .. } if source == "std:prelude"));
    assert!(!needs_prelude("main.tx", &vec![p]));
}

use tejx::ast::{BindingNode, Expression, FunctionDeclaration};

#[test]
fn import_paths() {
    assert_eq!(import_path("std:fs", "/src", "stdlib"), "stdlib/fs.tx");
    assert_eq!(import_path("./util", "/src/app", "stdlib"), "/src/app/util.tx");
    assert_eq!(import_path("\"lib/m.tx\"", "/src/", "stdlib"), "/src/lib/m.tx");
    assert_eq!(import_path("m.js", "", "stdlib"), "m.tx");
    assert_eq!(import_path("/abs/x", "/src", "stdlib"), "/abs/x.tx");
    assert_eq!(import_path(".hidden", "d", "s"), "d/.hidden.tx");
}

fn func(name: &str) -> Statement {
    Statement::FunctionDeclaration(FunctionDeclaration {
        name: name.to_string(),
        params: vec![],
        return_type: "void".to_string(),
        body: Box::new(Statement::BlockStmt { statements: vec![], _line: 0, _col: 0 }),
        _is_async: false,
        _line: 0,
        _col: 0,
    })
}

fn export(s: Statement, is_default: bool) -> Statement {
    Statement::ExportDecl { declaration: Box::new(s), _is_default: is_default, _line: 0, _col: 0 }
}

fn var(name: &str) -> Statement {
    Statement::VarDeclaration {
        pattern: BindingNode::Identifier(name.to_string()),
        type_annotation: String::new(),
        initializer: Some(Box::new(Expression::NumberLiteral { value: "1".to_string(), _line: 0, _col: 0 })),
        is_const: true,
        line: 0,
        _col: 0,
    }
}

#[test]
fn default_export_is_renamed() {
    let r = rename_default_exports(vec![export(func("main"), true), export(func("helper"), false), var("x")], "app");
    assert_eq!(r[0], export(func("app"), true));
    assert_eq!(r[1], export(func("helper"), false));
    assert_eq!(r[2], var("x"));
}

#[test]
fn splice_replaces_the_import() {
    let r = splice_module(vec![var("a"), var("imp"), var("b")], 1, vec![var("m1"), var("m2")]);
    assert_eq!(r, vec![var("a"), var("m1"), var("m2"), var("b")]);
}

#[test]
fn export_problems_for_default_and_names() {
    let module = vec![export(func("f"), false), export(var("v"), false)];
    let p = export_problems(&module, &vec!["m".to_string()], true, "./lib");
    assert_eq!(p, vec![("Module './lib' has no default export".to_string(), "E0203".to_string())]);
    let q = export_problems(&module, &vec!["f".to_string(), "g".to_string(), "v".to_string()], false, "./lib");
    assert_eq!(q, vec![("'g' is not exported from './lib'".to_string(), "E0202".to_string())]);
}

#[test]
fn merge_default_import() {
    let (stmts, problems) = merge_module(
        vec![var("before"), var("import"), var("after")],
        1,
        vec![export(func("main"), true)],
        &vec!["app".to_string()],
        true,
        "./app",
    );
    assert!(problems.is_empty());
    assert_eq!(stmts, vec![var("before"), export(func("app"), true), var("after")]);
}

#[test]
fn decisions_give_coded_diagnostics() {
    let d = import_decision("./nope", None, &vec![], &vec![]);
    let g = decision_diagnostic(&d, 3, 1, "main.tx").unwrap();
    assert_eq!(g.message, "Module not found: './nope'");
    assert_eq!(g.code.as_deref(), Some("E0200"));
    assert_eq!(g.label.as_deref(), Some("Module not found: './nope'"));
    assert_eq!((g.line, g.column, g.filename.as_str()), (3, 1, "main.tx"));
    let c = import_decision("./a", Some("a".to_string()), &vec![], &vec!["a".to_string()]);
    let h = decision_diagnostic(&c, 1, 1, "b.tx").unwrap();
    assert_eq!(h.code.as_deref(), Some("E0204"));
    assert_eq!(h.label.as_deref(), Some("circularly imported here"));
    let l = import_decision("./c", Some("c".to_string()), &vec![], &vec![]);
    assert!(decision_diagnostic(&l, 1, 1, "b.tx").is_none());
}
