use cjs_bundle::rewriter::{required_specifiers, rewrite};
use cjs_bundle::syntax::{Arg, Expr, Stmt};

fn call(callee: &str, arguments: Vec<Arg>) -> Expr {
    Expr::Call { callee: Some(callee.to_string()), arguments }
}

fn lit(text: &str) -> Arg {
    Arg::StringLiteral(text.to_string())
}

fn require(text: &str) -> Expr {
    call("require", vec![lit(text)])
}

#[test]
fn initializer_call_site_is_found() {
    let body = vec![Stmt::VariableDeclaration(vec![Some(require("./lib"))])];
    assert_eq!(required_specifiers(&body), vec!["./lib".to_string()]);
}

#[test]
fn expression_statement_call_site_is_found() {
    let body = vec![Stmt::ExpressionStatement(require("./side-effect"))];
    assert_eq!(required_specifiers(&body), vec!["./side-effect".to_string()]);
}

#[test]
fn call_sites_come_in_source_order() {
    let body = vec![
        Stmt::VariableDeclaration(vec![Some(require("./a")), None, Some(require("./b"))]),
        Stmt::Other,
        Stmt::ExpressionStatement(require("./c")),
        Stmt::VariableDeclaration(vec![Some(Expr::Other), Some(require("./a"))]),
    ];
    assert_eq!(
        required_specifiers(&body),
        vec!["./a".to_string(), "./b".to_string(), "./c".to_string(), "./a".to_string()]
    );
}

#[test]
fn other_shapes_are_no_call_sites() {
    let body = vec![
        Stmt::Other,
        Stmt::ExpressionStatement(Expr::Other),
        Stmt::ExpressionStatement(call("foo", vec![lit("x")])),
        Stmt::ExpressionStatement(call("require", vec![])),
        Stmt::ExpressionStatement(call("require", vec![lit("x"), lit("y")])),
        Stmt::ExpressionStatement(call("require", vec![Arg::Other])),
        Stmt::ExpressionStatement(call("require", vec![lit("x"), Arg::Other])),
        Stmt::ExpressionStatement(Expr::Call {
            callee: None,
            arguments: vec![lit("x")],
        }),
        Stmt::VariableDeclaration(vec![None, Some(Expr::Other)]),
        Stmt::VariableDeclaration(vec![]),
    ];
    assert_eq!(required_specifiers(&body), Vec::<String>::new());
    assert_eq!(rewrite(&body, &Vec::new()), Some(body.clone()));
}

#[test]
fn rewrite_replaces_each_call_site_in_order() {
    let body = vec![
        Stmt::VariableDeclaration(vec![Some(require("./a")), None, Some(require("./b"))]),
        Stmt::Other,
        Stmt::ExpressionStatement(call("foo", vec![lit("./untouched")])),
        Stmt::ExpressionStatement(require("./c")),
    ];
    let ids = vec!["1".to_string(), "2".to_string(), "3".to_string()];
    let expected = vec![
        Stmt::VariableDeclaration(vec![Some(require("1")), None, Some(require("2"))]),
        Stmt::Other,
        Stmt::ExpressionStatement(call("foo", vec![lit("./untouched")])),
        Stmt::ExpressionStatement(require("3")),
    ];
    assert_eq!(rewrite(&body, &ids), Some(expected));
}

#[test]
fn rewrite_wants_one_text_per_call_site() {
    let body = vec![Stmt::ExpressionStatement(require("./a"))];
    assert_eq!(rewrite(&body, &Vec::new()), None);
    assert_eq!(rewrite(&body, &vec!["1".to_string(), "2".to_string()]), None);
    let none: Vec<Stmt> = Vec::new();
    assert_eq!(rewrite(&none, &vec!["1".to_string()]), None);
    assert_eq!(rewrite(&none, &Vec::new()), Some(Vec::new()));
}

#[test]
fn rewritten_body_requires_the_texts() {
    let body = vec![
        Stmt::ExpressionStatement(require("./a")),
        Stmt::VariableDeclaration(vec![Some(require("./b"))]),
    ];
    let ids = vec!["a".to_string(), "10".to_string()];
    let out = rewrite(&body, &ids).unwrap();
    assert_eq!(required_specifiers(&out), ids);
}

#[test]
fn specifier_of_expression() {
    assert_eq!(require("x").specifier(), Some("x".to_string()));
    assert_eq!(call("required", vec![lit("x")]).specifier(), None);
    assert_eq!(Expr::Other.specifier(), None);
}

#[test]
fn with_specifier_leaves_other_expressions() {
    let other = call("foo", vec![lit("x"), Arg::Other]);
    assert_eq!(other.with_specifier(&"9".to_string()), other);
    assert_eq!(require("x").with_specifier(&"9".to_string()), require("9"));
    assert_eq!(Expr::Other.with_specifier(&"9".to_string()), Expr::Other);
}

#[test]
fn duplicate_is_equal() {
    let e = call("foo", vec![lit("x"), Arg::Other, lit("y")]);
    assert_eq!(e.duplicate(), e);
    assert_eq!(lit("x").duplicate(), lit("x"));
    assert_eq!(Arg::Other.duplicate(), Arg::Other);
}
