use cjs_bundle::source::{parse_module, print_module};
use cjs_bundle::syntax::{Arg, Expr, Stmt};

fn require(text: &str) -> Expr {
    Expr::Call {
        callee: Some("require".to_string()),
        arguments: vec![Arg::StringLiteral(text.to_string())],
    }
}

#[test]
fn parse_reads_top_level_require() {
    let body = parse_module("var x = require(\"./lib\");", "main.js").unwrap();
    assert_eq!(body, vec![Stmt::VariableDeclaration(vec![Some(require("./lib"))])]);
}

#[test]
fn parse_reads_each_shape() {
    let source = "var a = require('./a'), b, c = 1;\nrequire('./d');\nfoo(require('x'));\nfunction f() { var y = require('./inner'); }\nrequire('./e', 2);\nobj.require('./f');";
    let body = parse_module(source, "/w/main.js").unwrap();
    assert_eq!(
        body,
        vec![
            Stmt::VariableDeclaration(vec![Some(require("./a")), None, Some(Expr::Other)]),
            Stmt::ExpressionStatement(require("./d")),
            Stmt::ExpressionStatement(Expr::Call {
                callee: Some("foo".to_string()),
                arguments: vec![Arg::Other],
            }),
            Stmt::Other,
            Stmt::ExpressionStatement(Expr::Call {
                callee: Some("require".to_string()),
                arguments: vec![Arg::StringLiteral("./e".to_string()), Arg::Other],
            }),
            Stmt::ExpressionStatement(Expr::Call {
                callee: None,
                arguments: vec![Arg::StringLiteral("./f".to_string())],
            }),
        ]
    );
}

#[test]
fn parse_fails_on_syntax_error() {
    assert_eq!(parse_module("var = ;", "main.js"), None);
}

#[test]
fn parse_fails_on_unknown_extension() {
    assert_eq!(parse_module("var x = 1;", "main.txt"), None);
    assert_eq!(parse_module("var x = 1;", ""), None);
}

#[test]
fn print_without_changes_minifies() {
    let source = "var x = require(\"./lib\");";
    let body = parse_module(source, "main.js").unwrap();
    assert_eq!(print_module(source, "main.js", &body), Some("var x=require(\"./lib\");".to_string()));
}

#[test]
fn print_writes_rewritten_literal() {
    let source = "var x = require(\"./lib\");";
    let body = vec![Stmt::VariableDeclaration(vec![Some(require("1"))])];
    assert_eq!(print_module(source, "main.js", &body), Some("var x=require(\"1\");".to_string()));
}

#[test]
fn print_fails_where_parse_fails() {
    assert_eq!(print_module("var = ;", "main.js", &Vec::new()), None);
    assert_eq!(print_module("var x;", "main", &Vec::new()), None);
}
