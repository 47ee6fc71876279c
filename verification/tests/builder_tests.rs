use cjs_bundle::builder::{GraphBuilder, Pending, Resolution};
use cjs_bundle::syntax::{Arg, Expr, Stmt};

fn require(text: &str) -> Expr {
    Expr::Call {
        callee: Some("require".to_string()),
        arguments: vec![Arg::StringLiteral(text.to_string())],
    }
}

fn declare(text: &str) -> Stmt {
    Stmt::VariableDeclaration(vec![Some(require(text))])
}

fn found(path: &str) -> Option<Resolution> {
    Some(Resolution { path: path.to_string(), directory: "/w".to_string() })
}

fn some(path: &str) -> Option<String> {
    Some(path.to_string())
}

#[test]
fn new_builder_has_entry_pending() {
    let mut b = GraphBuilder::new("main.js".to_string(), "/w".to_string());
    assert!(!b.is_done());
    assert_eq!(b.module_count(), 0);
    assert_eq!(
        b.next(),
        Some(Pending { specifier: "main.js".to_string(), base: "/w".to_string() })
    );
    assert!(b.is_done());
    assert_eq!(b.next(), None);
}

#[test]
fn entry_module_has_id_zero() {
    let mut b = GraphBuilder::new("main.js".to_string(), "/w".to_string());
    b.next();
    assert_eq!(b.enter(found("/w/main.js")), 0);
    assert_eq!(b.id_of(&"/w/main.js".to_string()), Some(0));
}

#[test]
fn worklist_is_last_in_first_out() {
    let mut b = GraphBuilder::new("main.js".to_string(), "/w".to_string());
    b.next();
    b.enter(Some(Resolution { path: "/w/src/main.js".to_string(), directory: "/w/src".to_string() }));
    let ids = b.link(&vec![some("/w/src/a.js"), some("/w/src/b.js")]);
    assert_eq!(ids, vec!["1".to_string(), "2".to_string()]);
    assert_eq!(
        b.next(),
        Some(Pending { specifier: "/w/src/b.js".to_string(), base: "/w/src".to_string() })
    );
    assert_eq!(
        b.next(),
        Some(Pending { specifier: "/w/src/a.js".to_string(), base: "/w/src".to_string() })
    );
    assert_eq!(b.next(), None);
}

#[test]
fn shared_dependency_is_registered_and_emitted_once() {
    let mut b = GraphBuilder::new("main.js".to_string(), "/w".to_string());
    let mut expanded: Vec<String> = Vec::new();
    while let Some(p) = b.next() {
        let path = if p.specifier == "main.js" { "/w/main.js".to_string() } else { p.specifier };
        let id = b.enter(found(&path));
        let body = if path == "/w/main.js" {
            vec![declare("./a"), declare("./b")]
        } else if path == "/w/a.js" {
            vec![declare("./b")]
        } else {
            vec![Stmt::Other]
        };
        let resolutions: Vec<Option<String>> = cjs_bundle::rewriter::required_specifiers(&body)
            .iter()
            .map(|s| Some(format!("/w/{}.js", &s[2..])))
            .collect();
        assert!(b.expand(&body, &resolutions).is_some());
        b.emit(id, &path);
        expanded.push(path);
    }
    assert_eq!(b.module_count(), 3);
    assert_eq!(b.id_of(&"/w/b.js".to_string()), Some(2));
    assert_eq!(expanded.iter().filter(|p| p.as_str() == "/w/b.js").count(), 1);
    assert_eq!(expanded.len(), 3);
    let text = b.bundle();
    assert_eq!(text.matches("{/w/b.js}").count(), 1);
    assert_eq!(text.matches(":function (require, module, exports, global) {").count(), 3);
}

#[test]
fn cycle_terminates_with_two_factories() {
    let mut b = GraphBuilder::new("a.js".to_string(), "/w".to_string());
    let mut rounds: u32 = 0;
    let mut rewritten: Vec<Vec<Stmt>> = Vec::new();
    while let Some(p) = b.next() {
        rounds += 1;
        assert!(rounds < 10);
        let path = if p.specifier == "a.js" { "/w/a.js".to_string() } else { p.specifier };
        let id = b.enter(found(&path));
        let (body, target) = if path == "/w/a.js" {
            (vec![declare("./b")], "/w/b.js")
        } else {
            (vec![declare("./a")], "/w/a.js")
        };
        let out = b.expand(&body, &vec![some(target)]).unwrap();
        rewritten.push(out);
        b.emit(id, "");
    }
    assert_eq!(rounds, 2);
    assert_eq!(b.module_count(), 2);
    assert_eq!(rewritten[0], vec![declare("1")]);
    assert_eq!(rewritten[1], vec![declare("0")]);
    let text = b.bundle();
    assert!(text.contains(
        "{0:function (require, module, exports, global) {},1:function (require, module, exports, global) {}}"
    ));
}

#[test]
fn unresolved_specifiers_share_one_placeholder() {
    let mut b = GraphBuilder::new("main.js".to_string(), "/w".to_string());
    b.next();
    let id = b.enter(found("/w/main.js"));
    let body = vec![declare("./missing-one"), declare("./missing-two")];
    let out = b.expand(&body, &vec![None, None]).unwrap();
    assert_eq!(out, vec![declare("1"), declare("1")]);
    b.emit(id, "main");
    assert_eq!(b.module_count(), 2);
    assert_eq!(b.id_of(&String::new()), Some(1));
    assert_eq!(b.next(), Some(Pending { specifier: String::new(), base: "/w".to_string() }));
    assert_eq!(b.enter(None), 1);
    b.emit(1, "");
    assert!(b.is_done());
    assert_eq!(b.module_count(), 2);
    let text = b.bundle();
    assert_eq!(text.matches(":function (require, module, exports, global) {").count(), 2);
    assert!(text.contains(",1:function (require, module, exports, global) {}}"));
}

#[test]
fn unrecognized_call_shape_is_untouched() {
    let mut b = GraphBuilder::new("main.js".to_string(), "/w".to_string());
    b.next();
    b.enter(found("/w/main.js"));
    let nested = Expr::Call {
        callee: Some("foo".to_string()),
        arguments: vec![Arg::Other],
    };
    let body = vec![Stmt::ExpressionStatement(nested), Stmt::Other];
    let out = b.expand(&body, &Vec::new()).unwrap();
    assert_eq!(out, body);
    assert_eq!(b.module_count(), 1);
    assert!(b.is_done());
}

#[test]
fn expand_refuses_wrong_number_of_resolutions() {
    let mut b = GraphBuilder::new("main.js".to_string(), "/w".to_string());
    b.next();
    b.enter(found("/w/main.js"));
    let body = vec![declare("./a")];
    assert_eq!(b.expand(&body, &Vec::new()), None);
    assert_eq!(b.expand(&body, &vec![some("/w/a.js"), some("/w/b.js")]), None);
    assert_eq!(b.module_count(), 1);
    assert!(b.is_done());
}

#[test]
fn entry_requires_lib() {
    let mut b = GraphBuilder::new("main.js".to_string(), "/w".to_string());
    let p = b.next().unwrap();
    assert_eq!(p.specifier, "main.js");
    let main = b.enter(found("/w/main.js"));
    assert_eq!(main, 0);
    let body = vec![declare("./lib")];
    let out = b.expand(&body, &vec![some("/w/lib.js")]).unwrap();
    assert_eq!(out, vec![declare("1")]);
    b.emit(main, "var x=require(\"1\");");
    let p = b.next().unwrap();
    assert_eq!(p.specifier, "/w/lib.js");
    let lib = b.enter(found("/w/lib.js"));
    assert_eq!(lib, 1);
    let out = b.expand(&vec![Stmt::Other], &Vec::new()).unwrap();
    assert_eq!(out, vec![Stmt::Other]);
    b.emit(lib, "module.exports=42;");
    assert!(b.is_done());
    let text = b.bundle();
    assert!(text.ends_with(
        "}({0:function (require, module, exports, global) {var x=require(\"1\");},1:function (require, module, exports, global) {module.exports=42;}}, this));"
    ));
}

#[test]
fn two_specifiers_of_one_file_share_an_id() {
    let mut b = GraphBuilder::new("main.js".to_string(), "/w".to_string());
    b.next();
    b.enter(found("/w/main.js"));
    let ids = b.link(&vec![some("/w/a.js"), some("/w/a.js"), some("/w/main.js")]);
    assert_eq!(ids, vec!["1".to_string(), "1".to_string(), "0".to_string()]);
    assert_eq!(b.module_count(), 2);
    assert!(b.next().is_some());
    assert!(b.next().is_none());
}

#[test]
fn failed_entry_resolution_registers_sentinel() {
    let mut b = GraphBuilder::new("nowhere.js".to_string(), "/w".to_string());
    b.next();
    assert_eq!(b.enter(None), 0);
    assert_eq!(b.id_of(&String::new()), Some(0));
}
