use cjs_bundle::emitter::{bundle, factory, modules_table};

const HEAD: &str = "(function (modules, global) {
        var cache = {}, require = function (id) {
                var module = cache[id];
                if (!module) {
                    module = cache[id] = {};
                    var exports = module.exports = {};
                    modules[id].call(exports, require, module, exports, global);
                }
                return module.exports;
            };
        require('0');
    }(";

#[test]
fn factory_is_keyed_by_encoded_id() {
    assert_eq!(
        factory(0, "var x=1;"),
        "0:function (require, module, exports, global) {var x=1;}"
    );
    assert_eq!(
        factory(33, ""),
        "11:function (require, module, exports, global) {}"
    );
}

#[test]
fn modules_table_joins_with_commas() {
    assert_eq!(modules_table(&Vec::new()), "{}");
    assert_eq!(modules_table(&vec!["a".to_string()]), "{a}");
    assert_eq!(
        modules_table(&vec!["a".to_string(), "b".to_string(), "c".to_string()]),
        "{a,b,c}"
    );
}

#[test]
fn bundle_wraps_table_in_loader() {
    let factories = vec![factory(0, "a;"), factory(1, "b;")];
    let expected = format!(
        "{}{{0:function (require, module, exports, global) {{a;}},1:function (require, module, exports, global) {{b;}}}}, this));",
        HEAD
    );
    assert_eq!(bundle(&factories), expected);
}

#[test]
fn bundle_of_nothing() {
    assert_eq!(bundle(&Vec::new()), format!("{}{{}}, this));", HEAD));
}

#[test]
fn loader_starts_at_module_zero() {
    let text = bundle(&vec![factory(0, "")]);
    assert!(text.contains("require('0');"));
    assert!(text.starts_with("(function (modules, global) {"));
    assert!(text.ends_with("}, this));"));
}
