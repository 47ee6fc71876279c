//! The text of the bundle: one factory per module, and the loader around them.

use crate::codec::{encode, encode_spec};
use vstd::prelude::*;
use vstd::string::*;

verus! {

/// What stands between a factory's key and its body.
pub open spec fn factory_head() -> Seq<char> {
    ":function (require, module, exports, global) {"@
}

/// What closes a factory.
pub open spec fn factory_tail() -> Seq<char> {
    "}"@
}

/// The loader up to the modules table.
pub open spec fn loader_head() -> Seq<char> {
    "(function (modules, global) {
        var cache = {}, require = function (id) {
                var module = cache[id];
                if (!module) {
                    module = cache[id] = {};
                    var exports = module.exports = {};
                    modules[id].call(exports, require, module, exports, global);
                }
                return module.exports;
            };
        require('0');
    }("@
}

/// The loader after the modules table.
pub open spec fn loader_tail() -> Seq<char> {
    ", this));"@
}

/// The factory of the module `id` with the rewritten source `body`.
pub open spec fn factory_spec(id: u32, body: Seq<char>) -> Seq<char> {
    encode_spec(id as nat) + factory_head() + body + factory_tail()
}

/// The items of `parts` with a comma between each two.
pub open spec fn joined(parts: Seq<Seq<char>>) -> Seq<char>
    decreases parts.len(),
{
    if parts.len() == 0 {
        Seq::<char>::empty()
    } else if parts.len() == 1 {
        parts[0]
    } else {
        joined(parts.drop_last()) + ","@ + parts.last()
    }
}

/// The object literal that holds the factories.
pub open spec fn table_spec(factories: Seq<Seq<char>>) -> Seq<char> {
    "{"@ + joined(factories) + "}"@
}

/// The whole bundle: the loader applied to the modules table and `this`.
pub open spec fn bundle_spec(factories: Seq<Seq<char>>) -> Seq<char> {
    loader_head() + table_spec(factories) + loader_tail()
}

/// The views of the strings of `v`, in order.
pub open spec fn texts(v: Seq<String>) -> Seq<Seq<char>> {
    Seq::new(v.len(), |i: int| v[i]@)
}

/// Formats one module as a factory keyed by its encoded identifier.
pub fn factory(id: u32, body: &str) -> (r: String)
    ensures
        r@ == factory_spec(id, body@),
{
    let mut r = encode(id);
    r.append(":function (require, module, exports, global) {");
    r.append(body);
    r.append("}");
    r
}

/// Joins the factories with commas inside one object literal.
pub fn modules_table(factories: &Vec<String>) -> (r: String)
    ensures
        r@ == table_spec(texts(factories@)),
{
    let ghost all = texts(factories@);
    let mut r = String::from_str("{");
    let ghost mut body = Seq::<char>::empty();
    let mut i: usize = 0;
    while i < factories.len()
        invariant
            0 <= i <= factories@.len(),
            all == texts(factories@),
            body == joined(all.take(i as int)),
            r@ == "{"@ + body,
        decreases factories@.len() - i,
    {
        proof {
            assert(all.take(i + 1).drop_last() =~= all.take(i as int));
            assert(all.take(i + 1).last() == factories@[i as int]@);
        }
        if i > 0 {
            r.append(",");
            r.append(factories[i].as_str());
            proof {
                body = body + ","@ + factories@[i as int]@;
                assert(r@ =~= "{"@ + body);
            }
        } else {
            r.append(factories[i].as_str());
            proof {
                assert(all.take(0) =~= Seq::<Seq<char>>::empty());
                assert(body =~= Seq::<char>::empty());
                body = factories@[i as int]@;
                assert(all.take(1)[0] == body);
                assert(r@ =~= "{"@ + body);
            }
        }
        i += 1;
    }
    proof {
        assert(all.take(i as int) =~= all);
    }
    r.append("}");
    r
}

/// Wraps the modules table in the loader: a closure that caches each module
/// before its factory runs, and starts by requiring the module `0`.
pub fn bundle(factories: &Vec<String>) -> (r: String)
    ensures
        r@ == bundle_spec(texts(factories@)),
{
    let mut r = String::from_str("(function (modules, global) {
        var cache = {}, require = function (id) {
                var module = cache[id];
                if (!module) {
                    module = cache[id] = {};
                    var exports = module.exports = {};
                    modules[id].call(exports, require, module, exports, global);
                }
                return module.exports;
            };
        require('0');
    }(");
    let table = modules_table(factories);
    r.append(table.as_str());
    r.append(", this));");
    r
}

} // verus!
