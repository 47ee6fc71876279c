//! Recognition of `require` call sites among a module's top-level statements,
//! and the replacement of their specifiers.
//!
//! A call site is a call of `require` with exactly one argument, a string
//! literal, that stands as the initializer of a variable declarator or as the
//! whole of an expression statement. Nothing else is ever changed.

use crate::emitter::texts;
use crate::syntax::{
    arguments_view, body_view, name_view, slot_view, slots_view, Arg, ArgView,
    Expr, ExprView, Stmt, StmtView,
};
use vstd::prelude::*;
use vstd::string::*;

verus! {

/// The name of the binding whose calls are recognised.
pub open spec fn require_name() -> Seq<char> {
    "require"@
}

/// The specifier of `e`, if `e` is a call site.
pub open spec fn call_site(e: ExprView) -> Option<Seq<char>> {
    match e {
        ExprView::Call { callee, arguments } => {
            if callee == Some(require_name()) && arguments.len() == 1 {
                match arguments[0] {
                    ArgView::StringLiteral(s) => Some(s),
                    ArgView::Other => None,
                }
            } else {
                None
            }
        },
        ExprView::Other => None,
    }
}

/// The specifier of an optional expression, if it is a call site.
pub open spec fn slot_site(slot: Option<ExprView>) -> Option<Seq<char>> {
    match slot {
        Some(e) => call_site(e),
        None => None,
    }
}

/// `e` with `text` as its specifier, if `e` is a call site; else `e`.
pub open spec fn with_literal(e: ExprView, text: Seq<char>) -> ExprView {
    if call_site(e).is_some() {
        ExprView::Call {
            callee: Some(require_name()),
            arguments: seq![ArgView::StringLiteral(text)],
        }
    } else {
        e
    }
}

/// The specifiers of the call sites among `slots`, in order.
pub open spec fn slot_sites(slots: Seq<Option<ExprView>>) -> Seq<Seq<char>>
    decreases slots.len(),
{
    if slots.len() == 0 {
        Seq::empty()
    } else {
        let before = slot_sites(slots.drop_last());
        match slot_site(slots.last()) {
            Some(s) => before.push(s),
            None => before,
        }
    }
}

/// The expressions of a statement in which a call site is looked for.
pub open spec fn slots_of(statement: StmtView) -> Seq<Option<ExprView>> {
    match statement {
        StmtView::VariableDeclaration(slots) => slots,
        StmtView::ExpressionStatement(e) => seq![Some(e)],
        StmtView::Other => Seq::empty(),
    }
}

/// The specifiers of the call sites of one statement, in order.
pub open spec fn statement_sites(statement: StmtView) -> Seq<Seq<char>> {
    slot_sites(slots_of(statement))
}

/// The specifiers of the call sites of a module, in source order.
pub open spec fn body_sites(body: Seq<StmtView>) -> Seq<Seq<char>>
    decreases body.len(),
{
    if body.len() == 0 {
        Seq::empty()
    } else {
        body_sites(body.drop_last()) + statement_sites(body.last())
    }
}

/// `slots` with the specifier of its k-th call site replaced by `texts[k]`.
pub open spec fn rewritten_slots(
    slots: Seq<Option<ExprView>>,
    texts: Seq<Seq<char>>,
) -> Seq<Option<ExprView>> {
    Seq::new(
        slots.len(),
        |i: int|
            match slots[i] {
                Some(e) => Some(with_literal(e, texts[slot_sites(slots.take(i)).len() as int])),
                None => None,
            },
    )
}

/// `statement` with the specifier of its k-th call site replaced by
/// `texts[k]`.
pub open spec fn rewritten_statement(
    statement: StmtView,
    texts: Seq<Seq<char>>,
) -> StmtView {
    match statement {
        StmtView::VariableDeclaration(slots) => StmtView::VariableDeclaration(
            rewritten_slots(slots, texts),
        ),
        StmtView::ExpressionStatement(e) => StmtView::ExpressionStatement(
            with_literal(e, texts[0]),
        ),
        StmtView::Other => StmtView::Other,
    }
}

/// `body` with the specifier of its k-th call site replaced by `texts[k]`.
pub open spec fn rewritten_body(body: Seq<StmtView>, texts: Seq<Seq<char>>) -> Seq<
    StmtView,
> {
    Seq::new(
        body.len(),
        |i: int| rewritten_statement(body[i], texts.skip(body_sites(body.take(i)).len() as int)),
    )
}

/// A prefix of the slots holds no more call sites than all of them.
pub proof fn lemma_slot_sites_prefix(slots: Seq<Option<ExprView>>, k: int)
    requires
        0 <= k <= slots.len(),
    ensures
        slot_sites(slots.take(k)).len() <= slot_sites(slots).len(),
        k < slots.len() && slot_site(slots[k]).is_some() ==> slot_sites(slots.take(k)).len()
            < slot_sites(slots).len(),
    decreases slots.len() - k,
{
    if k < slots.len() {
        lemma_slot_sites_prefix(slots, k + 1);
        assert(slots.take(k + 1).drop_last() =~= slots.take(k));
        assert(slots.take(k + 1).last() == slots[k]);
    } else {
        assert(slots.take(k) =~= slots);
    }
}

/// A prefix of the statements holds no more call sites than all of them.
pub proof fn lemma_body_sites_prefix(body: Seq<StmtView>, k: int)
    requires
        0 <= k <= body.len(),
    ensures
        body_sites(body.take(k)).len() <= body_sites(body).len(),
        k < body.len() ==> body_sites(body.take(k)).len() + statement_sites(body[k]).len()
            <= body_sites(body).len(),
    decreases body.len() - k,
{
    if k < body.len() {
        lemma_body_sites_prefix(body, k + 1);
        assert(body.take(k + 1).drop_last() =~= body.take(k));
        assert(body.take(k + 1).last() == body[k]);
    } else {
        assert(body.take(k) =~= body);
    }
}

/// Rewriting changes nothing but the specifiers of call sites: the number of
/// statements stays, a statement that is neither a declaration nor an
/// expression statement stays, and so does every expression in a recognised
/// position that is no call site, whatever it holds.
pub proof fn lemma_others_untouched(body: Seq<StmtView>, texts: Seq<Seq<char>>, i: int)
    requires
        0 <= i < body.len(),
    ensures
        rewritten_body(body, texts).len() == body.len(),
        body[i] == StmtView::Other ==> rewritten_body(body, texts)[i] == body[i],
        slots_of(rewritten_body(body, texts)[i]).len() == slots_of(body[i]).len(),
        forall|j: int|
            0 <= j < slots_of(body[i]).len() && slot_site(#[trigger] slots_of(body[i])[j]).is_none()
                ==> slots_of(rewritten_body(body, texts)[i])[j] == slots_of(body[i])[j],
        statement_sites(body[i]).len() == 0 ==> rewritten_body(body, texts)[i] == body[i],
{
    let offset = body_sites(body.take(i)).len() as int;
    let t = texts.skip(offset);
    let r = rewritten_statement(body[i], t);
    assert(rewritten_body(body, texts)[i] == r);
    match body[i] {
        StmtView::VariableDeclaration(slots) => {
            let rs = rewritten_slots(slots, t);
            if statement_sites(body[i]).len() == 0 {
                assert forall|j: int| 0 <= j < slots.len() implies rs[j] == slots[j] by {
                    lemma_slot_sites_prefix(slots, j);
                }
                assert(rs =~= slots);
            }
        },
        StmtView::ExpressionStatement(e) => {
            let one = seq![Some(e)];
            assert(one.drop_last() =~= Seq::<Option<ExprView>>::empty());
            assert(slot_sites(one.drop_last()).len() == 0);
            assert(one.last() == Some(e));
        },
        StmtView::Other => {},
    }
}

/// After rewriting, the k-th call site holds the k-th text, and no call site
/// was added or lost.
pub proof fn lemma_slots_hold_texts(slots: Seq<Option<ExprView>>, texts: Seq<Seq<char>>)
    requires
        texts.len() >= slot_sites(slots).len(),
    ensures
        slot_sites(rewritten_slots(slots, texts)) == texts.take(slot_sites(slots).len() as int),
    decreases slots.len(),
{
    let r = rewritten_slots(slots, texts);
    if slots.len() == 0 {
        assert(slot_sites(r) =~= texts.take(0));
    } else {
        let p = slots.drop_last();
        lemma_slot_sites_prefix(slots, slots.len() - 1);
        assert(slots.take(slots.len() - 1) =~= p);
        lemma_slots_hold_texts(p, texts);
        let rp = rewritten_slots(p, texts);
        assert forall|i: int| 0 <= i < p.len() implies r.drop_last()[i] == rp[i] by {
            assert(slots.take(i) =~= p.take(i));
        }
        assert(r.drop_last() =~= rp);
        let k = slot_sites(p).len() as int;
        match slot_site(slots.last()) {
            Some(s) => {
                assert(slot_site(r.last()) == Some(texts[k]));
                assert(texts.take(k).push(texts[k]) =~= texts.take(k + 1));
            },
            None => {
                assert(r.last() == slots.last());
            },
        }
    }
}

/// After rewriting, the call sites of a statement hold the texts in order.
pub proof fn lemma_statement_holds_texts(statement: StmtView, texts: Seq<Seq<char>>)
    requires
        texts.len() >= statement_sites(statement).len(),
    ensures
        statement_sites(rewritten_statement(statement, texts)) == texts.take(
            statement_sites(statement).len() as int,
        ),
{
    match statement {
        StmtView::VariableDeclaration(slots) => {
            lemma_slots_hold_texts(slots, texts);
        },
        StmtView::ExpressionStatement(e) => {
            lemma_single_slot(e);
            lemma_single_slot(with_literal(e, texts[0]));
            if call_site(e).is_some() {
                assert(texts.take(1) =~= seq![texts[0]]);
            } else {
                assert(texts.take(0) =~= Seq::<Seq<char>>::empty());
            }
        },
        StmtView::Other => {
            assert(texts.take(0) =~= Seq::<Seq<char>>::empty());
        },
    }
}

/// After rewriting with one text for each call site, the module requires
/// exactly the texts, in order: every call site was rewritten, and none was
/// added or lost.
pub proof fn lemma_body_holds_texts(body: Seq<StmtView>, texts: Seq<Seq<char>>)
    requires
        texts.len() >= body_sites(body).len(),
    ensures
        body_sites(rewritten_body(body, texts)) == texts.take(body_sites(body).len() as int),
    decreases body.len(),
{
    let r = rewritten_body(body, texts);
    if body.len() == 0 {
        assert(texts.take(0) =~= Seq::<Seq<char>>::empty());
    } else {
        let p = body.drop_last();
        let k = body_sites(p).len() as int;
        let c = statement_sites(body.last()).len() as int;
        lemma_body_holds_texts(p, texts);
        assert forall|i: int| 0 <= i < p.len() implies r.drop_last()[i] == rewritten_body(
            p,
            texts,
        )[i] by {
            assert(body.take(i) =~= p.take(i));
        }
        assert(r.drop_last() =~= rewritten_body(p, texts));
        assert(body.take(body.len() - 1) =~= p);
        assert(r.last() == rewritten_statement(body.last(), texts.skip(k)));
        lemma_statement_holds_texts(body.last(), texts.skip(k));
        assert(texts.take(k) + texts.skip(k).take(c) =~= texts.take(k + c));
    }
}

impl Expr {
    /// The specifier that this expression requires, if it is a call site.
    pub fn specifier(&self) -> (r: Option<String>)
        ensures
            name_view(r) == call_site(self@),
    {
        match self {
            Expr::Call { callee, arguments } => {
                match callee {
                    Some(name) => {
                        let wanted = String::from_str("require");
                        if *name == wanted && arguments.len() == 1 {
                            match &arguments[0] {
                                Arg::StringLiteral(s) => Some(s.clone()),
                                Arg::Other => None,
                            }
                        } else {
                            None
                        }
                    },
                    None => None,
                }
            },
            Expr::Other => None,
        }
    }

    /// A copy of this expression in which `text` is the specifier, if this is
    /// a call site; a plain copy if it is none.
    pub fn with_specifier(&self, text: &String) -> (r: Expr)
        ensures
            r@ == with_literal(self@, text@),
    {
        match self.specifier() {
            Some(_) => {
                let mut arguments: Vec<Arg> = Vec::new();
                arguments.push(Arg::StringLiteral(text.clone()));
                let r = Expr::Call {
                    callee: Some(String::from_str("require")),
                    arguments,
                };
                assert(arguments_view(arguments@) =~= seq![ArgView::StringLiteral(text@)]);
                r
            },
            None => self.duplicate(),
        }
    }
}

/// A statement that is one expression has the call sites of that expression.
pub proof fn lemma_single_slot(e: ExprView)
    ensures
        slot_sites(seq![Some(e)]) == match call_site(e) {
            Some(s) => seq![s],
            None => Seq::empty(),
        },
{
    let one = seq![Some(e)];
    assert(one.drop_last() =~= Seq::<Option<ExprView>>::empty());
    assert(slot_sites(one.drop_last()) =~= Seq::<Seq<char>>::empty());
    assert(one.last() == Some(e));
    match call_site(e) {
        Some(s) => {
            assert(Seq::<Seq<char>>::empty().push(s) =~= seq![s]);
        },
        None => {},
    }
}

/// Appends to `out` the specifiers of the call sites among `slots`.
fn collect_slots(slots: &Vec<Option<Expr>>, out: &mut Vec<String>)
    ensures
        texts(final(out)@) == texts(old(out)@) + slot_sites(slots_view(slots@)),
{
    let ghost before = texts(out@);
    let ghost sv = slots_view(slots@);
    let mut j: usize = 0;
    assert(sv.take(0) =~= Seq::<Option<ExprView>>::empty());
    assert(texts(out@) =~= before + slot_sites(sv.take(0)));
    while j < slots.len()
        invariant
            0 <= j <= slots@.len(),
            sv == slots_view(slots@),
            texts(out@) == before + slot_sites(sv.take(j as int)),
        decreases slots@.len() - j,
    {
        proof {
            assert(sv.take(j + 1).drop_last() =~= sv.take(j as int));
            assert(sv.take(j + 1).last() == slot_view(slots@[j as int]));
        }
        let ghost prev = texts(out@);
        match &slots[j] {
            Some(e) => {
                match e.specifier() {
                    Some(s) => {
                        out.push(s);
                        assert(texts(out@) =~= prev.push(s@));
                        assert(texts(out@) =~= before + slot_sites(sv.take(j + 1)));
                    },
                    None => {},
                }
            },
            None => {},
        }
        j += 1;
    }
    assert(sv.take(j as int) =~= sv);
}

/// The specifiers of the call sites of a module, in source order: the
/// initializers of each variable declaration in turn, and each expression
/// statement. Statements are not descended into.
pub fn required_specifiers(body: &Vec<Stmt>) -> (r: Vec<String>)
    ensures
        texts(r@) == body_sites(body_view(body@)),
{
    let mut out: Vec<String> = Vec::new();
    let ghost bv = body_view(body@);
    let mut i: usize = 0;
    assert(bv.take(0) =~= Seq::<StmtView>::empty());
    assert(texts(out@) =~= body_sites(bv.take(0)));
    while i < body.len()
        invariant
            0 <= i <= body@.len(),
            bv == body_view(body@),
            texts(out@) == body_sites(bv.take(i as int)),
        decreases body@.len() - i,
    {
        proof {
            assert(bv.take(i + 1).drop_last() =~= bv.take(i as int));
            assert(bv.take(i + 1).last() == body@[i as int]@);
        }
        let ghost prev = texts(out@);
        match &body[i] {
            Stmt::VariableDeclaration(slots) => {
                collect_slots(slots, &mut out);
            },
            Stmt::ExpressionStatement(e) => {
                proof {
                    lemma_single_slot(e@);
                }
                match e.specifier() {
                    Some(s) => {
                        out.push(s);
                        assert(texts(out@) =~= prev + seq![s@]);
                    },
                    None => {
                        assert(texts(out@) =~= prev + Seq::<Seq<char>>::empty());
                    },
                }
            },
            Stmt::Other => {
                assert(texts(out@) =~= prev + Seq::<Seq<char>>::empty());
            },
        }
        i += 1;
    }
    assert(bv.take(i as int) =~= bv);
    out
}

/// A copy of `slots` in which the k-th call site has `ids[start + k]` as its
/// specifier, and the position in `ids` after the last text used.
fn rewrite_slots(slots: &Vec<Option<Expr>>, ids: &Vec<String>, start: usize) -> (r: (
    Vec<Option<Expr>>,
    usize,
))
    requires
        start + slot_sites(slots_view(slots@)).len() <= ids@.len(),
    ensures
        slots_view(r.0@) == rewritten_slots(slots_view(slots@), texts(ids@).skip(start as int)),
        r.1 == start + slot_sites(slots_view(slots@)).len(),
{
    let ghost sv = slots_view(slots@);
    let ghost t = texts(ids@).skip(start as int);
    let mut r: Vec<Option<Expr>> = Vec::new();
    let limit: usize = ids.len();
    let mut k: usize = start;
    let mut j: usize = 0;
    assert(sv.take(0) =~= Seq::<Option<ExprView>>::empty());
    while j < slots.len()
        invariant
            0 <= j <= slots@.len(),
            sv == slots_view(slots@),
            t == texts(ids@).skip(start as int),
            start + slot_sites(sv).len() <= ids@.len(),
            limit == ids@.len(),
            k == start + slot_sites(sv.take(j as int)).len(),
            r@.len() == j,
            forall|m: int|
                0 <= m < j ==> slot_view(#[trigger] r@[m]) == rewritten_slots(sv, t)[m],
        decreases slots@.len() - j,
    {
        proof {
            assert(sv.take(j + 1).drop_last() =~= sv.take(j as int));
            assert(sv.take(j + 1).last() == slot_view(slots@[j as int]));
            lemma_slot_sites_prefix(sv, j as int);
            assert(sv[j as int] == slot_view(slots@[j as int]));
        }
        match &slots[j] {
            Some(e) => {
                match e.specifier() {
                    Some(_) => {
                        assert(t[k - start] == ids@[k as int]@);
                        r.push(Some(e.with_specifier(&ids[k])));
                        k += 1;
                    },
                    None => {
                        r.push(Some(e.duplicate()));
                    },
                }
            },
            None => {
                r.push(None);
            },
        }
        j += 1;
    }
    assert(slots_view(r@) =~= rewritten_slots(sv, t));
    assert(sv.take(j as int) =~= sv);
    (r, k)
}

/// The rewrite proper, where there is one text for each call site.
fn rewrite_all(body: &Vec<Stmt>, ids: &Vec<String>) -> (r: Vec<Stmt>)
    requires
        ids@.len() == body_sites(body_view(body@)).len(),
    ensures
        body_view(r@) == rewritten_body(body_view(body@), texts(ids@)),
{
    let ghost bv = body_view(body@);
    let ghost t = texts(ids@);
    let mut r: Vec<Stmt> = Vec::new();
    let limit: usize = ids.len();
    let mut k: usize = 0;
    let mut i: usize = 0;
    assert(bv.take(0) =~= Seq::<StmtView>::empty());
    while i < body.len()
        invariant
            0 <= i <= body@.len(),
            bv == body_view(body@),
            t == texts(ids@),
            ids@.len() == body_sites(bv).len(),
            limit == ids@.len(),
            k == body_sites(bv.take(i as int)).len(),
            r@.len() == i,
            forall|m: int| 0 <= m < i ==> (#[trigger] r@[m])@ == rewritten_body(bv, t)[m],
        decreases body@.len() - i,
    {
        proof {
            assert(bv.take(i + 1).drop_last() =~= bv.take(i as int));
            assert(bv.take(i + 1).last() == body@[i as int]@);
            lemma_body_sites_prefix(bv, i as int);
            assert(bv[i as int] == body@[i as int]@);
        }
        match &body[i] {
            Stmt::VariableDeclaration(slots) => {
                assert(statement_sites(bv[i as int]) == slot_sites(slots_view(slots@)));
                let (copied, next) = rewrite_slots(slots, ids, k);
                k = next;
                r.push(Stmt::VariableDeclaration(copied));
            },
            Stmt::ExpressionStatement(e) => {
                proof {
                    lemma_single_slot(e@);
                }
                match e.specifier() {
                    Some(_) => {
                        assert(t.skip(k as int)[0] == ids@[k as int]@);
                        r.push(Stmt::ExpressionStatement(e.with_specifier(&ids[k])));
                        k += 1;
                    },
                    None => {
                        r.push(Stmt::ExpressionStatement(e.duplicate()));
                    },
                }
            },
            Stmt::Other => {
                r.push(Stmt::Other);
            },
        }
        i += 1;
    }
    assert(body_view(r@) =~= rewritten_body(bv, t));
    r
}

/// A copy of `body` in which the k-th call site, in source order, has
/// `ids[k]` as its specifier, and nothing else differs. `None` where `ids`
/// does not hold exactly one text for each call site.
pub fn rewrite(body: &Vec<Stmt>, ids: &Vec<String>) -> (r: Option<Vec<Stmt>>)
    ensures
        r.is_some() == (ids@.len() == body_sites(body_view(body@)).len()),
        r.is_some() ==> body_view(r.unwrap()@) == rewritten_body(
            body_view(body@),
            texts(ids@),
        ),
{
    let sites = required_specifiers(body);
    assert(texts(sites@).len() == sites@.len());
    if sites.len() == ids.len() {
        Some(rewrite_all(body, ids))
    } else {
        None
    }
}

} // verus!
