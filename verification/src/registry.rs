//! The table of canonical paths and the identifiers they are given.

use vstd::prelude::*;

verus! {

/// The canonical path that stands for every specifier that could not be
/// resolved.
pub open spec fn sentinel_path() -> Seq<char> {
    Seq::<char>::empty()
}

/// The table after `path` has been registered in `table`.
pub open spec fn registered(table: Seq<Seq<char>>, path: Seq<char>) -> Seq<Seq<char>> {
    if table.contains(path) {
        table
    } else {
        table.push(path)
    }
}

/// The identifier that registering `path` in `table` yields.
pub open spec fn id_after(table: Seq<Seq<char>>, path: Seq<char>) -> int {
    if table.contains(path) {
        table.index_of(path)
    } else {
        table.len() as int
    }
}

/// Registering a path keeps every path distinct.
pub proof fn lemma_registered_distinct(table: Seq<Seq<char>>, path: Seq<char>)
    requires
        table.no_duplicates(),
    ensures
        registered(table, path).no_duplicates(),
        registered(table, path).contains(path),
        registered(table, path)[id_after(table, path)] == path,
        0 <= id_after(table, path) < registered(table, path).len(),
{
    let t = registered(table, path);
    if !table.contains(path) {
        assert(t[table.len() as int] == path);
        assert forall|i: int, j: int| 0 <= i < t.len() && 0 <= j < t.len() && i != j implies t[i]
            != t[j] by {
            if i < table.len() && j < table.len() {
            } else if i < table.len() {
                assert(table.contains(table[i]));
            } else {
                assert(table.contains(table[j]));
            }
        }
    }
}

/// In a table of distinct paths, a path has one identifier and an identifier
/// has one path.
pub proof fn lemma_one_id_per_path(table: Seq<Seq<char>>, a: Seq<char>, b: Seq<char>)
    requires
        table.no_duplicates(),
        table.contains(a),
        table.contains(b),
    ensures
        (table.index_of(a) == table.index_of(b)) <==> (a == b),
        forall|i: int| 0 <= i < table.len() && table[i] == a ==> i == table.index_of(a),
{
}

/// Registering the same path a second time changes nothing and yields the
/// same identifier.
pub proof fn lemma_register_idempotent(table: Seq<Seq<char>>, path: Seq<char>)
    requires
        table.no_duplicates(),
    ensures
        registered(registered(table, path), path) == registered(table, path),
        id_after(registered(table, path), path) == id_after(table, path),
{
    lemma_registered_distinct(table, path);
    let t = registered(table, path);
    lemma_one_id_per_path(t, path, path);
}

/// A registered path keeps its identifier whatever is registered later.
pub proof fn lemma_register_keeps_ids(table: Seq<Seq<char>>, earlier: Seq<char>, later: Seq<char>)
    requires
        table.no_duplicates(),
        table.contains(earlier),
    ensures
        registered(table, later).contains(earlier),
        registered(table, later).index_of(earlier) == table.index_of(earlier),
        id_after(registered(table, later), earlier) == id_after(table, earlier),
{
    lemma_registered_distinct(table, later);
    let t = registered(table, later);
    let i = table.index_of(earlier);
    assert(t[i] == earlier);
    lemma_one_id_per_path(t, earlier, earlier);
}

/// The path registered first has the identifier zero, and keeps it.
pub proof fn lemma_entry_is_zero(entry: Seq<char>, later: Seq<char>)
    ensures
        id_after(Seq::empty(), entry) == 0,
        id_after(registered(registered(Seq::empty(), entry), later), entry) == 0,
{
    let e = Seq::<Seq<char>>::empty();
    assert(!e.contains(entry));
    let t = registered(e, entry);
    assert(t =~= seq![entry]);
    assert(t[0] == entry);
    assert(t.no_duplicates());
    lemma_one_id_per_path(t, entry, entry);
    lemma_register_keeps_ids(t, entry, later);
}

/// All failed resolutions share the sentinel path, so they share one
/// identifier: after the first of them the table no longer grows.
pub proof fn lemma_unresolved_share_one_id(table: Seq<Seq<char>>)
    requires
        table.no_duplicates(),
    ensures
        registered(registered(table, sentinel_path()), sentinel_path()) == registered(
            table,
            sentinel_path(),
        ),
        id_after(registered(table, sentinel_path()), sentinel_path()) == id_after(
            table,
            sentinel_path(),
        ),
{
    lemma_register_idempotent(table, sentinel_path());
}

/// Canonical paths in the order in which they were first registered; the
/// identifier of a path is its position.
pub struct ModuleRegistry {
    paths: Vec<String>,
}

impl View for ModuleRegistry {
    type V = Seq<Seq<char>>;

    closed spec fn view(&self) -> Seq<Seq<char>> {
        Seq::new(self.paths@.len(), |i: int| self.paths@[i]@)
    }
}

impl ModuleRegistry {
    /// No path occurs twice, and every position fits an identifier.
    pub open spec fn wf(&self) -> bool {
        self@.no_duplicates() && self@.len() <= u32::MAX
    }

    /// An empty registry.
    pub fn new() -> (r: Self)
        ensures
            r@ == Seq::<Seq<char>>::empty(),
            r.wf(),
    {
        let r = ModuleRegistry { paths: Vec::new() };
        assert(r@ =~= Seq::<Seq<char>>::empty());
        r
    }

    /// The number of registered paths, which is the next free identifier.
    pub fn len(&self) -> (n: usize)
        ensures
            n == self@.len(),
    {
        self.paths.len()
    }

    /// The identifier of `path`, if it is registered.
    pub fn id_of(&self, path: &String) -> (r: Option<u32>)
        requires
            self.wf(),
        ensures
            r.is_some() == self@.contains(path@),
            r.is_some() ==> r.unwrap() == self@.index_of(path@) && self@[r.unwrap() as int]
                == path@,
    {
        let mut i: usize = 0;
        while i < self.paths.len()
            invariant
                self.wf(),
                0 <= i <= self.paths@.len(),
                self@.len() == self.paths@.len(),
                forall|j: int| 0 <= j < i ==> self@[j] != path@,
            decreases self.paths@.len() - i,
        {
            if self.paths[i] == *path {
                proof {
                    assert(self@[i as int] == path@);
                    lemma_one_id_per_path(self@, path@, path@);
                }
                return Some(i as u32);
            }
            i += 1;
        }
        None
    }

    /// Returns the identifier of `path`, giving it the next free one if it is
    /// not registered yet. Identifiers that were given before stay as they
    /// are.
    pub fn register(&mut self, path: String) -> (id: u32)
        requires
            old(self).wf(),
            old(self)@.len() < u32::MAX || old(self)@.contains(path@),
        ensures
            final(self).wf(),
            final(self)@ == registered(old(self)@, path@),
            id == id_after(old(self)@, path@),
            final(self)@[id as int] == path@,
    {
        proof {
            lemma_registered_distinct(self@, path@);
        }
        match self.id_of(&path) {
            Some(id) => id,
            None => {
                let id: u32 = self.paths.len() as u32;
                let ghost before = self@;
                self.paths.push(path);
                assert(self@ =~= before.push(path@));
                id
            },
        }
    }
}

} // verus!
