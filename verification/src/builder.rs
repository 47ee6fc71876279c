//! The traversal of the module graph: which specifier is expanded next, how
//! canonical paths are numbered on the way, and what is emitted.
//!
//! The builder decides; its caller reads files and resolves specifiers. One
//! round is: take the `next` pending specifier, resolve it, `enter` the
//! module, read its text, resolve the specifiers it requires, and `complete`
//! it. The build is over when nothing is pending.

use crate::codec::{encode, encode_spec, lemma_encode_injective};
use crate::emitter::{bundle, bundle_spec, factory, factory_spec, texts};
use crate::registry::{
    id_after, lemma_one_id_per_path, lemma_register_keeps_ids, lemma_registered_distinct,
    registered, sentinel_path, ModuleRegistry,
};
use crate::rewriter::{body_sites, required_specifiers, rewrite, rewritten_body};
use crate::source::{parse_module, parsed_module, print_module, printed_module};
use crate::syntax::{body_view, Stmt};
use vstd::prelude::*;

verus! {

/// A specifier that awaits expansion, with the directory that was current
/// when it was discovered: the one to resolve it against.
#[derive(Debug, Clone, PartialEq, Eq)]
pub struct Pending {
    pub specifier: String,
    pub base: String,
}

/// What a successful resolution gives: the canonical path of the module and
/// the directory that holds it.
#[derive(Debug, Clone, PartialEq, Eq)]
pub struct Resolution {
    pub path: String,
    pub directory: String,
}

/// Why a module could not be completed.
#[derive(Debug, Clone, Copy, PartialEq, Eq, Structural)]
pub enum BuildError {
    /// The resolutions handed in are not one for each call site.
    SiteCount,
    /// The source text could not be parsed.
    Parse,
    /// No module has been entered since the last one was completed.
    NotEntered,
}

/// The canonical path that a resolution stands for: its path, or the
/// sentinel where it failed.
pub open spec fn canonical(resolution: Option<String>) -> Seq<char> {
    match resolution {
        Some(path) => path@,
        None => sentinel_path(),
    }
}

/// The canonical paths of a module's resolutions, in order.
pub open spec fn canonical_all(resolutions: Seq<Option<String>>) -> Seq<Seq<char>> {
    Seq::new(resolutions.len(), |i: int| canonical(resolutions[i]))
}

/// The table after each of `paths` has been registered, in order.
pub open spec fn registered_all(table: Seq<Seq<char>>, paths: Seq<Seq<char>>) -> Seq<Seq<char>>
    decreases paths.len(),
{
    if paths.len() == 0 {
        table
    } else {
        registered(registered_all(table, paths.drop_last()), paths.last())
    }
}

/// The worklist entries for `paths`, discovered under `base`.
pub open spec fn discovered(paths: Seq<Seq<char>>, base: Seq<char>) -> Seq<(Seq<char>, Seq<char>)> {
    Seq::new(paths.len(), |i: int| (paths[i], base))
}

/// The encoded identifier that each of `paths` has in `table`.
pub open spec fn encoded_ids(table: Seq<Seq<char>>, paths: Seq<Seq<char>>) -> Seq<Seq<char>> {
    Seq::new(paths.len(), |i: int| encode_spec(table.index_of(paths[i]) as nat))
}

/// Registering a run of paths keeps the table's paths distinct and in place,
/// adds each of the run, and adds nothing that was there before.
pub proof fn lemma_registered_all(table: Seq<Seq<char>>, paths: Seq<Seq<char>>)
    requires
        table.no_duplicates(),
    ensures
        registered_all(table, paths).no_duplicates(),
        table.len() <= registered_all(table, paths).len() <= table.len() + paths.len(),
        registered_all(table, paths).take(table.len() as int) == table,
        forall|i: int| 0 <= i < paths.len() ==> registered_all(table, paths).contains(#[trigger] paths[i]),
        forall|i: int|
            table.len() <= i < registered_all(table, paths).len() ==> !table.contains(
                #[trigger] registered_all(table, paths)[i],
            ) && paths.contains(registered_all(table, paths)[i]),
    decreases paths.len(),
{
    let all = registered_all(table, paths);
    if paths.len() == 0 {
        assert(all.take(table.len() as int) =~= table);
    } else {
        let before = registered_all(table, paths.drop_last());
        lemma_registered_all(table, paths.drop_last());
        lemma_registered_distinct(before, paths.last());
        assert(all.take(table.len() as int) =~= before.take(table.len() as int));
        assert forall|i: int| 0 <= i < paths.len() implies all.contains(#[trigger] paths[i]) by {
            if i < paths.len() - 1 {
                assert(paths.drop_last()[i] == paths[i]);
                lemma_register_keeps_ids(before, paths[i], paths.last());
            }
        }
        assert forall|i: int| table.len() <= i < all.len() implies !table.contains(
            #[trigger] all[i],
        ) && paths.contains(all[i]) by {
            if i < before.len() {
                assert(all[i] == before[i]);
                let j = paths.drop_last().index_of(before[i]);
                assert(paths[j] == before[i]);
            } else {
                assert(all[i] == paths.last());
                assert(paths[paths.len() - 1] == all[i]);
                if table.contains(all[i]) {
                    let j = table.index_of(all[i]);
                    assert(before.take(table.len() as int)[j] == all[i]);
                    assert(before[j] == all[i]);
                }
            }
        }
    }
}

/// Identifiers never change: a path that is registered keeps its identifier
/// through every later run of registrations. So the module entered first
/// keeps the identifier 0.
pub proof fn lemma_ids_are_stable(table: Seq<Seq<char>>, paths: Seq<Seq<char>>, earlier: Seq<char>)
    requires
        table.no_duplicates(),
        table.contains(earlier),
    ensures
        registered_all(table, paths).contains(earlier),
        registered_all(table, paths).index_of(earlier) == table.index_of(earlier),
{
    lemma_registered_all(table, paths);
    let all = registered_all(table, paths);
    let i = table.index_of(earlier);
    assert(all.take(table.len() as int)[i] == earlier);
    assert(all[i] == earlier);
    lemma_one_id_per_path(all, earlier, earlier);
}

/// Each canonical path has exactly one identifier: two call sites get the
/// same encoded identifier if and only if they resolve to the same path.
pub proof fn lemma_ids_match_paths(table: Seq<Seq<char>>, paths: Seq<Seq<char>>, i: int, j: int)
    requires
        table.no_duplicates(),
        0 <= i < paths.len(),
        0 <= j < paths.len(),
    ensures
        (encoded_ids(registered_all(table, paths), paths)[i] == encoded_ids(
            registered_all(table, paths),
            paths,
        )[j]) <==> (paths[i] == paths[j]),
{
    lemma_registered_all(table, paths);
    let all = registered_all(table, paths);
    assert(all.contains(paths[i]));
    assert(all.contains(paths[j]));
    lemma_one_id_per_path(all, paths[i], paths[j]);
    if encode_spec(all.index_of(paths[i]) as nat) == encode_spec(all.index_of(paths[j]) as nat) {
        lemma_encode_injective(all.index_of(paths[i]) as nat, all.index_of(paths[j]) as nat);
    }
}

/// A canonical path is put on the worklist at most once: the paths that a
/// run of registrations adds are distinct, and none of them was registered
/// before.
pub proof fn lemma_discovered_once(table: Seq<Seq<char>>, paths: Seq<Seq<char>>)
    requires
        table.no_duplicates(),
    ensures
        registered_all(table, paths).skip(table.len() as int).no_duplicates(),
        forall|i: int|
            0 <= i < registered_all(table, paths).skip(table.len() as int).len()
                ==> !table.contains(
                #[trigger] registered_all(table, paths).skip(table.len() as int)[i],
            ),
{
    lemma_registered_all(table, paths);
    let all = registered_all(table, paths);
    let added = all.skip(table.len() as int);
    assert forall|i: int| 0 <= i < added.len() implies !table.contains(#[trigger] added[i]) by {
        assert(added[i] == all[i + table.len()]);
    }
}

/// However often resolution fails while one module is expanded, the failures
/// add at most one path to the table, and all of them get one identifier.
pub proof fn lemma_failures_collapse(table: Seq<Seq<char>>, resolutions: Seq<Option<String>>)
    requires
        table.no_duplicates(),
        forall|i: int| 0 <= i < resolutions.len() ==> (#[trigger] resolutions[i]).is_none(),
    ensures
        registered_all(table, canonical_all(resolutions)).len() <= table.len() + 1,
        forall|i: int, j: int|
            0 <= i < resolutions.len() && 0 <= j < resolutions.len() ==> encoded_ids(
                registered_all(table, canonical_all(resolutions)),
                canonical_all(resolutions),
            )[i] == encoded_ids(
                registered_all(table, canonical_all(resolutions)),
                canonical_all(resolutions),
            )[j],
    decreases resolutions.len(),
{
    let paths = canonical_all(resolutions);
    if resolutions.len() > 0 {
        let fewer = resolutions.drop_last();
        assert(canonical_all(fewer) =~= paths.drop_last());
        lemma_failures_collapse(table, fewer);
        lemma_registered_all(table, paths.drop_last());
        let before = registered_all(table, paths.drop_last());
        if fewer.len() > 0 {
            assert(paths.drop_last()[0] == sentinel_path());
            assert(before.contains(sentinel_path()));
        }
    }
}

/// The state of one build.
pub struct GraphBuilder {
    registry: ModuleRegistry,
    worklist: Vec<Pending>,
    base: String,
    current: Option<u32>,
    factories: Vec<String>,
}

impl GraphBuilder {
    /// The canonical paths registered so far; a path's identifier is its
    /// position.
    pub closed spec fn table(&self) -> Seq<Seq<char>> {
        self.registry@
    }

    /// The pending specifiers, each with the directory to resolve it against;
    /// the last one is expanded next.
    pub closed spec fn pending(&self) -> Seq<(Seq<char>, Seq<char>)> {
        Seq::new(self.worklist@.len(), |i: int| (self.worklist@[i].specifier@, self.worklist@[i].base@))
    }

    /// The directory of the module that is being expanded.
    pub closed spec fn base(&self) -> Seq<char> {
        self.base@
    }

    /// The identifier of the module that was entered and is not completed
    /// yet.
    pub closed spec fn current(&self) -> Option<u32> {
        self.current
    }

    /// The factories emitted so far, in order.
    pub closed spec fn emitted(&self) -> Seq<Seq<char>> {
        texts(self.factories@)
    }

    /// The registered paths are distinct and their identifiers fit 32 bits.
    pub closed spec fn wf(&self) -> bool {
        self.registry.wf()
    }

    /// What `wf` says of the table.
    pub proof fn lemma_wf(&self)
        requires
            self.wf(),
        ensures
            self.table().no_duplicates(),
            self.table().len() <= u32::MAX,
    {
    }

    /// A build that starts at `entry`, resolved against `working_directory`.
    pub fn new(entry: String, working_directory: String) -> (r: Self)
        ensures
            r.wf(),
            r.table() == Seq::<Seq<char>>::empty(),
            r.pending() == seq![(entry@, working_directory@)],
            r.base() == working_directory@,
            r.current().is_none(),
            r.emitted() == Seq::<Seq<char>>::empty(),
    {
        let base = working_directory.clone();
        let mut worklist: Vec<Pending> = Vec::new();
        worklist.push(Pending { specifier: entry, base: working_directory });
        let r = GraphBuilder {
            registry: ModuleRegistry::new(),
            worklist,
            base,
            current: None,
            factories: Vec::new(),
        };
        assert(r.pending() =~= seq![(entry@, working_directory@)]);
        assert(r.emitted() =~= Seq::<Seq<char>>::empty());
        r
    }

    /// Whether nothing is pending: the build is over.
    pub fn is_done(&self) -> (r: bool)
        ensures
            r == (self.pending().len() == 0),
    {
        self.worklist.len() == 0
    }

    /// The directory of the module that is being expanded: the one to
    /// resolve its specifiers against.
    pub fn base_directory(&self) -> (r: &String)
        ensures
            r@ == self.base(),
    {
        &self.base
    }

    /// The number of modules registered so far.
    pub fn module_count(&self) -> (n: usize)
        ensures
            n == self.table().len(),
    {
        self.registry.len()
    }

    /// The identifier of the canonical path `path`, if it is registered.
    pub fn id_of(&self, path: &String) -> (r: Option<u32>)
        requires
            self.wf(),
        ensures
            r.is_some() == self.table().contains(path@),
            r.is_some() ==> r.unwrap() == self.table().index_of(path@),
    {
        self.registry.id_of(path)
    }

    /// Takes the specifier that was discovered last off the worklist.
    pub fn next(&mut self) -> (r: Option<Pending>)
        ensures
            final(self).wf() == old(self).wf(),
            final(self).table() == old(self).table(),
            final(self).base() == old(self).base(),
            final(self).current() == old(self).current(),
            final(self).emitted() == old(self).emitted(),
            old(self).pending().len() == 0 ==> {
                &&& r.is_none()
                &&& final(self).pending() == old(self).pending()
            },
            old(self).pending().len() > 0 ==> {
                &&& r.is_some()
                &&& (r.unwrap().specifier@, r.unwrap().base@) == old(self).pending().last()
                &&& final(self).pending() == old(self).pending().drop_last()
            },
    {
        let ghost before = self.pending();
        let r = self.worklist.pop();
        proof {
            if before.len() > 0 {
                assert(self.pending() =~= before.drop_last());
            } else {
                assert(self.pending() =~= before);
            }
        }
        r
    }

    /// Begins the expansion of a module: registers its canonical path, the
    /// sentinel where resolution failed, and makes its directory the
    /// current one (the empty directory for the sentinel). Returns the
    /// module's identifier, which is 0 for the first module entered.
    pub fn enter(&mut self, resolution: Option<Resolution>) -> (id: u32)
        requires
            old(self).wf(),
            old(self).table().len() < u32::MAX,
        ensures
            final(self).wf(),
            final(self).table() == registered(
                old(self).table(),
                match resolution {
                    Some(r) => r.path@,
                    None => sentinel_path(),
                },
            ),
            id == id_after(
                old(self).table(),
                match resolution {
                    Some(r) => r.path@,
                    None => sentinel_path(),
                },
            ),
            old(self).table().len() == 0 ==> id == 0,
            final(self).current() == Some(id),
            final(self).base() == match resolution {
                Some(r) => r.directory@,
                None => Seq::<char>::empty(),
            },
            final(self).pending() == old(self).pending(),
            final(self).emitted() == old(self).emitted(),
    {
        let (path, directory) = match resolution {
            Some(r) => (r.path, r.directory),
            None => (String::new(), String::new()),
        };
        self.base = directory;
        let id = self.registry.register(path);
        self.current = Some(id);
        assert(self.pending() =~= old(self).pending());
        id
    }

    /// Registers the canonical paths that the current module requires, in
    /// source order, the sentinel for each failed resolution. A path that was
    /// not registered before is put on the worklist, to be resolved against
    /// the current directory. Returns the encoded identifier of each path.
    pub fn link(&mut self, resolutions: &Vec<Option<String>>) -> (ids: Vec<String>)
        requires
            old(self).wf(),
            old(self).table().len() + resolutions@.len() <= u32::MAX,
        ensures
            final(self).wf(),
            final(self).table() == registered_all(
                old(self).table(),
                canonical_all(resolutions@),
            ),
            final(self).pending() == old(self).pending() + discovered(
                final(self).table().skip(old(self).table().len() as int),
                old(self).base(),
            ),
            texts(ids@) == encoded_ids(final(self).table(), canonical_all(resolutions@)),
            final(self).base() == old(self).base(),
            final(self).current() == old(self).current(),
            final(self).emitted() == old(self).emitted(),
    {
        let ghost table0 = self.table();
        let ghost pending0 = self.pending();
        let ghost base0 = self.base();
        let ghost paths = canonical_all(resolutions@);
        let mut ids: Vec<String> = Vec::new();
        let mut k: usize = 0;
        proof {
            assert(paths.take(0) =~= Seq::<Seq<char>>::empty());
            assert(self.pending() =~= pending0 + discovered(
                self.table().skip(table0.len() as int),
                base0,
            ));
        }
        while k < resolutions.len()
            invariant
                0 <= k <= resolutions@.len(),
                paths == canonical_all(resolutions@),
                table0.no_duplicates(),
                table0.len() + resolutions@.len() <= u32::MAX,
                self.wf(),
                self.table() == registered_all(table0, paths.take(k as int)),
                self.pending() == pending0 + discovered(
                    self.table().skip(table0.len() as int),
                    base0,
                ),
                self.base() == base0,
                self.current() == old(self).current(),
                self.emitted() == old(self).emitted(),
                ids@.len() == k,
                forall|m: int|
                    0 <= m < k ==> self.table().contains(#[trigger] paths[m]) && ids@[m]@
                        == encode_spec(self.table().index_of(paths[m]) as nat),
            decreases resolutions@.len() - k,
        {
            let ghost table_k = self.table();
            let ghost pending_k = self.pending();
            proof {
                assert(paths.take(k + 1).drop_last() =~= paths.take(k as int));
                assert(paths.take(k + 1).last() == paths[k as int]);
                lemma_registered_all(table0, paths.take(k as int));
                lemma_registered_distinct(table_k, paths[k as int]);
                assert forall|m: int| 0 <= m < k implies registered(
                    table_k,
                    paths[k as int],
                ).contains(#[trigger] paths[m]) && registered(table_k, paths[k as int]).index_of(
                    paths[m],
                ) == table_k.index_of(paths[m]) by {
                    lemma_register_keeps_ids(table_k, paths[m], paths[k as int]);
                }
            }
            let path = match &resolutions[k] {
                Some(s) => s.clone(),
                None => String::new(),
            };
            assert(path@ == paths[k as int]);
            let id = match self.registry.id_of(&path) {
                Some(id) => id,
                None => {
                    let id = self.registry.register(path.clone());
                    self.worklist.push(Pending { specifier: path, base: self.base.clone() });
                    proof {
                        assert(self.table() == table_k.push(paths[k as int]));
                        assert(self.pending() =~= pending_k.push((paths[k as int], base0)));
                        assert(self.pending() =~= pending0 + discovered(
                            self.table().skip(table0.len() as int),
                            base0,
                        ));
                    }
                    id
                },
            };
            ids.push(encode(id));
            k += 1;
        }
        proof {
            assert(paths.take(k as int) =~= paths);
            assert(texts(ids@) =~= encoded_ids(self.table(), paths));
        }
        ids
    }

    /// Rewrites the current module: registers what it requires, as `link`
    /// does, and returns a copy of `body` in which each call site holds the
    /// encoded identifier of the module it requires. `resolutions` holds the
    /// resolution of each of the module's call sites, in source order. Where
    /// it does not hold exactly one for each, nothing changes and the
    /// result is `None`.
    pub fn expand(&mut self, body: &Vec<Stmt>, resolutions: &Vec<Option<String>>) -> (r:
        Option<Vec<Stmt>>)
        requires
            old(self).wf(),
            old(self).table().len() + resolutions@.len() <= u32::MAX,
        ensures
            final(self).wf(),
            r.is_some() == (resolutions@.len() == body_sites(body_view(body@)).len()),
            r.is_none() ==> final(self).table() == old(self).table() && final(self).pending()
                == old(self).pending(),
            r.is_some() ==> final(self).table() == registered_all(
                old(self).table(),
                canonical_all(resolutions@),
            ) && final(self).pending() == old(self).pending() + discovered(
                final(self).table().skip(old(self).table().len() as int),
                old(self).base(),
            ) && body_view(r.unwrap()@) == rewritten_body(
                body_view(body@),
                encoded_ids(final(self).table(), canonical_all(resolutions@)),
            ),
            final(self).base() == old(self).base(),
            final(self).current() == old(self).current(),
            final(self).emitted() == old(self).emitted(),
    {
        let probe = required_specifiers(body);
        assert(texts(probe@).len() == probe@.len());
        if probe.len() != resolutions.len() {
            return None;
        }
        let ids = self.link(resolutions);
        assert(texts(ids@).len() == ids@.len());
        rewrite(body, &ids)
    }

    /// Completes the module that was entered last, whose text is `source`:
    /// parses it, registers what it requires and rewrites its call sites as
    /// `expand` does, prints it with the rewritten specifiers, and emits the
    /// factory under the module's identifier. `resolutions` holds the
    /// resolution of each of the module's call sites, in source order. Where
    /// no module is entered, `source` cannot be parsed, or `resolutions` is
    /// not one for each call site, nothing changes. A module is completed
    /// once: afterwards none is entered.
    pub fn complete(&mut self, source: &str, path: &str, resolutions: &Vec<Option<String>>) -> (r:
        Result<(), BuildError>)
        requires
            old(self).wf(),
            old(self).table().len() + resolutions@.len() <= u32::MAX,
        ensures
            final(self).wf(),
            final(self).base() == old(self).base(),
            r.is_err() ==> {
                &&& final(self).table() == old(self).table()
                &&& final(self).pending() == old(self).pending()
                &&& final(self).emitted() == old(self).emitted()
                &&& final(self).current() == old(self).current()
            },
            match (old(self).current(), parsed_module(source@, path@)) {
                (None, _) => r == Err::<(), BuildError>(BuildError::NotEntered),
                (Some(_), None) => r == Err::<(), BuildError>(BuildError::Parse),
                (Some(id), Some(body)) => if resolutions@.len() != body_sites(body).len() {
                    r == Err::<(), BuildError>(BuildError::SiteCount)
                } else {
                    let table = registered_all(old(self).table(), canonical_all(resolutions@));
                    let printed = printed_module(
                        source@,
                        path@,
                        rewritten_body(body, encoded_ids(table, canonical_all(resolutions@))),
                    );
                    &&& r.is_ok()
                    &&& printed.is_some()
                    &&& final(self).table() == table
                    &&& final(self).pending() == old(self).pending() + discovered(
                        table.skip(old(self).table().len() as int),
                        old(self).base(),
                    )
                    &&& final(self).emitted() == old(self).emitted().push(
                        factory_spec(id, printed.unwrap()),
                    )
                    &&& final(self).current().is_none()
                },
            },
    {
        let id = match self.current {
            Some(id) => id,
            None => {
                return Err(BuildError::NotEntered);
            },
        };
        let body = match parse_module(source, path) {
            Some(body) => body,
            None => {
                return Err(BuildError::Parse);
            },
        };
        match self.expand(&body, resolutions) {
            None => Err(BuildError::SiteCount),
            Some(rewritten) => {
                match print_module(source, path, &rewritten) {
                    Some(text) => {
                        self.emit(id, text.as_str());
                        self.current = None;
                        assert(self.pending() =~= old(self).pending() + discovered(
                            self.table().skip(old(self).table().len() as int),
                            old(self).base(),
                        ));
                        Ok(())
                    },
                    None => Err(BuildError::Parse),
                }
            },
        }
    }

    /// Appends the factory of the module `id`, whose rewritten source is
    /// `code`, to what the bundle will hold.
    pub fn emit(&mut self, id: u32, code: &str)
        ensures
            final(self).wf() == old(self).wf(),
            final(self).emitted() == old(self).emitted().push(factory_spec(id, code@)),
            final(self).table() == old(self).table(),
            final(self).pending() == old(self).pending(),
            final(self).base() == old(self).base(),
            final(self).current() == old(self).current(),
    {
        let f = factory(id, code);
        self.factories.push(f);
        assert(self.emitted() =~= old(self).emitted().push(factory_spec(id, code@)));
        assert(self.pending() =~= old(self).pending());
    }

    /// The text of the bundle: the loader around the factories emitted so
    /// far.
    pub fn bundle(&self) -> (r: String)
        ensures
            r@ == bundle_spec(self.emitted()),
    {
        bundle(&self.factories)
    }
}

} // verus!
