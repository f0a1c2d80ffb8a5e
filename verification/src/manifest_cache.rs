//! The manifest cache: which manifest is bound to which crate reference,
//! and where each binding lives below the cache root.
//!
//! [`ManifestCache`] holds the bindings as values. Reading them from disk
//! and writing them back is the caller's part; the paths come from
//! [`manifest_path`] and [`digest_sidecar_path`].

use crate::argpaths::{child_path, join_path};
use crate::manifest::{display_form, refs_view, CrateRef, CrateVars, Manifest, ManifestSpec};
use crate::order::{insert_position, sorted};
use crate::text::{str_eq, strings_view};
use vstd::prelude::*;

verus! {

/// The directory of the cache below the user's configuration directory;
/// `~/.config` stands in where the system reports none.
pub open spec fn cache_root(config_dir: Option<Seq<char>>) -> Seq<char> {
    child_path(
        child_path(
            match config_dir {
                Some(d) => d,
                None => "~/.config"@,
            },
            "bulker"@,
        ),
        "manifests"@,
    )
}

/// The directory of one crate below the cache root: one level each for
/// namespace, name and tag.
pub open spec fn crate_dir(base: Seq<char>, r: CrateRef) -> Seq<char> {
    child_path(child_path(child_path(base, r.namespace), r.crate_name), r.tag)
}

/// The root directory of the cache.
pub fn cache_base_dir(config_dir: Option<&str>) -> (r: String)
    ensures
        r@ == cache_root(crate::manifest::opt_str_view(config_dir)),
{
    let dir = match config_dir {
        Some(d) => d,
        None => "~/.config",
    };
    let b = join_path(dir, "bulker");
    join_path(b.as_str(), "manifests")
}

/// The file that holds the manifest of `cv` below the cache root `base`:
/// the file `manifest` in the directory of the crate.
pub fn manifest_path(base: &str, cv: &CrateVars) -> (r: String)
    ensures
        r@ == child_path(crate_dir(base@, cv@), "manifest"@),
{
    digest_sidecar_path(base, cv, "manifest")
}

/// The file `filename` beside the manifest of `cv`: a digest sidecar holds
/// one digest and nothing else.
pub fn digest_sidecar_path(base: &str, cv: &CrateVars, filename: &str) -> (r: String)
    ensures
        r@ == child_path(crate_dir(base@, cv@), filename@),
{
    let a = join_path(base, cv.namespace.as_str());
    let b = join_path(a.as_str(), cv.crate_name.as_str());
    let c = join_path(b.as_str(), cv.tag.as_str());
    join_path(c.as_str(), filename)
}

/// One binding of the cache.
pub struct CacheEntry {
    pub reference: CrateVars,
    pub manifest: Manifest,
}

/// The bindings from crate reference to manifest. No reference is bound twice.
pub struct ManifestCache {
    entries: Vec<CacheEntry>,
}

/// Whether some entry binds `k`.
pub open spec fn binds(es: Seq<CacheEntry>, k: CrateRef) -> bool {
    exists|i: int| 0 <= i < es.len() && (#[trigger] es[i]).reference@ == k
}

/// The index of an entry that binds `k`.
pub open spec fn index_of(es: Seq<CacheEntry>, k: CrateRef) -> int {
    choose|i: int| 0 <= i < es.len() && (#[trigger] es[i]).reference@ == k
}

/// Whether no reference is bound by two entries.
pub open spec fn keys_unique(es: Seq<CacheEntry>) -> bool {
    forall|i: int, j: int|
        0 <= i < j < es.len() ==> (#[trigger] es[i]).reference@ != (#[trigger] es[j]).reference@
}

/// The bindings of a list of entries.
pub open spec fn bindings(es: Seq<CacheEntry>) -> Map<CrateRef, ManifestSpec> {
    Map::new(|k: CrateRef| binds(es, k), |k: CrateRef| es[index_of(es, k)].manifest@)
}

/// What the entry at `i` contributes to the bindings.
pub proof fn lemma_binding_at(es: Seq<CacheEntry>, i: int)
    requires
        keys_unique(es),
        0 <= i < es.len(),
    ensures
        bindings(es).contains_key(es[i].reference@),
        bindings(es)[es[i].reference@] == es[i].manifest@,
{
    let k = es[i].reference@;
    assert(binds(es, k));
    let c = index_of(es, k);
    assert(c == i);
}

impl View for ManifestCache {
    type V = Map<CrateRef, ManifestSpec>;

    closed spec fn view(&self) -> Map<CrateRef, ManifestSpec> {
        bindings(self.entries@)
    }
}

impl ManifestCache {
    /// Whether no reference is bound twice. Every cache made by [`ManifestCache::new`]
    /// and changed through the methods of this type is well formed.
    pub closed spec fn well_formed(&self) -> bool {
        keys_unique(self.entries@)
    }

    /// The references that are bound, in the order in which they were first saved.
    pub closed spec fn keys(&self) -> Seq<CrateRef> {
        Seq::new(self.entries@.len(), |i: int| self.entries@[i].reference@)
    }

    /// A cache without bindings.
    pub fn new() -> (c: ManifestCache)
        ensures
            c.well_formed(),
            c@ == Map::<CrateRef, ManifestSpec>::empty(),
            c.keys().len() == 0,
    {
        let c = ManifestCache { entries: Vec::new() };
        proof {
            assert(c@ =~= Map::<CrateRef, ManifestSpec>::empty());
        }
        c
    }

    /// The number of bindings.
    pub fn len(&self) -> (n: usize)
        ensures
            n == self.keys().len(),
    {
        self.entries.len()
    }

    /// The keys are the references that are bound, each once.
    pub proof fn lemma_keys(&self)
        requires
            self.well_formed(),
        ensures
            forall|k: CrateRef| self.keys().contains(k) <==> self@.contains_key(k),
            forall|i: int, j: int|
                0 <= i < j < self.keys().len() ==> #[trigger] self.keys()[i] != #[trigger] self.keys()[j],
    {
        let keys = self.keys();
        let es = self.entries@;
        assert forall|k: CrateRef| keys.contains(k) <==> self@.contains_key(k) by {
            if keys.contains(k) {
                let w = choose|w: int| 0 <= w < keys.len() && keys[w] == k;
                assert(es[w].reference@ == k);
            }
            if self@.contains_key(k) {
                let w = index_of(es, k);
                assert(keys[w] == k);
            }
        }
        assert forall|i: int, j: int| 0 <= i < j < keys.len() implies #[trigger] keys[i]
            != #[trigger] keys[j] by {
            assert(es[i].reference@ != es[j].reference@);
        }
    }

    fn position(&self, cv: &CrateVars) -> (r: Option<usize>)
        ensures
            match r {
                Some(i) => i < self.entries@.len() && self.entries@[i as int].reference@ == cv@,
                None => !binds(self.entries@, cv@),
            },
    {
        let mut i: usize = 0;
        while i < self.entries.len()
            invariant
                i <= self.entries.len(),
                forall|j: int| 0 <= j < i ==> (#[trigger] self.entries@[j]).reference@ != cv@,
            decreases self.entries.len() - i,
        {
            let e = &self.entries[i].reference;
            if str_eq(e.namespace.as_str(), cv.namespace.as_str()) && str_eq(
                e.crate_name.as_str(),
                cv.crate_name.as_str(),
            ) && str_eq(e.tag.as_str(), cv.tag.as_str()) {
                return Some(i);
            }
            i += 1;
        }
        None
    }

    /// The manifest bound to `cv`; nothing where none is bound, which is
    /// no error.
    pub fn load(&self, cv: &CrateVars) -> (r: Option<&Manifest>)
        requires
            self.well_formed(),
        ensures
            match r {
                Some(m) => self@.contains_key(cv@) && self@[cv@] == m@,
                None => !self@.contains_key(cv@),
            },
    {
        match self.position(cv) {
            Some(i) => {
                proof {
                    lemma_binding_at(self.entries@, i as int);
                }
                Some(&self.entries[i].manifest)
            },
            None => None,
        }
    }

    /// Whether a manifest is bound to `cv`.
    pub fn contains(&self, cv: &CrateVars) -> (r: bool)
        requires
            self.well_formed(),
        ensures
            r == self@.contains_key(cv@),
    {
        self.load(cv).is_some()
    }

    /// Binds `manifest` to `cv`, in place of what was bound to it before.
    /// Every other binding stays.
    pub fn save(&mut self, cv: &CrateVars, manifest: &Manifest)
        requires
            old(self).well_formed(),
        ensures
            final(self).well_formed(),
            final(self)@ == old(self)@.insert(cv@, manifest@),
    {
        let ghost before = self.entries@;
        let entry = CacheEntry { reference: cv.clone(), manifest: manifest.clone() };
        match self.position(cv) {
            Some(i) => {
                self.entries.set(i, entry);
                proof {
                    let after = self.entries@;
                    assert(keys_unique(after)) by {
                        assert forall|a: int, b: int| 0 <= a < b < after.len() implies (
                        #[trigger] after[a]).reference@ != (#[trigger] after[b]).reference@ by {
                            assert(after[a].reference@ == before[a].reference@);
                            assert(after[b].reference@ == before[b].reference@);
                        }
                    }
                    assert forall|k: CrateRef| binds(after, k) <==> (k == cv@ || binds(
                        before,
                        k,
                    )) by {
                        if binds(after, k) {
                            let w = index_of(after, k);
                            assert(before[w].reference@ == k);
                        }
                        if binds(before, k) {
                            let w = index_of(before, k);
                            assert(after[w].reference@ == k);
                        }
                        if k == cv@ {
                            assert(after[i as int].reference@ == k);
                        }
                    }
                    assert forall|k: CrateRef| binds(after, k) implies #[trigger] bindings(
                        after,
                    )[k] == bindings(before).insert(cv@, manifest@)[k] by {
                        let w = index_of(after, k);
                        lemma_binding_at(after, w);
                        if k != cv@ {
                            assert(before[w].reference@ == k);
                            lemma_binding_at(before, w);
                        } else {
                            assert(w == i);
                        }
                    }
                    assert(bindings(after) =~= bindings(before).insert(cv@, manifest@));
                }
            },
            None => {
                self.entries.push(entry);
                proof {
                    let after = self.entries@;
                    let n = before.len() as int;
                    assert(keys_unique(after)) by {
                        assert forall|a: int, b: int| 0 <= a < b < after.len() implies (
                        #[trigger] after[a]).reference@ != (#[trigger] after[b]).reference@ by {
                            assert(after[a] == before[a]);
                            if b < n {
                                assert(after[b] == before[b]);
                            }
                        }
                    }
                    assert forall|k: CrateRef| binds(after, k) <==> (k == cv@ || binds(
                        before,
                        k,
                    )) by {
                        if binds(after, k) {
                            let w = index_of(after, k);
                            if w < n {
                                assert(before[w].reference@ == k);
                            }
                        }
                        if binds(before, k) {
                            let w = index_of(before, k);
                            assert(after[w].reference@ == k);
                        }
                        if k == cv@ {
                            assert(after[n].reference@ == k);
                        }
                    }
                    assert forall|k: CrateRef| binds(after, k) implies #[trigger] bindings(
                        after,
                    )[k] == bindings(before).insert(cv@, manifest@)[k] by {
                        let w = index_of(after, k);
                        lemma_binding_at(after, w);
                        if k != cv@ {
                            assert(before[w] == after[w]);
                            lemma_binding_at(before, w);
                        }
                    }
                    assert(bindings(after) =~= bindings(before).insert(cv@, manifest@));
                }
            },
        }
    }

    /// Removes the binding of `cv`, if there is one. Every other binding
    /// stays. Returns whether there was one.
    pub fn remove(&mut self, cv: &CrateVars) -> (removed: bool)
        requires
            old(self).well_formed(),
        ensures
            final(self).well_formed(),
            final(self)@ == old(self)@.remove(cv@),
            removed == old(self)@.contains_key(cv@),
    {
        let ghost before = self.entries@;
        match self.position(cv) {
            Some(i) => {
                self.entries.remove(i);
                proof {
                    let after = self.entries@;
                    assert(binds(before, cv@));
                    assert(keys_unique(after)) by {
                        assert forall|a: int, b: int| 0 <= a < b < after.len() implies (
                        #[trigger] after[a]).reference@ != (#[trigger] after[b]).reference@ by {
                            let a0 = if a < i { a } else { a + 1 };
                            let b0 = if b < i { b } else { b + 1 };
                            assert(after[a] == before[a0]);
                            assert(after[b] == before[b0]);
                        }
                    }
                    assert forall|k: CrateRef| binds(after, k) <==> (k != cv@ && binds(
                        before,
                        k,
                    )) by {
                        if binds(after, k) {
                            let w = index_of(after, k);
                            let w0 = if w < i { w } else { w + 1 };
                            assert(before[w0].reference@ == k);
                        }
                        if k != cv@ && binds(before, k) {
                            let w = index_of(before, k);
                            let w1 = if w < i { w } else { w - 1 };
                            assert(after[w1].reference@ == k);
                        }
                    }
                    assert forall|k: CrateRef| binds(after, k) implies #[trigger] bindings(
                        after,
                    )[k] == bindings(before)[k] by {
                        let w = index_of(after, k);
                        let w0 = if w < i { w } else { w + 1 };
                        lemma_binding_at(after, w);
                        assert(after[w] == before[w0]);
                        lemma_binding_at(before, w0);
                    }
                    assert(bindings(after) =~= bindings(before).remove(cv@));
                }
                true
            },
            None => {
                proof {
                    assert(bindings(before) =~= bindings(before).remove(cv@));
                }
                false
            },
        }
    }

    /// Removes every binding.
    pub fn clear(&mut self)
        ensures
            final(self).well_formed(),
            final(self)@ == Map::<CrateRef, ManifestSpec>::empty(),
            final(self).keys().len() == 0,
    {
        self.entries = Vec::new();
        proof {
            assert(self@ =~= Map::<CrateRef, ManifestSpec>::empty());
        }
    }

    /// Every bound reference, sorted by display name.
    pub fn list(&self) -> (r: Vec<CrateVars>)
        requires
            self.well_formed(),
        ensures
            refs_view(r@).to_multiset() == self.keys().to_multiset(),
            forall|k: CrateRef| refs_view(r@).contains(k) <==> self@.contains_key(k),
            sorted(display_forms(refs_view(r@))),
    {
        let mut refs: Vec<CrateVars> = Vec::new();
        let mut i: usize = 0;
        while i < self.entries.len()
            invariant
                i <= self.entries.len(),
                refs@.len() == i,
                forall|j: int| 0 <= j < i ==> (#[trigger] refs@[j])@ == self.entries@[j].reference@,
            decreases self.entries.len() - i,
        {
            refs.push(self.entries[i].reference.clone());
            i += 1;
        }
        let r = sort_references(refs.as_slice());
        proof {
            assert(refs_view(refs@) =~= self.keys());
            self.lemma_keys();
            let out = refs_view(r@);
            let keys = self.keys();
            assert forall|k: CrateRef| out.contains(k) <==> self@.contains_key(k) by {
                vstd::seq_lib::to_multiset_contains(out, k);
                vstd::seq_lib::to_multiset_contains(keys, k);
            }
        }
        r
    }
}

/// The references of `list` sorted by display name: the same references,
/// each as often as before.
pub fn sort_references(list: &[CrateVars]) -> (r: Vec<CrateVars>)
    ensures
        sorted(display_forms(refs_view(r@))),
        refs_view(r@).to_multiset() == refs_view(list@).to_multiset(),
{
    let ghost all = refs_view(list@);
    let mut names: Vec<String> = Vec::new();
    let mut out: Vec<CrateVars> = Vec::new();
    let mut i: usize = 0;
    proof {
        assert(strings_view(names@) =~= display_forms(refs_view(out@)));
        assert(all.subrange(0, 0) =~= refs_view(out@));
    }
    while i < list.len()
        invariant
            i <= list.len(),
            all == refs_view(list@),
            strings_view(names@) == display_forms(refs_view(out@)),
            sorted(strings_view(names@)),
            refs_view(out@).to_multiset() == all.subrange(0, i as int).to_multiset(),
        decreases list.len() - i,
    {
        let cv = list[i].clone();
        assert(all[i as int] == cv@);
        let name = cv.display_name();
        let p = insert_position(&names, name.as_str());
        proof {
            let old_refs = refs_view(out@);
            let new_refs = refs_view(out@.insert(p as int, cv));
            assert(old_refs.len() == names@.len());
            assert(new_refs =~= old_refs.insert(p as int, cv@));
            assert(strings_view(names@.insert(p as int, name)) =~= strings_view(names@).insert(
                p as int,
                name@,
            ));
            assert(display_forms(new_refs) =~= display_forms(old_refs).insert(p as int, name@));
            vstd::seq_lib::to_multiset_insert(old_refs, p as int, cv@);
            assert(all.subrange(0, i + 1) =~= all.subrange(0, i as int).push(cv@));
            vstd::seq_lib::to_multiset_build(all.subrange(0, i as int), cv@);
        }
        names.insert(p, name);
        out.insert(p, cv);
        i += 1;
    }
    proof {
        assert(all.subrange(0, all.len() as int) =~= all);
    }
    out
}

/// The display names of a list of references.
pub open spec fn display_forms(refs: Seq<CrateRef>) -> Seq<Seq<char>> {
    Seq::new(refs.len(), |i: int| display_form(refs[i]))
}

/// What to do for a reference that has to be present: use the cached copy
/// unless a fresh one is asked for or there is none.
#[derive(Clone, Copy, Debug, PartialEq, Eq, Structural)]
pub enum EnsureAction {
    /// Return the cached copy.
    UseCached,
    /// Fetch from the registry, save, and return what was fetched.
    Fetch,
}

/// Decides between the cached copy and a fetch.
pub fn ensure_action(cached: bool, force: bool) -> (a: EnsureAction)
    ensures
        a == (if force || !cached {
            EnsureAction::Fetch
        } else {
            EnsureAction::UseCached
        }),
{
    if force || !cached {
        EnsureAction::Fetch
    } else {
        EnsureAction::UseCached
    }
}

} // verus!
