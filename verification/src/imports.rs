//! Expanding crate references into the ordered set of crates in scope.
//!
//! A crate comes before its imports, and each import is expanded in full
//! before the next import of the same manifest. A reference that was
//! already reached is not visited again, which makes cycles harmless; a
//! depth limit bounds chains that never repeat.

use crate::manifest::{
    display_form, parse_reference, parse_registry_path, refs_view, CrateRef, CrateVars,
    ManifestSpec, ReferenceError, ReferenceFault,
};
use crate::manifest_cache::{display_forms, ManifestCache};
use crate::text::{decimal, list_contains, push_decimal, strings_view};
use vstd::prelude::*;

verus! {

/// How many imports deep resolution may go below a starting crate.
pub const MAX_IMPORT_DEPTH: u32 = 32;

/// Why a set of crates could not be resolved.
#[derive(Debug)]
pub enum ResolveError {
    /// No manifest is cached for the crate.
    NotCached(CrateVars),
    /// The crate lies deeper below the starting crate than the limit allows.
    DepthExceeded { reference: CrateVars, limit: u32 },
    /// An import of `importer` is no well-formed reference.
    InvalidImport { importer: CrateVars, error: ReferenceError },
}

/// The mathematical value of a [`ResolveError`].
pub enum ResolveFault {
    NotCached(CrateRef),
    DepthExceeded { reference: CrateRef, limit: nat },
    InvalidImport { importer: CrateRef, error: ReferenceFault },
}

impl View for ResolveError {
    type V = ResolveFault;

    open spec fn view(&self) -> ResolveFault {
        match self {
            ResolveError::NotCached(r) => ResolveFault::NotCached(r@),
            ResolveError::DepthExceeded { reference, limit } => ResolveFault::DepthExceeded {
                reference: reference@,
                limit: *limit as nat,
            },
            ResolveError::InvalidImport { importer, error } => ResolveFault::InvalidImport {
                importer: importer@,
                error: error@,
            },
        }
    }
}

/// The text of the message for a failed resolution.
pub open spec fn resolve_error_message(e: ResolveFault) -> Seq<char> {
    match e {
        ResolveFault::NotCached(r) => "Crate '"@ + display_form(r) + "' is not cached. Run 'bulker activate "@
            + display_form(r) + "' to fetch it."@,
        ResolveFault::DepthExceeded { reference, limit } => "Import depth limit ("@ + decimal(
            limit,
        ) + ") exceeded at crate '"@ + display_form(reference) + "'"@,
        ResolveFault::InvalidImport { importer, error } => "Invalid import in crate '"@
            + display_form(importer) + "': "@ + crate::manifest::reference_error_message(error),
    }
}

impl ResolveError {
    /// The human-readable message: it names the crate, and the limit where
    /// that was exceeded, and says how to cache a crate that is missing.
    pub fn message(&self) -> (s: String)
        ensures
            s@ == resolve_error_message(self@),
    {
        match self {
            ResolveError::NotCached(r) => {
                let name = r.display_name();
                let mut s = String::from_str("Crate '");
                s.append(name.as_str());
                s.append("' is not cached. Run 'bulker activate ");
                s.append(name.as_str());
                s.append("' to fetch it.");
                s
            },
            ResolveError::DepthExceeded { reference, limit } => {
                let name = reference.display_name();
                let mut s = String::from_str("Import depth limit (");
                push_decimal(&mut s, *limit);
                s.append(") exceeded at crate '");
                s.append(name.as_str());
                s.append("'");
                s
            },
            ResolveError::InvalidImport { importer, error } => {
                let name = importer.display_name();
                let mut s = String::from_str("Invalid import in crate '");
                s.append(name.as_str());
                s.append("': ");
                s.append(error.message().as_str());
                s
            },
        }
    }
}

/// What one resolution has reached so far.
pub struct Walk {
    /// The display names of the crates reached.
    pub visited: Seq<Seq<char>>,
    /// The crates reached, in the order in which they were first reached.
    pub resolved: Seq<CrateRef>,
}

/// The walk that has reached nothing.
pub open spec fn empty_walk() -> Walk {
    Walk { visited: Seq::empty(), resolved: Seq::empty() }
}

/// The walk after visiting `r` at `depth` imports below a starting crate.
///
/// A crate already reached changes nothing. Else the crate must not lie
/// deeper than the limit and must be cached; it is appended, and then its
/// imports are visited in the order of their declaration.
pub open spec fn visit(
    cache: Map<CrateRef, ManifestSpec>,
    default_namespace: Seq<char>,
    r: CrateRef,
    depth: nat,
    w: Walk,
) -> Result<Walk, ResolveFault>
    decreases MAX_IMPORT_DEPTH + 1 - depth, 0nat,
{
    if w.visited.contains(display_form(r)) {
        Ok(w)
    } else if depth > MAX_IMPORT_DEPTH {
        Err(ResolveFault::DepthExceeded { reference: r, limit: MAX_IMPORT_DEPTH as nat })
    } else if !cache.contains_key(r) {
        Err(ResolveFault::NotCached(r))
    } else {
        visit_imports(
            cache,
            default_namespace,
            r,
            cache[r].imports,
            cache[r].imports.len(),
            depth + 1,
            Walk { visited: w.visited.push(display_form(r)), resolved: w.resolved.push(r) },
        )
    }
}

/// The walk after visiting the first `n` of the imports of `importer`,
/// each parsed with the default namespace of this resolution. The first
/// failure ends the walk.
pub open spec fn visit_imports(
    cache: Map<CrateRef, ManifestSpec>,
    default_namespace: Seq<char>,
    importer: CrateRef,
    imports: Seq<Seq<char>>,
    n: nat,
    depth: nat,
    w: Walk,
) -> Result<Walk, ResolveFault>
    decreases MAX_IMPORT_DEPTH + 1 - depth, n + 1,
{
    if n == 0 || n > imports.len() {
        Ok(w)
    } else {
        match visit_imports(cache, default_namespace, importer, imports, (n - 1) as nat, depth, w) {
            Err(e) => Err(e),
            Ok(w1) => match parse_reference(imports[n - 1], default_namespace) {
                Err(e) => Err(ResolveFault::InvalidImport { importer, error: e }),
                Ok(r) => visit(cache, default_namespace, r, depth, w1),
            },
        }
    }
}

/// The walk after visiting the first `n` starting crates.
pub open spec fn visit_roots(
    cache: Map<CrateRef, ManifestSpec>,
    default_namespace: Seq<char>,
    roots: Seq<CrateRef>,
    n: nat,
) -> Result<Walk, ResolveFault>
    decreases n,
{
    if n == 0 || n > roots.len() {
        Ok(empty_walk())
    } else {
        match visit_roots(cache, default_namespace, roots, (n - 1) as nat) {
            Err(e) => Err(e),
            Ok(w) => visit(cache, default_namespace, roots[n - 1], 0, w),
        }
    }
}

/// The crates in scope for the starting crates `roots`: depth first, in
/// the order of declaration, each once.
pub open spec fn resolve(
    cache: Map<CrateRef, ManifestSpec>,
    default_namespace: Seq<char>,
    roots: Seq<CrateRef>,
) -> Result<Seq<CrateRef>, ResolveFault> {
    match visit_roots(cache, default_namespace, roots, roots.len()) {
        Ok(w) => Ok(w.resolved),
        Err(e) => Err(e),
    }
}

/// The views of what a resolution returned.
pub open spec fn resolved_view(r: Result<Vec<CrateVars>, ResolveError>) -> Result<
    Seq<CrateRef>,
    ResolveFault,
> {
    match r {
        Ok(v) => Ok(refs_view(v@)),
        Err(e) => Err(e@),
    }
}

/// Whether the outcome of a step is the one the model gives.
pub open spec fn step_matches(
    r: Result<(), ResolveError>,
    visited: Seq<Seq<char>>,
    resolved: Seq<CrateRef>,
    expected: Result<Walk, ResolveFault>,
) -> bool {
    match expected {
        Ok(w) => r is Ok && visited == w.visited && resolved == w.resolved,
        Err(e) => r is Err && r->Err_0@ == e,
    }
}

fn resolve_crate(
    cache: &ManifestCache,
    default_namespace: &str,
    cv: &CrateVars,
    depth: u32,
    visited: &mut Vec<String>,
    resolved: &mut Vec<CrateVars>,
) -> (r: Result<(), ResolveError>)
    requires
        cache.well_formed(),
        depth <= MAX_IMPORT_DEPTH + 1,
    ensures
        step_matches(
            r,
            strings_view(final(visited)@),
            refs_view(final(resolved)@),
            visit(
                cache@,
                default_namespace@,
                cv@,
                depth as nat,
                Walk { visited: strings_view(old(visited)@), resolved: refs_view(old(resolved)@) },
            ),
        ),
    decreases MAX_IMPORT_DEPTH + 1 - depth, 0nat,
{
    let key = cv.display_name();
    if list_contains(visited, key.as_str()) {
        return Ok(());
    }
    if depth > MAX_IMPORT_DEPTH {
        return Err(ResolveError::DepthExceeded { reference: cv.clone(), limit: MAX_IMPORT_DEPTH });
    }
    let manifest = match cache.load(cv) {
        Some(m) => m,
        None => {
            return Err(ResolveError::NotCached(cv.clone()));
        },
    };
    let ghost dns = default_namespace@;
    let ghost imports = manifest@.imports;
    proof {
        assert(strings_view(visited@.push(key)) =~= strings_view(visited@).push(key@));
        assert(refs_view(resolved@.push(*cv)) =~= refs_view(resolved@).push(cv@));
    }
    let entry = cv.clone();
    proof {
        assert(refs_view(resolved@.push(entry)) =~= refs_view(resolved@).push(cv@));
    }
    visited.push(key);
    resolved.push(entry);
    let ghost start = Walk { visited: strings_view(visited@), resolved: refs_view(resolved@) };
    let ghost goal = visit(
        cache@,
        dns,
        cv@,
        depth as nat,
        Walk { visited: strings_view(old(visited)@), resolved: refs_view(old(resolved)@) },
    );
    let list = &manifest.manifest.imports;
    let mut i: usize = 0;
    while i < list.len()
        invariant
            i <= list.len(),
            cache.well_formed(),
            depth <= MAX_IMPORT_DEPTH,
            dns == default_namespace@,
            imports == strings_view(list@),
            goal == visit(
                cache@,
                default_namespace@,
                cv@,
                depth as nat,
                Walk { visited: strings_view(old(visited)@), resolved: refs_view(old(resolved)@) },
            ),
            goal == visit_imports(
                cache@,
                dns,
                cv@,
                imports,
                imports.len(),
                (depth + 1) as nat,
                start,
            ),
            visit_imports(
                cache@,
                dns,
                cv@,
                imports,
                i as nat,
                (depth + 1) as nat,
                start,
            ) == Ok::<Walk, ResolveFault>(
                Walk { visited: strings_view(visited@), resolved: refs_view(resolved@) },
            ),
        decreases list.len() - i,
    {
        assert(imports[i as int] == list@[i as int]@);
        let import_cv = match parse_registry_path(list[i].as_str(), default_namespace) {
            Ok(r) => r,
            Err(e) => {
                let err = ResolveError::InvalidImport { importer: cv.clone(), error: e };
                proof {
                    assert(visit_imports(
                        cache@,
                        dns,
                        cv@,
                        imports,
                        (i + 1) as nat,
                        (depth + 1) as nat,
                        start,
                    ) == Err::<Walk, ResolveFault>(err@));
                    lemma_imports_fail(
                        cache@,
                        dns,
                        cv@,
                        imports,
                        (i + 1) as nat,
                        imports.len(),
                        (depth + 1) as nat,
                        start,
                    );
                }
                return Err(err);
            },
        };
        match resolve_crate(cache, default_namespace, &import_cv, depth + 1, visited, resolved) {
            Ok(_) => {},
            Err(e) => {
                proof {
                    assert(visit_imports(
                        cache@,
                        dns,
                        cv@,
                        imports,
                        (i + 1) as nat,
                        (depth + 1) as nat,
                        start,
                    ) == Err::<Walk, ResolveFault>(e@));
                    lemma_imports_fail(
                        cache@,
                        dns,
                        cv@,
                        imports,
                        (i + 1) as nat,
                        imports.len(),
                        (depth + 1) as nat,
                        start,
                    );
                }
                return Err(e);
            },
        }
        i += 1;
    }
    Ok(())
}

/// Once the first `n` imports fail, so do the first `m`, in the same way.
pub proof fn lemma_imports_fail(
    cache: Map<CrateRef, ManifestSpec>,
    default_namespace: Seq<char>,
    importer: CrateRef,
    imports: Seq<Seq<char>>,
    n: nat,
    m: nat,
    depth: nat,
    w: Walk,
)
    requires
        n <= m <= imports.len(),
        visit_imports(cache, default_namespace, importer, imports, n, depth, w) is Err,
    ensures
        visit_imports(cache, default_namespace, importer, imports, m, depth, w) == visit_imports(
            cache,
            default_namespace,
            importer,
            imports,
            n,
            depth,
            w,
        ),
    decreases m - n,
{
    if n < m {
        lemma_imports_fail(
            cache,
            default_namespace,
            importer,
            imports,
            n,
            (m - 1) as nat,
            depth,
            w,
        );
    }
}

/// Once the first `n` starting crates fail, so do the first `m`, in the same way.
pub proof fn lemma_roots_fail(
    cache: Map<CrateRef, ManifestSpec>,
    default_namespace: Seq<char>,
    roots: Seq<CrateRef>,
    n: nat,
    m: nat,
)
    requires
        n <= m <= roots.len(),
        visit_roots(cache, default_namespace, roots, n) is Err,
    ensures
        visit_roots(cache, default_namespace, roots, m) == visit_roots(
            cache,
            default_namespace,
            roots,
            n,
        ),
    decreases m - n,
{
    if n < m {
        lemma_roots_fail(cache, default_namespace, roots, n, (m - 1) as nat);
    }
}

/// Expands the starting crates into the ordered set of crates in scope.
///
/// Manifests are read from `cache` only. Imports are parsed with
/// `default_namespace`, whatever namespace was in force when a manifest was
/// saved.
pub fn resolve_cratevars_with_imports(
    cache: &ManifestCache,
    default_namespace: &str,
    cratelist: &[CrateVars],
) -> (r: Result<Vec<CrateVars>, ResolveError>)
    requires
        cache.well_formed(),
    ensures
        resolved_view(r) == resolve(cache@, default_namespace@, refs_view(cratelist@)),
{
    let ghost roots = refs_view(cratelist@);
    let mut visited: Vec<String> = Vec::new();
    let mut resolved: Vec<CrateVars> = Vec::new();
    let mut i: usize = 0;
    proof {
        assert(strings_view(visited@) =~= empty_walk().visited);
        assert(refs_view(resolved@) =~= empty_walk().resolved);
    }
    while i < cratelist.len()
        invariant
            i <= cratelist.len(),
            cache.well_formed(),
            roots == refs_view(cratelist@),
            visit_roots(cache@, default_namespace@, roots, i as nat) == Ok::<Walk, ResolveFault>(
                Walk { visited: strings_view(visited@), resolved: refs_view(resolved@) },
            ),
        decreases cratelist.len() - i,
    {
        assert(roots[i as int] == cratelist@[i as int]@);
        match resolve_crate(cache, default_namespace, &cratelist[i], 0, &mut visited, &mut resolved) {
            Ok(_) => {},
            Err(e) => {
                proof {
                    lemma_roots_fail(
                        cache@,
                        default_namespace@,
                        roots,
                        (i + 1) as nat,
                        roots.len(),
                    );
                }
                return Err(e);
            },
        }
        i += 1;
    }
    Ok(resolved)
}

/// Whether a walk is consistent: the visited names are those of the crates
/// reached, no name occurs twice, and every crate reached is cached.
pub open spec fn walk_ok(cache: Map<CrateRef, ManifestSpec>, w: Walk) -> bool {
    &&& w.visited == display_forms(w.resolved)
    &&& forall|i: int, j: int|
        0 <= i < j < w.visited.len() ==> #[trigger] w.visited[i] != #[trigger] w.visited[j]
    &&& forall|i: int| 0 <= i < w.resolved.len() ==> cache.contains_key(#[trigger] w.resolved[i])
}

/// Whether `w2` continues `w`: it starts with the same crates.
pub open spec fn extends(w: Walk, w2: Walk) -> bool {
    w.resolved.len() <= w2.resolved.len() && w2.resolved.subrange(0, w.resolved.len() as int)
        == w.resolved
}

/// What holds of the outcome of a step that started from a consistent walk.
pub open spec fn step_ok(
    cache: Map<CrateRef, ManifestSpec>,
    w: Walk,
    out: Result<Walk, ResolveFault>,
) -> bool {
    match out {
        Ok(w2) => walk_ok(cache, w2) && extends(w, w2),
        Err(ResolveFault::NotCached(x)) => !cache.contains_key(x),
        Err(_) => true,
    }
}

/// Visiting a crate keeps the walk consistent, keeps what was reached
/// before, and leaves the crate among those reached. Where it fails for a
/// crate that is not cached, that crate is indeed missing from the cache.
pub proof fn lemma_visit(
    cache: Map<CrateRef, ManifestSpec>,
    default_namespace: Seq<char>,
    r: CrateRef,
    depth: nat,
    w: Walk,
)
    requires
        walk_ok(cache, w),
    ensures
        step_ok(cache, w, visit(cache, default_namespace, r, depth, w)),
        visit(cache, default_namespace, r, depth, w) matches Ok(w2) ==> w2.visited.contains(
            display_form(r),
        ),
    decreases MAX_IMPORT_DEPTH + 1 - depth, 0nat,
{
    let key = display_form(r);
    if w.visited.contains(key) {
        assert(w.resolved.subrange(0, w.resolved.len() as int) =~= w.resolved);
    } else if depth > MAX_IMPORT_DEPTH {
    } else if !cache.contains_key(r) {
    } else {
        let w1 = Walk { visited: w.visited.push(key), resolved: w.resolved.push(r) };
        assert(w1.visited =~= display_forms(w1.resolved));
        assert(w1.resolved.subrange(0, w.resolved.len() as int) =~= w.resolved);
        lemma_visit_imports(
            cache,
            default_namespace,
            r,
            cache[r].imports,
            cache[r].imports.len(),
            depth + 1,
            w1,
        );
        let out = visit_imports(
            cache,
            default_namespace,
            r,
            cache[r].imports,
            cache[r].imports.len(),
            depth + 1,
            w1,
        );
        if out is Ok {
            let w2 = out->Ok_0;
            let n = w.resolved.len() as int;
            assert(w2.resolved.subrange(0, n) =~= w2.resolved.subrange(0, n + 1).subrange(0, n));
            assert(w2.resolved.subrange(0, n + 1)[n] == r);
            assert(w2.resolved[n] == r);
            assert(w2.visited[n] == key);
        }
    }
}

/// As [`lemma_visit`], for the first `n` imports of a manifest.
pub proof fn lemma_visit_imports(
    cache: Map<CrateRef, ManifestSpec>,
    default_namespace: Seq<char>,
    importer: CrateRef,
    imports: Seq<Seq<char>>,
    n: nat,
    depth: nat,
    w: Walk,
)
    requires
        walk_ok(cache, w),
    ensures
        step_ok(
            cache,
            w,
            visit_imports(cache, default_namespace, importer, imports, n, depth, w),
        ),
    decreases MAX_IMPORT_DEPTH + 1 - depth, n + 1,
{
    if n == 0 || n > imports.len() {
        assert(w.resolved.subrange(0, w.resolved.len() as int) =~= w.resolved);
    } else {
        lemma_visit_imports(
            cache,
            default_namespace,
            importer,
            imports,
            (n - 1) as nat,
            depth,
            w,
        );
        let prev = visit_imports(
            cache,
            default_namespace,
            importer,
            imports,
            (n - 1) as nat,
            depth,
            w,
        );
        if prev is Ok {
            let w1 = prev->Ok_0;
            match parse_reference(imports[n - 1], default_namespace) {
                Err(_) => {},
                Ok(r) => {
                    lemma_visit(cache, default_namespace, r, depth, w1);
                    let out = visit(cache, default_namespace, r, depth, w1);
                    if out is Ok {
                        let w2 = out->Ok_0;
                        let k = w.resolved.len() as int;
                        assert(w2.resolved.subrange(0, k) =~= w2.resolved.subrange(
                            0,
                            w1.resolved.len() as int,
                        ).subrange(0, k));
                    }
                },
            }
        }
    }
}

/// As [`lemma_visit`], for the first `n` starting crates: the first
/// starting crate is the first crate reached.
pub proof fn lemma_visit_roots(
    cache: Map<CrateRef, ManifestSpec>,
    default_namespace: Seq<char>,
    roots: Seq<CrateRef>,
    n: nat,
)
    requires
        n <= roots.len(),
    ensures
        step_ok(cache, empty_walk(), visit_roots(cache, default_namespace, roots, n)),
        visit_roots(cache, default_namespace, roots, n) matches Ok(w) ==> (n >= 1
            ==> w.resolved.len() >= 1 && w.resolved[0] == roots[0]),
    decreases n,
{
    let e = empty_walk();
    assert(e.visited =~= display_forms(e.resolved));
    if n == 0 {
        assert(e.resolved.subrange(0, 0) =~= e.resolved);
    } else {
        lemma_visit_roots(cache, default_namespace, roots, (n - 1) as nat);
        let prev = visit_roots(cache, default_namespace, roots, (n - 1) as nat);
        if prev is Ok {
            let w1 = prev->Ok_0;
            lemma_visit(cache, default_namespace, roots[n - 1], 0, w1);
            let out = visit(cache, default_namespace, roots[n - 1], 0, w1);
            if out is Ok {
                let w2 = out->Ok_0;
                assert(w2.resolved.subrange(0, 0) =~= e.resolved);
                if n >= 2 {
                    assert(w2.resolved.subrange(0, w1.resolved.len() as int)[0] == w1.resolved[0]);
                } else {
                    assert(!w1.visited.contains(display_form(roots[0])));
                    let w0 = Walk {
                        visited: w1.visited.push(display_form(roots[0])),
                        resolved: w1.resolved.push(roots[0]),
                    };
                    assert(w0.visited =~= display_forms(w0.resolved));
                    lemma_visit_imports(
                        cache,
                        default_namespace,
                        roots[0],
                        cache[roots[0]].imports,
                        cache[roots[0]].imports.len(),
                        1,
                        w0,
                    );
                    assert(w2.resolved.subrange(0, 1)[0] == w0.resolved[0]);
                }
            }
        }
    }
}

/// The resolved set holds no crate twice, holds cached crates only, and
/// starts with the first starting crate. A resolution that fails for want
/// of a cached manifest names a crate that the cache does not hold, so
/// that caching the crate it names always makes progress.
pub proof fn lemma_resolve_properties(
    cache: Map<CrateRef, ManifestSpec>,
    default_namespace: Seq<char>,
    roots: Seq<CrateRef>,
)
    ensures
        match resolve(cache, default_namespace, roots) {
            Ok(rs) => {
                &&& forall|i: int, j: int|
                    0 <= i < j < rs.len() ==> display_form(#[trigger] rs[i]) != display_form(
                        #[trigger] rs[j],
                    )
                &&& forall|i: int| 0 <= i < rs.len() ==> cache.contains_key(#[trigger] rs[i])
                &&& roots.len() >= 1 ==> rs.len() >= 1 && rs[0] == roots[0]
            },
            Err(ResolveFault::NotCached(x)) => !cache.contains_key(x),
            Err(_) => true,
        },
{
    lemma_visit_roots(cache, default_namespace, roots, roots.len());
    match visit_roots(cache, default_namespace, roots, roots.len()) {
        Ok(w) => {
            assert forall|i: int, j: int| 0 <= i < j < w.resolved.len() implies display_form(
                #[trigger] w.resolved[i],
            ) != display_form(#[trigger] w.resolved[j]) by {
                assert(w.visited[i] == display_form(w.resolved[i]));
                assert(w.visited[j] == display_form(w.resolved[j]));
            }
        },
        Err(_) => {},
    }
}

/// Whether an import names a crate that the walk has reached.
pub open spec fn import_reached(default_namespace: Seq<char>, import: Seq<char>, w: Walk) -> bool {
    parse_reference(import, default_namespace) matches Ok(q) && w.visited.contains(display_form(q))
}

/// Whether the walk has reached every import of each crate that it
/// reached from the `from`-th on.
pub open spec fn closed_from(
    cache: Map<CrateRef, ManifestSpec>,
    default_namespace: Seq<char>,
    from: int,
    w: Walk,
) -> bool {
    forall|i: int, k: int|
        from <= i < w.resolved.len() && 0 <= k < cache[w.resolved[i]].imports.len()
            ==> import_reached(default_namespace, #[trigger] cache[w.resolved[i]].imports[k], w)
}

/// Whether the crates reached from the `from`-th on are well formed.
pub open spec fn well_formed_from(from: int, w: Walk) -> bool {
    forall|i: int| from <= i < w.resolved.len() ==> (#[trigger] w.resolved[i]).well_formed()
}

/// What a walk has reached, every walk that continues it has reached.
pub proof fn lemma_reached_stays(
    cache: Map<CrateRef, ManifestSpec>,
    default_namespace: Seq<char>,
    import: Seq<char>,
    w: Walk,
    w2: Walk,
)
    requires
        walk_ok(cache, w),
        walk_ok(cache, w2),
        extends(w, w2),
        import_reached(default_namespace, import, w),
    ensures
        import_reached(default_namespace, import, w2),
{
    let key = display_form(parse_reference(import, default_namespace)->Ok_0);
    let j = choose|j: int| 0 <= j < w.visited.len() && w.visited[j] == key;
    assert(w2.resolved.subrange(0, w.resolved.len() as int)[j] == w.resolved[j]);
    assert(w2.visited[j] == key);
}

/// A visit that succeeds leaves no import behind: each crate that it adds
/// has all its imports among the crates reached. Where the crate visited
/// is well formed, so is every crate added.
pub proof fn lemma_visit_closed(
    cache: Map<CrateRef, ManifestSpec>,
    default_namespace: Seq<char>,
    r: CrateRef,
    depth: nat,
    w: Walk,
)
    requires
        walk_ok(cache, w),
    ensures
        visit(cache, default_namespace, r, depth, w) matches Ok(w2) ==> closed_from(
            cache,
            default_namespace,
            w.resolved.len() as int,
            w2,
        ) && (r.well_formed() ==> well_formed_from(w.resolved.len() as int, w2)),
    decreases MAX_IMPORT_DEPTH + 1 - depth, 0nat,
{
    let key = display_form(r);
    if !w.visited.contains(key) && depth <= MAX_IMPORT_DEPTH && cache.contains_key(r) {
        let w1 = Walk { visited: w.visited.push(key), resolved: w.resolved.push(r) };
        let imports = cache[r].imports;
        assert(w1.visited =~= display_forms(w1.resolved));
        lemma_visit_imports(cache, default_namespace, r, imports, imports.len(), depth + 1, w1);
        lemma_visit_imports_closed(
            cache,
            default_namespace,
            r,
            imports,
            imports.len(),
            depth + 1,
            w1,
        );
        let out = visit_imports(cache, default_namespace, r, imports, imports.len(), depth + 1, w1);
        if out is Ok {
            let w2 = out->Ok_0;
            let n = w.resolved.len() as int;
            assert(w2.resolved.subrange(0, n + 1)[n] == r);
            assert(w2.resolved[n] == r);
        }
    }
}

/// As [`lemma_visit_closed`], for the first `n` imports of a manifest:
/// these imports are themselves among the crates reached, and every crate
/// added is well formed.
pub proof fn lemma_visit_imports_closed(
    cache: Map<CrateRef, ManifestSpec>,
    default_namespace: Seq<char>,
    importer: CrateRef,
    imports: Seq<Seq<char>>,
    n: nat,
    depth: nat,
    w: Walk,
)
    requires
        walk_ok(cache, w),
        n <= imports.len(),
    ensures
        visit_imports(cache, default_namespace, importer, imports, n, depth, w) matches Ok(w2) ==> {
            &&& closed_from(cache, default_namespace, w.resolved.len() as int, w2)
            &&& well_formed_from(w.resolved.len() as int, w2)
            &&& forall|k: int|
                0 <= k < n ==> import_reached(default_namespace, #[trigger] imports[k], w2)
        },
    decreases MAX_IMPORT_DEPTH + 1 - depth, n + 1,
{
    if n > 0 {
        let m = (n - 1) as nat;
        lemma_visit_imports(cache, default_namespace, importer, imports, m, depth, w);
        lemma_visit_imports_closed(cache, default_namespace, importer, imports, m, depth, w);
        let prev = visit_imports(cache, default_namespace, importer, imports, m, depth, w);
        if prev is Ok {
            let w1 = prev->Ok_0;
            match parse_reference(imports[n - 1], default_namespace) {
                Err(_) => {},
                Ok(q) => {
                    lemma_visit(cache, default_namespace, q, depth, w1);
                    lemma_visit_closed(cache, default_namespace, q, depth, w1);
                    let out = visit(cache, default_namespace, q, depth, w1);
                    if out is Ok {
                        let w2 = out->Ok_0;
                        let from = w.resolved.len() as int;
                        let mid = w1.resolved.len() as int;
                        assert(q.well_formed());
                        assert forall|i: int| from <= i < mid implies w2.resolved[i]
                            == w1.resolved[i] by {
                            assert(w2.resolved.subrange(0, mid)[i] == w1.resolved[i]);
                        }
                        assert forall|i: int, k: int|
                            from <= i < w2.resolved.len() && 0 <= k
                                < cache[w2.resolved[i]].imports.len() implies import_reached(
                            default_namespace,
                            #[trigger] cache[w2.resolved[i]].imports[k],
                            w2,
                        ) by {
                            if i < mid {
                                let import = cache[w1.resolved[i]].imports[k];
                                assert(import_reached(default_namespace, import, w1));
                                lemma_reached_stays(cache, default_namespace, import, w1, w2);
                            }
                        }
                        assert forall|k: int| 0 <= k < n implies import_reached(
                            default_namespace,
                            #[trigger] imports[k],
                            w2,
                        ) by {
                            if k < n - 1 {
                                lemma_reached_stays(cache, default_namespace, imports[k], w1, w2);
                            }
                        }
                    }
                },
            }
        }
    }
}

/// As [`lemma_visit_closed`], for the first `n` starting crates.
pub proof fn lemma_visit_roots_closed(
    cache: Map<CrateRef, ManifestSpec>,
    default_namespace: Seq<char>,
    roots: Seq<CrateRef>,
    n: nat,
)
    requires
        n <= roots.len(),
    ensures
        visit_roots(cache, default_namespace, roots, n) matches Ok(w) ==> {
            &&& closed_from(cache, default_namespace, 0, w)
            &&& (forall|i: int| 0 <= i < n ==> (#[trigger] roots[i]).well_formed())
                ==> well_formed_from(0, w)
        },
    decreases n,
{
    if n > 0 {
        let m = (n - 1) as nat;
        lemma_visit_roots(cache, default_namespace, roots, m);
        lemma_visit_roots_closed(cache, default_namespace, roots, m);
        let prev = visit_roots(cache, default_namespace, roots, m);
        if prev is Ok {
            let w1 = prev->Ok_0;
            let r = roots[n - 1];
            lemma_visit(cache, default_namespace, r, 0, w1);
            lemma_visit_closed(cache, default_namespace, r, 0, w1);
            let out = visit(cache, default_namespace, r, 0, w1);
            if out is Ok {
                let w2 = out->Ok_0;
                let mid = w1.resolved.len() as int;
                assert forall|i: int| 0 <= i < mid implies w2.resolved[i] == w1.resolved[i] by {
                    assert(w2.resolved.subrange(0, mid)[i] == w1.resolved[i]);
                }
                assert forall|i: int, k: int|
                    0 <= i < w2.resolved.len() && 0 <= k
                        < cache[w2.resolved[i]].imports.len() implies import_reached(
                    default_namespace,
                    #[trigger] cache[w2.resolved[i]].imports[k],
                    w2,
                ) by {
                    if i < mid {
                        let import = cache[w1.resolved[i]].imports[k];
                        assert(import_reached(default_namespace, import, w1));
                        lemma_reached_stays(cache, default_namespace, import, w1, w2);
                    }
                }
                if forall|i: int| 0 <= i < n ==> (#[trigger] roots[i]).well_formed() {
                    assert(r.well_formed());
                    assert forall|i: int| 0 <= i < w2.resolved.len() implies (
                    #[trigger] w2.resolved[i]).well_formed() by {
                        if i < mid {
                            assert(w1.resolved[i].well_formed());
                        }
                    }
                }
            }
        }
    }
}

/// The crates in scope are closed under imports: every import of a crate
/// in scope is a well-formed reference to a crate that is itself in
/// scope, however many imports a manifest declares and however deep the
/// crate lies.
pub proof fn lemma_imports_in_scope(
    cache: Map<CrateRef, ManifestSpec>,
    default_namespace: Seq<char>,
    roots: Seq<CrateRef>,
)
    requires
        forall|i: int| 0 <= i < roots.len() ==> (#[trigger] roots[i]).well_formed(),
    ensures
        resolve(cache, default_namespace, roots) matches Ok(rs) ==> forall|i: int, k: int|
            0 <= i < rs.len() && 0 <= k < cache[rs[i]].imports.len() ==> (parse_reference(
                #[trigger] cache[rs[i]].imports[k],
                default_namespace,
            ) matches Ok(q) && rs.contains(q)),
{
    lemma_visit_roots(cache, default_namespace, roots, roots.len());
    lemma_visit_roots_closed(cache, default_namespace, roots, roots.len());
    match visit_roots(cache, default_namespace, roots, roots.len()) {
        Err(_) => {},
        Ok(w) => {
            let rs = w.resolved;
            assert forall|i: int, k: int|
                0 <= i < rs.len() && 0 <= k < cache[rs[i]].imports.len() implies (parse_reference(
                #[trigger] cache[rs[i]].imports[k],
                default_namespace,
            ) matches Ok(q) && rs.contains(q)) by {
                let import = cache[rs[i]].imports[k];
                assert(import_reached(default_namespace, import, w));
                let q = parse_reference(import, default_namespace)->Ok_0;
                let j = choose|j: int| 0 <= j < w.visited.len() && w.visited[j] == display_form(q);
                assert(w.visited[j] == display_form(rs[j]));
                assert(rs[j].well_formed());
                assert(q.well_formed());
                crate::manifest::lemma_display_round_trip(rs[j], default_namespace);
                crate::manifest::lemma_display_round_trip(q, default_namespace);
                assert(rs[j] == q);
            }
        },
    }
}

/// Two crates that import each other resolve, from the first of them, to
/// exactly the two of them, each once, the first one first.
pub proof fn lemma_two_cycle(
    cache: Map<CrateRef, ManifestSpec>,
    default_namespace: Seq<char>,
    a: CrateRef,
    b: CrateRef,
)
    requires
        display_form(a) != display_form(b),
        cache.contains_key(a),
        cache.contains_key(b),
        cache[a].imports.len() == 1,
        cache[b].imports.len() == 1,
        parse_reference(cache[a].imports[0], default_namespace) == Ok::<CrateRef, ReferenceFault>(b),
        parse_reference(cache[b].imports[0], default_namespace) == Ok::<CrateRef, ReferenceFault>(a),
    ensures
        resolve(cache, default_namespace, seq![a]) == Ok::<Seq<CrateRef>, ResolveFault>(seq![a, b]),
{
    let dns = default_namespace;
    let w0 = empty_walk();
    let w1 = Walk { visited: seq![display_form(a)], resolved: seq![a] };
    let w2 = Walk { visited: seq![display_form(a), display_form(b)], resolved: seq![a, b] };
    assert(w0.visited.push(display_form(a)) =~= w1.visited);
    assert(w0.resolved.push(a) =~= w1.resolved);
    assert(w1.visited.push(display_form(b)) =~= w2.visited);
    assert(w1.resolved.push(b) =~= w2.resolved);
    assert(w2.visited[0] == display_form(a));
    assert(w2.visited.contains(display_form(a)));
    assert(!w1.visited.contains(display_form(b)));
    // The import of `b` leads back to `a`, which was reached already.
    assert(visit(cache, dns, a, 2, w2) == Ok::<Walk, ResolveFault>(w2));
    assert(visit_imports(cache, dns, b, cache[b].imports, 0, 2, w2) == Ok::<Walk, ResolveFault>(
        w2,
    ));
    assert(visit_imports(cache, dns, b, cache[b].imports, 1, 2, w2) == Ok::<Walk, ResolveFault>(
        w2,
    ));
    assert(visit(cache, dns, b, 1, w1) == Ok::<Walk, ResolveFault>(w2));
    assert(visit_imports(cache, dns, a, cache[a].imports, 0, 1, w1) == Ok::<Walk, ResolveFault>(
        w1,
    ));
    assert(visit_imports(cache, dns, a, cache[a].imports, 1, 1, w1) == Ok::<Walk, ResolveFault>(
        w2,
    ));
    assert(visit(cache, dns, a, 0, w0) == Ok::<Walk, ResolveFault>(w2));
    assert(visit_roots(cache, dns, seq![a], 0) == Ok::<Walk, ResolveFault>(w0));
    assert(visit_roots(cache, dns, seq![a], 1) == Ok::<Walk, ResolveFault>(w2));
}

/// Whether `chain` is a chain of imports in `cache`: every crate but the
/// last imports exactly the next one, the last imports nothing, and no two
/// crates share a display name.
pub open spec fn is_import_chain(
    cache: Map<CrateRef, ManifestSpec>,
    default_namespace: Seq<char>,
    chain: Seq<CrateRef>,
) -> bool {
    &&& chain.len() >= 1
    &&& forall|i: int| 0 <= i < chain.len() ==> cache.contains_key(#[trigger] chain[i])
    &&& forall|i: int|
        0 <= i < chain.len() - 1 ==> (#[trigger] cache[chain[i]]).imports.len() == 1
            && parse_reference(cache[chain[i]].imports[0], default_namespace) == Ok::<
            CrateRef,
            ReferenceFault,
        >(chain[i + 1])
    &&& cache[chain[chain.len() - 1]].imports.len() == 0
    &&& forall|i: int, j: int|
        0 <= i < j < chain.len() ==> display_form(#[trigger] chain[i]) != display_form(
            #[trigger] chain[j],
        )
}

/// What resolving a chain from its first crate gives: the whole chain
/// where its last crate lies no deeper than the limit, else a failure that
/// names the first crate beyond the limit.
pub open spec fn chain_outcome(chain: Seq<CrateRef>) -> Result<Walk, ResolveFault> {
    if chain.len() <= MAX_IMPORT_DEPTH + 1 {
        Ok(Walk { visited: display_forms(chain), resolved: chain })
    } else {
        Err(
            ResolveFault::DepthExceeded {
                reference: chain[MAX_IMPORT_DEPTH + 1],
                limit: MAX_IMPORT_DEPTH as nat,
            },
        )
    }
}

proof fn lemma_chain_from(
    cache: Map<CrateRef, ManifestSpec>,
    default_namespace: Seq<char>,
    chain: Seq<CrateRef>,
    i: int,
)
    requires
        is_import_chain(cache, default_namespace, chain),
        0 <= i < chain.len(),
        i <= MAX_IMPORT_DEPTH + 1,
    ensures
        visit(
            cache,
            default_namespace,
            chain[i],
            i as nat,
            Walk {
                visited: display_forms(chain.subrange(0, i)),
                resolved: chain.subrange(0, i),
            },
        ) == chain_outcome(chain),
    decreases chain.len() - i,
{
    let dns = default_namespace;
    let w = Walk { visited: display_forms(chain.subrange(0, i)), resolved: chain.subrange(0, i) };
    let r = chain[i];
    assert(!w.visited.contains(display_form(r))) by {
        if w.visited.contains(display_form(r)) {
            let k = choose|k: int| 0 <= k < w.visited.len() && w.visited[k] == display_form(r);
            assert(w.visited[k] == display_form(chain[k]));
        }
    }
    if i > MAX_IMPORT_DEPTH {
    } else {
        let w1 = Walk { visited: w.visited.push(display_form(r)), resolved: w.resolved.push(r) };
        assert(w1.resolved =~= chain.subrange(0, i + 1));
        assert(w1.visited =~= display_forms(chain.subrange(0, i + 1)));
        let imports = cache[r].imports;
        assert(visit_imports(cache, dns, r, imports, 0, (i + 1) as nat, w1) == Ok::<
            Walk,
            ResolveFault,
        >(w1));
        if i == chain.len() - 1 {
            assert(chain.subrange(0, i + 1) =~= chain);
        } else {
            lemma_chain_from(cache, dns, chain, i + 1);
            assert(visit_imports(cache, dns, r, imports, 1, (i + 1) as nat, w1) == visit(
                cache,
                dns,
                chain[i + 1],
                (i + 1) as nat,
                w1,
            ));
        }
    }
}

/// A chain of imports resolves, from its first crate, to the whole chain
/// in order when it has at most as many imports as the limit allows. A
/// chain with one import more fails, and the failure names the limit and
/// the first crate beyond it.
pub proof fn lemma_depth_limit(
    cache: Map<CrateRef, ManifestSpec>,
    default_namespace: Seq<char>,
    chain: Seq<CrateRef>,
)
    requires
        is_import_chain(cache, default_namespace, chain),
    ensures
        chain.len() - 1 <= MAX_IMPORT_DEPTH ==> resolve(cache, default_namespace, seq![chain[0]])
            == Ok::<Seq<CrateRef>, ResolveFault>(chain),
        chain.len() - 1 > MAX_IMPORT_DEPTH ==> resolve(cache, default_namespace, seq![chain[0]])
            == Err::<Seq<CrateRef>, ResolveFault>(
            ResolveFault::DepthExceeded {
                reference: chain[MAX_IMPORT_DEPTH + 1],
                limit: MAX_IMPORT_DEPTH as nat,
            },
        ),
{
    let dns = default_namespace;
    lemma_chain_from(cache, dns, chain, 0);
    let w0 = empty_walk();
    assert(chain.subrange(0, 0) =~= w0.resolved);
    assert(display_forms(chain.subrange(0, 0)) =~= w0.visited);
    assert(visit_roots(cache, dns, seq![chain[0]], 0) == Ok::<Walk, ResolveFault>(w0));
    assert(visit_roots(cache, dns, seq![chain[0]], 1) == visit(cache, dns, chain[0], 0, w0));
}


/// Once the manifest of a crate is removed from the cache, resolving from
/// that crate fails, and the failure names the crate as not cached.
pub proof fn lemma_removed_crate_not_cached(
    cache: Map<CrateRef, ManifestSpec>,
    default_namespace: Seq<char>,
    r: CrateRef,
)
    ensures
        resolve(cache.remove(r), default_namespace, seq![r]) == Err::<Seq<CrateRef>, ResolveFault>(
            ResolveFault::NotCached(r),
        ),
{
    let c = cache.remove(r);
    assert(visit_roots(c, default_namespace, seq![r], 0) == Ok::<Walk, ResolveFault>(empty_walk()));
    assert(!empty_walk().visited.contains(display_form(r)));
    assert(visit(c, default_namespace, r, 0, empty_walk()) == Err::<Walk, ResolveFault>(
        ResolveFault::NotCached(r),
    ));
}


/// Whether `larger` binds every reference that `smaller` binds, to the
/// same manifest.
pub open spec fn holds_all_of(
    larger: Map<CrateRef, ManifestSpec>,
    smaller: Map<CrateRef, ManifestSpec>,
) -> bool {
    forall|k: CrateRef| #[trigger]
        smaller.contains_key(k) ==> larger.contains_key(k) && larger[k] == smaller[k]
}

/// Whether an outcome is a failure for want of a cached manifest.
pub open spec fn is_not_cached(out: Result<Walk, ResolveFault>) -> bool {
    out matches Err(ResolveFault::NotCached(_))
}

/// A visit that does not fail for want of a cached manifest has the same
/// outcome in every cache that holds at least the same manifests.
pub proof fn lemma_visit_in_larger_cache(
    smaller: Map<CrateRef, ManifestSpec>,
    larger: Map<CrateRef, ManifestSpec>,
    default_namespace: Seq<char>,
    r: CrateRef,
    depth: nat,
    w: Walk,
)
    requires
        holds_all_of(larger, smaller),
        !is_not_cached(visit(smaller, default_namespace, r, depth, w)),
    ensures
        visit(larger, default_namespace, r, depth, w) == visit(
            smaller,
            default_namespace,
            r,
            depth,
            w,
        ),
    decreases MAX_IMPORT_DEPTH + 1 - depth, 0nat,
{
    if w.visited.contains(display_form(r)) {
    } else if depth > MAX_IMPORT_DEPTH {
    } else if !smaller.contains_key(r) {
    } else {
        assert(larger.contains_key(r) && larger[r] == smaller[r]);
        lemma_visit_imports_in_larger_cache(
            smaller,
            larger,
            default_namespace,
            r,
            smaller[r].imports,
            smaller[r].imports.len(),
            depth + 1,
            Walk { visited: w.visited.push(display_form(r)), resolved: w.resolved.push(r) },
        );
    }
}

/// As [`lemma_visit_in_larger_cache`], for the first `n` imports of a manifest.
pub proof fn lemma_visit_imports_in_larger_cache(
    smaller: Map<CrateRef, ManifestSpec>,
    larger: Map<CrateRef, ManifestSpec>,
    default_namespace: Seq<char>,
    importer: CrateRef,
    imports: Seq<Seq<char>>,
    n: nat,
    depth: nat,
    w: Walk,
)
    requires
        holds_all_of(larger, smaller),
        !is_not_cached(
            visit_imports(smaller, default_namespace, importer, imports, n, depth, w),
        ),
    ensures
        visit_imports(larger, default_namespace, importer, imports, n, depth, w) == visit_imports(
            smaller,
            default_namespace,
            importer,
            imports,
            n,
            depth,
            w,
        ),
    decreases MAX_IMPORT_DEPTH + 1 - depth, n + 1,
{
    if n == 0 || n > imports.len() {
    } else {
        let prev = visit_imports(
            smaller,
            default_namespace,
            importer,
            imports,
            (n - 1) as nat,
            depth,
            w,
        );
        lemma_visit_imports_in_larger_cache(
            smaller,
            larger,
            default_namespace,
            importer,
            imports,
            (n - 1) as nat,
            depth,
            w,
        );
        if prev is Ok {
            match parse_reference(imports[n - 1], default_namespace) {
                Err(_) => {},
                Ok(r) => {
                    lemma_visit_in_larger_cache(
                        smaller,
                        larger,
                        default_namespace,
                        r,
                        depth,
                        prev->Ok_0,
                    );
                },
            }
        }
    }
}

/// A resolution that does not fail for want of a cached manifest has the
/// same outcome in every cache that holds at least the same manifests. So
/// it is enough to hold the manifests that were asked for: whatever else
/// the cache holds changes nothing.
pub proof fn lemma_resolve_in_larger_cache(
    smaller: Map<CrateRef, ManifestSpec>,
    larger: Map<CrateRef, ManifestSpec>,
    default_namespace: Seq<char>,
    roots: Seq<CrateRef>,
)
    requires
        holds_all_of(larger, smaller),
        !(resolve(smaller, default_namespace, roots) matches Err(ResolveFault::NotCached(_))),
    ensures
        resolve(larger, default_namespace, roots) == resolve(smaller, default_namespace, roots),
{
    lemma_visit_roots_in_larger_cache(smaller, larger, default_namespace, roots, roots.len());
}

proof fn lemma_visit_roots_in_larger_cache(
    smaller: Map<CrateRef, ManifestSpec>,
    larger: Map<CrateRef, ManifestSpec>,
    default_namespace: Seq<char>,
    roots: Seq<CrateRef>,
    n: nat,
)
    requires
        holds_all_of(larger, smaller),
        n <= roots.len(),
        !is_not_cached(visit_roots(smaller, default_namespace, roots, n)),
    ensures
        visit_roots(larger, default_namespace, roots, n) == visit_roots(
            smaller,
            default_namespace,
            roots,
            n,
        ),
    decreases n,
{
    if n > 0 {
        let prev = visit_roots(smaller, default_namespace, roots, (n - 1) as nat);
        lemma_visit_roots_in_larger_cache(
            smaller,
            larger,
            default_namespace,
            roots,
            (n - 1) as nat,
        );
        if prev is Ok {
            lemma_visit_in_larger_cache(
                smaller,
                larger,
                default_namespace,
                roots[n - 1],
                0,
                prev->Ok_0,
            );
        }
    }
}


} // verus!
