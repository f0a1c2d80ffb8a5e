//! The steps between a dispatched name and its engine invocation: finding
//! the command among the crates in scope, merging volumes, and selecting
//! the variables that reach the container.

use crate::config::{lookup, var_names, BulkerConfig, Environment};
use crate::imports::{
    lemma_imports_in_scope, lemma_resolve_properties, resolve, resolve_cratevars_with_imports,
    ResolveError, ResolveFault,
};
use crate::manifest::{
    commands_view, display_form, merge, merge_lists, parse_reference, CommandSpec, CrateRef,
    CrateVars, ManifestSpec, PackageCommand,
};
use crate::manifest_cache::ManifestCache;
use crate::shimlink::strict_env_requested;
use crate::text::{
    clone_strings, split, split_str, starts_with, str_eq, str_starts_with, strings_view, trim,
    trimmed,
};
use vstd::prelude::*;

verus! {

/// The first of the first `n` commands that is called `name`.
pub open spec fn find_command_upto(cmds: Seq<CommandSpec>, name: Seq<char>, n: int) -> Option<
    CommandSpec,
>
    decreases n,
{
    if n <= 0 || n > cmds.len() {
        None
    } else {
        match find_command_upto(cmds, name, n - 1) {
            Some(c) => Some(c),
            None => if cmds[n - 1].command == name {
                Some(cmds[n - 1])
            } else {
                None
            },
        }
    }
}

/// The first command of a manifest that is called `name`.
pub open spec fn find_command(cmds: Seq<CommandSpec>, name: Seq<char>) -> Option<CommandSpec> {
    find_command_upto(cmds, name, cmds.len() as int)
}

/// The command called `name` of the first of the first `n` crates whose
/// cached manifest declares one.
pub open spec fn find_in_crates_upto(
    cache: Map<CrateRef, ManifestSpec>,
    refs: Seq<CrateRef>,
    name: Seq<char>,
    n: int,
) -> Option<CommandSpec>
    decreases n,
{
    if n <= 0 || n > refs.len() {
        None
    } else {
        match find_in_crates_upto(cache, refs, name, n - 1) {
            Some(c) => Some(c),
            None => if cache.contains_key(refs[n - 1]) {
                find_command(cache[refs[n - 1]].commands, name)
            } else {
                None
            },
        }
    }
}

/// The command called `name` among the crates `refs`, in their order: the
/// first manifest that declares the name decides.
pub open spec fn find_in_crates(
    cache: Map<CrateRef, ManifestSpec>,
    refs: Seq<CrateRef>,
    name: Seq<char>,
) -> Option<CommandSpec> {
    find_in_crates_upto(cache, refs, name, refs.len() as int)
}

/// Why a dispatched name led to no command.
#[derive(Debug)]
pub enum DispatchError {
    /// The crates in scope could not be resolved.
    Resolve(ResolveError),
    /// No manifest in scope declares the command.
    CommandNotFound { command: String, active_crate: CrateVars },
}

/// The mathematical value of a [`DispatchError`].
pub enum DispatchFault {
    Resolve(ResolveFault),
    CommandNotFound { command: Seq<char>, active_crate: CrateRef },
}

impl View for DispatchError {
    type V = DispatchFault;

    open spec fn view(&self) -> DispatchFault {
        match self {
            DispatchError::Resolve(e) => DispatchFault::Resolve(e@),
            DispatchError::CommandNotFound { command, active_crate } => {
                DispatchFault::CommandNotFound { command: command@, active_crate: active_crate@ }
            },
        }
    }
}

/// The text of the message for a failed dispatch.
pub open spec fn dispatch_error_message(e: DispatchFault) -> Seq<char> {
    match e {
        DispatchFault::Resolve(r) => crate::imports::resolve_error_message(r),
        DispatchFault::CommandNotFound { command, active_crate } => "Command '"@ + command
            + "' not found in crate '"@ + display_form(active_crate) + "' or its imports"@,
    }
}

impl DispatchError {
    /// The human-readable message: it names the command and the active crate.
    pub fn message(&self) -> (s: String)
        ensures
            s@ == dispatch_error_message(self@),
    {
        match self {
            DispatchError::Resolve(e) => e.message(),
            DispatchError::CommandNotFound { command, active_crate } => {
                let mut s = String::from_str("Command '");
                s.append(command.as_str());
                s.append("' not found in crate '");
                s.append(active_crate.display_name().as_str());
                s.append("' or its imports");
                s
            },
        }
    }
}

/// What looking up `name` from the active crate gives.
pub open spec fn command_lookup(
    cache: Map<CrateRef, ManifestSpec>,
    default_namespace: Seq<char>,
    primary: CrateRef,
    name: Seq<char>,
) -> Result<CommandSpec, DispatchFault> {
    match resolve(cache, default_namespace, seq![primary]) {
        Err(e) => Err(DispatchFault::Resolve(e)),
        Ok(refs) => match find_in_crates(cache, refs, name) {
            Some(c) => Ok(c),
            None => Err(DispatchFault::CommandNotFound { command: name, active_crate: primary }),
        },
    }
}

/// The views of the outcome of a lookup.
pub open spec fn lookup_view(r: Result<PackageCommand, DispatchError>) -> Result<
    CommandSpec,
    DispatchFault,
> {
    match r {
        Ok(c) => Ok(c@),
        Err(e) => Err(e@),
    }
}

/// The first command of `cmds` that is called `name`.
pub fn find_command_in<'a>(cmds: &'a [PackageCommand], name: &str) -> (r: Option<
    &'a PackageCommand,
>)
    ensures
        match r {
            Some(c) => find_command(commands_view(cmds@), name@) == Some(c@),
            None => find_command(commands_view(cmds@), name@) is None,
        },
{
    let ghost cs = commands_view(cmds@);
    let mut i: usize = 0;
    while i < cmds.len()
        invariant
            i <= cmds.len(),
            cs == commands_view(cmds@),
            find_command_upto(cs, name@, i as int) is None,
        decreases cmds.len() - i,
    {
        assert(cs[i as int] == cmds@[i as int]@);
        if str_eq(cmds[i].command.as_str(), name) {
            proof {
                lemma_find_command_stable(cs, name@, i + 1, cs.len() as int);
            }
            return Some(&cmds[i]);
        }
        i += 1;
    }
    None
}

/// Once a command is found among the first `n`, looking further changes nothing.
pub proof fn lemma_find_command_stable(cmds: Seq<CommandSpec>, name: Seq<char>, n: int, m: int)
    requires
        0 <= n <= m <= cmds.len(),
        find_command_upto(cmds, name, n) is Some,
    ensures
        find_command_upto(cmds, name, m) == find_command_upto(cmds, name, n),
    decreases m - n,
{
    if n < m {
        lemma_find_command_stable(cmds, name, n, m - 1);
    }
}

/// Once a command is found among the first `n` crates, looking further
/// changes nothing.
pub proof fn lemma_find_in_crates_stable(
    cache: Map<CrateRef, ManifestSpec>,
    refs: Seq<CrateRef>,
    name: Seq<char>,
    n: int,
    m: int,
)
    requires
        0 <= n <= m <= refs.len(),
        find_in_crates_upto(cache, refs, name, n) is Some,
    ensures
        find_in_crates_upto(cache, refs, name, m) == find_in_crates_upto(cache, refs, name, n),
    decreases m - n,
{
    if n < m {
        lemma_find_in_crates_stable(cache, refs, name, n, m - 1);
    }
}

/// Finds the command called `command_name` for the active crate: the
/// crates in scope are resolved from `primary_cv`, and the first of them
/// whose manifest declares the name decides.
pub fn find_command_in_crate_with_imports(
    cache: &ManifestCache,
    default_namespace: &str,
    primary_cv: &CrateVars,
    command_name: &str,
) -> (r: Result<PackageCommand, DispatchError>)
    requires
        cache.well_formed(),
    ensures
        lookup_view(r) == command_lookup(cache@, default_namespace@, primary_cv@, command_name@),
{
    let mut roots: Vec<CrateVars> = Vec::new();
    roots.push(primary_cv.clone());
    proof {
        assert(crate::manifest::refs_view(roots@) =~= seq![primary_cv@]);
    }
    let all = match resolve_cratevars_with_imports(cache, default_namespace, roots.as_slice()) {
        Ok(v) => v,
        Err(e) => {
            return Err(DispatchError::Resolve(e));
        },
    };
    let ghost refs = crate::manifest::refs_view(all@);
    let mut i: usize = 0;
    while i < all.len()
        invariant
            i <= all.len(),
            cache.well_formed(),
            refs == crate::manifest::refs_view(all@),
            resolve(cache@, default_namespace@, seq![primary_cv@]) == Ok::<
                Seq<CrateRef>,
                ResolveFault,
            >(refs),
            find_in_crates_upto(cache@, refs, command_name@, i as int) is None,
        decreases all.len() - i,
    {
        assert(refs[i as int] == all@[i as int]@);
        match cache.load(&all[i]) {
            Some(manifest) => {
                match find_command_in(manifest.manifest.commands.as_slice(), command_name) {
                    Some(pkg) => {
                        proof {
                            assert(find_in_crates_upto(cache@, refs, command_name@, i + 1)
                                == Some(pkg@));
                            lemma_find_in_crates_stable(
                                cache@,
                                refs,
                                command_name@,
                                i + 1,
                                refs.len() as int,
                            );
                        }
                        return Ok(pkg.clone());
                    },
                    None => {},
                }
            },
            None => {},
        }
        i += 1;
    }
    Err(
        DispatchError::CommandNotFound {
            command: String::from_str(command_name),
            active_crate: primary_cv.clone(),
        },
    )
}

/// Among the crates in scope, the first one that declares a name decides
/// which command the name means. This holds wherever that crate stands: a
/// command declared only in a crate that was imported, at whatever depth,
/// is found there.
pub proof fn lemma_first_declaring_crate_decides(
    cache: Map<CrateRef, ManifestSpec>,
    refs: Seq<CrateRef>,
    name: Seq<char>,
    k: int,
)
    requires
        0 <= k < refs.len(),
        cache.contains_key(refs[k]),
        find_command(cache[refs[k]].commands, name) is Some,
        forall|j: int|
            0 <= j < k && cache.contains_key(#[trigger] refs[j]) ==> find_command(
                cache[refs[j]].commands,
                name,
            ) is None,
    ensures
        find_in_crates(cache, refs, name) == find_command(cache[refs[k]].commands, name),
{
    lemma_none_before(cache, refs, name, k);
    lemma_find_in_crates_stable(cache, refs, name, k + 1, refs.len() as int);
}

proof fn lemma_none_before(
    cache: Map<CrateRef, ManifestSpec>,
    refs: Seq<CrateRef>,
    name: Seq<char>,
    k: int,
)
    requires
        0 <= k <= refs.len(),
        forall|j: int|
            0 <= j < k && cache.contains_key(#[trigger] refs[j]) ==> find_command(
                cache[refs[j]].commands,
                name,
            ) is None,
    ensures
        find_in_crates_upto(cache, refs, name, k) is None,
    decreases k,
{
    if k > 0 {
        lemma_none_before(cache, refs, name, k - 1);
    }
}

/// Where the active crate itself declares a name, its own definition is
/// the one found, whatever its imports declare under the same name.
pub proof fn lemma_own_definition_wins(
    cache: Map<CrateRef, ManifestSpec>,
    default_namespace: Seq<char>,
    primary: CrateRef,
    name: Seq<char>,
)
    requires
        resolve(cache, default_namespace, seq![primary]) is Ok,
        cache.contains_key(primary),
        find_command(cache[primary].commands, name) is Some,
    ensures
        command_lookup(cache, default_namespace, primary, name) == Ok::<
            CommandSpec,
            DispatchFault,
        >(find_command(cache[primary].commands, name)->0),
{
    lemma_resolve_properties(cache, default_namespace, seq![primary]);
    let refs = resolve(cache, default_namespace, seq![primary])->Ok_0;
    lemma_first_declaring_crate_decides(cache, refs, name, 0);
}

/// A command that some crate in scope declares is found.
pub proof fn lemma_declared_in_scope_is_found(
    cache: Map<CrateRef, ManifestSpec>,
    refs: Seq<CrateRef>,
    name: Seq<char>,
    k: int,
)
    requires
        0 <= k < refs.len(),
        cache.contains_key(refs[k]),
        find_command(cache[refs[k]].commands, name) is Some,
    ensures
        find_in_crates(cache, refs, name) is Some,
{
    assert(find_in_crates_upto(cache, refs, name, k + 1) is Some);
    lemma_find_in_crates_stable(cache, refs, name, k + 1, refs.len() as int);
}

/// The crate that the `k`-th import of `r` names.
pub open spec fn imported_crate(
    cache: Map<CrateRef, ManifestSpec>,
    default_namespace: Seq<char>,
    r: CrateRef,
    k: int,
) -> CrateRef {
    parse_reference(cache[r].imports[k], default_namespace)->Ok_0
}

/// Lookup reaches through imports, whatever their number and depth: a
/// name that is declared by a crate which some crate in scope imports is
/// found from the active crate. Where no other crate in scope declares
/// the name, the command found is the one of that imported crate.
pub proof fn lemma_lookup_through_imports(
    cache: Map<CrateRef, ManifestSpec>,
    default_namespace: Seq<char>,
    primary: CrateRef,
    name: Seq<char>,
    i: int,
    k: int,
)
    requires
        primary.well_formed(),
        resolve(cache, default_namespace, seq![primary]) matches Ok(rs) && 0 <= i < rs.len() && 0
            <= k < cache[rs[i]].imports.len() && find_command(
            cache[imported_crate(cache, default_namespace, rs[i], k)].commands,
            name,
        ) is Some,
    ensures
        command_lookup(cache, default_namespace, primary, name) is Ok,
        ({
            let rs = resolve(cache, default_namespace, seq![primary])->Ok_0;
            let q = imported_crate(cache, default_namespace, rs[i], k);
            (forall|j: int|
                0 <= j < rs.len() && #[trigger] rs[j] != q ==> find_command(
                    cache[rs[j]].commands,
                    name,
                ) is None) ==> command_lookup(cache, default_namespace, primary, name) == Ok::<
                CommandSpec,
                DispatchFault,
            >(find_command(cache[q].commands, name)->0)
        }),
{
    let roots = seq![primary];
    let rs = resolve(cache, default_namespace, roots)->Ok_0;
    let q = imported_crate(cache, default_namespace, rs[i], k);
    lemma_imports_in_scope(cache, default_namespace, roots);
    lemma_resolve_properties(cache, default_namespace, roots);
    assert(parse_reference(cache[rs[i]].imports[k], default_namespace) is Ok && rs.contains(q));
    let at = choose|at: int| 0 <= at < rs.len() && rs[at] == q;
    lemma_declared_in_scope_is_found(cache, rs, name, at);
    if forall|j: int|
        0 <= j < rs.len() && #[trigger] rs[j] != q ==> find_command(cache[rs[j]].commands, name)
            is None {
        assert forall|j: int| 0 <= j < at && cache.contains_key(#[trigger] rs[j]) implies find_command(
            cache[rs[j]].commands,
            name,
        ) is None by {
            assert(display_form(rs[j]) != display_form(rs[at]));
        }
        lemma_first_declaring_crate_decides(cache, rs, name, at);
    }
}

/// The volumes of one call: the configured ones unless the command turns
/// them off, then the command's own, then the directories of its
/// arguments, then the temporary directory; each one once, in that order.
pub open spec fn merged_volumes(
    config_volumes: Seq<Seq<char>>,
    pkg: CommandSpec,
    auto_mounts: Seq<Seq<char>>,
    tmpdir: Seq<char>,
) -> Seq<Seq<char>> {
    merge(
        merge(
            merge(
                if pkg.no_default_volumes {
                    Seq::empty()
                } else {
                    config_volumes
                },
                pkg.volumes,
            ),
            auto_mounts,
        ),
        seq![tmpdir],
    )
}

/// Merges the volumes of one call.
pub fn merge_volumes(
    config: &BulkerConfig,
    pkg: &PackageCommand,
    auto_mounts: &[String],
    tmpdir: &str,
) -> (volumes: Vec<String>)
    ensures
        strings_view(volumes@) == merged_volumes(
            strings_view(config.bulker.volumes@),
            pkg@,
            strings_view(auto_mounts@),
            tmpdir@,
        ),
{
    let mut volumes: Vec<String> = if pkg.no_default_volumes {
        Vec::new()
    } else {
        clone_strings(&config.bulker.volumes)
    };
    proof {
        if pkg.no_default_volumes {
            assert(strings_view(volumes@) =~= Seq::<Seq<char>>::empty());
        }
    }
    merge_lists(&mut volumes, pkg.volumes.as_slice());
    merge_lists(&mut volumes, auto_mounts);
    let mut last: Vec<String> = Vec::new();
    last.push(String::from_str(tmpdir));
    proof {
        assert(strings_view(last@) =~= seq![tmpdir@]);
    }
    merge_lists(&mut volumes, last.as_slice());
    volumes
}

/// Whether the engine sets the variable itself.
pub open spec fn is_engine_managed(name: Seq<char>) -> bool {
    name == "PATH"@ || name == "HOME"@ || name == "HOSTNAME"@
}

/// Whether the variable selects a locale; a container seldom holds the
/// locale data to match.
pub open spec fn is_locale_var(name: Seq<char>) -> bool {
    name == "LANG"@ || name == "LANGUAGE"@ || name == "LC_ALL"@ || name == "LC_COLLATE"@ || name
        == "LC_CTYPE"@ || name == "LC_MESSAGES"@ || name == "LC_MONETARY"@ || name
        == "LC_NUMERIC"@ || name == "LC_TIME"@
}

/// Whether the variable is one of this system's own control variables.
pub open spec fn is_internal_var(name: Seq<char>) -> bool {
    starts_with(name, "BULKER"@)
}

/// Whether normal mode forwards the variable.
pub open spec fn is_forwardable(name: Seq<char>) -> bool {
    !is_engine_managed(name) && !is_locale_var(name) && !is_internal_var(name)
}

/// Those of the first `n` names that normal mode forwards, in order.
pub open spec fn forwardable_upto(names: Seq<Seq<char>>, n: int) -> Seq<Seq<char>>
    decreases n,
{
    if n <= 0 || n > names.len() {
        Seq::empty()
    } else if is_forwardable(names[n - 1]) {
        forwardable_upto(names, n - 1).push(names[n - 1])
    } else {
        forwardable_upto(names, n - 1)
    }
}

/// The names that normal mode forwards.
pub open spec fn forwardable(names: Seq<Seq<char>>) -> Seq<Seq<char>> {
    forwardable_upto(names, names.len() as int)
}

fn name_is_forwardable(name: &str) -> (r: bool)
    ensures
        r == is_forwardable(name@),
{
    !(str_eq(name, "PATH") || str_eq(name, "HOME") || str_eq(name, "HOSTNAME") || str_eq(
        name,
        "LANG",
    ) || str_eq(name, "LANGUAGE") || str_eq(name, "LC_ALL") || str_eq(name, "LC_COLLATE")
        || str_eq(name, "LC_CTYPE") || str_eq(name, "LC_MESSAGES") || str_eq(
        name,
        "LC_MONETARY",
    ) || str_eq(name, "LC_NUMERIC") || str_eq(name, "LC_TIME") || str_starts_with(
        name,
        "BULKER",
    ))
}

/// The names of the variables of `env` that normal mode forwards: all but
/// those the engine manages, the locale variables, and this system's own.
pub fn collect_host_envvars(env: &Environment) -> (r: Vec<String>)
    ensures
        strings_view(r@) == forwardable(var_names(env.vars())),
{
    let names = env.names();
    let ghost ns = strings_view(names@);
    let mut r: Vec<String> = Vec::new();
    let mut i: usize = 0;
    proof {
        assert(strings_view(r@) =~= forwardable_upto(ns, 0));
    }
    while i < names.len()
        invariant
            i <= names.len(),
            ns == strings_view(names@),
            strings_view(r@) == forwardable_upto(ns, i as int),
        decreases names.len() - i,
    {
        assert(ns[i as int] == names@[i as int]@);
        if name_is_forwardable(names[i].as_str()) {
            let item = names[i].clone();
            proof {
                assert(strings_view(r@.push(item)) =~= strings_view(r@).push(item@));
            }
            r.push(item);
        }
        i += 1;
    }
    r
}

/// What normal mode forwards holds nothing that is reserved, and holds
/// every name of the host that is not.
pub proof fn lemma_forwardable(names: Seq<Seq<char>>, n: int)
    requires
        0 <= n <= names.len(),
    ensures
        forall|i: int|
            0 <= i < forwardable_upto(names, n).len() ==> is_forwardable(
                #[trigger] forwardable_upto(names, n)[i],
            ),
        forall|i: int|
            0 <= i < n && is_forwardable(names[i]) ==> forwardable_upto(names, n).contains(
                #[trigger] names[i],
            ),
    decreases n,
{
    if n > 0 {
        lemma_forwardable(names, n - 1);
        let prev = forwardable_upto(names, n - 1);
        let cur = forwardable_upto(names, n);
        assert forall|i: int| 0 <= i < n && is_forwardable(names[i]) implies cur.contains(
            #[trigger] names[i],
        ) by {
            if i < n - 1 {
                let w = choose|w: int| 0 <= w < prev.len() && prev[w] == names[i];
                assert(cur[w] == names[i]);
            } else {
                assert(cur[cur.len() - 1] == names[i]);
            }
        }
    }
}

/// The non-empty trimmed texts among the first `n` pieces.
pub open spec fn trimmed_nonempty(pieces: Seq<Seq<char>>, n: int) -> Seq<Seq<char>>
    decreases n,
{
    if n <= 0 || n > pieces.len() {
        Seq::empty()
    } else if trim(pieces[n - 1]).len() > 0 {
        trimmed_nonempty(pieces, n - 1).push(trim(pieces[n - 1]))
    } else {
        trimmed_nonempty(pieces, n - 1)
    }
}

/// The names in a comma-separated extension list.
pub open spec fn extension_names(extra: Seq<char>) -> Seq<Seq<char>> {
    let pieces = split(extra, ',');
    trimmed_nonempty(pieces, pieces.len() as int)
}

/// The allow-list of strict mode: the configured names, then the
/// command's own, then the caller's extension list; each name once.
pub open spec fn allowed_envvars(
    config_envvars: Seq<Seq<char>>,
    pkg_envvars: Seq<Seq<char>>,
    extra: Option<Seq<char>>,
) -> Seq<Seq<char>> {
    let base = merge(config_envvars, pkg_envvars);
    match extra {
        Some(e) => merge(base, extension_names(e)),
        None => base,
    }
}

/// The names of the variables that reach the container: the allow-list
/// in strict mode, everything that is not reserved in normal mode.
pub open spec fn selected_envvars(
    config_envvars: Seq<Seq<char>>,
    pkg_envvars: Seq<Seq<char>>,
    vars: Seq<(Seq<char>, Seq<char>)>,
) -> Seq<Seq<char>> {
    if strict_env_requested(vars) {
        allowed_envvars(config_envvars, pkg_envvars, lookup(vars, "BULKER_EXTRA_ENVVARS"@))
    } else {
        forwardable(var_names(vars))
    }
}

/// Selects the variables whose names are handed to the engine.
pub fn select_envvars(config: &BulkerConfig, pkg: &PackageCommand, env: &Environment) -> (r: Vec<
    String,
>)
    ensures
        strings_view(r@) == selected_envvars(
            strings_view(config.bulker.envvars@),
            strings_view(pkg.envvars@),
            env.vars(),
        ),
{
    if env.contains("BULKER_STRICT_ENV") {
        let mut vars = clone_strings(&config.bulker.envvars);
        merge_lists(&mut vars, pkg.envvars.as_slice());
        match env.get("BULKER_EXTRA_ENVVARS") {
            Some(extra) => {
                let pieces = split_str(extra.as_str(), ',');
                let ghost ps = strings_view(pieces@);
                let mut extras: Vec<String> = Vec::new();
                let mut i: usize = 0;
                proof {
                    assert(strings_view(extras@) =~= trimmed_nonempty(ps, 0));
                }
                while i < pieces.len()
                    invariant
                        i <= pieces.len(),
                        ps == strings_view(pieces@),
                        strings_view(extras@) == trimmed_nonempty(ps, i as int),
                    decreases pieces.len() - i,
                {
                    assert(ps[i as int] == pieces@[i as int]@);
                    let t = trimmed(pieces[i].as_str());
                    if t.as_str().unicode_len() > 0 {
                        proof {
                            assert(strings_view(extras@.push(t)) =~= strings_view(extras@).push(
                                t@,
                            ));
                        }
                        extras.push(t);
                    }
                    i += 1;
                }
                merge_lists(&mut vars, extras.as_slice());
            },
            None => {},
        }
        vars
    } else {
        collect_host_envvars(env)
    }
}

/// In strict mode without an extension list, what reaches the container
/// is the allow-list of configuration and command and nothing else,
/// whatever else the host environment holds.
pub proof fn lemma_strict_selection(
    config_envvars: Seq<Seq<char>>,
    pkg_envvars: Seq<Seq<char>>,
    vars: Seq<(Seq<char>, Seq<char>)>,
)
    requires
        strict_env_requested(vars),
        lookup(vars, "BULKER_EXTRA_ENVVARS"@) is None,
    ensures
        selected_envvars(config_envvars, pkg_envvars, vars) == merge(config_envvars, pkg_envvars),
{
}

/// Whether a character needs no quoting in a shell.
pub open spec fn is_shell_safe(c: char) -> bool {
    ('a' <= c && c <= 'z') || ('A' <= c && c <= 'Z') || ('0' <= c && c <= '9') || c == '-' || c
        == '_' || c == '=' || c == '/' || c == ',' || c == '.' || c == '+'
}

/// Whether a word has to be quoted: it is empty or holds a character that
/// is not safe.
pub open spec fn needs_quoting(s: Seq<char>) -> bool {
    s.len() == 0 || exists|i: int| 0 <= i < s.len() && !is_shell_safe(#[trigger] s[i])
}

/// The first `n` characters of `s` as they stand between single quotes:
/// a single quote and an exclamation mark leave the quotes, escaped by a
/// backslash, and enter them again.
pub open spec fn quoted_upto(s: Seq<char>, n: int) -> Seq<char>
    decreases n,
{
    if n <= 0 || n > s.len() {
        Seq::empty()
    } else if s[n - 1] == '\'' || s[n - 1] == '!' {
        quoted_upto(s, n - 1) + seq!['\'', '\\', s[n - 1], '\'']
    } else {
        quoted_upto(s, n - 1).push(s[n - 1])
    }
}

/// A word as one shell word: itself where it needs no quoting, else
/// between single quotes.
pub open spec fn shell_escaped(s: Seq<char>) -> Seq<char> {
    if !needs_quoting(s) {
        s
    } else {
        seq!['\''] + quoted_upto(s, s.len() as int) + seq!['\'']
    }
}

/// Calls `shell_escape::unix::escape`. It returns a word made only of
/// letters, digits and `-_=/,.+` unchanged, and puts every other word
/// between single quotes, writing `'\''` for a single quote and `'\!'` for
/// an exclamation mark.
#[verifier::external_body]
fn escape_word(word: &str) -> (r: String)
    ensures
        r@ == shell_escaped(word@),
{
    shell_escape::unix::escape(std::borrow::Cow::Borrowed(word)).into_owned()
}

/// The first `n` words, each as one shell word.
pub open spec fn escaped_words(words: Seq<Seq<char>>, n: int) -> Seq<Seq<char>>
    decreases n,
{
    if n <= 0 || n > words.len() {
        Seq::empty()
    } else {
        escaped_words(words, n - 1).push(shell_escaped(words[n - 1]))
    }
}

/// An argument vector as one line that a shell reads back as the same words.
pub open spec fn command_line(words: Seq<Seq<char>>) -> Seq<char> {
    crate::text::join(escaped_words(words, words.len() as int), " "@)
}

/// Renders an argument vector as a single shell-quoted line, for printing
/// in place of running it.
pub fn render_command_line(cmd: &[String]) -> (line: String)
    ensures
        line@ == command_line(strings_view(cmd@)),
{
    let ghost words = strings_view(cmd@);
    let mut quoted: Vec<String> = Vec::new();
    let mut i: usize = 0;
    proof {
        assert(strings_view(quoted@) =~= escaped_words(words, 0));
    }
    while i < cmd.len()
        invariant
            i <= cmd.len(),
            words == strings_view(cmd@),
            strings_view(quoted@) == escaped_words(words, i as int),
        decreases cmd.len() - i,
    {
        assert(words[i as int] == cmd@[i as int]@);
        let w = escape_word(cmd[i].as_str());
        proof {
            assert(strings_view(quoted@.push(w)) =~= strings_view(quoted@).push(w@));
        }
        quoted.push(w);
        i += 1;
    }
    crate::text::join_strings(&quoted, " ")
}

/// What to do for one dispatched call.
#[derive(Debug)]
pub struct Invocation {
    /// The program and its arguments.
    pub argv: Vec<String>,
    /// Whether to print the invocation in place of running it.
    pub print_only: bool,
    /// Whether some word of the merged extra arguments held a terminal
    /// flag that was ignored, which deserves a diagnostic.
    pub tty_flag_ignored: bool,
}

/// The extra arguments of one call: those the manifest declares, then
/// the override that the configuration holds for the image, then the
/// caller's own from `BULKER_EXTRA_DOCKER_ARGS`.
pub open spec fn invocation_docker_args(
    tool_args: Option<Seq<crate::config::ToolArgSpec>>,
    pkg: CommandSpec,
    vars: Seq<(Seq<char>, Seq<char>)>,
) -> Seq<char> {
    crate::manifest::merged_args(
        pkg,
        seq![
            crate::config::tool_specific_args(tool_args, pkg.docker_image, "docker_args"@),
            crate::config::value_or_empty(vars, "BULKER_EXTRA_DOCKER_ARGS"@),
        ],
    )
}

/// The volumes of one call, from what the file system said of its arguments.
pub open spec fn invocation_volumes(
    config_volumes: Seq<Seq<char>>,
    pkg: CommandSpec,
    args: Seq<Seq<char>>,
    probes: Seq<crate::argpaths::ProbeFacts>,
    vars: Seq<(Seq<char>, Seq<char>)>,
) -> Seq<Seq<char>> {
    merged_volumes(
        config_volumes,
        pkg,
        crate::argpaths::auto_mounts(args, probes, args.len() as int),
        match lookup(vars, "TMPDIR"@) {
            Some(d) => d,
            None => "/tmp"@,
        },
    )
}

/// Builds the engine invocation for one dispatched call of `pkg`: it
/// resolves the arguments, merges volumes, selects variables, merges the
/// extra arguments and assembles the argument vector of the configured
/// engine.
pub fn plan_invocation(
    config: &BulkerConfig,
    pkg: &PackageCommand,
    args: &[String],
    probes: &[crate::argpaths::PathProbe],
    interactive: bool,
    host: &crate::shimlink::HostContext,
    env: &Environment,
) -> (inv: Invocation)
    ensures
        inv.print_only == lookup(env.vars(), "BULKER_PRINT_COMMAND"@) is Some,
        inv.tty_flag_ignored == (config.bulker.container_engine@ != "apptainer"@
            && crate::words::holds_tty_flag(
            invocation_docker_args(
                crate::config::opt_tool_args_view(config.bulker.tool_args),
                pkg@,
                env.vars(),
            ),
        )),
        strings_view(inv.argv@) == (if config.bulker.container_engine@ == "apptainer"@ {
            crate::shimlink::apptainer_command_line(
                crate::text::opt_view(config.bulker.apptainer_image_folder),
                pkg@,
                invocation_volumes(
                    strings_view(config.bulker.volumes@),
                    pkg@,
                    strings_view(args@),
                    crate::argpaths::probes_view(probes@),
                    env.vars(),
                ),
                selected_envvars(
                    strings_view(config.bulker.envvars@),
                    strings_view(pkg.envvars@),
                    env.vars(),
                ),
                crate::argpaths::resolved_args(
                    strings_view(args@),
                    crate::argpaths::probes_view(probes@),
                ),
                interactive,
                config.engine_program(),
                env.vars(),
                crate::text::opt_view(env.home_dir),
            )
        } else {
            crate::shimlink::docker_command_line(
                config.bulker.host_network,
                config.bulker.system_volumes,
                pkg@,
                invocation_volumes(
                    strings_view(config.bulker.volumes@),
                    pkg@,
                    strings_view(args@),
                    crate::argpaths::probes_view(probes@),
                    env.vars(),
                ),
                selected_envvars(
                    strings_view(config.bulker.envvars@),
                    strings_view(pkg.envvars@),
                    env.vars(),
                ),
                invocation_docker_args(
                    crate::config::opt_tool_args_view(config.bulker.tool_args),
                    pkg@,
                    env.vars(),
                ),
                crate::argpaths::resolved_args(
                    strings_view(args@),
                    crate::argpaths::probes_view(probes@),
                ),
                interactive,
                config.engine_program(),
                host@,
                env.vars(),
                crate::text::opt_view(env.home_dir),
            )
        }),
{
    let (resolved, mounts) = crate::argpaths::resolve_arg_paths(args, probes);
    let tmpdir = crate::shimlink::tmpdir_volume(env);
    let volumes = merge_volumes(config, pkg, mounts.as_slice(), tmpdir.as_str());
    let envvars = select_envvars(config, pkg, env);
    let tool_extra = config.host_tool_specific_args(pkg, "docker_args");
    let env_extra = match env.get("BULKER_EXTRA_DOCKER_ARGS") {
        Some(v) => v,
        None => String::new(),
    };
    let mut extras: Vec<&str> = Vec::new();
    extras.push(tool_extra.as_str());
    extras.push(env_extra.as_str());
    proof {
        assert(crate::manifest::strs_view(extras@) =~= seq![tool_extra@, env_extra@]);
    }
    let docker_args = pkg.merged_docker_args(extras.as_slice());
    let engine = config.engine_path();
    let print_only = env.contains("BULKER_PRINT_COMMAND");
    if str_eq(config.bulker.container_engine.as_str(), "apptainer") {
        let argv = crate::shimlink::build_apptainer_command(
            config,
            pkg,
            volumes.as_slice(),
            envvars.as_slice(),
            resolved.as_slice(),
            interactive,
            engine,
            env,
        );
        Invocation { argv, print_only, tty_flag_ignored: false }
    } else {
        let tty_flag_ignored = crate::words::has_tty_flag(docker_args.as_str());
        let argv = crate::shimlink::build_docker_command(
            config,
            pkg,
            volumes.as_slice(),
            envvars.as_slice(),
            docker_args.as_str(),
            resolved.as_slice(),
            interactive,
            engine,
            host,
            env,
        );
        Invocation { argv, print_only, tty_flag_ignored }
    }
}


} // verus!
