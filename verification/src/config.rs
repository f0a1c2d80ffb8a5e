//! Settings that the dispatcher merges with a command definition, and the
//! snapshot of the process environment that expansion works on.

use crate::manifest::{
    image_name_of, image_namespace_of, image_tag_of, parse_docker_image_path, PackageCommand,
};
use crate::text::{
    chars_of, first_index_from, lemma_first_index_from, opt_view, str_eq, string_of, strings_view,
};
use vstd::prelude::*;

verus! {

/// Whether `c` is alphanumeric in the sense of Unicode, as `char::is_alphanumeric`
/// decides it.
pub uninterp spec fn unicode_alphanumeric(c: char) -> bool;

/// `char::is_alphanumeric` depends on the character alone; its answer is
/// given the name [`unicode_alphanumeric`].
pub assume_specification[ char::is_alphanumeric ](c: char) -> (b: bool)
    ensures
        b == unicode_alphanumeric(c),
;

/// One variable of the environment.
#[derive(Debug)]
pub struct EnvVar {
    pub name: String,
    pub value: String,
}

/// A snapshot of the process environment, taken once by the caller.
#[derive(Debug)]
pub struct Environment {
    /// The variables, in the order in which the system listed them.
    pub vars: Vec<EnvVar>,
    /// The home directory that the system reports, used where `HOME` is unset.
    pub home_dir: Option<String>,
}

/// The names and values of a list of variables.
pub open spec fn vars_view(v: Seq<EnvVar>) -> Seq<(Seq<char>, Seq<char>)> {
    Seq::new(v.len(), |i: int| (v[i].name@, v[i].value@))
}

/// The value of the first variable called `name` among the first `n`.
pub open spec fn lookup_upto(vars: Seq<(Seq<char>, Seq<char>)>, name: Seq<char>, n: int) -> Option<
    Seq<char>,
>
    decreases n,
{
    if n <= 0 || n > vars.len() {
        None
    } else {
        match lookup_upto(vars, name, n - 1) {
            Some(v) => Some(v),
            None => if vars[n - 1].0 == name {
                Some(vars[n - 1].1)
            } else {
                None
            },
        }
    }
}

/// The value of the variable called `name`, if it is set.
pub open spec fn lookup(vars: Seq<(Seq<char>, Seq<char>)>, name: Seq<char>) -> Option<Seq<char>> {
    lookup_upto(vars, name, vars.len() as int)
}

/// The value of `name`, or the empty text where it is unset.
pub open spec fn value_or_empty(vars: Seq<(Seq<char>, Seq<char>)>, name: Seq<char>) -> Seq<char> {
    match lookup(vars, name) {
        Some(v) => v,
        None => Seq::<char>::empty(),
    }
}

impl Environment {
    /// The variables as pairs of name and value.
    pub open spec fn vars(&self) -> Seq<(Seq<char>, Seq<char>)> {
        vars_view(self.vars@)
    }

    /// An environment without variables.
    pub fn new() -> (e: Environment)
        ensures
            e.vars() == Seq::<(Seq<char>, Seq<char>)>::empty(),
            e.home_dir is None,
    {
        let e = Environment { vars: Vec::new(), home_dir: None };
        proof {
            assert(e.vars() =~= Seq::<(Seq<char>, Seq<char>)>::empty());
        }
        e
    }

    /// Adds a variable after those already present. A name that is already
    /// set keeps its first value.
    pub fn push(&mut self, name: &str, value: &str)
        ensures
            final(self).vars() == old(self).vars().push((name@, value@)),
            final(self).home_dir == old(self).home_dir,
    {
        let var = EnvVar { name: String::from_str(name), value: String::from_str(value) };
        proof {
            assert(vars_view(self.vars@.push(var)) =~= vars_view(self.vars@).push(
                (name@, value@),
            ));
        }
        self.vars.push(var);
    }

    /// The value of `name`, if it is set.
    pub fn get(&self, name: &str) -> (r: Option<String>)
        ensures
            opt_view(r) == lookup(self.vars(), name@),
    {
        let mut i: usize = 0;
        while i < self.vars.len()
            invariant
                i <= self.vars.len(),
                lookup_upto(self.vars(), name@, i as int) is None,
            decreases self.vars.len() - i,
        {
            if str_eq(self.vars[i].name.as_str(), name) {
                proof {
                    lemma_lookup_stable(self.vars(), name@, i + 1, self.vars().len() as int);
                }
                return Some(self.vars[i].value.clone());
            }
            i += 1;
        }
        None
    }

    /// Whether `name` is set.
    pub fn contains(&self, name: &str) -> (r: bool)
        ensures
            r == lookup(self.vars(), name@) is Some,
    {
        self.get(name).is_some()
    }

    /// The names of all variables, in order.
    pub fn names(&self) -> (r: Vec<String>)
        ensures
            strings_view(r@) == var_names(self.vars()),
    {
        let mut r: Vec<String> = Vec::new();
        let mut i: usize = 0;
        while i < self.vars.len()
            invariant
                i <= self.vars.len(),
                r@.len() == i,
                forall|j: int| 0 <= j < i ==> r@[j]@ == self.vars@[j].name@,
            decreases self.vars.len() - i,
        {
            r.push(self.vars[i].name.clone());
            i += 1;
        }
        proof {
            assert(strings_view(r@) =~= var_names(self.vars()));
        }
        r
    }
}

/// The names of a list of variables.
pub open spec fn var_names(vars: Seq<(Seq<char>, Seq<char>)>) -> Seq<Seq<char>> {
    Seq::new(vars.len(), |i: int| vars[i].0)
}

/// Once a name is found among the first `n` variables, looking further
/// changes nothing.
pub proof fn lemma_lookup_stable(vars: Seq<(Seq<char>, Seq<char>)>, name: Seq<char>, n: int, m: int)
    requires
        0 <= n <= m <= vars.len(),
        lookup_upto(vars, name, n) is Some,
    ensures
        lookup_upto(vars, name, m) == lookup_upto(vars, name, n),
    decreases m - n,
{
    if n < m {
        lemma_lookup_stable(vars, name, n, m - 1);
    }
}

/// Whether `c` may stand in the name of a variable written as `$NAME`.
pub open spec fn is_name_char(c: char) -> bool {
    unicode_alphanumeric(c) || c == '_'
}

/// The end of the run of name characters that starts at `from`.
pub open spec fn name_end_from(s: Seq<char>, from: int) -> int
    decreases s.len() - from,
{
    if 0 <= from < s.len() && is_name_char(s[from]) {
        name_end_from(s, from + 1)
    } else {
        from
    }
}

/// `s[from..]` with every `${NAME}` and `$NAME` replaced by the value of
/// `NAME`, or by nothing where `NAME` is unset. A `$` that no name follows
/// disappears; a `${` without `}` takes the rest of the text as its name.
pub open spec fn expand_vars_from(s: Seq<char>, vars: Seq<(Seq<char>, Seq<char>)>, from: int) -> Seq<
    char,
>
    decreases s.len() - from,
{
    if from < 0 || from >= s.len() {
        Seq::<char>::empty()
    } else if s[from] != '$' {
        seq![s[from]] + expand_vars_from(s, vars, from + 1)
    } else if from + 1 < s.len() && s[from + 1] == '{' {
        let close = first_index_from(s, '}', from + 2);
        if close >= from + 2 && close < s.len() {
            value_or_empty(vars, s.subrange(from + 2, close)) + expand_vars_from(
                s,
                vars,
                close + 1,
            )
        } else {
            value_or_empty(vars, s.subrange(from + 2, s.len() as int))
        }
    } else {
        let e = name_end_from(s, from + 1);
        if e > from + 1 && e <= s.len() {
            value_or_empty(vars, s.subrange(from + 1, e)) + expand_vars_from(s, vars, e)
        } else {
            expand_vars_from(s, vars, from + 1)
        }
    }
}

/// The home directory: `HOME` where it is set, else what the system reports.
pub open spec fn home_of(vars: Seq<(Seq<char>, Seq<char>)>, home_dir: Option<Seq<char>>) -> Option<
    Seq<char>,
> {
    match lookup(vars, "HOME"@) {
        Some(h) => Some(h),
        None => home_dir,
    }
}

/// `s` with a leading `~` replaced by the home directory, where one is known.
pub open spec fn expand_tilde(
    s: Seq<char>,
    vars: Seq<(Seq<char>, Seq<char>)>,
    home_dir: Option<Seq<char>>,
) -> Seq<char> {
    if s.len() > 0 && s[0] == '~' {
        match home_of(vars, home_dir) {
            Some(h) => h + s.subrange(1, s.len() as int),
            None => s,
        }
    } else {
        s
    }
}

/// The expansion of `s`: first a leading `~`, then the variables.
pub open spec fn expanded(
    s: Seq<char>,
    vars: Seq<(Seq<char>, Seq<char>)>,
    home_dir: Option<Seq<char>>,
) -> Seq<char> {
    expand_vars_from(expand_tilde(s, vars, home_dir), vars, 0)
}

/// Expands `~`, `$NAME` and `${NAME}` in `s` from the snapshot `env`.
pub fn expand_path(s: &str, env: &Environment) -> (r: String)
    ensures
        r@ == expanded(s@, env.vars(), opt_view(env.home_dir)),
{
    let raw = chars_of(s);
    let mut text = String::new();
    let mut replaced = false;
    if raw.len() > 0 && raw[0] == '~' {
        let home = match env.get("HOME") {
            Some(h) => Some(h),
            None => match &env.home_dir {
                Some(h) => Some(h.clone()),
                None => None,
            },
        };
        match home {
            Some(h) => {
                text = h;
                text.append(string_of(&raw, 1, raw.len()).as_str());
                replaced = true;
            },
            None => {},
        }
    }
    if !replaced {
        text = String::from_str(s);
    }
    assert(text@ == expand_tilde(s@, env.vars(), opt_view(env.home_dir)));
    let v = chars_of(text.as_str());
    let ghost vars = env.vars();
    let mut out = String::new();
    let mut i: usize = 0;
    while i < v.len()
        invariant
            i <= v.len(),
            vars == env.vars(),
            out@ + expand_vars_from(v@, vars, i as int) == expand_vars_from(v@, vars, 0),
        decreases v.len() - i,
    {
        let ghost before = out@;
        if v[i] != '$' {
            out.push(v[i]);
            proof {
                assert(out@ + expand_vars_from(v@, vars, i + 1) =~= before + expand_vars_from(
                    v@,
                    vars,
                    i as int,
                ));
            }
            i += 1;
        } else if i + 1 < v.len() && v[i + 1] == '{' {
            let mut j: usize = i + 2;
            while j < v.len() && v[j] != '}'
                invariant
                    i + 2 <= j <= v.len(),
                    first_index_from(v@, '}', i + 2) == first_index_from(v@, '}', j as int),
                decreases v.len() - j,
            {
                j += 1;
            }
            proof {
                lemma_first_index_from(v@, '}', j as int);
            }
            let name = string_of(&v, i + 2, j);
            match env.get(name.as_str()) {
                Some(val) => {
                    out.append(val.as_str());
                },
                None => {},
            }
            let next = if j < v.len() {
                j + 1
            } else {
                j
            };
            proof {
                assert(out@ =~= before + value_or_empty(vars, name@));
                assert(out@ + expand_vars_from(v@, vars, next as int) =~= before
                    + expand_vars_from(v@, vars, i as int));
            }
            i = next;
        } else {
            let mut j: usize = i + 1;
            while j < v.len() && (v[j].is_alphanumeric() || v[j] == '_')
                invariant
                    i + 1 <= j <= v.len(),
                    name_end_from(v@, i + 1) == name_end_from(v@, j as int),
                decreases v.len() - j,
            {
                j += 1;
            }
            if j > i + 1 {
                let name = string_of(&v, i + 1, j);
                match env.get(name.as_str()) {
                    Some(val) => {
                        out.append(val.as_str());
                    },
                    None => {},
                }
                proof {
                    assert(out@ =~= before + value_or_empty(vars, name@));
                    assert(out@ + expand_vars_from(v@, vars, j as int) =~= before
                        + expand_vars_from(v@, vars, i as int));
                }
            }
            i = j;
        }
    }
    proof {
        assert(out@ =~= expand_vars_from(v@, vars, 0));
    }
    out
}

/// Extra engine arguments that the configuration holds for one image, one
/// tag of it and one kind of argument.
#[derive(Debug)]
pub struct ToolArg {
    pub namespace: String,
    pub image: String,
    pub tag: String,
    pub key: String,
    pub value: String,
}

/// The mathematical value of a [`ToolArg`].
pub struct ToolArgSpec {
    pub namespace: Seq<char>,
    pub image: Seq<char>,
    pub tag: Seq<char>,
    pub key: Seq<char>,
    pub value: Seq<char>,
}

impl View for ToolArg {
    type V = ToolArgSpec;

    open spec fn view(&self) -> ToolArgSpec {
        ToolArgSpec {
            namespace: self.namespace@,
            image: self.image@,
            tag: self.tag@,
            key: self.key@,
            value: self.value@,
        }
    }
}

/// The views of a list of tool arguments.
pub open spec fn tool_args_view(v: Seq<ToolArg>) -> Seq<ToolArgSpec> {
    Seq::new(v.len(), |i: int| v[i]@)
}

/// Whether an entry is the one for the given image, tag and key.
pub open spec fn tool_arg_matches(
    e: ToolArgSpec,
    namespace: Seq<char>,
    image: Seq<char>,
    tag: Seq<char>,
    key: Seq<char>,
) -> bool {
    e.namespace == namespace && e.image == image && e.tag == tag && e.key == key
}

/// The value of the first matching entry among the first `n`.
pub open spec fn find_tool_arg(
    entries: Seq<ToolArgSpec>,
    namespace: Seq<char>,
    image: Seq<char>,
    tag: Seq<char>,
    key: Seq<char>,
    n: int,
) -> Option<Seq<char>>
    decreases n,
{
    if n <= 0 || n > entries.len() {
        None
    } else {
        match find_tool_arg(entries, namespace, image, tag, key, n - 1) {
            Some(v) => Some(v),
            None => if tool_arg_matches(entries[n - 1], namespace, image, tag, key) {
                Some(entries[n - 1].value)
            } else {
                None
            },
        }
    }
}

/// The override that the configuration holds for an image: the entry for
/// its exact tag, else the entry for the tag `default`, else nothing.
pub open spec fn tool_specific_args(
    entries: Option<Seq<ToolArgSpec>>,
    docker_image: Seq<char>,
    key: Seq<char>,
) -> Seq<char> {
    match entries {
        None => Seq::<char>::empty(),
        Some(es) => {
            let ns = image_namespace_of(docker_image);
            let name = image_name_of(docker_image);
            match find_tool_arg(es, ns, name, image_tag_of(docker_image), key, es.len() as int) {
                Some(v) => v,
                None => match find_tool_arg(es, ns, name, "default"@, key, es.len() as int) {
                    Some(v) => v,
                    None => Seq::<char>::empty(),
                },
            }
        },
    }
}

/// Once an entry is found among the first `n`, looking further changes nothing.
pub proof fn lemma_find_tool_arg_stable(
    entries: Seq<ToolArgSpec>,
    namespace: Seq<char>,
    image: Seq<char>,
    tag: Seq<char>,
    key: Seq<char>,
    n: int,
    m: int,
)
    requires
        0 <= n <= m <= entries.len(),
        find_tool_arg(entries, namespace, image, tag, key, n) is Some,
    ensures
        find_tool_arg(entries, namespace, image, tag, key, m) == find_tool_arg(
            entries,
            namespace,
            image,
            tag,
            key,
            n,
        ),
    decreases m - n,
{
    if n < m {
        lemma_find_tool_arg_stable(entries, namespace, image, tag, key, n, m - 1);
    }
}

/// The value of the first entry of `entries` for the given image, tag and key.
pub fn lookup_tool_arg(
    entries: &Vec<ToolArg>,
    namespace: &str,
    image: &str,
    tag: &str,
    key: &str,
) -> (r: Option<String>)
    ensures
        opt_view(r) == find_tool_arg(
            tool_args_view(entries@),
            namespace@,
            image@,
            tag@,
            key@,
            entries@.len() as int,
        ),
{
    let ghost es = tool_args_view(entries@);
    let mut i: usize = 0;
    while i < entries.len()
        invariant
            i <= entries.len(),
            es == tool_args_view(entries@),
            find_tool_arg(es, namespace@, image@, tag@, key@, i as int) is None,
        decreases entries.len() - i,
    {
        let e = &entries[i];
        assert(es[i as int] == e@);
        if str_eq(e.namespace.as_str(), namespace) && str_eq(e.image.as_str(), image) && str_eq(
            e.tag.as_str(),
            tag,
        ) && str_eq(e.key.as_str(), key) {
            proof {
                lemma_find_tool_arg_stable(
                    es,
                    namespace@,
                    image@,
                    tag@,
                    key@,
                    i + 1,
                    es.len() as int,
                );
            }
            return Some(e.value.clone());
        }
        i += 1;
    }
    None
}

/// The settings of one installation.
#[derive(Debug)]
pub struct BulkerSettings {
    pub container_engine: String,
    pub default_namespace: String,
    pub registry_url: String,
    pub shell_path: String,
    pub shell_rc: String,
    pub rcfile: String,
    pub rcfile_strict: String,
    pub volumes: Vec<String>,
    pub envvars: Vec<String>,
    pub host_network: bool,
    pub system_volumes: bool,
    pub tool_args: Option<Vec<ToolArg>>,
    pub shell_prompt: Option<String>,
    pub apptainer_image_folder: Option<String>,
    pub engine_path: Option<String>,
}

/// The configuration document: one `bulker` entry at the top level.
#[derive(Debug)]
pub struct BulkerConfig {
    pub bulker: BulkerSettings,
}

/// The views of the optional list of tool arguments.
pub open spec fn opt_tool_args_view(o: Option<Vec<ToolArg>>) -> Option<Seq<ToolArgSpec>> {
    match o {
        Some(v) => Some(tool_args_view(v@)),
        None => None,
    }
}

/// The namespace used where a reference names none.
pub fn default_namespace() -> (s: String)
    ensures
        s@ == "bulker"@,
{
    String::from_str("bulker")
}

/// The registry asked where the configuration names none.
pub fn default_registry_url() -> (s: String)
    ensures
        s@ == "http://hub.bulker.io/"@,
{
    String::from_str("http://hub.bulker.io/")
}

/// The shell start-up file sourced where the configuration names none.
pub fn default_shell_rc() -> (s: String)
    ensures
        s@ == "$HOME/.bashrc"@,
{
    String::from_str("$HOME/.bashrc")
}

/// The start-up file of an activated shell.
pub fn default_rcfile() -> (s: String)
    ensures
        s@ == "start.sh"@,
{
    String::from_str("start.sh")
}

/// The start-up file of an activated shell in strict mode.
pub fn default_rcfile_strict() -> (s: String)
    ensures
        s@ == "start_strict.sh"@,
{
    String::from_str("start_strict.sh")
}

/// Whether containers share the host's network by default: everywhere but on macOS.
pub fn default_host_network(target_os: &str) -> (b: bool)
    ensures
        b == (target_os@ != "macos"@),
{
    !str_eq(target_os, "macos")
}

/// Whether the system files for user mapping are mounted by default:
/// everywhere but on macOS.
pub fn default_system_volumes(target_os: &str) -> (b: bool)
    ensures
        b == (target_os@ != "macos"@),
{
    !str_eq(target_os, "macos")
}

/// The volumes mounted by default: the home directory.
pub fn default_volumes() -> (v: Vec<String>)
    ensures
        strings_view(v@) == seq!["$HOME"@],
{
    let mut v: Vec<String> = Vec::new();
    v.push(String::from_str("$HOME"));
    proof {
        assert(strings_view(v@) =~= seq!["$HOME"@]);
    }
    v
}

/// The variables forwarded by default in strict mode.
pub fn default_envvars() -> (v: Vec<String>)
    ensures
        strings_view(v@) == seq!["DISPLAY"@],
{
    let mut v: Vec<String> = Vec::new();
    v.push(String::from_str("DISPLAY"));
    proof {
        assert(strings_view(v@) =~= seq!["DISPLAY"@]);
    }
    v
}

/// The engine to use, given which of the two was found on the host:
/// `docker` before `apptainer`, none where neither was found.
pub fn detect_engine(docker_found: bool, apptainer_found: bool) -> (r: Option<String>)
    ensures
        opt_view(r) == (if docker_found {
            Some("docker"@)
        } else if apptainer_found {
            Some("apptainer"@)
        } else {
            None::<Seq<char>>
        }),
{
    if docker_found {
        Some(String::from_str("docker"))
    } else if apptainer_found {
        Some(String::from_str("apptainer"))
    } else {
        None
    }
}

/// The engine used where the configuration names none: the detected one, else `docker`.
pub fn default_container_engine(docker_found: bool, apptainer_found: bool) -> (s: String)
    ensures
        s@ == (if !docker_found && apptainer_found {
            "apptainer"@
        } else {
            "docker"@
        }),
{
    match detect_engine(docker_found, apptainer_found) {
        Some(e) => e,
        None => String::from_str("docker"),
    }
}

/// An optional text with the word `null`, which a hand-edited file may
/// hold in place of nothing, turned into nothing.
pub open spec fn without_null(o: Option<Seq<char>>) -> Option<Seq<char>> {
    if o == Some("null"@) {
        None
    } else {
        o
    }
}

fn drop_null(o: Option<String>, also_empty: bool) -> (r: Option<String>)
    ensures
        opt_view(r) == (if also_empty && opt_view(o) == Some(Seq::<char>::empty()) {
            None
        } else {
            without_null(opt_view(o))
        }),
{
    match o {
        Some(s) => {
            let clear = str_eq(s.as_str(), "null") || (also_empty && s.as_str().unicode_len()
                == 0);
            proof {
                if s@.len() == 0 {
                    assert(s@ =~= Seq::<char>::empty());
                }
            }
            if clear {
                None
            } else {
                Some(s)
            }
        },
        None => None,
    }
}

impl BulkerSettings {
    /// Settings with the built-in defaults around what was found on the host.
    pub fn with_defaults(
        engine: &str,
        engine_path: Option<String>,
        shell_path: &str,
        target_os: &str,
    ) -> (s: BulkerSettings)
        ensures
            s.container_engine@ == engine@,
            s.engine_path == engine_path,
            s.shell_path@ == shell_path@,
            s.default_namespace@ == "bulker"@,
            s.registry_url@ == "http://hub.bulker.io/"@,
            s.shell_rc@ == "$HOME/.bashrc"@,
            s.rcfile@ == "start.sh"@,
            s.rcfile_strict@ == "start_strict.sh"@,
            strings_view(s.volumes@) == seq!["$HOME"@],
            strings_view(s.envvars@) == seq!["DISPLAY"@],
            s.host_network == (target_os@ != "macos"@),
            s.system_volumes == (target_os@ != "macos"@),
            s.tool_args is None,
            s.shell_prompt is None,
            s.apptainer_image_folder is None,
    {
        BulkerSettings {
            container_engine: String::from_str(engine),
            default_namespace: default_namespace(),
            registry_url: default_registry_url(),
            shell_path: String::from_str(shell_path),
            shell_rc: default_shell_rc(),
            rcfile: default_rcfile(),
            rcfile_strict: default_rcfile_strict(),
            volumes: default_volumes(),
            envvars: default_envvars(),
            host_network: default_host_network(target_os),
            system_volumes: default_system_volumes(target_os),
            tool_args: None,
            shell_prompt: None,
            apptainer_image_folder: None,
            engine_path,
        }
    }

    /// Replaces the word `null`, and an empty engine or engine path, by
    /// what stands for "not set": `fallback_engine` for the engine, nothing
    /// for the optional fields. Every other field is left as it is.
    pub fn sanitize(&mut self, fallback_engine: &str)
        ensures
            final(self).container_engine@ == (if old(self).container_engine@ == "null"@ || old(
                self,
            ).container_engine@.len() == 0 {
                fallback_engine@
            } else {
                old(self).container_engine@
            }),
            opt_view(final(self).engine_path) == (if opt_view(old(self).engine_path) == Some(
                Seq::<char>::empty(),
            ) {
                None
            } else {
                without_null(opt_view(old(self).engine_path))
            }),
            opt_view(final(self).shell_prompt) == without_null(opt_view(old(self).shell_prompt)),
            opt_view(final(self).apptainer_image_folder) == without_null(
                opt_view(old(self).apptainer_image_folder),
            ),
            final(self).default_namespace == old(self).default_namespace,
            final(self).registry_url == old(self).registry_url,
            final(self).shell_path == old(self).shell_path,
            final(self).shell_rc == old(self).shell_rc,
            final(self).rcfile == old(self).rcfile,
            final(self).rcfile_strict == old(self).rcfile_strict,
            final(self).volumes == old(self).volumes,
            final(self).envvars == old(self).envvars,
            final(self).host_network == old(self).host_network,
            final(self).system_volumes == old(self).system_volumes,
            final(self).tool_args == old(self).tool_args,
    {
        if str_eq(self.container_engine.as_str(), "null")
            || self.container_engine.as_str().unicode_len() == 0 {
            self.container_engine = String::from_str(fallback_engine);
        }
        self.engine_path = drop_null(self.engine_path.take(), true);
        self.shell_prompt = drop_null(self.shell_prompt.take(), false);
        self.apptainer_image_folder = drop_null(self.apptainer_image_folder.take(), false);
    }
}

impl BulkerConfig {
    /// The program to run as the engine: the configured path where there is
    /// one, else the engine's name.
    pub open spec fn engine_program(&self) -> Seq<char> {
        match self.bulker.engine_path {
            Some(p) => p@,
            None => self.bulker.container_engine@,
        }
    }

    /// The program to run as the engine.
    pub fn engine_path(&self) -> (r: &str)
        ensures
            r@ == self.engine_program(),
    {
        match &self.bulker.engine_path {
            Some(p) => p.as_str(),
            None => self.bulker.container_engine.as_str(),
        }
    }

    /// The extra arguments that the configuration holds for the image of
    /// `pkg` under `arg_key`: those of the exact tag, else those of the tag
    /// `default`, else none.
    pub fn host_tool_specific_args(&self, pkg: &PackageCommand, arg_key: &str) -> (r: String)
        ensures
            r@ == tool_specific_args(
                opt_tool_args_view(self.bulker.tool_args),
                pkg.docker_image@,
                arg_key@,
            ),
    {
        match &self.bulker.tool_args {
            None => String::new(),
            Some(entries) => {
                let (ns, name, tag) = parse_docker_image_path(pkg.docker_image.as_str());
                match lookup_tool_arg(entries, ns.as_str(), name.as_str(), tag.as_str(), arg_key) {
                    Some(v) => v,
                    None => match lookup_tool_arg(
                        entries,
                        ns.as_str(),
                        name.as_str(),
                        "default",
                        arg_key,
                    ) {
                        Some(v) => v,
                        None => String::new(),
                    },
                }
            },
        }
    }

    /// A small fixed configuration: docker, the default registry, host
    /// network and system volumes on.
    pub fn test_default() -> (c: BulkerConfig)
        ensures
            c.bulker.container_engine@ == "docker"@,
            c.bulker.engine_path is None,
            c.bulker.shell_path@ == "/bin/bash"@,
            c.bulker.default_namespace@ == "bulker"@,
            c.bulker.registry_url@ == "http://hub.bulker.io/"@,
            strings_view(c.bulker.volumes@) == seq!["$HOME"@],
            strings_view(c.bulker.envvars@) == seq!["DISPLAY"@],
            c.bulker.host_network,
            c.bulker.system_volumes,
            c.bulker.tool_args is None,
            c.bulker.shell_prompt is None,
            c.bulker.apptainer_image_folder is None,
    {
        proof {
            reveal_strlit("linux");
            reveal_strlit("macos");
            assert("linux"@[0] != "macos"@[0]);
        }
        BulkerConfig { bulker: BulkerSettings::with_defaults("docker", None, "/bin/bash", "linux") }
    }

    /// As [`BulkerConfig::test_default`], with another registry.
    pub fn test_with_registry(registry_url: &str) -> (c: BulkerConfig)
        ensures
            c.bulker.registry_url@ == registry_url@,
            c.bulker.container_engine@ == "docker"@,
            c.bulker.default_namespace@ == "bulker"@,
    {
        let mut c = BulkerConfig::test_default();
        c.bulker.registry_url = String::from_str(registry_url);
        c
    }
}


/// The directory that a relative path is taken from: the one given, else
/// the current directory, else `.`.
pub open spec fn base_directory(rel_dir: Option<Seq<char>>, current_dir: Option<Seq<char>>) -> Seq<
    char,
> {
    match rel_dir {
        Some(d) => d,
        None => match current_dir {
            Some(d) => d,
            None => "."@,
        },
    }
}

/// Makes a path absolute: it is expanded; where it then starts at the
/// root it stands; else it is taken from `rel_dir`, or from the current
/// directory where none is given.
pub fn mkabs(path: &str, rel_dir: Option<&str>, current_dir: Option<&str>, env: &Environment) -> (r:
    String)
    ensures
        r@ == ({
            let e = expanded(path@, env.vars(), opt_view(env.home_dir));
            if e.len() > 0 && e[0] == '/' {
                e
            } else {
                crate::argpaths::child_path(
                    base_directory(
                        crate::manifest::opt_str_view(rel_dir),
                        crate::manifest::opt_str_view(current_dir),
                    ),
                    e,
                )
            }
        }),
{
    let e = expand_path(path, env);
    if crate::text::str_starts_with_char(e.as_str(), '/') {
        return e;
    }
    let base: &str = match rel_dir {
        Some(d) => d,
        None => match current_dir {
            Some(d) => d,
            None => ".",
        },
    };
    crate::argpaths::join_path(base, e.as_str())
}


} // verus!
