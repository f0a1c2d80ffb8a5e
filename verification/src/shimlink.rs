//! Building the engine invocation for one dispatched command.
//!
//! A command is dispatched under its own name, or under its name with a
//! leading `_` for an interactive shell in the same container. The functions
//! here turn a command definition and the merged configuration into the
//! exact argument vector; running it is left to the caller.

use crate::config::{expand_path, expanded, lookup, BulkerConfig, Environment};
use crate::manifest::{apptainer_image_paths, image_file_path, CommandSpec, PackageCommand};
use crate::text::{
    chars_of, decimal, last_index_of, lemma_last_index_upto, opt_view, push_decimal, str_eq,
    string_of, strings_view,
};
use crate::words::{
    lemma_stripped_holds_no_flag, lemma_stripped_words, shell_split, shell_words, strip_tty_flag,
    strip_tty_words, stripped_args, word_holds_tty_flag,
};
use vstd::prelude::*;

verus! {

/// What the caller found out about the host before dispatching.
#[derive(Debug)]
pub struct HostContext {
    /// Whether standard input is a terminal.
    pub stdin_is_tty: bool,
    /// The user to run as inside the container.
    pub uid: u32,
    /// The group to run as inside the container.
    pub gid: u32,
    /// The current directory, where it could be read.
    pub current_dir: Option<String>,
}

/// The mathematical value of a [`HostContext`].
pub struct HostFacts {
    pub stdin_is_tty: bool,
    pub uid: nat,
    pub gid: nat,
    pub current_dir: Option<Seq<char>>,
}

impl View for HostContext {
    type V = HostFacts;

    open spec fn view(&self) -> HostFacts {
        HostFacts {
            stdin_is_tty: self.stdin_is_tty,
            uid: self.uid as nat,
            gid: self.gid as nat,
            current_dir: opt_view(self.current_dir),
        }
    }
}

/// The final path segment of `argv0`: what follows its last `/`.
pub open spec fn final_segment(argv0: Seq<char>) -> Seq<char> {
    argv0.subrange(last_index_of(argv0, '/') + 1, argv0.len() as int)
}

/// The command that an invocation name asks for: its final path segment,
/// unless that is empty or the program's own name.
pub open spec fn shimlink_name(argv0: Seq<char>) -> Option<Seq<char>> {
    let name = final_segment(argv0);
    if name.len() == 0 || name == "bulker"@ {
        None
    } else {
        Some(name)
    }
}

/// Tells from the name under which the program was invoked whether it was
/// reached through an entry point of a crate, and for which command.
pub fn detect_shimlink_invocation(argv0: &str) -> (r: Option<String>)
    ensures
        opt_view(r) == shimlink_name(argv0@),
{
    let v = chars_of(argv0);
    proof {
        lemma_last_index_upto(v@, '/', v@.len() as int);
    }
    let start = match crate::text::find_last(&v, '/') {
        Some(k) => k + 1,
        None => 0,
    };
    let name = string_of(&v, start, v.len());
    if start == v.len() || str_eq(name.as_str(), "bulker") {
        None
    } else {
        Some(name)
    }
}

/// The command behind a dispatched name: the name without its leading `_`,
/// and whether that marker was there.
pub fn split_interactive_marker(command_name: &str) -> (r: (String, bool))
    ensures
        r.1 == (command_name@.len() > 0 && command_name@[0] == '_'),
        r.0@ == (if r.1 {
            command_name@.subrange(1, command_name@.len() as int)
        } else {
            command_name@
        }),
{
    let v = chars_of(command_name);
    if v.len() > 0 && v[0] == '_' {
        (string_of(&v, 1, v.len()), true)
    } else {
        (String::from_str(command_name), false)
    }
}

/// The words that the merged extra arguments contribute: none where they
/// are empty or nothing is left of them without the terminal flag; else
/// the words of what is left once variables are expanded in it. The flag
/// is removed before the expansion: what a variable expands to is taken
/// as it is.
pub open spec fn extra_arg_words(
    docker_args: Seq<char>,
    vars: Seq<(Seq<char>, Seq<char>)>,
    home_dir: Option<Seq<char>>,
) -> Seq<Seq<char>> {
    if docker_args.len() == 0 || stripped_args(docker_args).len() == 0 {
        Seq::empty()
    } else {
        shell_words(expanded(stripped_args(docker_args), vars, home_dir))
    }
}

/// Where expanding variables changes nothing in what is left of the extra
/// arguments, their words reach the invocation as they were written, each
/// without the terminal flag: a quoted word stays one word, and no word
/// that arrives holds the flag.
pub proof fn lemma_extra_words_without_expansion(
    docker_args: Seq<char>,
    vars: Seq<(Seq<char>, Seq<char>)>,
    home_dir: Option<Seq<char>>,
)
    requires
        expanded(stripped_args(docker_args), vars, home_dir) == stripped_args(docker_args),
    ensures
        extra_arg_words(docker_args, vars, home_dir) == strip_tty_words(
            shell_words(docker_args),
            shell_words(docker_args).len() as int,
        ),
        forall|i: int|
            0 <= i < extra_arg_words(docker_args, vars, home_dir).len() ==> !word_holds_tty_flag(
                #[trigger] extra_arg_words(docker_args, vars, home_dir)[i],
            ),
{
    lemma_stripped_words(docker_args);
    lemma_stripped_holds_no_flag(docker_args);
    let left = stripped_args(docker_args);
    if left.len() == 0 {
        assert(shell_words(left) =~= Seq::<Seq<char>>::empty());
    }
    assert(docker_args.len() == 0 ==> left.len() == 0);
}

/// The flag that maps the caller's user and group into the container.
pub open spec fn user_flag(uid: nat, gid: nat) -> Seq<char> {
    "--user="@ + decimal(uid) + seq![':'] + decimal(gid)
}

/// `flag` before each of the first `n` items.
pub open spec fn flag_pairs(flag: Seq<char>, items: Seq<Seq<char>>, n: int) -> Seq<Seq<char>>
    decreases n,
{
    if n <= 0 || n > items.len() {
        Seq::empty()
    } else {
        flag_pairs(flag, items, n - 1).push(flag).push(items[n - 1])
    }
}

/// A mount of a host path at the same path inside the container.
pub open spec fn same_path_mount(path: Seq<char>) -> Seq<char> {
    path + seq![':'] + path
}

/// `--volume` and a same-path mount for each of the first `n` volumes,
/// each expanded first.
pub open spec fn volume_words(
    volumes: Seq<Seq<char>>,
    vars: Seq<(Seq<char>, Seq<char>)>,
    home_dir: Option<Seq<char>>,
    n: int,
) -> Seq<Seq<char>>
    decreases n,
{
    if n <= 0 || n > volumes.len() {
        Seq::empty()
    } else {
        volume_words(volumes, vars, home_dir, n - 1).push("--volume"@).push(
            same_path_mount(expanded(volumes[n - 1], vars, home_dir)),
        )
    }
}

/// The read-only system files that user mapping needs, and the display socket.
pub open spec fn system_mounts() -> Seq<Seq<char>> {
    seq![
        "/etc/group:/etc/group:ro"@,
        "/etc/passwd:/etc/passwd:ro"@,
        "/etc/shadow:/etc/shadow:ro"@,
        "/etc/sudoers.d:/etc/sudoers.d:ro"@,
        "/tmp/.X11-unix:/tmp/.X11-unix:rw"@,
    ]
}

/// The working directory inside the container: the one the command
/// declares, else the caller's current directory, else `/`.
pub open spec fn workdir_of(declared: Option<Seq<char>>, current_dir: Option<Seq<char>>) -> Seq<
    char,
> {
    match declared {
        Some(w) if w.len() > 0 => w,
        _ => match current_dir {
            Some(d) => d,
            None => "/"@,
        },
    }
}

/// What runs inside the container: a shell for the interactive variant;
/// else the override where one is declared and not empty, nothing where it
/// is declared empty, and the command's own name where none is declared.
pub open spec fn container_command(
    interactive: bool,
    command_override: Option<Seq<char>>,
    command: Seq<char>,
) -> Seq<Seq<char>> {
    if interactive {
        seq!["bash"@]
    } else {
        match command_override {
            Some(c) => if c.len() > 0 {
                seq![c]
            } else {
                Seq::empty()
            },
            None => seq![command],
        }
    }
}

/// The argument vector of a `run` invocation.
pub open spec fn docker_command_line(
    host_network: bool,
    system_volumes: bool,
    pkg: CommandSpec,
    volumes: Seq<Seq<char>>,
    envvars: Seq<Seq<char>>,
    docker_args: Seq<char>,
    args: Seq<Seq<char>>,
    interactive: bool,
    engine_path: Seq<char>,
    host: HostFacts,
    vars: Seq<(Seq<char>, Seq<char>)>,
    home_dir: Option<Seq<char>>,
) -> Seq<Seq<char>> {
    seq![engine_path, "run"@, "--rm"@, "--init"@, if host.stdin_is_tty {
        "-it"@
    } else {
        "-i"@
    }] + extra_arg_words(docker_args, vars, home_dir) + (if !pkg.no_user {
        seq![user_flag(host.uid, host.gid)]
    } else {
        Seq::empty()
    }) + (if !pkg.no_network && host_network {
        seq!["--network=host"@]
    } else {
        Seq::empty()
    }) + flag_pairs("--env"@, envvars, envvars.len() as int) + volume_words(
        volumes,
        vars,
        home_dir,
        volumes.len() as int,
    ) + (if !pkg.no_user && system_volumes {
        flag_pairs("--volume"@, system_mounts(), 5)
    } else {
        Seq::empty()
    }) + seq!["--workdir="@ + workdir_of(pkg.workdir, host.current_dir), pkg.docker_image]
        + container_command(interactive, pkg.docker_command, pkg.command) + args
}

/// Appends copies of `more` to `cmd`.
pub fn extend_strings(cmd: &mut Vec<String>, more: &[String])
    ensures
        strings_view(final(cmd)@) == strings_view(old(cmd)@) + strings_view(more@),
{
    let ghost before = strings_view(cmd@);
    let mut i: usize = 0;
    proof {
        assert(strings_view(more@).subrange(0, 0) =~= Seq::<Seq<char>>::empty());
        assert(before + Seq::<Seq<char>>::empty() =~= before);
    }
    while i < more.len()
        invariant
            i <= more.len(),
            strings_view(cmd@) == before + strings_view(more@).subrange(0, i as int),
        decreases more.len() - i,
    {
        let item = more[i].clone();
        proof {
            assert(strings_view(cmd@.push(item)) =~= strings_view(cmd@).push(item@));
            assert(strings_view(more@).subrange(0, i + 1) =~= strings_view(more@).subrange(
                0,
                i as int,
            ).push(item@));
        }
        cmd.push(item);
        i += 1;
    }
    proof {
        assert(strings_view(more@).subrange(0, more@.len() as int) =~= strings_view(more@));
    }
}

/// Appends one word to `cmd`.
pub fn push_word(cmd: &mut Vec<String>, word: String)
    ensures
        strings_view(final(cmd)@) == strings_view(old(cmd)@).push(word@),
{
    proof {
        assert(strings_view(cmd@.push(word)) =~= strings_view(cmd@).push(word@));
    }
    cmd.push(word);
}

/// Appends `flag` and the item, for each item.
pub fn push_flag_pairs(cmd: &mut Vec<String>, flag: &str, items: &[String])
    ensures
        strings_view(final(cmd)@) == strings_view(old(cmd)@) + flag_pairs(
            flag@,
            strings_view(items@),
            items@.len() as int,
        ),
{
    let ghost before = strings_view(cmd@);
    let ghost its = strings_view(items@);
    let mut i: usize = 0;
    proof {
        assert(before + flag_pairs(flag@, its, 0) =~= before);
    }
    while i < items.len()
        invariant
            i <= items.len(),
            its == strings_view(items@),
            strings_view(cmd@) == before + flag_pairs(flag@, its, i as int),
        decreases items.len() - i,
    {
        assert(its[i as int] == items@[i as int]@);
        push_word(cmd, String::from_str(flag));
        push_word(cmd, items[i].clone());
        proof {
            assert(strings_view(cmd@) =~= before + flag_pairs(flag@, its, i + 1));
        }
        i += 1;
    }
}

fn system_mount_list() -> (v: Vec<String>)
    ensures
        strings_view(v@) == system_mounts(),
{
    let mut v: Vec<String> = Vec::new();
    v.push(String::from_str("/etc/group:/etc/group:ro"));
    v.push(String::from_str("/etc/passwd:/etc/passwd:ro"));
    v.push(String::from_str("/etc/shadow:/etc/shadow:ro"));
    v.push(String::from_str("/etc/sudoers.d:/etc/sudoers.d:ro"));
    v.push(String::from_str("/tmp/.X11-unix:/tmp/.X11-unix:rw"));
    proof {
        assert(strings_view(v@) =~= system_mounts());
    }
    v
}

fn push_container_command(
    cmd: &mut Vec<String>,
    interactive: bool,
    command_override: &Option<String>,
    command: &String,
)
    ensures
        strings_view(final(cmd)@) == strings_view(old(cmd)@) + container_command(
            interactive,
            opt_view(*command_override),
            command@,
        ),
{
    let ghost before = strings_view(cmd@);
    if interactive {
        push_word(cmd, String::from_str("bash"));
        proof {
            assert(strings_view(cmd@) =~= before + seq!["bash"@]);
        }
    } else {
        match command_override {
            Some(c) => {
                if c.as_str().unicode_len() > 0 {
                    push_word(cmd, c.clone());
                    proof {
                        assert(strings_view(cmd@) =~= before + seq![c@]);
                    }
                } else {
                    proof {
                        assert(strings_view(cmd@) =~= before + Seq::<Seq<char>>::empty());
                    }
                }
            },
            None => {
                push_word(cmd, command.clone());
                proof {
                    assert(strings_view(cmd@) =~= before + seq![command@]);
                }
            },
        }
    }
}

/// Builds the argument vector of a `run` invocation for `pkg`.
///
/// The terminal is attached where `host` says that standard input is one,
/// whatever `docker_args` holds: a terminal flag found there is removed.
pub fn build_docker_command(
    config: &BulkerConfig,
    pkg: &PackageCommand,
    volumes: &[String],
    envvars: &[String],
    docker_args: &str,
    args: &[String],
    interactive: bool,
    engine_path: &str,
    host: &HostContext,
    env: &Environment,
) -> (cmd: Vec<String>)
    ensures
        strings_view(cmd@) == docker_command_line(
            config.bulker.host_network,
            config.bulker.system_volumes,
            pkg@,
            strings_view(volumes@),
            strings_view(envvars@),
            docker_args@,
            strings_view(args@),
            interactive,
            engine_path@,
            host@,
            env.vars(),
            opt_view(env.home_dir),
        ),
{
    let ghost vars = env.vars();
    let ghost home = opt_view(env.home_dir);
    let mut cmd: Vec<String> = Vec::new();
    cmd.push(String::from_str(engine_path));
    cmd.push(String::from_str("run"));
    cmd.push(String::from_str("--rm"));
    cmd.push(String::from_str("--init"));
    if host.stdin_is_tty {
        cmd.push(String::from_str("-it"));
    } else {
        cmd.push(String::from_str("-i"));
    }
    let ghost s1 = strings_view(cmd@);
    proof {
        assert(s1 =~= seq![engine_path@, "run"@, "--rm"@, "--init"@, if host.stdin_is_tty {
            "-it"@
        } else {
            "-i"@
        }]);
    }
    if docker_args.unicode_len() > 0 {
        let cleaned = strip_tty_flag(docker_args);
        if cleaned.as_str().unicode_len() > 0 {
            let expanded_args = expand_path(cleaned.as_str(), env);
            let parts = shell_split(expanded_args.as_str());
            extend_strings(&mut cmd, parts.as_slice());
        }
    }
    let ghost s2 = strings_view(cmd@);
    proof {
        assert(s2 =~= s1 + extra_arg_words(docker_args@, vars, home));
    }
    if !pkg.no_user {
        let mut flag = String::from_str("--user=");
        push_decimal(&mut flag, host.uid);
        flag.push(':');
        push_decimal(&mut flag, host.gid);
        proof {
            assert(flag@ =~= user_flag(host.uid as nat, host.gid as nat));
        }
        push_word(&mut cmd, flag);
    }
    let ghost s3 = strings_view(cmd@);
    proof {
        assert(s3 =~= s2 + (if !pkg.no_user {
            seq![user_flag(host.uid as nat, host.gid as nat)]
        } else {
            Seq::empty()
        }));
    }
    if !pkg.no_network && config.bulker.host_network {
        push_word(&mut cmd, String::from_str("--network=host"));
    }
    let ghost s4 = strings_view(cmd@);
    proof {
        assert(s4 =~= s3 + (if !pkg.no_network && config.bulker.host_network {
            seq!["--network=host"@]
        } else {
            Seq::empty()
        }));
    }
    push_flag_pairs(&mut cmd, "--env", envvars);
    let ghost s5 = strings_view(cmd@);
    let ghost vols = strings_view(volumes@);
    let mut i: usize = 0;
    proof {
        assert(s5 + volume_words(vols, vars, home, 0) =~= s5);
    }
    while i < volumes.len()
        invariant
            i <= volumes.len(),
            vols == strings_view(volumes@),
            vars == env.vars(),
            home == opt_view(env.home_dir),
            strings_view(cmd@) == s5 + volume_words(vols, vars, home, i as int),
        decreases volumes.len() - i,
    {
        assert(vols[i as int] == volumes@[i as int]@);
        let path = expand_path(volumes[i].as_str(), env);
        let mut mount = path.clone();
        mount.push(':');
        mount.append(path.as_str());
        proof {
            assert(mount@ =~= same_path_mount(path@));
        }
        push_word(&mut cmd, String::from_str("--volume"));
        push_word(&mut cmd, mount);
        proof {
            assert(strings_view(cmd@) =~= s5 + volume_words(vols, vars, home, i + 1));
        }
        i += 1;
    }
    let ghost s6 = strings_view(cmd@);
    if !pkg.no_user && config.bulker.system_volumes {
        let mounts = system_mount_list();
        push_flag_pairs(&mut cmd, "--volume", mounts.as_slice());
    }
    let ghost s7 = strings_view(cmd@);
    proof {
        assert(s7 =~= s6 + (if !pkg.no_user && config.bulker.system_volumes {
            flag_pairs("--volume"@, system_mounts(), 5)
        } else {
            Seq::empty()
        }));
    }
    let mut workdir = String::from_str("--workdir=");
    let mut declared = false;
    match &pkg.workdir {
        Some(w) => {
            if w.as_str().unicode_len() > 0 {
                workdir.append(w.as_str());
                declared = true;
            }
        },
        None => {},
    }
    if !declared {
        match &host.current_dir {
            Some(d) => {
                workdir.append(d.as_str());
            },
            None => {
                workdir.append("/");
            },
        }
    }
    proof {
        assert(workdir@ =~= "--workdir="@ + workdir_of(
            opt_view(pkg.workdir),
            opt_view(host.current_dir),
        ));
    }
    push_word(&mut cmd, workdir);
    push_word(&mut cmd, pkg.docker_image.clone());
    let ghost s8 = strings_view(cmd@);
    proof {
        assert(s8 =~= s7 + seq![
            "--workdir="@ + workdir_of(opt_view(pkg.workdir), opt_view(host.current_dir)),
            pkg.docker_image@,
        ]);
    }
    push_container_command(&mut cmd, interactive, &pkg.docker_command, &pkg.command);
    extend_strings(&mut cmd, args);
    cmd
}

/// `--env` and `NAME=value` for each of the first `n` names that is set.
pub open spec fn env_assignments(
    names: Seq<Seq<char>>,
    vars: Seq<(Seq<char>, Seq<char>)>,
    n: int,
) -> Seq<Seq<char>>
    decreases n,
{
    if n <= 0 || n > names.len() {
        Seq::empty()
    } else {
        match lookup(vars, names[n - 1]) {
            Some(v) => env_assignments(names, vars, n - 1).push("--env"@).push(
                names[n - 1] + seq!['='] + v,
            ),
            None => env_assignments(names, vars, n - 1),
        }
    }
}

/// Whether an expanded volume is the home directory, which the second
/// engine binds by itself.
pub open spec fn is_home_volume(
    path: Seq<char>,
    vars: Seq<(Seq<char>, Seq<char>)>,
    home_dir: Option<Seq<char>>,
) -> bool {
    path == expanded("$HOME"@, vars, home_dir) || path == expanded("${HOME}"@, vars, home_dir)
}

/// `-B` and a same-path bind for each of the first `n` volumes, each
/// expanded first, the home directory left out.
pub open spec fn bind_words(
    volumes: Seq<Seq<char>>,
    vars: Seq<(Seq<char>, Seq<char>)>,
    home_dir: Option<Seq<char>>,
    n: int,
) -> Seq<Seq<char>>
    decreases n,
{
    if n <= 0 || n > volumes.len() {
        Seq::empty()
    } else {
        let path = expanded(volumes[n - 1], vars, home_dir);
        if is_home_volume(path, vars, home_dir) {
            bind_words(volumes, vars, home_dir, n - 1)
        } else {
            bind_words(volumes, vars, home_dir, n - 1).push("-B"@).push(same_path_mount(path))
        }
    }
}

/// The words of the engine-specific arguments of the second engine.
pub open spec fn apptainer_arg_words(
    apptainer_args: Option<Seq<char>>,
    vars: Seq<(Seq<char>, Seq<char>)>,
    home_dir: Option<Seq<char>>,
) -> Seq<Seq<char>> {
    match apptainer_args {
        Some(a) => if a.len() > 0 {
            shell_words(expanded(a, vars, home_dir))
        } else {
            Seq::empty()
        },
        None => Seq::empty(),
    }
}

/// The override that applies under the second engine: its own, else the
/// one declared for the first engine.
pub open spec fn apptainer_override(pkg: CommandSpec) -> Option<Seq<char>> {
    match pkg.apptainer_command {
        Some(c) => Some(c),
        None => pkg.docker_command,
    }
}

/// Whether the environment asks for strict forwarding of variables: the
/// mere presence of `BULKER_STRICT_ENV` does.
pub open spec fn strict_env_requested(vars: Seq<(Seq<char>, Seq<char>)>) -> bool {
    lookup(vars, "BULKER_STRICT_ENV"@) is Some
}

/// The argument vector of an `exec` invocation of the second engine.
pub open spec fn apptainer_command_line(
    image_folder: Option<Seq<char>>,
    pkg: CommandSpec,
    volumes: Seq<Seq<char>>,
    envvars: Seq<Seq<char>>,
    args: Seq<Seq<char>>,
    interactive: bool,
    engine_path: Seq<char>,
    vars: Seq<(Seq<char>, Seq<char>)>,
    home_dir: Option<Seq<char>>,
) -> Seq<Seq<char>> {
    seq![engine_path, "exec"@] + (if strict_env_requested(vars) {
        seq!["--cleanenv"@] + env_assignments(envvars, vars, envvars.len() as int)
    } else {
        Seq::empty()
    }) + apptainer_arg_words(pkg.apptainer_args, vars, home_dir) + bind_words(
        volumes,
        vars,
        home_dir,
        volumes.len() as int,
    ) + seq![image_file_path(pkg.docker_image, image_folder)] + container_command(
        interactive,
        apptainer_override(pkg),
        pkg.command,
    ) + args
}

/// Builds the argument vector of an `exec` invocation of the second engine
/// for `pkg`. It has no user mapping and no network flag, binds with `-B`,
/// and names the image by the path of its local image file. In strict
/// mode the environment is cleaned and each allow-listed variable that is
/// set is passed with its value.
pub fn build_apptainer_command(
    config: &BulkerConfig,
    pkg: &PackageCommand,
    volumes: &[String],
    envvars: &[String],
    args: &[String],
    interactive: bool,
    engine_path: &str,
    env: &Environment,
) -> (cmd: Vec<String>)
    ensures
        strings_view(cmd@) == apptainer_command_line(
            opt_view(config.bulker.apptainer_image_folder),
            pkg@,
            strings_view(volumes@),
            strings_view(envvars@),
            strings_view(args@),
            interactive,
            engine_path@,
            env.vars(),
            opt_view(env.home_dir),
        ),
{
    let ghost vars = env.vars();
    let ghost home = opt_view(env.home_dir);
    let strict_env = env.contains("BULKER_STRICT_ENV");
    let folder: Option<&str> = match &config.bulker.apptainer_image_folder {
        Some(f) => Some(f.as_str()),
        None => None,
    };
    let (_file, image_path) = apptainer_image_paths(pkg.docker_image.as_str(), folder);
    let mut cmd: Vec<String> = Vec::new();
    cmd.push(String::from_str(engine_path));
    cmd.push(String::from_str("exec"));
    let ghost s1 = strings_view(cmd@);
    proof {
        assert(s1 =~= seq![engine_path@, "exec"@]);
    }
    if strict_env {
        push_word(&mut cmd, String::from_str("--cleanenv"));
        let ghost s1b = strings_view(cmd@);
        let ghost names = strings_view(envvars@);
        let mut i: usize = 0;
        proof {
            assert(s1b + env_assignments(names, vars, 0) =~= s1b);
        }
        while i < envvars.len()
            invariant
                i <= envvars.len(),
                names == strings_view(envvars@),
                vars == env.vars(),
                strings_view(cmd@) == s1b + env_assignments(names, vars, i as int),
            decreases envvars.len() - i,
        {
            assert(names[i as int] == envvars@[i as int]@);
            match env.get(envvars[i].as_str()) {
                Some(val) => {
                    let mut assignment = envvars[i].clone();
                    assignment.push('=');
                    assignment.append(val.as_str());
                    proof {
                        assert(assignment@ =~= names[i as int] + seq!['='] + val@);
                    }
                    push_word(&mut cmd, String::from_str("--env"));
                    push_word(&mut cmd, assignment);
                },
                None => {},
            }
            proof {
                assert(strings_view(cmd@) =~= s1b + env_assignments(names, vars, i + 1));
            }
            i += 1;
        }
        proof {
            assert(strings_view(cmd@) =~= s1 + (seq!["--cleanenv"@] + env_assignments(
                names,
                vars,
                names.len() as int,
            )));
        }
    }
    let ghost s2 = strings_view(cmd@);
    proof {
        assert(s2 =~= s1 + (if strict_env {
            seq!["--cleanenv"@] + env_assignments(
                strings_view(envvars@),
                vars,
                envvars@.len() as int,
            )
        } else {
            Seq::empty()
        }));
    }
    match &pkg.apptainer_args {
        Some(aa) => {
            if aa.as_str().unicode_len() > 0 {
                let expanded_args = expand_path(aa.as_str(), env);
                let parts = shell_split(expanded_args.as_str());
                extend_strings(&mut cmd, parts.as_slice());
            }
        },
        None => {},
    }
    let ghost s3 = strings_view(cmd@);
    proof {
        assert(s3 =~= s2 + apptainer_arg_words(opt_view(pkg.apptainer_args), vars, home));
    }
    let home_plain = expand_path("$HOME", env);
    let home_braced = expand_path("${HOME}", env);
    let ghost vols = strings_view(volumes@);
    let mut i: usize = 0;
    proof {
        assert(s3 + bind_words(vols, vars, home, 0) =~= s3);
    }
    while i < volumes.len()
        invariant
            i <= volumes.len(),
            vols == strings_view(volumes@),
            vars == env.vars(),
            home == opt_view(env.home_dir),
            home_plain@ == expanded("$HOME"@, vars, home),
            home_braced@ == expanded("${HOME}"@, vars, home),
            strings_view(cmd@) == s3 + bind_words(vols, vars, home, i as int),
        decreases volumes.len() - i,
    {
        assert(vols[i as int] == volumes@[i as int]@);
        let path = expand_path(volumes[i].as_str(), env);
        if !str_eq(path.as_str(), home_plain.as_str()) && !str_eq(
            path.as_str(),
            home_braced.as_str(),
        ) {
            let mut mount = path.clone();
            mount.push(':');
            mount.append(path.as_str());
            proof {
                assert(mount@ =~= same_path_mount(path@));
            }
            push_word(&mut cmd, String::from_str("-B"));
            push_word(&mut cmd, mount);
        }
        proof {
            assert(strings_view(cmd@) =~= s3 + bind_words(vols, vars, home, i + 1));
        }
        i += 1;
    }
    push_word(&mut cmd, image_path);
    let ghost s4 = strings_view(cmd@);
    proof {
        assert(s4 =~= s3 + bind_words(vols, vars, home, vols.len() as int) + seq![
            image_file_path(pkg.docker_image@, opt_view(config.bulker.apptainer_image_folder)),
        ]);
    }
    match &pkg.apptainer_command {
        Some(_c) => {
            push_container_command(&mut cmd, interactive, &pkg.apptainer_command, &pkg.command);
        },
        None => {
            push_container_command(&mut cmd, interactive, &pkg.docker_command, &pkg.command);
        },
    }
    extend_strings(&mut cmd, args);
    cmd
}

/// The directory for temporary files on the host, which every container
/// gets mounted: `TMPDIR` where it is set, else `/tmp`.
pub fn tmpdir_volume(env: &Environment) -> (r: String)
    ensures
        r@ == (match lookup(env.vars(), "TMPDIR"@) {
            Some(d) => d,
            None => "/tmp"@,
        }),
{
    match env.get("TMPDIR") {
        Some(d) => d,
        None => String::from_str("/tmp"),
    }
}


/// What an entry point of a shimlink directory leads to.
#[derive(Debug)]
pub enum ShimlinkTarget {
    /// This program itself, which dispatches on the name of the entry.
    Dispatcher,
    /// The binary of a host command, at the place where it was found.
    HostBinary(String),
}

/// One entry point to place in a shimlink directory.
#[derive(Debug)]
pub struct ShimlinkEntry {
    pub name: String,
    pub target: ShimlinkTarget,
}

/// The mathematical value of a [`ShimlinkTarget`].
pub enum TargetSpec {
    Dispatcher,
    HostBinary(Seq<char>),
}

/// The mathematical value of a [`ShimlinkEntry`].
pub struct EntrySpec {
    pub name: Seq<char>,
    pub target: TargetSpec,
}

impl View for ShimlinkEntry {
    type V = EntrySpec;

    open spec fn view(&self) -> EntrySpec {
        EntrySpec {
            name: self.name@,
            target: match self.target {
                ShimlinkTarget::Dispatcher => TargetSpec::Dispatcher,
                ShimlinkTarget::HostBinary(p) => TargetSpec::HostBinary(p@),
            },
        }
    }
}

/// The views of a list of entries.
pub open spec fn entries_view(v: Seq<ShimlinkEntry>) -> Seq<EntrySpec> {
    Seq::new(v.len(), |i: int| v[i]@)
}

/// For each of the first `n` commands, an entry under its name and one
/// under its name with the interactive marker, both leading to the dispatcher.
pub open spec fn dispatch_entries(cmds: Seq<CommandSpec>, n: int) -> Seq<EntrySpec>
    decreases n,
{
    if n <= 0 || n > cmds.len() {
        Seq::empty()
    } else {
        dispatch_entries(cmds, n - 1).push(
            EntrySpec { name: cmds[n - 1].command, target: TargetSpec::Dispatcher },
        ).push(
            EntrySpec { name: seq!['_'] + cmds[n - 1].command, target: TargetSpec::Dispatcher },
        )
    }
}

/// Where the host command at `i` was found, if it was.
pub open spec fn found_at(paths: Seq<Option<Seq<char>>>, i: int) -> Option<Seq<char>> {
    if 0 <= i < paths.len() {
        paths[i]
    } else {
        None
    }
}

/// For each of the first `n` host commands that was found, an entry that
/// leads to the place where it was found.
pub open spec fn host_entries(
    host_commands: Seq<Seq<char>>,
    paths: Seq<Option<Seq<char>>>,
    n: int,
) -> Seq<EntrySpec>
    decreases n,
{
    if n <= 0 || n > host_commands.len() {
        Seq::empty()
    } else {
        match found_at(paths, n - 1) {
            Some(p) => host_entries(host_commands, paths, n - 1).push(
                EntrySpec { name: host_commands[n - 1], target: TargetSpec::HostBinary(p) },
            ),
            None => host_entries(host_commands, paths, n - 1),
        }
    }
}

/// How many of the first `n` host commands were found.
pub open spec fn found_count(paths: Seq<Option<Seq<char>>>, n: int) -> nat
    decreases n,
{
    if n <= 0 {
        0
    } else if found_at(paths, n - 1) is Some {
        found_count(paths, n - 1) + 1
    } else {
        found_count(paths, n - 1)
    }
}

/// Those of the first `n` host commands that were not found.
pub open spec fn missing_hosts(
    host_commands: Seq<Seq<char>>,
    paths: Seq<Option<Seq<char>>>,
    n: int,
) -> Seq<Seq<char>>
    decreases n,
{
    if n <= 0 || n > host_commands.len() {
        Seq::empty()
    } else if found_at(paths, n - 1) is Some {
        missing_hosts(host_commands, paths, n - 1)
    } else {
        missing_hosts(host_commands, paths, n - 1).push(host_commands[n - 1])
    }
}

/// The entry points of one manifest: two for each command, then one for
/// each host command that was found.
pub open spec fn shimlink_plan(
    m: crate::manifest::ManifestSpec,
    paths: Seq<Option<Seq<char>>>,
) -> Seq<EntrySpec> {
    dispatch_entries(m.commands, m.commands.len() as int) + host_entries(
        m.host_commands,
        paths,
        m.host_commands.len() as int,
    )
}

/// The views of a list of optional strings.
pub open spec fn opts_view(v: Seq<Option<String>>) -> Seq<Option<Seq<char>>> {
    Seq::new(v.len(), |i: int| opt_view(v[i]))
}

/// The entry points to place for `manifest`, in order. `host_paths[i]` is
/// where the host command at `i` was found; one that was not found, or has
/// no answer, gets no entry.
pub fn shimlink_entries(manifest: &crate::manifest::Manifest, host_paths: &[Option<String>]) -> (r:
    Vec<ShimlinkEntry>)
    ensures
        entries_view(r@) == shimlink_plan(manifest@, opts_view(host_paths@)),
{
    let cmds = &manifest.manifest.commands;
    let hosts = &manifest.manifest.host_commands;
    let ghost cs = manifest@.commands;
    let ghost hs = manifest@.host_commands;
    let ghost ps = opts_view(host_paths@);
    let mut r: Vec<ShimlinkEntry> = Vec::new();
    let mut i: usize = 0;
    proof {
        assert(entries_view(r@) =~= dispatch_entries(cs, 0));
    }
    while i < cmds.len()
        invariant
            i <= cmds.len(),
            cs == crate::manifest::commands_view(cmds@),
            entries_view(r@) == dispatch_entries(cs, i as int),
        decreases cmds.len() - i,
    {
        assert(cs[i as int] == cmds@[i as int]@);
        let plain = ShimlinkEntry {
            name: cmds[i].command.clone(),
            target: ShimlinkTarget::Dispatcher,
        };
        let mut marked_name = String::from_str("_");
        proof {
            reveal_strlit("_");
            assert("_"@ =~= seq!['_']);
        }
        marked_name.append(cmds[i].command.as_str());
        let marked = ShimlinkEntry { name: marked_name, target: ShimlinkTarget::Dispatcher };
        proof {
            assert(entries_view(r@.push(plain).push(marked)) =~= entries_view(r@).push(
                plain@,
            ).push(marked@));
        }
        r.push(plain);
        r.push(marked);
        i += 1;
    }
    let ghost first = entries_view(r@);
    let mut j: usize = 0;
    proof {
        assert(first + host_entries(hs, ps, 0) =~= first);
    }
    while j < hosts.len()
        invariant
            j <= hosts.len(),
            hs == strings_view(hosts@),
            ps == opts_view(host_paths@),
            entries_view(r@) == first + host_entries(hs, ps, j as int),
        decreases hosts.len() - j,
    {
        assert(hs[j as int] == hosts@[j as int]@);
        if j < host_paths.len() {
            assert(ps[j as int] == opt_view(host_paths@[j as int]));
            match &host_paths[j] {
                Some(p) => {
                    let e = ShimlinkEntry {
                        name: hosts[j].clone(),
                        target: ShimlinkTarget::HostBinary(p.clone()),
                    };
                    proof {
                        assert(entries_view(r@.push(e)) =~= entries_view(r@).push(e@));
                    }
                    r.push(e);
                },
                None => {},
            }
        }
        proof {
            assert(entries_view(r@) =~= first + host_entries(hs, ps, j + 1));
        }
        j += 1;
    }
    r
}

/// The host commands of `manifest` that were not found. They get no entry
/// point, which deserves a warning and is no failure.
pub fn missing_host_commands(manifest: &crate::manifest::Manifest, host_paths: &[Option<String>]) -> (r:
    Vec<String>)
    ensures
        strings_view(r@) == missing_hosts(
            manifest@.host_commands,
            opts_view(host_paths@),
            manifest@.host_commands.len() as int,
        ),
{
    let hosts = &manifest.manifest.host_commands;
    let ghost hs = manifest@.host_commands;
    let ghost ps = opts_view(host_paths@);
    let mut r: Vec<String> = Vec::new();
    let mut j: usize = 0;
    proof {
        assert(strings_view(r@) =~= missing_hosts(hs, ps, 0));
    }
    while j < hosts.len()
        invariant
            j <= hosts.len(),
            hs == strings_view(hosts@),
            ps == opts_view(host_paths@),
            strings_view(r@) == missing_hosts(hs, ps, j as int),
        decreases hosts.len() - j,
    {
        assert(hs[j as int] == hosts@[j as int]@);
        let found = if j < host_paths.len() {
            assert(ps[j as int] == opt_view(host_paths@[j as int]));
            host_paths[j].is_some()
        } else {
            false
        };
        if !found {
            let name = hosts[j].clone();
            proof {
                assert(strings_view(r@.push(name)) =~= strings_view(r@).push(name@));
            }
            r.push(name);
        }
        j += 1;
    }
    r
}

/// A manifest gives two entry points for each of its commands and one
/// for each of its host commands that was found.
pub proof fn lemma_plan_size(m: crate::manifest::ManifestSpec, paths: Seq<Option<Seq<char>>>)
    ensures
        shimlink_plan(m, paths).len() == 2 * m.commands.len() + found_count(
            paths,
            m.host_commands.len() as int,
        ),
{
    lemma_dispatch_entries_len(m.commands, m.commands.len() as int);
    lemma_host_entries_len(m.host_commands, paths, m.host_commands.len() as int);
}

/// Each command gives two entry points.
pub proof fn lemma_dispatch_entries_len(cmds: Seq<CommandSpec>, n: int)
    requires
        0 <= n <= cmds.len(),
    ensures
        dispatch_entries(cmds, n).len() == 2 * n,
    decreases n,
{
    if n > 0 {
        lemma_dispatch_entries_len(cmds, n - 1);
    }
}

/// Each host command that was found gives one entry point.
pub proof fn lemma_host_entries_len(
    host_commands: Seq<Seq<char>>,
    paths: Seq<Option<Seq<char>>>,
    n: int,
)
    requires
        0 <= n <= host_commands.len(),
    ensures
        host_entries(host_commands, paths, n).len() == found_count(paths, n),
    decreases n,
{
    if n > 0 {
        lemma_host_entries_len(host_commands, paths, n - 1);
    }
}

/// `flag` and an item for each item: twice as many words as items.
pub proof fn lemma_flag_pairs_len(flag: Seq<char>, items: Seq<Seq<char>>, n: int)
    requires
        0 <= n <= items.len(),
    ensures
        flag_pairs(flag, items, n).len() == 2 * n,
    decreases n,
{
    if n > 0 {
        lemma_flag_pairs_len(flag, items, n - 1);
    }
}

} // verus!
