//! What an activation hands to the shell it starts: the search path, the
//! prompt, and the variables through which later dispatches find the
//! active crate.

use crate::argpaths::{child_path, join_path, parent_of, path_parent};
use crate::config::{vars_view, EnvVar};
use crate::manifest::{opt_str_view, refs_view, CrateRef, CrateVars};
use crate::text::{
    ends_with, join, join_strings, opt_view, replace_all, replaced, str_ends_with, str_eq,
    strings_view,
};
use vstd::prelude::*;

verus! {

/// The search path of an activation and the directory of its entry points.
#[derive(Debug)]
pub struct ActivationResult {
    /// The directory of entry points alone in strict mode, and followed by
    /// the caller's search path otherwise.
    pub path: String,
    /// The directory of entry points, to be removed on deactivation.
    pub shimdir: String,
}

/// The search path of an activation.
pub open spec fn activation_path(shimdir: Seq<char>, current_path: Seq<char>, strict: bool) -> Seq<
    char,
> {
    if strict {
        shimdir
    } else {
        shimdir + seq![':'] + current_path
    }
}

/// Builds the search path of an activation from its fresh directory of
/// entry points: that directory alone in strict mode, else that directory
/// before the caller's own search path.
pub fn get_new_path(shimdir: &str, current_path: &str, strict: bool) -> (r: ActivationResult)
    ensures
        r.shimdir@ == shimdir@,
        r.path@ == activation_path(shimdir@, current_path@, strict),
{
    let path = if strict {
        String::from_str(shimdir)
    } else {
        let mut p = String::from_str(shimdir);
        p.push(':');
        p.append(current_path);
        proof {
            assert(p@ =~= shimdir@ + seq![':'] + current_path@);
        }
        p
    };
    ActivationResult { path, shimdir: String::from_str(shimdir) }
}

/// The kind of shell behind a shell path: `zsh` where the path ends so,
/// else `bash`.
pub fn shell_type(shell_path: &str) -> (r: &'static str)
    ensures
        r@ == (if ends_with(shell_path@, "zsh"@) {
            "zsh"@
        } else {
            "bash"@
        }),
{
    if str_ends_with(shell_path, "zsh") {
        "zsh"
    } else {
        "bash"
    }
}

/// `namespace/name` of each of the first `n` crates.
pub open spec fn short_names(refs: Seq<CrateRef>, n: int) -> Seq<Seq<char>>
    decreases n,
{
    if n <= 0 || n > refs.len() {
        Seq::empty()
    } else {
        short_names(refs, n - 1).push(refs[n - 1].namespace + seq!['/'] + refs[n - 1].crate_name)
    }
}

/// The name of an activation for the prompt: `namespace/name` of each
/// crate, joined by commas.
pub fn crate_display_name(cratelist: &[CrateVars]) -> (r: String)
    ensures
        r@ == join(short_names(refs_view(cratelist@), cratelist@.len() as int), ","@),
{
    let ghost refs = refs_view(cratelist@);
    let mut names: Vec<String> = Vec::new();
    let mut i: usize = 0;
    proof {
        assert(strings_view(names@) =~= short_names(refs, 0));
    }
    while i < cratelist.len()
        invariant
            i <= cratelist.len(),
            refs == refs_view(cratelist@),
            strings_view(names@) == short_names(refs, i as int),
        decreases cratelist.len() - i,
    {
        assert(refs[i as int] == cratelist@[i as int]@);
        let mut name = cratelist[i].namespace.clone();
        name.push('/');
        name.append(cratelist[i].crate_name.as_str());
        proof {
            assert(name@ =~= refs[i as int].namespace + seq!['/'] + refs[i as int].crate_name);
            assert(strings_view(names@.push(name)) =~= strings_view(names@).push(name@));
        }
        names.push(name);
        i += 1;
    }
    join_strings(&names, ",")
}

/// The prompt template used where the configuration holds none.
pub open spec fn default_prompt(shell: Seq<char>) -> Seq<char> {
    if shell == "zsh"@ {
        "%F{226}%b|%f%F{blue}%~%f %# "@
    } else {
        "\\[\\033[01;93m\\]\\b|\\[\\033[00m\\]\\[\\033[01;34m\\]\\w\\[\\033[00m\\]\\$ "@
    }
}

/// The prompt: the template with `\b`, and then `%b`, replaced by the
/// name of the activation.
pub open spec fn prompt_for(shell: Seq<char>, crate_name: Seq<char>, custom: Option<Seq<char>>) -> Seq<
    char,
> {
    let template = match custom {
        Some(p) => p,
        None => default_prompt(shell),
    };
    replaced(replaced(template, "\\b"@, crate_name), "%b"@, crate_name)
}

/// Builds the prompt of an activated shell.
pub fn build_prompt(shell: &str, crate_name: &str, custom_prompt: Option<&str>) -> (r: String)
    ensures
        r@ == prompt_for(shell@, crate_name@, opt_str_view(custom_prompt)),
{
    let template: &str = match custom_prompt {
        Some(p) => p,
        None => if str_eq(shell, "zsh") {
            "%F{226}%b|%f%F{blue}%~%f %# "
        } else {
            "\\[\\033[01;93m\\]\\b|\\[\\033[00m\\]\\[\\033[01;34m\\]\\w\\[\\033[00m\\]\\$ "
        },
    };
    let first = replace_all(template, "\\b", crate_name);
    replace_all(first.as_str(), "%b", crate_name)
}

/// The directory below which the start-up files of activated shells are
/// looked for: the directory of the configuration file, or `.` where the
/// path of the file has no parent.
pub fn config_templates_dir(config_path: &str) -> (r: String)
    ensures
        r@ == (match path_parent(config_path@) {
            Some(p) => p,
            None => "."@,
        }),
{
    match parent_of(config_path) {
        Some(p) => p,
        None => String::from_str("."),
    }
}

/// The shell to start: the configured one where it can be called, else
/// the caller's own where that can be called, else `/bin/bash`.
pub fn select_shell(
    configured: &str,
    configured_callable: bool,
    from_environment: Option<&str>,
    environment_callable: bool,
) -> (r: String)
    ensures
        r@ == (if configured@.len() > 0 && configured_callable {
            configured@
        } else if from_environment is Some && environment_callable {
            from_environment->0@
        } else {
            "/bin/bash"@
        }),
{
    if configured.unicode_len() > 0 && configured_callable {
        return String::from_str(configured);
    }
    match from_environment {
        Some(s) => {
            if environment_callable {
                return String::from_str(s);
            }
        },
        None => {},
    }
    String::from_str("/bin/bash")
}

/// The user's own start-up file, which the activated shell sources: the
/// configured one, else `.zshrc` or `.bashrc` in the home directory.
pub fn shell_rc_file(configured: &str, shell: &str, home: Option<&str>) -> (r: String)
    ensures
        r@ == (if configured@.len() > 0 {
            configured@
        } else {
            (match home {
                Some(h) => h@,
                None => "$HOME"@,
            }) + (if shell@ == "zsh"@ {
                "/.zshrc"@
            } else {
                "/.bashrc"@
            })
        }),
{
    if configured.unicode_len() > 0 {
        return String::from_str(configured);
    }
    let mut r = match home {
        Some(h) => String::from_str(h),
        None => String::from_str("$HOME"),
    };
    if str_eq(shell, "zsh") {
        r.append("/.zshrc");
    } else {
        r.append("/.bashrc");
    }
    r
}

/// What an activation is asked for.
#[derive(Debug)]
pub struct ActivationRequest {
    /// The display name of the first crate, by which dispatches find it.
    pub crate_id: String,
    /// The configuration file that was loaded, if one was.
    pub config_path: Option<String>,
    /// Whether only allow-listed variables may reach containers.
    pub strict_env: bool,
    /// The search path of the activation.
    pub path: String,
    /// The directory of entry points.
    pub shimdir: String,
    /// The prompt, where the prompt is to be changed.
    pub prompt: Option<String>,
    /// The user's own start-up file.
    pub shell_rc: String,
}

/// The variables through which an activation speaks to the shell it
/// starts, in the order in which they are set.
pub open spec fn activation_vars(
    crate_id: Seq<char>,
    config_path: Option<Seq<char>>,
    strict_env: bool,
    path: Seq<char>,
    shimdir: Seq<char>,
    prompt: Option<Seq<char>>,
    shell_rc: Seq<char>,
) -> Seq<(Seq<char>, Seq<char>)> {
    seq![("BULKERCRATE"@, crate_id)] + (match config_path {
        Some(p) => seq![("BULKERCFG"@, p)],
        None => Seq::empty(),
    }) + (if strict_env {
        seq![("BULKER_STRICT_ENV"@, "1"@)]
    } else {
        Seq::empty()
    }) + seq![("BULKERPATH"@, path), ("BULKER_SHIMDIR"@, shimdir)] + (match prompt {
        Some(p) => seq![("BULKERPROMPT"@, p)],
        None => Seq::empty(),
    }) + seq![("BULKERSHELLRC"@, shell_rc)]
}

fn push_var(vars: &mut Vec<EnvVar>, name: &str, value: &str)
    ensures
        vars_view(final(vars)@) == vars_view(old(vars)@).push((name@, value@)),
{
    let var = EnvVar { name: String::from_str(name), value: String::from_str(value) };
    proof {
        assert(vars_view(vars@.push(var)) =~= vars_view(vars@).push((name@, value@)));
    }
    vars.push(var);
}

impl ActivationRequest {
    /// The variables to set for the shell, in order.
    pub fn variables(&self) -> (vars: Vec<EnvVar>)
        ensures
            vars_view(vars@) == activation_vars(
                self.crate_id@,
                opt_view(self.config_path),
                self.strict_env,
                self.path@,
                self.shimdir@,
                opt_view(self.prompt),
                self.shell_rc@,
            ),
    {
        let mut vars: Vec<EnvVar> = Vec::new();
        push_var(&mut vars, "BULKERCRATE", self.crate_id.as_str());
        let ghost s1 = vars_view(vars@);
        proof {
            assert(s1 =~= seq![("BULKERCRATE"@, self.crate_id@)]);
        }
        match &self.config_path {
            Some(p) => {
                push_var(&mut vars, "BULKERCFG", p.as_str());
            },
            None => {},
        }
        let ghost s2 = vars_view(vars@);
        proof {
            assert(s2 =~= s1 + (match opt_view(self.config_path) {
                Some(p) => seq![("BULKERCFG"@, p)],
                None => Seq::empty(),
            }));
        }
        if self.strict_env {
            push_var(&mut vars, "BULKER_STRICT_ENV", "1");
        }
        let ghost s3 = vars_view(vars@);
        proof {
            assert(s3 =~= s2 + (if self.strict_env {
                seq![("BULKER_STRICT_ENV"@, "1"@)]
            } else {
                Seq::empty()
            }));
        }
        push_var(&mut vars, "BULKERPATH", self.path.as_str());
        push_var(&mut vars, "BULKER_SHIMDIR", self.shimdir.as_str());
        let ghost s4 = vars_view(vars@);
        proof {
            assert(s4 =~= s3 + seq![("BULKERPATH"@, self.path@), ("BULKER_SHIMDIR"@, self.shimdir@)]);
        }
        match &self.prompt {
            Some(p) => {
                push_var(&mut vars, "BULKERPROMPT", p.as_str());
            },
            None => {},
        }
        let ghost s5 = vars_view(vars@);
        proof {
            assert(s5 =~= s4 + (match opt_view(self.prompt) {
                Some(p) => seq![("BULKERPROMPT"@, p)],
                None => Seq::empty(),
            }));
        }
        push_var(&mut vars, "BULKERSHELLRC", self.shell_rc.as_str());
        vars
    }
}

/// The line that exports one variable.
pub open spec fn export_line(name: Seq<char>, value: Seq<char>) -> Seq<char> {
    "export "@ + name + "=\""@ + value + "\""@
}

/// One export line for each of the first `n` variables.
pub open spec fn export_lines_upto(vars: Seq<(Seq<char>, Seq<char>)>, n: int) -> Seq<Seq<char>>
    decreases n,
{
    if n <= 0 || n > vars.len() {
        Seq::empty()
    } else {
        export_lines_upto(vars, n - 1).push(export_line(vars[n - 1].0, vars[n - 1].1))
    }
}

/// What echo mode prints in place of starting a shell: the caller's
/// search path is saved unless it was saved before, each variable is
/// exported, and the search path is set last.
pub open spec fn echo_lines(
    vars: Seq<(Seq<char>, Seq<char>)>,
    path: Seq<char>,
    path_saved_before: bool,
) -> Seq<Seq<char>> {
    (if path_saved_before {
        Seq::empty()
    } else {
        seq![export_line("BULKER_ORIG_PATH"@, "$PATH"@)]
    }) + export_lines_upto(vars, vars.len() as int) + seq![export_line("PATH"@, path)]
}

fn make_export_line(name: &str, value: &str) -> (r: String)
    ensures
        r@ == export_line(name@, value@),
{
    let mut r = String::from_str("export ");
    r.append(name);
    r.append("=\"");
    r.append(value);
    r.append("\"");
    r
}

/// The lines of echo mode for the variables of an activation.
pub fn export_statements(vars: &[EnvVar], path: &str, path_saved_before: bool) -> (lines: Vec<
    String,
>)
    ensures
        strings_view(lines@) == echo_lines(vars_view(vars@), path@, path_saved_before),
{
    let ghost vs = vars_view(vars@);
    let mut lines: Vec<String> = Vec::new();
    if !path_saved_before {
        let l = make_export_line("BULKER_ORIG_PATH", "$PATH");
        proof {
            assert(strings_view(lines@.push(l)) =~= seq![
                export_line("BULKER_ORIG_PATH"@, "$PATH"@),
            ]);
        }
        lines.push(l);
    }
    let ghost head = strings_view(lines@);
    proof {
        assert(head =~= (if path_saved_before {
            Seq::<Seq<char>>::empty()
        } else {
            seq![export_line("BULKER_ORIG_PATH"@, "$PATH"@)]
        }));
        assert(head + export_lines_upto(vs, 0) =~= head);
    }
    let mut i: usize = 0;
    while i < vars.len()
        invariant
            i <= vars.len(),
            vs == vars_view(vars@),
            strings_view(lines@) == head + export_lines_upto(vs, i as int),
        decreases vars.len() - i,
    {
        assert(vs[i as int] == (vars@[i as int].name@, vars@[i as int].value@));
        let l = make_export_line(vars[i].name.as_str(), vars[i].value.as_str());
        proof {
            assert(strings_view(lines@.push(l)) =~= strings_view(lines@).push(l@));
            assert(head + export_lines_upto(vs, i + 1) =~= (head + export_lines_upto(
                vs,
                i as int,
            )).push(l@));
        }
        lines.push(l);
        i += 1;
    }
    let last = make_export_line("PATH", path);
    proof {
        assert(strings_view(lines@.push(last)) =~= strings_view(lines@).push(last@));
    }
    lines.push(last);
    lines
}

/// How the shell is started so that it reads the start-up file of the
/// activation: arguments for `bash`, and the directory that `zsh` is
/// pointed to instead.
#[derive(Debug)]
pub struct ShellLaunch {
    pub args: Vec<String>,
    /// The value for `ZDOTDIR`, for `zsh` only.
    pub zdotdir: Option<String>,
}

/// Decides how to start the shell of an activation.
pub fn shell_launch(shell: &str, config_dir: &str, rcfile: &str, strict: bool) -> (r: ShellLaunch)
    ensures
        strings_view(r.args@) == (if shell@ == "bash"@ {
            seq!["--noprofile"@, "--rcfile"@, child_path(config_dir@, rcfile@)]
        } else {
            Seq::empty()
        }),
        opt_view(r.zdotdir) == (if shell@ == "zsh"@ {
            Some(
                child_path(
                    config_dir@,
                    if strict {
                        "zsh_start_strict"@
                    } else {
                        "zsh_start"@
                    },
                ),
            )
        } else {
            None::<Seq<char>>
        }),
{
    let mut args: Vec<String> = Vec::new();
    let mut zdotdir: Option<String> = None;
    proof {
        assert(strings_view(args@) =~= Seq::<Seq<char>>::empty());
    }
    if str_eq(shell, "bash") {
        args.push(String::from_str("--noprofile"));
        args.push(String::from_str("--rcfile"));
        args.push(join_path(config_dir, rcfile));
        proof {
            assert(strings_view(args@) =~= seq![
                "--noprofile"@,
                "--rcfile"@,
                child_path(config_dir@, rcfile@),
            ]);
        }
    }
    if str_eq(shell, "zsh") {
        zdotdir = Some(
            join_path(
                config_dir,
                if strict {
                    "zsh_start_strict"
                } else {
                    "zsh_start"
                },
            ),
        );
    }
    ShellLaunch { args, zdotdir }
}

/// The script that runs one command in the environment of an activation:
/// the search path and the active crate are exported, then the
/// configuration file where one was loaded, then the request to print in
/// place of running where that was asked; the command follows, each of
/// its words quoted for the shell.
pub open spec fn exec_script_text(
    path: Seq<char>,
    crate_id: Seq<char>,
    config_path: Option<Seq<char>>,
    print_command: bool,
    command: Seq<Seq<char>>,
) -> Seq<char> {
    export_line("PATH"@, path) + "; "@ + export_line("BULKERCRATE"@, crate_id) + "; "@ + (
    match config_path {
        Some(p) => export_line("BULKERCFG"@, p) + "; "@,
        None => Seq::<char>::empty(),
    }) + (if print_command {
        "export BULKER_PRINT_COMMAND=1; "@
    } else {
        Seq::<char>::empty()
    }) + crate::dispatch::command_line(command)
}

/// Builds the script that runs `command` in the environment of an activation.
pub fn exec_script(
    path: &str,
    crate_id: &str,
    config_path: Option<&str>,
    print_command: bool,
    command: &[String],
) -> (r: String)
    ensures
        r@ == exec_script_text(
            path@,
            crate_id@,
            opt_str_view(config_path),
            print_command,
            strings_view(command@),
        ),
{
    let mut r = make_export_line("PATH", path);
    r.append("; ");
    r.append(make_export_line("BULKERCRATE", crate_id).as_str());
    r.append("; ");
    match config_path {
        Some(p) => {
            r.append(make_export_line("BULKERCFG", p).as_str());
            r.append("; ");
        },
        None => {},
    }
    if print_command {
        r.append("export BULKER_PRINT_COMMAND=1; ");
    }
    r.append(crate::dispatch::render_command_line(command).as_str());
    proof {
        assert(r@ =~= exec_script_text(
            path@,
            crate_id@,
            opt_str_view(config_path),
            print_command,
            strings_view(command@),
        ));
    }
    r
}


} // verus!
