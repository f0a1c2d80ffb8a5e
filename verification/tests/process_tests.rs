use bulker::activate::{
    build_prompt, config_templates_dir, crate_display_name, exec_script, export_statements, get_new_path,
    select_shell, shell_launch, shell_rc_file, shell_type, ActivationRequest,
};
use bulker::argpaths::join_path;
use bulker::manifest::CrateVars;
use bulker::process::{
    exit_code_or_fallback, names_child, shell_invocation, Escalation, EscalationAction,
    GroupSignal, NO_CHILD, PROBE_INTERVAL_MS,
};

#[test]
fn test_config_templates_dir_resolves_relative_to_config_file() {
    let result = config_templates_dir("/some/custom/path/bulker_config.yaml");
    assert_eq!(result, "/some/custom/path");
}

#[test]
fn test_config_templates_dir_rcfile_joins_correctly() {
    let dir = config_templates_dir("/home/user/Dropbox/env/bulker_config/zither.yaml");
    let rcfile_path = join_path(&dir, "templates/start.sh");
    assert_eq!(rcfile_path, "/home/user/Dropbox/env/bulker_config/templates/start.sh");
    assert_eq!(config_templates_dir("/"), ".");
    assert_eq!(config_templates_dir("config.yaml"), "");
}

#[test]
fn escalation_stops_after_first_signal_when_group_exits() {
    let mut e = Escalation::new();
    assert_eq!(e.next(true, 0), EscalationAction::Send(GroupSignal::Interrupt));
    assert_eq!(e.next(false, 3), EscalationAction::Done);
    assert_eq!(e.next(true, 5000), EscalationAction::Done);
    assert_eq!(e.sent, 1);
}

#[test]
fn escalation_leaves_a_dead_group_alone() {
    let mut e = Escalation::new();
    assert_eq!(e.next(false, 0), EscalationAction::Done);
    assert_eq!(e.sent, 0);
}

#[test]
fn escalation_runs_through_all_three_signals() {
    let mut e = Escalation::new();
    let mut sent = Vec::new();
    let mut sleeps = 0;
    let mut elapsed = 0u64;
    loop {
        match e.next(true, elapsed) {
            EscalationAction::Send(s) => {
                sent.push(s);
                elapsed = 0;
            },
            EscalationAction::Sleep(ms) => {
                assert_eq!(ms, PROBE_INTERVAL_MS);
                sleeps += 1;
                elapsed += ms;
            },
            EscalationAction::Done => break,
        }
    }
    assert_eq!(sent, vec![GroupSignal::Interrupt, GroupSignal::Terminate, GroupSignal::Kill]);
    assert_eq!(sleeps, 10 + 10 + 5);
    let mut e = Escalation::new();
    assert_eq!(e.next(true, 0), EscalationAction::Send(GroupSignal::Interrupt));
    assert_eq!(e.next(true, 999), EscalationAction::Sleep(100));
    assert_eq!(e.next(true, 1000), EscalationAction::Send(GroupSignal::Terminate));
    assert_eq!(e.next(true, 1000), EscalationAction::Send(GroupSignal::Kill));
    assert_eq!(e.next(true, 499), EscalationAction::Sleep(100));
    assert_eq!(e.next(true, 500), EscalationAction::Done);
}

#[test]
fn child_handle_and_exit_code() {
    assert!(!names_child(NO_CHILD));
    assert!(!names_child(0));
    assert!(names_child(4242));
    assert_eq!(exit_code_or_fallback(Some(0)), 0);
    assert_eq!(exit_code_or_fallback(Some(137)), 137);
    assert_eq!(exit_code_or_fallback(None), 1);
    let (program, args) = shell_invocation("echo hi; exit 3");
    assert_eq!(program, "/bin/sh");
    assert_eq!(args, vec!["-c", "echo hi; exit 3"]);
}

#[test]
fn activation_path_in_both_modes() {
    let strict = get_new_path("/tmp/bulker_x", "/usr/bin:/bin", true);
    assert_eq!(strict.path, "/tmp/bulker_x");
    assert_eq!(strict.shimdir, "/tmp/bulker_x");
    let normal = get_new_path("/tmp/bulker_x", "/usr/bin:/bin", false);
    assert_eq!(normal.path, "/tmp/bulker_x:/usr/bin:/bin");
    assert_eq!(get_new_path("/s", "", false).path, "/s:");
}

#[test]
fn shell_kind_prompt_and_names() {
    assert_eq!(shell_type("/usr/bin/zsh"), "zsh");
    assert_eq!(shell_type("/bin/bash"), "bash");
    assert_eq!(shell_type("/bin/fish"), "bash");
    let list = vec![
        CrateVars { namespace: "bulker".to_string(), crate_name: "demo".to_string(), tag: "default".to_string() },
        CrateVars { namespace: "databio".to_string(), crate_name: "pepatac".to_string(), tag: "1.0".to_string() },
    ];
    assert_eq!(crate_display_name(&list), "bulker/demo,databio/pepatac");
    assert_eq!(crate_display_name(&[]), "");
    assert_eq!(build_prompt("zsh", "bulker/demo", None), "%F{226}bulker/demo|%f%F{blue}%~%f %# ");
    assert_eq!(
        build_prompt("bash", "bulker/demo", None),
        "\\[\\033[01;93m\\]bulker/demo|\\[\\033[00m\\]\\[\\033[01;34m\\]\\w\\[\\033[00m\\]\\$ "
    );
    assert_eq!(build_prompt("bash", "x", Some("[%b] \\b> %%b")), "[x] x> %x");
}

#[test]
fn shell_selection_and_rc_file() {
    assert_eq!(select_shell("/bin/zsh", true, Some("/bin/fish"), true), "/bin/zsh");
    assert_eq!(select_shell("/bin/zsh", false, Some("/bin/fish"), true), "/bin/fish");
    assert_eq!(select_shell("", true, Some("/bin/fish"), false), "/bin/bash");
    assert_eq!(select_shell("", true, None, true), "/bin/bash");
    assert_eq!(shell_rc_file("$HOME/.bashrc", "zsh", Some("/h")), "$HOME/.bashrc");
    assert_eq!(shell_rc_file("", "zsh", Some("/h")), "/h/.zshrc");
    assert_eq!(shell_rc_file("", "bash", None), "$HOME/.bashrc");
    let bash = shell_launch("bash", "/cfg", "start_strict.sh", true);
    assert_eq!(bash.args, vec!["--noprofile", "--rcfile", "/cfg/start_strict.sh"]);
    assert_eq!(bash.zdotdir, None);
    let zsh = shell_launch("zsh", "/cfg/", "start.sh", false);
    assert!(zsh.args.is_empty());
    assert_eq!(zsh.zdotdir.as_deref(), Some("/cfg/zsh_start"));
    assert_eq!(shell_launch("zsh", "/cfg", "start.sh", true).zdotdir.as_deref(), Some("/cfg/zsh_start_strict"));
}

#[test]
fn activation_variables_and_echo_lines() {
    let request = ActivationRequest {
        crate_id: "bulker/demo:default".to_string(),
        config_path: Some("/cfg/bulker_config.yaml".to_string()),
        strict_env: true,
        path: "/tmp/bulker_x:/bin".to_string(),
        shimdir: "/tmp/bulker_x".to_string(),
        prompt: Some("demo> ".to_string()),
        shell_rc: "/h/.bashrc".to_string(),
    };
    let vars = request.variables();
    let names: Vec<&str> = vars.iter().map(|v| v.name.as_str()).collect();
    assert_eq!(
        names,
        vec!["BULKERCRATE", "BULKERCFG", "BULKER_STRICT_ENV", "BULKERPATH", "BULKER_SHIMDIR", "BULKERPROMPT", "BULKERSHELLRC"]
    );
    let lines = export_statements(&vars, &request.path, false);
    assert_eq!(
        lines,
        vec![
            "export BULKER_ORIG_PATH=\"$PATH\"",
            "export BULKERCRATE=\"bulker/demo:default\"",
            "export BULKERCFG=\"/cfg/bulker_config.yaml\"",
            "export BULKER_STRICT_ENV=\"1\"",
            "export BULKERPATH=\"/tmp/bulker_x:/bin\"",
            "export BULKER_SHIMDIR=\"/tmp/bulker_x\"",
            "export BULKERPROMPT=\"demo> \"",
            "export BULKERSHELLRC=\"/h/.bashrc\"",
            "export PATH=\"/tmp/bulker_x:/bin\"",
        ]
    );
    let bare = ActivationRequest { config_path: None, strict_env: false, prompt: None, ..request };
    let lines = export_statements(&bare.variables(), &bare.path, true);
    assert_eq!(lines.len(), 5);
    assert_eq!(lines[0], "export BULKERCRATE=\"bulker/demo:default\"");
    assert_eq!(lines[4], "export PATH=\"/tmp/bulker_x:/bin\"");
}

#[test]
fn exec_script_exports_then_runs_the_quoted_command() {
    let command = vec!["cowsay".to_string(), "hello world".to_string()];
    assert_eq!(
        exec_script("/tmp/bulker_x:/bin", "bulker/demo:default", Some("/cfg/c.yaml"), true, &command),
        "export PATH=\"/tmp/bulker_x:/bin\"; export BULKERCRATE=\"bulker/demo:default\"; \
export BULKERCFG=\"/cfg/c.yaml\"; export BULKER_PRINT_COMMAND=1; cowsay 'hello world'"
    );
    assert_eq!(
        exec_script("/s", "a/b:c", None, false, &command[..1]),
        "export PATH=\"/s\"; export BULKERCRATE=\"a/b:c\"; cowsay"
    );
    let local = bulker::manifest::local_crate_vars(Some("my-pipeline"));
    assert_eq!(local.display_name(), "local/my-pipeline:default");
    assert_eq!(bulker::manifest::local_crate_vars(None).display_name(), "local/local:default");
}
