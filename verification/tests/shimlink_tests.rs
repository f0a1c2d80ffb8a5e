use bulker::argpaths::{resolve_arg_paths, PathProbe};
use bulker::config::{BulkerConfig, Environment, ToolArg};
use bulker::dispatch::{
    collect_host_envvars, find_command_in_crate_with_imports, merge_volumes, plan_invocation,
    render_command_line, select_envvars, DispatchError,
};
use bulker::manifest::{CrateVars, Manifest, ManifestInner, PackageCommand};
use bulker::manifest_cache::ManifestCache;
use bulker::shimlink::{
    build_apptainer_command, build_docker_command, detect_shimlink_invocation,
    missing_host_commands, shimlink_entries, split_interactive_marker, tmpdir_volume, HostContext,
    ShimlinkTarget,
};
use bulker::words::has_tty_flag;

fn host() -> HostContext {
    HostContext { stdin_is_tty: false, uid: 1000, gid: 1001, current_dir: Some("/work".to_string()) }
}

fn env_of(pairs: &[(&str, &str)]) -> Environment {
    let mut env = Environment::new();
    for (k, v) in pairs {
        env.push(k, v);
    }
    env
}

fn pkg(command: &str, image: &str) -> PackageCommand {
    PackageCommand {
        command: command.to_string(),
        docker_image: image.to_string(),
        ..Default::default()
    }
}

fn strings(items: &[&str]) -> Vec<String> {
    items.iter().map(|s| s.to_string()).collect()
}

fn manifest_of(name: &str, commands: Vec<PackageCommand>, hosts: &[&str], imports: &[&str]) -> Manifest {
    Manifest {
        manifest: ManifestInner {
            name: Some(name.to_string()),
            version: None,
            commands,
            host_commands: strings(hosts),
            imports: strings(imports),
        },
    }
}

fn cv(ns: &str, name: &str, tag: &str) -> CrateVars {
    CrateVars { namespace: ns.to_string(), crate_name: name.to_string(), tag: tag.to_string() }
}

#[test]
fn test_detect_shimlink_invocation_returns_none_for_bulker() {
    assert_eq!(detect_shimlink_invocation("bulker"), None);
    assert_eq!(detect_shimlink_invocation("/usr/local/bin/bulker"), None);
}

#[test]
fn test_detect_shimlink_name_extraction() {
    assert_eq!(
        detect_shimlink_invocation("/usr/local/bin/samtools"),
        Some("samtools".to_string())
    );
    assert_eq!(detect_shimlink_invocation("/usr/local/bin/bulker"), None);
    assert_eq!(detect_shimlink_invocation("samtools"), Some("samtools".to_string()));
    assert_eq!(detect_shimlink_invocation("dir/"), None);
    assert_eq!(detect_shimlink_invocation(""), None);
    assert_eq!(detect_shimlink_invocation("/tmp/x/_samtools"), Some("_samtools".to_string()));
}

#[test]
fn test_shell_wrapper_prefix_detection() {
    let (actual, interactive) = split_interactive_marker("_samtools");
    assert_eq!(actual, "samtools");
    assert!(interactive);

    let (actual2, interactive2) = split_interactive_marker("samtools");
    assert_eq!(actual2, "samtools");
    assert!(!interactive2);

    let (actual3, interactive3) = split_interactive_marker("");
    assert_eq!(actual3, "");
    assert!(!interactive3);
}

#[test]
fn test_resolve_arg_paths_flags_pass_through() {
    let args = vec!["--verbose".to_string(), "-n".to_string(), "5".to_string()];
    let probes = vec![
        PathProbe { canonical: Some("/x/--verbose".to_string()), canonical_parent: Some("/x".to_string()) },
        PathProbe { canonical: Some("/x/-n".to_string()), canonical_parent: Some("/x".to_string()) },
        PathProbe { canonical: None, canonical_parent: None },
    ];
    let (resolved, auto_mounts) = resolve_arg_paths(&args, &probes);
    assert_eq!(resolved, args);
    assert!(auto_mounts.is_empty());
}

#[test]
fn test_resolve_arg_paths_existing_file() {
    let args = vec!["/tmp".to_string()];
    let probes = vec![PathProbe { canonical: Some("/tmp".to_string()), canonical_parent: Some("/".to_string()) }];
    let (resolved, auto_mounts) = resolve_arg_paths(&args, &probes);
    assert_eq!(resolved[0], "/tmp");
    assert_eq!(auto_mounts, vec!["/"]);
}

#[test]
fn resolve_arg_paths_existing_relative_file() {
    let args = strings(&["data/in.bam", "out.txt", "plain", "data/other.bam", "new/"]);
    let probes = vec![
        PathProbe { canonical: Some("/home/u/data/in.bam".to_string()), canonical_parent: Some("/home/u/data".to_string()) },
        PathProbe { canonical: None, canonical_parent: None },
        PathProbe { canonical: None, canonical_parent: Some("/home/u".to_string()) },
        PathProbe { canonical: None, canonical_parent: Some("/home/u/data".to_string()) },
    ];
    let (resolved, mounts) = resolve_arg_paths(&args, &probes);
    assert_eq!(
        resolved,
        vec!["/home/u/data/in.bam", "out.txt", "plain", "/home/u/data/other.bam", "new/"]
    );
    assert_eq!(mounts, vec!["/home/u/data"]);
}

#[test]
fn resolve_arg_paths_new_file_below_root() {
    let args = strings(&["/new.txt", ".."]);
    let probes = vec![
        PathProbe { canonical: None, canonical_parent: Some("/".to_string()) },
        PathProbe { canonical: None, canonical_parent: Some("/srv".to_string()) },
    ];
    let (resolved, mounts) = resolve_arg_paths(&args, &probes);
    assert_eq!(resolved, vec!["/new.txt", ".."]);
    assert_eq!(mounts, vec!["/", "/srv"]);
}

#[test]
fn test_build_docker_command_basic() {
    let config = BulkerConfig::test_default();
    let p = pkg("samtools", "quay.io/biocontainers/samtools:1.9");
    let volumes = vec!["/home/user".to_string()];
    let envvars = vec!["DISPLAY".to_string()];
    let args = vec!["view".to_string(), "test.bam".to_string()];

    let cmd = build_docker_command(&config, &p, &volumes, &envvars, "", &args, false, "docker", &host(), &Environment::new());

    assert_eq!(cmd[0], "docker");
    assert_eq!(cmd[1], "run");
    assert_eq!(cmd[2], "--rm");
    assert_eq!(cmd[3], "--init");
    assert!(cmd.contains(&"-i".to_string()));
    assert!(cmd.contains(&"quay.io/biocontainers/samtools:1.9".to_string()));
    assert!(cmd.contains(&"samtools".to_string()));
    assert!(cmd.contains(&"view".to_string()));
    assert!(cmd.contains(&"test.bam".to_string()));
    assert!(cmd.contains(&"--network=host".to_string()));
}

#[test]
fn build_docker_command_exact_vector() {
    let config = BulkerConfig::test_default();
    let mut p = pkg("samtools", "quay.io/biocontainers/samtools:1.9");
    p.no_user = false;
    let volumes = strings(&["/home/user", "$DATA"]);
    let envvars = strings(&["DISPLAY"]);
    let args = strings(&["view", "test.bam"]);
    let env = env_of(&[("DATA", "/data")]);
    let cmd = build_docker_command(&config, &p, &volumes, &envvars, "--gpus all -it", &args, false, "/usr/bin/docker", &host(), &env);
    assert_eq!(
        cmd,
        vec![
            "/usr/bin/docker", "run", "--rm", "--init", "-i",
            "--gpus", "all", "-i",
            "--user=1000:1001",
            "--network=host",
            "--env", "DISPLAY",
            "--volume", "/home/user:/home/user",
            "--volume", "/data:/data",
            "--volume", "/etc/group:/etc/group:ro",
            "--volume", "/etc/passwd:/etc/passwd:ro",
            "--volume", "/etc/shadow:/etc/shadow:ro",
            "--volume", "/etc/sudoers.d:/etc/sudoers.d:ro",
            "--volume", "/tmp/.X11-unix:/tmp/.X11-unix:rw",
            "--workdir=/work",
            "quay.io/biocontainers/samtools:1.9",
            "samtools",
            "view", "test.bam",
        ]
    );
}

#[test]
fn build_docker_command_with_terminal_and_workdir() {
    let config = BulkerConfig::test_default();
    let mut p = pkg("tool", "img");
    p.workdir = Some("/srv".to_string());
    p.no_user = true;
    p.no_network = true;
    let h = HostContext { stdin_is_tty: true, uid: 0, gid: 4294967295, current_dir: None };
    let cmd = build_docker_command(&config, &p, &[], &[], "", &[], false, "docker", &h, &Environment::new());
    assert_eq!(cmd, vec!["docker", "run", "--rm", "--init", "-it", "--workdir=/srv", "img", "tool"]);
    p.workdir = Some(String::new());
    p.no_user = false;
    let mut config2 = BulkerConfig::test_default();
    config2.bulker.system_volumes = false;
    config2.bulker.host_network = false;
    let cmd = build_docker_command(&config2, &p, &[], &[], "", &[], false, "docker", &h, &Environment::new());
    assert_eq!(
        cmd,
        vec!["docker", "run", "--rm", "--init", "-it", "--user=0:4294967295", "--workdir=/", "img", "tool"]
    );
}

#[test]
fn test_build_docker_command_interactive() {
    let config = BulkerConfig::test_default();
    let p = pkg("samtools", "quay.io/biocontainers/samtools:1.9");
    let cmd = build_docker_command(&config, &p, &[], &[], "", &[], true, "docker", &host(), &Environment::new());
    assert!(cmd.contains(&"bash".to_string()));
    assert!(cmd.contains(&"-i".to_string()));
    assert!(!cmd.contains(&"samtools".to_string()));
}

#[test]
fn test_build_docker_command_no_user() {
    let config = BulkerConfig::test_default();
    let mut p = pkg("tool", "myimage:latest");
    p.no_user = true;
    let cmd = build_docker_command(&config, &p, &[], &[], "", &[], false, "docker", &host(), &Environment::new());
    let cmd_str = cmd.join(" ");
    assert!(!cmd_str.contains("--user="));
    assert!(!cmd_str.contains("/etc/passwd"));
}

#[test]
fn test_build_docker_command_host_network_disabled() {
    let mut config = BulkerConfig::test_default();
    config.bulker.host_network = false;
    let p = pkg("tool", "myimage:latest");
    let cmd = build_docker_command(&config, &p, &[], &[], "", &[], false, "docker", &host(), &Environment::new());
    assert!(!cmd.contains(&"--network=host".to_string()));
}

#[test]
fn test_build_docker_command_system_volumes_disabled() {
    let mut config = BulkerConfig::test_default();
    config.bulker.system_volumes = false;
    let p = pkg("tool", "myimage:latest");
    let cmd = build_docker_command(&config, &p, &[], &[], "", &[], false, "docker", &host(), &Environment::new());
    let cmd_str = cmd.join(" ");
    assert!(!cmd_str.contains("/etc/passwd"));
}

#[test]
fn test_build_docker_command_no_network() {
    let config = BulkerConfig::test_default();
    let mut p = pkg("tool", "myimage:latest");
    p.no_network = true;
    let cmd = build_docker_command(&config, &p, &[], &[], "", &[], false, "docker", &host(), &Environment::new());
    assert!(!cmd.contains(&"--network=host".to_string()));
}

#[test]
fn test_build_docker_command_with_docker_command() {
    let config = BulkerConfig::test_default();
    let mut p = pkg("python", "python:3.9");
    p.docker_command = Some("python3".to_string());
    let cmd = build_docker_command(&config, &p, &[], &[], "", &["--version".to_string()], false, "docker", &host(), &Environment::new());
    assert!(cmd.contains(&"python3".to_string()));
    assert_eq!(cmd[cmd.len() - 2], "python3");
    assert_eq!(cmd[cmd.len() - 1], "--version");
    p.docker_command = Some(String::new());
    let cmd = build_docker_command(&config, &p, &[], &[], "", &["--version".to_string()], false, "docker", &host(), &Environment::new());
    assert_eq!(cmd[cmd.len() - 2], "python:3.9");
}

#[test]
fn test_build_docker_command_expands_env_in_docker_args() {
    let config = BulkerConfig::test_default();
    let p = pkg("R", "r-base:4.3");
    let home = "/home/tester";
    let env = env_of(&[("HOME", home)]);
    let docker_args = "--volume=${HOME}/R/4.0:/usr/local/lib/R/host-site-library";
    let cmd = build_docker_command(&config, &p, &[], &[], docker_args, &[], false, "docker", &host(), &env);
    let cmd_str = cmd.join(" ");
    assert!(!cmd_str.contains("${HOME}"), "env var not expanded: {}", cmd_str);
    assert!(cmd_str.contains(&format!("--volume={}/R/4.0:/usr/local/lib/R/host-site-library", home)));
}

#[test]
fn test_build_apptainer_command_basic() {
    let mut config = BulkerConfig::test_default();
    config.bulker.apptainer_image_folder = Some("/tmp/sif".to_string());
    let p = pkg("samtools", "quay.io/biocontainers/samtools:1.9");
    let cmd = build_apptainer_command(&config, &p, &[], &[], &[], false, "apptainer", &Environment::new());
    assert_eq!(cmd[0], "apptainer");
    assert_eq!(cmd[1], "exec");
    assert!(cmd.iter().any(|a| a.contains(".sif")));
    assert!(cmd.contains(&"samtools".to_string()));
    assert_eq!(
        cmd,
        vec!["apptainer", "exec", "/tmp/sif/quay-io-biocontainers-samtools.sif", "samtools"]
    );
}

#[test]
fn build_apptainer_command_exact_vector() {
    let config = BulkerConfig::test_default();
    let mut p = pkg("samtools", "quay.io/biocontainers/samtools:1.9");
    p.apptainer_args = Some("--nv --bind '$SCRATCH'".to_string());
    p.docker_command = Some("samtools-docker".to_string());
    let env = env_of(&[("HOME", "/home/u"), ("SCRATCH", "/scratch"), ("BULKER_STRICT_ENV", "1"), ("DISPLAY", ":0")]);
    let volumes = strings(&["$HOME", "${HOME}", "/data", "$SCRATCH/x"]);
    let envvars = strings(&["DISPLAY", "UNSET_ONE"]);
    let cmd = build_apptainer_command(&config, &p, &volumes, &envvars, &strings(&["view"]), false, "apptainer", &env);
    assert_eq!(
        cmd,
        vec![
            "apptainer", "exec", "--cleanenv", "--env", "DISPLAY=:0",
            "--nv", "--bind", "/scratch",
            "-B", "/data:/data", "-B", "/scratch/x:/scratch/x",
            "quay-io-biocontainers-samtools.sif", "samtools-docker", "view",
        ]
    );
    p.apptainer_command = Some("samtools-apptainer".to_string());
    let cmd = build_apptainer_command(&config, &p, &[], &[], &[], false, "apptainer", &Environment::new());
    assert_eq!(
        cmd,
        vec!["apptainer", "exec", "--nv", "--bind", "quay-io-biocontainers-samtools.sif", "samtools-apptainer"]
    );
    p.apptainer_args = Some(String::new());
    let cmd = build_apptainer_command(&config, &p, &[], &[], &[], true, "apptainer", &Environment::new());
    assert_eq!(cmd, vec!["apptainer", "exec", "quay-io-biocontainers-samtools.sif", "bash"]);
}

#[test]
fn test_create_shimlink_dir() {
    let manifest = manifest_of(
        "test",
        vec![pkg("samtools", "samtools:latest"), pkg("bcftools", "bcftools:latest")],
        &[],
        &[],
    );
    let entries = shimlink_entries(&manifest, &[]);
    let names: Vec<&str> = entries.iter().map(|e| e.name.as_str()).collect();
    assert_eq!(names, vec!["samtools", "_samtools", "bcftools", "_bcftools"]);
    assert!(entries.iter().all(|e| matches!(e.target, ShimlinkTarget::Dispatcher)));
}

#[test]
fn shimlink_entries_for_host_commands() {
    let manifest = manifest_of(
        "test",
        vec![pkg("cowsay", "nsheff/cowsay"), pkg("fortune", "nsheff/fortune")],
        &["ls", "nosuchtool", "cat"],
        &[],
    );
    let found = vec![Some("/bin/ls".to_string()), None];
    let entries = shimlink_entries(&manifest, &found);
    assert_eq!(entries.len(), 2 * 2 + 1);
    assert_eq!(entries[4].name, "ls");
    match &entries[4].target {
        ShimlinkTarget::HostBinary(p) => assert_eq!(p, "/bin/ls"),
        ShimlinkTarget::Dispatcher => panic!("a host command leads to its binary"),
    }
    assert_eq!(missing_host_commands(&manifest, &found), vec!["nosuchtool", "cat"]);
}

#[test]
fn test_no_default_volumes_skips_config_volumes() {
    let config = BulkerConfig::test_default();
    let mut with_flag = pkg("postgres", "postgres:16");
    with_flag.volumes = vec!["/data".to_string()];
    with_flag.no_user = true;
    with_flag.no_default_volumes = true;
    let volumes_with_flag = merge_volumes(&config, &with_flag, &[], "/tmp");
    assert_eq!(volumes_with_flag, vec!["/data", "/tmp"]);

    let mut without_flag = pkg("postgres", "postgres:16");
    without_flag.volumes = vec!["/data".to_string()];
    without_flag.no_user = true;
    let volumes_without_flag = merge_volumes(&config, &without_flag, &[], "/tmp");
    assert_eq!(volumes_without_flag, vec!["$HOME", "/data", "/tmp"]);
}

#[test]
fn merge_volumes_keeps_each_once() {
    let config = BulkerConfig::test_default();
    let mut p = pkg("x", "img");
    p.volumes = strings(&["/data", "$HOME"]);
    let v = merge_volumes(&config, &p, &strings(&["/work", "/data", "/tmp"]), "/tmp");
    assert_eq!(v, vec!["$HOME", "/data", "/work", "/tmp"]);
}

#[test]
fn test_engine_path_accessor_returns_absolute_when_set() {
    let mut config = BulkerConfig::test_default();
    config.bulker.engine_path = Some("/usr/bin/docker".to_string());
    assert_eq!(config.engine_path(), "/usr/bin/docker");
}

#[test]
fn test_engine_path_accessor_falls_back_to_engine_name() {
    let config = BulkerConfig::test_default();
    assert_eq!(config.engine_path(), "docker");
}

#[test]
fn test_build_docker_command_uses_engine_path() {
    let config = BulkerConfig::test_default();
    let p = pkg("samtools", "quay.io/biocontainers/samtools:1.9");
    let cmd = build_docker_command(&config, &p, &[], &[], "", &[], false, "/usr/bin/docker", &host(), &Environment::new());
    assert_eq!(cmd[0], "/usr/bin/docker");
}

#[test]
fn test_build_apptainer_command_uses_engine_path() {
    let mut config = BulkerConfig::test_default();
    config.bulker.apptainer_image_folder = Some("/tmp/sif".to_string());
    let p = pkg("samtools", "quay.io/biocontainers/samtools:1.9");
    let cmd = build_apptainer_command(&config, &p, &[], &[], &[], false, "/usr/local/bin/apptainer", &Environment::new());
    assert_eq!(cmd[0], "/usr/local/bin/apptainer");
}

#[test]
fn test_find_command_in_imported_crate() {
    let mut cache = ManifestCache::new();
    let child_cv = cv("bulker", "coreutils_shimtest", "default");
    cache.save(&child_cv, &manifest_of("coreutils", vec![pkg("cat", "alpine:latest")], &[], &[]));
    let parent_cv = cv("test", "parent_shimtest", "default");
    cache.save(
        &parent_cv,
        &manifest_of(
            "parent",
            vec![pkg("samtools", "samtools:latest")],
            &[],
            &["bulker/coreutils_shimtest:default"],
        ),
    );

    let found = find_command_in_crate_with_imports(&cache, "bulker", &parent_cv, "cat").unwrap();
    assert_eq!(found.command, "cat");
    assert_eq!(found.docker_image, "alpine:latest");

    let found2 = find_command_in_crate_with_imports(&cache, "bulker", &parent_cv, "samtools").unwrap();
    assert_eq!(found2.command, "samtools");
}

#[test]
fn find_command_across_two_imports_and_own_definition_first() {
    let mut cache = ManifestCache::new();
    let a = cv("t", "a", "default");
    let b = cv("t", "b", "default");
    let c = cv("t", "c", "default");
    cache.save(&a, &manifest_of("a", vec![pkg("tool", "own:1")], &[], &["t/b"]));
    cache.save(&b, &manifest_of("b", vec![pkg("tool", "imported:1"), pkg("other", "b:1")], &[], &["t/c"]));
    cache.save(&c, &manifest_of("c", vec![pkg("deep", "c:1"), pkg("other", "c:1")], &[], &[]));
    let own = find_command_in_crate_with_imports(&cache, "bulker", &a, "tool").unwrap();
    assert_eq!(own.docker_image, "own:1");
    let deep = find_command_in_crate_with_imports(&cache, "bulker", &a, "deep").unwrap();
    assert_eq!(deep.docker_image, "c:1");
    let other = find_command_in_crate_with_imports(&cache, "bulker", &a, "other").unwrap();
    assert_eq!(other.docker_image, "b:1");
    let miss = find_command_in_crate_with_imports(&cache, "bulker", &a, "absent").unwrap_err();
    match &miss {
        DispatchError::CommandNotFound { command, active_crate } => {
            assert_eq!(command, "absent");
            assert_eq!(active_crate.display_name(), "t/a:default");
        },
        DispatchError::Resolve(_) => panic!("the crates resolve"),
    }
    assert_eq!(miss.message(), "Command 'absent' not found in crate 't/a:default' or its imports");
    let unresolved = find_command_in_crate_with_imports(&cache, "bulker", &cv("t", "zzz", "1"), "tool").unwrap_err();
    assert_eq!(
        unresolved.message(),
        "Crate 't/zzz:1' is not cached. Run 'bulker activate t/zzz:1' to fetch it."
    );
}

#[test]
fn test_build_docker_command_strips_tty_from_docker_args() {
    let config = BulkerConfig::test_default();
    let p = pkg("R", "r-base:4.3");
    let cmd = build_docker_command(&config, &p, &[], &[], "-it", &[], false, "docker", &host(), &Environment::new());
    let cmd_str = cmd.join(" ");
    assert!(!cmd_str.contains(" -it "), "docker_args -t should be stripped: {}", cmd_str);
    let docker_args_idx = cmd.iter().position(|a| a == "--init").unwrap() + 1;
    assert!(cmd[docker_args_idx..].contains(&"-i".to_string()));
    assert_eq!(&cmd[4..6], &["-i".to_string(), "-i".to_string()]);
    assert!(has_tty_flag("-it"));
    assert!(has_tty_flag("--tty"));
    assert!(!has_tty_flag("-i --rm"));
    assert!(!has_tty_flag(""));
}

#[test]
fn docker_args_without_flag_are_not_reported() {
    assert!(!has_tty_flag("-i  --rm"));
    assert!(!has_tty_flag(" --label \"my label\" "));
    assert!(!has_tty_flag("-i\n"));
    assert!(has_tty_flag("--label \"my label\" -dit"));
    let config = BulkerConfig::test_default();
    let mut p = pkg("R", "r-base:4.3");
    p.docker_args = Some("--gpus  all".to_string());
    let inv = plan_invocation(&config, &p, &[], &[], false, &host(), &Environment::new());
    assert!(!inv.tty_flag_ignored);
    assert_eq!(&inv.argv[5..7], &["--gpus".to_string(), "all".to_string()]);
}

#[test]
fn build_docker_command_keeps_quoted_extra_arguments_whole() {
    let config = BulkerConfig::test_default();
    let p = pkg("R", "r-base:4.3");
    let cmd = build_docker_command(
        &config, &p, &[], &[], "--label \"my label\" -it --env 'A=b c'", &[], false, "docker",
        &host(), &Environment::new(),
    );
    assert_eq!(
        &cmd[..10],
        &["docker", "run", "--rm", "--init", "-i", "--label", "my label", "-i", "--env", "A=b c"]
    );
    let cmd = build_docker_command(
        &config, &p, &[], &[], "--label \"my label\"", &[], false, "docker", &host(),
        &Environment::new(),
    );
    assert_eq!(&cmd[5..7], &["--label", "my label"]);
    assert!(cmd[7].starts_with("--user="));
}

#[test]
fn find_command_in_second_import_of_an_import() {
    let mut cache = ManifestCache::new();
    let a = cv("t", "a", "default");
    cache.save(&a, &manifest_of("a", vec![pkg("own", "a:1")], &[], &["t/b", "t/c:2"]));
    cache.save(&cv("t", "b", "default"), &manifest_of("b", vec![pkg("bee", "b:1")], &[], &["t/d", "t/e"]));
    cache.save(&cv("t", "c", "2"), &manifest_of("c", vec![pkg("sea", "c:1")], &[], &["t/e", "t/a"]));
    cache.save(&cv("t", "d", "default"), &manifest_of("d", vec![pkg("dee", "d:1")], &[], &[]));
    cache.save(&cv("t", "e", "default"), &manifest_of("e", vec![pkg("eee", "e:1"), pkg("sea", "e:1")], &[], &[]));
    for (name, image) in [("own", "a:1"), ("bee", "b:1"), ("dee", "d:1"), ("eee", "e:1"), ("sea", "e:1")] {
        let found = find_command_in_crate_with_imports(&cache, "bulker", &a, name).unwrap();
        assert_eq!(found.docker_image, image, "for {}", name);
    }
}

#[test]
fn test_collect_host_envvars_excludes_docker_managed() {
    let env = env_of(&[("PATH", "/bin"), ("HOME", "/root"), ("HOSTNAME", "box"), ("EDITOR", "vi")]);
    let vars = collect_host_envvars(&env);
    assert!(!vars.contains(&"PATH".to_string()));
    assert!(!vars.contains(&"HOME".to_string()));
    assert!(!vars.contains(&"HOSTNAME".to_string()));
    assert_eq!(vars, vec!["EDITOR"]);
}

#[test]
fn test_collect_host_envvars_excludes_bulker_vars() {
    let env = env_of(&[("BULKER_TEST_INTERNAL", "x"), ("BULKERCRATE", "a/b:c"), ("BULK", "kept")]);
    let vars = collect_host_envvars(&env);
    assert!(!vars.contains(&"BULKER_TEST_INTERNAL".to_string()));
    assert_eq!(vars, vec!["BULK"]);
}

#[test]
fn test_collect_host_envvars_includes_regular_vars() {
    let env = env_of(&[("MY_CUSTOM_VAR_FOR_TEST", "hello"), ("LANG", "C"), ("LC_ALL", "C"), ("LC_TIME", "C")]);
    let vars = collect_host_envvars(&env);
    assert!(vars.contains(&"MY_CUSTOM_VAR_FOR_TEST".to_string()));
    assert_eq!(vars.len(), 1);
}

#[test]
fn test_normal_mode_docker_passes_all_host_envvars() {
    let env = env_of(&[("ENVTEST_XYZ", "hello"), ("PATH", "/bin")]);
    let envvars = collect_host_envvars(&env);
    assert!(envvars.contains(&"ENVTEST_XYZ".to_string()));

    let config = BulkerConfig::test_default();
    let p = pkg("tool", "img:latest");
    let cmd = build_docker_command(&config, &p, &[], &envvars, "", &[], false, "docker", &host(), &env);
    let cmd_str = cmd.join(" ");
    assert!(cmd_str.contains("--env ENVTEST_XYZ"), "env var should be in docker cmd: {}", cmd_str);
    assert!(!cmd_str.contains("--env PATH"));
}

#[test]
fn test_strict_env_docker_only_allowlisted_vars() {
    let allowlist = vec!["DISPLAY".to_string(), "LANG".to_string()];
    let config = BulkerConfig::test_default();
    let p = pkg("tool", "img:latest");
    let env = env_of(&[("A", "1"), ("B", "2"), ("C", "3")]);
    let cmd = build_docker_command(&config, &p, &[], &allowlist, "", &[], false, "docker", &host(), &env);
    let cmd_str = cmd.join(" ");
    assert!(cmd_str.contains("--env DISPLAY"), "allowlisted var should be present: {}", cmd_str);
    assert!(cmd_str.contains("--env LANG"), "allowlisted var should be present: {}", cmd_str);
    let env_count = cmd.iter().filter(|a| a.as_str() == "--env").count();
    assert_eq!(env_count, 2, "should have exactly 2 env vars, got {}", env_count);
}

#[test]
fn strict_selection_uses_allow_lists_only() {
    let mut config = BulkerConfig::test_default();
    config.bulker.envvars = strings(&["DISPLAY", "LANG"]);
    let p = pkg("tool", "img");
    let env = env_of(&[("BULKER_STRICT_ENV", "1"), ("SECRET", "x"), ("EDITOR", "vi"), ("PATH", "/bin")]);
    assert_eq!(select_envvars(&config, &p, &env), vec!["DISPLAY", "LANG"]);
    let mut q = pkg("tool", "img");
    q.envvars = strings(&["LANG", "TOKEN"]);
    let env = env_of(&[("BULKER_STRICT_ENV", ""), ("BULKER_EXTRA_ENVVARS", " FOO , ,DISPLAY,BAR")]);
    assert_eq!(select_envvars(&config, &q, &env), vec!["DISPLAY", "LANG", "TOKEN", "FOO", "BAR"]);
    let env = env_of(&[("SECRET", "x"), ("HOME", "/h"), ("BULKER_EXTRA_ENVVARS", "FOO")]);
    assert_eq!(select_envvars(&config, &q, &env), vec!["SECRET"]);
}

#[test]
fn test_apptainer_strict_env_has_cleanenv() {
    let env = env_of(&[("BULKER_STRICT_ENV", "1")]);
    let mut config = BulkerConfig::test_default();
    config.bulker.apptainer_image_folder = Some("/tmp/sif".to_string());
    let p = pkg("samtools", "quay.io/biocontainers/samtools:1.9");
    let envvars = vec!["DISPLAY".to_string()];
    let cmd = build_apptainer_command(&config, &p, &[], &envvars, &[], false, "apptainer", &env);
    assert!(cmd.contains(&"--cleanenv".to_string()), "strict-env apptainer should have --cleanenv: {:?}", cmd);
}

#[test]
fn test_apptainer_normal_mode_no_cleanenv() {
    let mut config = BulkerConfig::test_default();
    config.bulker.apptainer_image_folder = Some("/tmp/sif".to_string());
    let p = pkg("samtools", "quay.io/biocontainers/samtools:1.9");
    let cmd = build_apptainer_command(&config, &p, &[], &[], &[], false, "apptainer", &Environment::new());
    assert!(!cmd.contains(&"--cleanenv".to_string()), "normal mode should NOT have --cleanenv: {:?}", cmd);
    assert!(!cmd.iter().any(|a| a.starts_with("--env")), "normal mode should NOT have explicit --env flags: {:?}", cmd);
}

#[test]
fn test_tmpdir_volume_with_tmpdir_set() {
    let env = env_of(&[("TMPDIR", "/scratch/tmp")]);
    assert_eq!(tmpdir_volume(&env), "/scratch/tmp");
}

#[test]
fn test_tmpdir_volume_with_tmpdir_unset() {
    assert_eq!(tmpdir_volume(&Environment::new()), "/tmp");
}

#[test]
fn test_tmpdir_appears_in_docker_command() {
    let config = BulkerConfig::test_default();
    let p = pkg("tool", "img:latest");
    let volumes = vec!["/tmp".to_string()];
    let cmd = build_docker_command(&config, &p, &volumes, &[], "", &[], false, "docker", &host(), &Environment::new());
    let cmd_str = cmd.join(" ");
    assert!(cmd_str.contains("--volume /tmp:/tmp"), "tmpdir should be mounted: {}", cmd_str);
}

#[test]
fn test_tmpdir_appears_in_apptainer_command() {
    let mut config = BulkerConfig::test_default();
    config.bulker.apptainer_image_folder = Some("/tmp/sif".to_string());
    let p = pkg("tool", "img:latest");
    let volumes = vec!["/tmp".to_string()];
    let cmd = build_apptainer_command(&config, &p, &volumes, &[], &[], false, "apptainer", &Environment::new());
    let cmd_str = cmd.join(" ");
    assert!(cmd_str.contains("-B /tmp:/tmp"), "tmpdir should be bound in apptainer: {}", cmd_str);
}

#[test]
fn test_apptainer_strict_env_passes_allowlisted_vars() {
    let env = env_of(&[("BULKER_STRICT_ENV", "1"), ("MY_TEST_VAR_APT", "testval")]);
    let mut config = BulkerConfig::test_default();
    config.bulker.apptainer_image_folder = Some("/tmp/sif".to_string());
    let p = pkg("tool", "img:latest");
    let envvars = vec!["MY_TEST_VAR_APT".to_string()];
    let cmd = build_apptainer_command(&config, &p, &[], &envvars, &[], false, "apptainer", &env);
    assert!(cmd.contains(&"--env".to_string()), "strict-env should pass allowlisted vars: {:?}", cmd);
    assert!(cmd.contains(&"MY_TEST_VAR_APT=testval".to_string()), "should pass var=value: {:?}", cmd);
}

#[test]
fn render_command_line_quotes_what_needs_it() {
    let line = render_command_line(&strings(&["docker", "run", "--env", "A=b c", "it's", "", "x!y", "/p/q.r,s+t"]));
    assert_eq!(line, "docker run --env 'A=b c' 'it'\\''s' '' 'x'\\!'y' /p/q.r,s+t");
    assert_eq!(render_command_line(&[]), "");
}

#[test]
fn plan_invocation_merges_every_layer() {
    let mut config = BulkerConfig::test_default();
    config.bulker.tool_args = Some(vec![
        ToolArg {
            namespace: "quay-io-biocontainers".to_string(),
            image: "samtools".to_string(),
            tag: "default".to_string(),
            key: "docker_args".to_string(),
            value: "--from-default".to_string(),
        },
        ToolArg {
            namespace: "quay-io-biocontainers".to_string(),
            image: "samtools".to_string(),
            tag: "1.9".to_string(),
            key: "docker_args".to_string(),
            value: "--from-config -t".to_string(),
        },
    ]);
    let mut p = pkg("samtools", "quay.io/biocontainers/samtools:1.9");
    p.docker_args = Some("--from-manifest".to_string());
    p.volumes = strings(&["/refs"]);
    let env = env_of(&[
        ("BULKER_EXTRA_DOCKER_ARGS", "--from-caller"),
        ("TMPDIR", "/scratch"),
        ("EDITOR", "vi"),
        ("PATH", "/bin"),
        ("BULKER_PRINT_COMMAND", "1"),
    ]);
    let args = strings(&["view", "in.bam"]);
    let probes = vec![
        PathProbe { canonical: None, canonical_parent: None },
        PathProbe { canonical: Some("/d/in.bam".to_string()), canonical_parent: Some("/d".to_string()) },
    ];
    let inv = plan_invocation(&config, &p, &args, &probes, false, &host(), &env);
    assert!(inv.print_only);
    assert!(inv.tty_flag_ignored);
    assert_eq!(
        inv.argv,
        vec![
            "docker", "run", "--rm", "--init", "-i",
            "--from-manifest", "--from-config", "--from-caller",
            "--user=1000:1001", "--network=host",
            "--env", "TMPDIR", "--env", "EDITOR",
            "--volume", ":",
            "--volume", "/refs:/refs",
            "--volume", "/d:/d",
            "--volume", "/scratch:/scratch",
            "--volume", "/etc/group:/etc/group:ro",
            "--volume", "/etc/passwd:/etc/passwd:ro",
            "--volume", "/etc/shadow:/etc/shadow:ro",
            "--volume", "/etc/sudoers.d:/etc/sudoers.d:ro",
            "--volume", "/tmp/.X11-unix:/tmp/.X11-unix:rw",
            "--workdir=/work",
            "quay.io/biocontainers/samtools:1.9",
            "samtools", "view", "/d/in.bam",
        ]
    );
    config.bulker.container_engine = "apptainer".to_string();
    let env = env_of(&[]);
    let inv = plan_invocation(&config, &p, &args, &probes, true, &host(), &env);
    assert!(!inv.print_only);
    assert!(!inv.tty_flag_ignored);
    assert_eq!(
        inv.argv,
        vec![
            "apptainer", "exec", "-B", "/refs:/refs", "-B", "/d:/d", "-B", "/tmp:/tmp",
            "quay-io-biocontainers-samtools.sif", "bash", "view", "/d/in.bam",
        ]
    );
}
