use bulker::config::{
    default_container_engine, default_envvars, default_host_network, default_namespace,
    default_rcfile, default_rcfile_strict, default_registry_url, default_shell_rc,
    default_system_volumes, default_volumes, detect_engine, expand_path, mkabs, BulkerConfig,
    BulkerSettings, Environment, ToolArg,
};
use bulker::manifest::{build_manifest_url, CrateVars, PackageCommand};

fn env_of(pairs: &[(&str, &str)]) -> Environment {
    let mut env = Environment::new();
    for (k, v) in pairs {
        env.push(k, v);
    }
    env
}

#[test]
fn test_default_host_network() {
    assert!(default_host_network("linux"));
    assert!(!default_host_network("macos"));
}

#[test]
fn test_default_system_volumes() {
    assert!(default_system_volumes("linux"));
    assert!(!default_system_volumes("macos"));
}

#[test]
fn test_expand_path_home() {
    let home = "/home/tester";
    let env = env_of(&[("HOME", home)]);
    assert_eq!(expand_path("~/foo", &env), format!("{}/foo", home));
}

#[test]
fn test_expand_path_env_var() {
    let env = env_of(&[("BULKER_TEST_VAR", "testval")]);
    assert_eq!(expand_path("${BULKER_TEST_VAR}/bar", &env), "testval/bar");
    assert_eq!(expand_path("$BULKER_TEST_VAR/bar", &env), "testval/bar");
}

#[test]
fn expand_path_edge_cases() {
    let mut env = env_of(&[("A", "1"), ("B_2", "two"), ("A", "shadowed")]);
    assert_eq!(expand_path("", &env), "");
    assert_eq!(expand_path("plain", &env), "plain");
    assert_eq!(expand_path("$A$B_2", &env), "1two");
    assert_eq!(expand_path("x$UNSET.y", &env), "x.y");
    assert_eq!(expand_path("${UNSET}y", &env), "y");
    assert_eq!(expand_path("cost: $ 5", &env), "cost:  5");
    assert_eq!(expand_path("end$", &env), "end");
    assert_eq!(expand_path("${A", &env), "1");
    assert_eq!(expand_path("${A}}", &env), "1}");
    assert_eq!(expand_path("a~b", &env), "a~b");
    assert_eq!(expand_path("~/x", &env), "~/x");
    env.home_dir = Some("/sys/home".to_string());
    assert_eq!(expand_path("~/x", &env), "/sys/home/x");
    assert_eq!(expand_path("~", &env), "/sys/home");
    env.push("HOME", "/env/home");
    assert_eq!(expand_path("~/x", &env), "/env/home/x");
    assert_eq!(expand_path("$HOME/$A", &env), "/env/home/1");
    assert_eq!(env.get("A"), Some("1".to_string()));
    assert_eq!(env.get("NOPE"), None);
    assert!(env.contains("B_2"));
    assert_eq!(env.names(), vec!["A", "B_2", "A", "HOME"]);
}

#[test]
fn test_bulker_config_default_has_sensible_values() {
    let engine = default_container_engine(false, false);
    let config = BulkerConfig { bulker: BulkerSettings::with_defaults(&engine, None, "/bin/sh", "linux") };
    assert!(!config.bulker.container_engine.is_empty());
    assert_eq!(config.bulker.default_namespace, "bulker");
    assert_eq!(config.bulker.registry_url, "http://hub.bulker.io/");
    assert!(!config.bulker.shell_path.is_empty());
    assert_eq!(config.bulker.rcfile, "start.sh");
    assert_eq!(config.bulker.rcfile_strict, "start_strict.sh");
    assert_eq!(config.bulker.volumes, vec!["$HOME"]);
    assert_eq!(config.bulker.envvars, vec!["DISPLAY"]);
}

#[test]
fn defaults_have_their_documented_values() {
    assert_eq!(default_namespace(), "bulker");
    assert_eq!(default_registry_url(), "http://hub.bulker.io/");
    assert_eq!(default_shell_rc(), "$HOME/.bashrc");
    assert_eq!(default_rcfile(), "start.sh");
    assert_eq!(default_rcfile_strict(), "start_strict.sh");
    assert_eq!(default_volumes(), vec!["$HOME"]);
    assert_eq!(default_envvars(), vec!["DISPLAY"]);
    assert_eq!(detect_engine(true, true), Some("docker".to_string()));
    assert_eq!(detect_engine(false, true), Some("apptainer".to_string()));
    assert_eq!(detect_engine(false, false), None);
    assert_eq!(default_container_engine(false, true), "apptainer");
    assert_eq!(default_container_engine(false, false), "docker");
    let mac = BulkerSettings::with_defaults("docker", Some("/usr/local/bin/docker".to_string()), "/bin/zsh", "macos");
    assert!(!mac.host_network);
    assert!(!mac.system_volumes);
    assert_eq!(mac.engine_path.as_deref(), Some("/usr/local/bin/docker"));
}

#[test]
fn test_null_container_engine_sanitized() {
    let mut config = BulkerConfig::test_default();
    config.bulker.container_engine = "null".to_string();
    config.bulker.sanitize("apptainer");
    assert_ne!(config.bulker.container_engine, "null");
    assert_eq!(config.bulker.container_engine, "apptainer");
}

#[test]
fn test_null_engine_path_sanitized() {
    let mut config = BulkerConfig::test_default();
    config.bulker.engine_path = Some("null".to_string());
    config.bulker.sanitize("docker");
    assert!(config.bulker.engine_path.is_none());
}

#[test]
fn test_both_null_engine_fields_sanitized() {
    let mut config = BulkerConfig::test_default();
    config.bulker.container_engine = String::new();
    config.bulker.engine_path = Some(String::new());
    config.bulker.shell_prompt = Some("null".to_string());
    config.bulker.apptainer_image_folder = Some(String::new());
    config.bulker.sanitize("docker");
    assert_eq!(config.bulker.container_engine, "docker");
    assert!(config.bulker.engine_path.is_none());
    assert!(config.bulker.shell_prompt.is_none());
    assert_eq!(config.bulker.apptainer_image_folder.as_deref(), Some(""));
    assert_ne!(config.engine_path(), "null");
}

#[test]
fn test_normal_config_unchanged_by_sanitize() {
    let mut config = BulkerConfig::test_default();
    config.bulker.engine_path = Some("/usr/bin/docker".to_string());
    config.bulker.shell_prompt = Some("> ".to_string());
    config.bulker.sanitize("apptainer");
    assert_eq!(config.bulker.container_engine, "docker");
    assert_eq!(config.bulker.engine_path.as_deref(), Some("/usr/bin/docker"));
    assert_eq!(config.bulker.shell_prompt.as_deref(), Some("> "));
}

#[test]
fn tool_specific_args_prefer_the_exact_tag() {
    let mut config = BulkerConfig::test_default();
    let pkg = PackageCommand {
        command: "samtools".to_string(),
        docker_image: "quay.io/biocontainers/samtools:1.9".to_string(),
        ..Default::default()
    };
    assert_eq!(config.host_tool_specific_args(&pkg, "docker_args"), "");
    let entry = |tag: &str, key: &str, value: &str| ToolArg {
        namespace: "quay-io-biocontainers".to_string(),
        image: "samtools".to_string(),
        tag: tag.to_string(),
        key: key.to_string(),
        value: value.to_string(),
    };
    config.bulker.tool_args = Some(vec![
        entry("default", "docker_args", "--default"),
        entry("1.9", "apptainer_args", "--other-key"),
    ]);
    assert_eq!(config.host_tool_specific_args(&pkg, "docker_args"), "--default");
    assert_eq!(config.host_tool_specific_args(&pkg, "apptainer_args"), "--other-key");
    assert_eq!(config.host_tool_specific_args(&pkg, "nothing"), "");
    config.bulker.tool_args = Some(vec![
        entry("default", "docker_args", "--default"),
        entry("1.9", "docker_args", "--exact"),
    ]);
    assert_eq!(config.host_tool_specific_args(&pkg, "docker_args"), "--exact");
    let other = PackageCommand { docker_image: "python:3".to_string(), ..Default::default() };
    assert_eq!(config.host_tool_specific_args(&other, "docker_args"), "");
}

#[test]
fn test_build_manifest_url_default_tag_omits_suffix() {
    let config = BulkerConfig::test_with_registry("http://hub.bulker.io/");
    let cv = CrateVars {
        namespace: "bulker".to_string(),
        crate_name: "alpine".to_string(),
        tag: "default".to_string(),
    };
    let url = build_manifest_url(&config.bulker.registry_url, &cv, None);
    assert_eq!(url, "http://hub.bulker.io/bulker/alpine.yaml");
}

#[test]
fn test_build_manifest_url_versioned_tag_includes_suffix() {
    let config = BulkerConfig::test_with_registry("http://hub.bulker.io/");
    let cv = CrateVars {
        namespace: "databio".to_string(),
        crate_name: "pepatac".to_string(),
        tag: "1.0.13".to_string(),
    };
    let url = build_manifest_url(&config.bulker.registry_url, &cv, None);
    assert_eq!(url, "http://hub.bulker.io/databio/pepatac_1.0.13.yaml");
    assert_eq!(build_manifest_url("http://h///", &cv, None), "http://h/databio/pepatac_1.0.13.yaml");
    assert_eq!(build_manifest_url("http://h", &cv, Some("./local.yaml")), "./local.yaml");
}

#[test]
fn test_mkabs_absolute() {
    let result = mkabs("/absolute/path", None, Some("/cwd"), &Environment::new());
    assert_eq!(result, "/absolute/path");
}

#[test]
fn test_mkabs_relative() {
    let result = mkabs("relative", Some("/base"), Some("/cwd"), &Environment::new());
    assert_eq!(result, "/base/relative");
    assert_eq!(mkabs("relative", None, Some("/cwd"), &Environment::new()), "/cwd/relative");
    assert_eq!(mkabs("relative", None, None, &Environment::new()), "./relative");
    assert_eq!(mkabs("$D/x", Some("/base"), None, &env_of(&[("D", "/data")])), "/data/x");
}
