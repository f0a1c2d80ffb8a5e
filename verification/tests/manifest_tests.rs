use bulker::manifest::{
    apptainer_image_paths, is_local_path, is_url, merge_lists, parse_docker_image_path,
    parse_registry_path, parse_registry_paths, Component, ComponentFault, CrateVars,
    PackageCommand,
};

#[test]
fn test_parse_registry_path_full() {
    let cv = parse_registry_path("myns/mycrate:v1.0", "bulker").unwrap();
    assert_eq!(cv.namespace, "myns");
    assert_eq!(cv.crate_name, "mycrate");
    assert_eq!(cv.tag, "v1.0");
}

#[test]
fn test_parse_registry_path_no_namespace() {
    let cv = parse_registry_path("mycrate:v1.0", "bulker").unwrap();
    assert_eq!(cv.namespace, "bulker");
    assert_eq!(cv.crate_name, "mycrate");
    assert_eq!(cv.tag, "v1.0");
}

#[test]
fn test_parse_registry_path_no_tag() {
    let cv = parse_registry_path("myns/mycrate", "bulker").unwrap();
    assert_eq!(cv.namespace, "myns");
    assert_eq!(cv.crate_name, "mycrate");
    assert_eq!(cv.tag, "default");
}

#[test]
fn test_parse_registry_path_bare() {
    let cv = parse_registry_path("mycrate", "bulker").unwrap();
    assert_eq!(cv.namespace, "bulker");
    assert_eq!(cv.crate_name, "mycrate");
    assert_eq!(cv.tag, "default");
}

#[test]
fn test_parse_registry_paths_comma() {
    let paths = parse_registry_paths("a/b:1,c/d:2", "bulker").unwrap();
    assert_eq!(paths.len(), 2);
    assert_eq!(paths[0].namespace, "a");
    assert_eq!(paths[0].crate_name, "b");
    assert_eq!(paths[0].tag, "1");
    assert_eq!(paths[1].namespace, "c");
    assert_eq!(paths[1].crate_name, "d");
    assert_eq!(paths[1].tag, "2");
}

#[test]
fn test_parse_registry_path_rejects_shell_injection() {
    assert!(parse_registry_path("demo$(whoami)", "bulker").is_err());
}

#[test]
fn test_parse_registry_path_rejects_semicolon() {
    assert!(parse_registry_path("demo;rm -rf /", "bulker").is_err());
}

#[test]
fn test_parse_registry_path_rejects_backtick() {
    assert!(parse_registry_path("demo`whoami`", "bulker").is_err());
}

#[test]
fn test_parse_registry_path_rejects_spaces() {
    assert!(parse_registry_path("demo crate", "bulker").is_err());
}

#[test]
fn test_parse_registry_path_rejects_quotes() {
    assert!(parse_registry_path("demo\"crate", "bulker").is_err());
}

#[test]
fn test_parse_registry_path_accepts_valid_names() {
    assert!(parse_registry_path("my-ns/my_crate.v2:1.0.0", "bulker").is_ok());
}

#[test]
fn test_parse_registry_path_rejects_empty_crate_name() {
    assert!(parse_registry_path("ns/:tag", "bulker").is_err());
}

#[test]
fn test_parse_docker_image_path() {
    let (ns, img, tag) = parse_docker_image_path("quay.io/biocontainers/samtools:1.9--h91753b0_8");
    assert_eq!(ns, "quay-io-biocontainers");
    assert_eq!(img, "samtools");
    assert_eq!(tag, "1.9--h91753b0_8");
}

#[test]
fn test_parse_docker_image_simple() {
    let (ns, img, tag) = parse_docker_image_path("python:3.7.4");
    assert_eq!(ns, "docker");
    assert_eq!(img, "python");
    assert_eq!(tag, "3.7.4");
}

#[test]
fn parse_display_round_trip() {
    let cv = CrateVars {
        namespace: "my-ns".to_string(),
        crate_name: "my_crate.v2".to_string(),
        tag: "1.0.0".to_string(),
    };
    assert_eq!(cv.display_name(), "my-ns/my_crate.v2:1.0.0");
    let back = parse_registry_path(&cv.display_name(), "other").unwrap();
    assert_eq!(back.namespace, cv.namespace);
    assert_eq!(back.crate_name, cv.crate_name);
    assert_eq!(back.tag, cv.tag);
}

#[test]
fn parse_rejects_surrounding_whitespace() {
    let e = parse_registry_path(" a/b:c ", "bulker").unwrap_err();
    assert_eq!(e.component, Component::Namespace);
    assert_eq!(e.fault, ComponentFault::Invalid);
    assert_eq!(e.text, " a");
    let e = parse_registry_path("a/b:c\t", "bulker").unwrap_err();
    assert_eq!(e.component, Component::Tag);
    assert_eq!(e.text, "c\t");
    assert!(parse_registry_path(" mycrate", "bulker").is_err());
    assert!(parse_registry_path("mycrate\n", "bulker").is_err());
}

#[test]
fn list_parsing_trims_each_piece() {
    let list = parse_registry_paths(" a/b:1 , c/d:2\t", "bulker").unwrap();
    assert_eq!(list.len(), 2);
    assert_eq!(list[0].display_name(), "a/b:1");
    assert_eq!(list[1].display_name(), "c/d:2");
    assert!(parse_registry_paths("a/b:1, c d", "bulker").is_err());
}

#[test]
fn parse_reports_the_faulty_component() {
    let e = parse_registry_path("ns/:tag", "bulker").unwrap_err();
    assert_eq!(e.component, Component::CrateName);
    assert_eq!(e.fault, ComponentFault::Empty);
    assert_eq!(e.message(), "Empty crate name in crate path");
    let e = parse_registry_path("ns/na me:tag", "bulker").unwrap_err();
    assert_eq!(e.component, Component::CrateName);
    assert_eq!(e.fault, ComponentFault::Invalid);
    assert_eq!(
        e.message(),
        "Invalid crate name 'na me': only alphanumeric characters, hyphens, underscores, and dots are allowed"
    );
    let e = parse_registry_path("a/b:", "bulker").unwrap_err();
    assert_eq!(e.component, Component::Tag);
    let e = parse_registry_path("/b", "bulker").unwrap_err();
    assert_eq!(e.component, Component::Namespace);
    assert_eq!(e.message(), "Empty namespace in crate path");
    let e = parse_registry_path("a/b/c", "bulker").unwrap_err();
    assert_eq!(e.component, Component::CrateName);
    assert_eq!(e.text, "b/c");
}

#[test]
fn parse_list_stops_at_first_fault() {
    let e = parse_registry_paths("a/b,c d,e;f", "bulker").unwrap_err();
    assert_eq!(e.text, "c d");
    assert!(parse_registry_paths("", "bulker").is_err());
}

#[test]
fn merged_docker_args_joins_sources_in_order() {
    let pkg = PackageCommand {
        command: "x".to_string(),
        docker_image: "img".to_string(),
        dockerargs: Some("-a".to_string()),
        docker_args: Some("-b".to_string()),
        ..Default::default()
    };
    assert_eq!(pkg.merged_docker_args(&["-c", "", "-d"]), "-a -b -c -d");
    let bare = PackageCommand::default();
    assert_eq!(bare.merged_docker_args(&[]), "");
    assert_eq!(bare.merged_docker_args(&["", "-x"]), "-x");
}

#[test]
fn merge_lists_keeps_order_and_drops_duplicates() {
    let mut primary = vec!["a".to_string(), "b".to_string()];
    merge_lists(&mut primary, &["b".to_string(), "c".to_string(), "c".to_string(), "a".to_string()]);
    assert_eq!(primary, vec!["a", "b", "c"]);
}

#[test]
fn url_and_local_path_detection() {
    assert!(is_url("http://hub.bulker.io/x.yaml"));
    assert!(is_url("https://hub.bulker.io/x.yaml"));
    assert!(!is_url("ftp://x"));
    assert!(!is_url("http:/"));
    assert!(is_local_path("./m.yaml"));
    assert!(is_local_path("/abs/m"));
    assert!(is_local_path("m.yml"));
    assert!(is_local_path("m.yaml"));
    assert!(!is_local_path("bulker/demo"));
    assert!(!is_local_path(""));
}

#[test]
fn apptainer_image_paths_with_and_without_folder() {
    let (file, full) = apptainer_image_paths("quay.io/biocontainers/samtools:1.9", Some("/tmp/sif"));
    assert_eq!(file, "quay-io-biocontainers-samtools.sif");
    assert_eq!(full, "/tmp/sif/quay-io-biocontainers-samtools.sif");
    let (file, full) = apptainer_image_paths("python", None);
    assert_eq!(file, "docker-python.sif");
    assert_eq!(full, "docker-python.sif");
}

#[test]
fn docker_image_without_tag_is_latest() {
    let (ns, img, tag) = parse_docker_image_path("nsheff/cowsay");
    assert_eq!(ns, "nsheff");
    assert_eq!(img, "cowsay");
    assert_eq!(tag, "latest");
}
