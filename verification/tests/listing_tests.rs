use bulker::digest::compare_manifests;
use bulker::listing::{find_common_root, is_list_key, sort_versions_desc, version_sort_key};
use bulker::manifest::{Manifest, ManifestInner, PackageCommand};
use bulker::order::sort_strings;

fn make_test_manifest(commands: Vec<(&str, &str)>) -> Manifest {
    Manifest {
        manifest: ManifestInner {
            name: Some("test".to_string()),
            version: None,
            commands: commands
                .into_iter()
                .map(|(cmd, img)| PackageCommand {
                    command: cmd.to_string(),
                    docker_image: img.to_string(),
                    ..Default::default()
                })
                .collect(),
            host_commands: vec![],
            imports: vec![],
        },
    }
}

#[test]
fn test_sort_versions_desc_semver() {
    let mut tags = vec![
        "1.0.4".to_string(),
        "default".to_string(),
        "1.0.14-dev".to_string(),
        "1.0.13".to_string(),
        "1.0.9".to_string(),
    ];
    sort_versions_desc(&mut tags);
    assert_eq!(tags.last().unwrap(), "default");
    assert_eq!(tags.first().unwrap(), "1.0.14-dev");
    assert_eq!(tags, vec!["1.0.14-dev", "1.0.13", "1.0.9", "1.0.4", "default"]);
}

#[test]
fn test_sort_versions_desc_only_default() {
    let mut tags = vec!["default".to_string()];
    sort_versions_desc(&mut tags);
    assert_eq!(tags, vec!["default"]);
}

#[test]
fn sort_versions_handles_prefixes_and_ties() {
    let mut tags: Vec<String> = ["v2.0", "2.0", "10", "9", "default", "beta", "alpha", "2.0.1", "2.0"]
        .iter()
        .map(|s| s.to_string())
        .collect();
    sort_versions_desc(&mut tags);
    assert_eq!(tags, vec!["10", "9", "2.0.1", "2.0", "2.0", "v2.0", "alpha", "beta", "default"]);
    assert_eq!(version_sort_key("default"), (1, vec![], "default".to_string()));
    assert_eq!(version_sort_key("v1.0.14-dev"), (0, vec![1, 0, 14, -1], "v1.0.14-dev".to_string()));
    assert_eq!(version_sort_key(""), (0, vec![-1], String::new()));
    assert_eq!(version_sort_key("99999999999999999999"), (0, vec![-1], "99999999999999999999".to_string()));
}

#[test]
fn test_find_common_root_basic() {
    let paths = vec![
        "/home/user/bulker_crates/bulker/alpine/default/alpine".to_string(),
        "/home/user/bulker_crates/databio/pepatac/1.0.14-dev/pepatac".to_string(),
    ];
    let root = find_common_root(&paths);
    assert!(root.starts_with("/home/user/bulker_crates"));
    assert_eq!(root, "/home/user/bulker_crates");
}

#[test]
fn test_find_common_root_empty() {
    let root = find_common_root(&[]);
    assert_eq!(root, "");
}

#[test]
fn test_find_common_root_single() {
    let paths = vec!["/home/user/crates/alpine/default/alpine".to_string()];
    let root = find_common_root(&paths);
    assert_eq!(root, "/home/user/crates/alpine/default");
}

#[test]
fn find_common_root_without_shared_directory() {
    let paths = vec!["a/b/c".to_string(), "x/y/z".to_string()];
    assert_eq!(find_common_root(&paths), "");
    let paths = vec!["/a/b/c".to_string(), "/x".to_string()];
    assert_eq!(find_common_root(&paths), "");
    let paths = vec!["a/b/c".to_string(), "a/b/c/d".to_string(), "a/b/x".to_string()];
    assert_eq!(find_common_root(&paths), "a/b");
    assert_eq!(find_common_root(&["plain".to_string()]), "plain");
}

#[test]
fn list_keys_are_the_two_lists() {
    assert!(is_list_key("envvars"));
    assert!(is_list_key("volumes"));
    assert!(!is_list_key("shell_path"));
    assert!(!is_list_key(""));
}

#[test]
fn sort_strings_orders_by_characters() {
    let v: Vec<String> = ["b", "a", "B", "", "ab", "a", "é"].iter().map(|s| s.to_string()).collect();
    let mut expected = v.clone();
    expected.sort();
    assert_eq!(sort_strings(&v), expected);
    assert_eq!(sort_strings(&v), vec!["", "B", "a", "a", "ab", "b", "é"]);
}

#[test]
fn test_compare_identical_manifests() {
    let m = make_test_manifest(vec![("samtools", "quay.io/samtools:1.9"), ("bwa", "quay.io/bwa:0.7")]);
    let cmp = compare_manifests(&m, &m);
    assert_eq!(cmp.digest_a, cmp.digest_b);
    assert_eq!(cmp.a_count, 2);
    assert_eq!(cmp.b_count, 2);
    assert_eq!(cmp.a_and_b_count, 2);
    assert!(cmp.a_only.is_empty());
    assert!(cmp.b_only.is_empty());
    assert!(cmp.image_diffs.is_empty());
    assert_eq!(cmp.same_order, Some(true));
}

#[test]
fn test_compare_different_manifests() {
    let m1 = make_test_manifest(vec![("samtools", "quay.io/samtools:1.9"), ("old_tool", "quay.io/old:1.0")]);
    let m2 = make_test_manifest(vec![("samtools", "quay.io/samtools:1.14"), ("new_tool", "quay.io/new:1.0")]);
    let cmp = compare_manifests(&m1, &m2);
    assert_ne!(cmp.digest_a, cmp.digest_b);
    assert_eq!(cmp.a_only, vec!["old_tool"]);
    assert_eq!(cmp.b_only, vec!["new_tool"]);
    assert_eq!(cmp.image_diffs.len(), 1);
    assert_eq!(cmp.image_diffs[0].command, "samtools");
    assert_eq!(cmp.image_diffs[0].a_image, "quay.io/samtools:1.9");
    assert_eq!(cmp.image_diffs[0].b_image, "quay.io/samtools:1.14");
    assert_eq!(cmp.a_and_b_count, 0);
    assert_eq!(cmp.same_order, None);
}

#[test]
fn compare_counts_order_and_repeated_names() {
    let a = make_test_manifest(vec![("z", "i:1"), ("b", "i:2"), ("c", "i:3"), ("b", "i:4"), ("only_a2", "x"), ("only_a1", "x")]);
    let b = make_test_manifest(vec![("c", "i:3"), ("b", "i:4"), ("z", "other")]);
    let cmp = compare_manifests(&a, &b);
    assert_eq!(cmp.a_count, 6);
    assert_eq!(cmp.b_count, 3);
    assert_eq!(cmp.a_only, vec!["only_a1", "only_a2"]);
    assert!(cmp.b_only.is_empty());
    assert_eq!(cmp.a_and_b_count, 2);
    assert_eq!(cmp.image_diffs.len(), 1);
    assert_eq!(cmp.image_diffs[0].command, "z");
    assert_eq!(cmp.same_order, Some(false));
}
