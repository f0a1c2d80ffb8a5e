use bulker::imports::{resolve_cratevars_with_imports, ResolveError, MAX_IMPORT_DEPTH};
use bulker::manifest::{CrateVars, Manifest, ManifestInner, PackageCommand};
use bulker::manifest_cache::{
    cache_base_dir, digest_sidecar_path, ensure_action, manifest_path, sort_references,
    EnsureAction, ManifestCache,
};
use bulker::shimlink::shimlink_entries;

fn cv(ns: &str, name: &str, tag: &str) -> CrateVars {
    CrateVars { namespace: ns.to_string(), crate_name: name.to_string(), tag: tag.to_string() }
}

fn manifest_with_imports(name: &str, imports: &[&str]) -> Manifest {
    Manifest {
        manifest: ManifestInner {
            name: Some(name.to_string()),
            version: None,
            commands: vec![PackageCommand {
                command: name.to_string(),
                docker_image: format!("test/{}:latest", name),
                ..Default::default()
            }],
            host_commands: vec![],
            imports: imports.iter().map(|s| s.to_string()).collect(),
        },
    }
}

fn names(list: &[CrateVars]) -> Vec<String> {
    list.iter().map(|c| c.display_name()).collect()
}

#[test]
fn test_cache_base_dir_ends_with_manifests() {
    let base = cache_base_dir(Some("/home/u/.config"));
    assert!(base.ends_with("bulker/manifests"));
    assert_eq!(base, "/home/u/.config/bulker/manifests");
    assert_eq!(cache_base_dir(None), "~/.config/bulker/manifests");
}

#[test]
fn test_manifest_path_structure() {
    let c = cv("databio", "pepatac", "1.0.13");
    let path = manifest_path("/home/u/.config/bulker/manifests", &c);
    assert!(path.contains("databio/pepatac/1.0.13/manifest"));
    assert!(path.ends_with("/manifest"));
    assert_eq!(path, "/home/u/.config/bulker/manifests/databio/pepatac/1.0.13/manifest");
    assert_eq!(
        digest_sidecar_path("/c/", &c, "crate-manifest-digest"),
        "/c/databio/pepatac/1.0.13/crate-manifest-digest"
    );
}

#[test]
fn test_save_and_load_cached_roundtrip() {
    let mut cache = ManifestCache::new();
    let c = cv("test", "demo", "default");
    let mut manifest = manifest_with_imports("cowsay", &[]);
    manifest.manifest.host_commands = vec!["ls".to_string()];
    cache.save(&c, &manifest);
    let loaded = cache.load(&c);
    assert!(loaded.is_some());
    let loaded = loaded.unwrap();
    assert_eq!(loaded.manifest.commands.len(), 1);
    assert_eq!(loaded.manifest.commands[0].command, "cowsay");
    assert_eq!(loaded.manifest.host_commands, vec!["ls"]);
}

#[test]
fn test_load_cached_returns_none_when_not_cached() {
    let cache = ManifestCache::new();
    let c = cv("nonexistent_ns_xyz", "nonexistent_crate", "nonexistent_tag");
    assert!(cache.load(&c).is_none());
    assert!(!cache.contains(&c));
}

#[test]
fn test_list_cached_empty_dir() {
    let cache = ManifestCache::new();
    assert!(cache.list().is_empty());
    assert_eq!(cache.len(), 0);
}

#[test]
fn test_remove_cached_nonexistent() {
    let mut cache = ManifestCache::new();
    let c = cv("nonexistent_ns_xyz", "nonexistent_crate", "nonexistent_tag");
    assert!(!cache.remove(&c));
}

#[test]
fn cache_save_overwrites_and_remove_forgets() {
    let mut cache = ManifestCache::new();
    let a = cv("n", "a", "1");
    let b = cv("n", "b", "1");
    cache.save(&a, &manifest_with_imports("first", &[]));
    cache.save(&b, &manifest_with_imports("b", &[]));
    cache.save(&a, &manifest_with_imports("second", &[]));
    assert_eq!(cache.len(), 2);
    assert_eq!(cache.load(&a).unwrap().manifest.name.as_deref(), Some("second"));
    assert_eq!(cache.load(&b).unwrap().manifest.name.as_deref(), Some("b"));
    assert!(cache.remove(&a));
    assert!(cache.load(&a).is_none());
    assert!(cache.load(&b).is_some());
    assert_eq!(cache.len(), 1);
    assert!(!cache.remove(&a));
}

#[test]
fn cache_list_is_sorted_by_display_name() {
    let mut cache = ManifestCache::new();
    for (ns, name, tag) in [("z", "z", "1"), ("a", "b", "2"), ("a", "b", "10"), ("Z", "a", "1"), ("a", "a", "default")] {
        cache.save(&cv(ns, name, tag), &manifest_with_imports(name, &[]));
    }
    assert_eq!(
        names(&cache.list()),
        vec!["Z/a:1", "a/a:default", "a/b:10", "a/b:2", "z/z:1"]
    );
}

#[test]
fn references_sort_by_display_name_and_cache_clears() {
    let list = vec![cv("b", "x", "1"), cv("a", "x", "2"), cv("b", "x", "1"), cv("a", "x", "10")];
    assert_eq!(names(&sort_references(&list)), vec!["a/x:10", "a/x:2", "b/x:1", "b/x:1"]);
    assert!(sort_references(&[]).is_empty());
    let mut cache = ManifestCache::new();
    cache.save(&cv("n", "a", "1"), &manifest_with_imports("a", &[]));
    cache.save(&cv("n", "b", "1"), &manifest_with_imports("b", &[]));
    cache.clear();
    assert_eq!(cache.len(), 0);
    assert!(cache.load(&cv("n", "a", "1")).is_none());
    assert!(cache.list().is_empty());
}

#[test]
fn ensure_fetches_when_forced_or_absent() {
    assert_eq!(ensure_action(true, false), EnsureAction::UseCached);
    assert_eq!(ensure_action(true, true), EnsureAction::Fetch);
    assert_eq!(ensure_action(false, false), EnsureAction::Fetch);
    assert_eq!(ensure_action(false, true), EnsureAction::Fetch);
}

#[test]
fn test_resolve_missing_crate_gives_clear_error() {
    let cache = ManifestCache::new();
    let c = cv("bulker", "nonexistent", "default");
    let result = resolve_cratevars_with_imports(&cache, "bulker", &[c]);
    assert!(result.is_err());
    let err = result.unwrap_err().message();
    assert!(err.contains("not cached"));
    assert!(err.contains("bulker activate bulker/nonexistent:default"));
}

#[test]
fn test_resolve_single_crate_no_imports() {
    let mut cache = ManifestCache::new();
    let c = cv("bulker", "demo", "default");
    cache.save(&c, &manifest_with_imports("demo", &[]));
    let result = resolve_cratevars_with_imports(&cache, "bulker", &[c]).unwrap();
    assert_eq!(names(&result), vec!["bulker/demo:default"]);
}

#[test]
fn test_resolve_crate_with_imports() {
    let mut cache = ManifestCache::new();
    cache.save(&cv("bulker", "parent", "default"), &manifest_with_imports("parent", &["bulker/child"]));
    cache.save(&cv("bulker", "child", "default"), &manifest_with_imports("child", &[]));
    let result = resolve_cratevars_with_imports(&cache, "bulker", &[cv("bulker", "parent", "default")]).unwrap();
    assert_eq!(names(&result), vec!["bulker/parent:default", "bulker/child:default"]);
}

#[test]
fn test_resolve_circular_imports_handled() {
    let mut cache = ManifestCache::new();
    cache.save(&cv("bulker", "a", "default"), &manifest_with_imports("a", &["bulker/b"]));
    cache.save(&cv("bulker", "b", "default"), &manifest_with_imports("b", &["bulker/a"]));
    let result = resolve_cratevars_with_imports(&cache, "bulker", &[cv("bulker", "a", "default")]).unwrap();
    assert_eq!(names(&result), vec!["bulker/a:default", "bulker/b:default"]);
}

#[test]
fn resolve_is_depth_first_in_declaration_order() {
    let mut cache = ManifestCache::new();
    cache.save(&cv("t", "a", "default"), &manifest_with_imports("a", &["b", "c", "t/a"]));
    cache.save(&cv("t", "b", "default"), &manifest_with_imports("b", &["d", "c"]));
    cache.save(&cv("t", "c", "default"), &manifest_with_imports("c", &["d"]));
    cache.save(&cv("t", "d", "default"), &manifest_with_imports("d", &[]));
    cache.save(&cv("t", "e", "default"), &manifest_with_imports("e", &["c"]));
    let result = resolve_cratevars_with_imports(&cache, "t", &[cv("t", "a", "default")]).unwrap();
    assert_eq!(names(&result), vec!["t/a:default", "t/b:default", "t/d:default", "t/c:default"]);
    let result = resolve_cratevars_with_imports(
        &cache,
        "t",
        &[cv("t", "e", "default"), cv("t", "a", "default"), cv("t", "e", "default")],
    )
    .unwrap();
    assert_eq!(
        names(&result),
        vec!["t/e:default", "t/c:default", "t/d:default", "t/a:default", "t/b:default"]
    );
    assert!(resolve_cratevars_with_imports(&cache, "t", &[]).unwrap().is_empty());
}

#[test]
fn resolve_uses_the_namespace_of_the_resolution() {
    let mut cache = ManifestCache::new();
    cache.save(&cv("one", "top", "default"), &manifest_with_imports("top", &["leaf"]));
    cache.save(&cv("one", "leaf", "default"), &manifest_with_imports("leaf-one", &[]));
    cache.save(&cv("two", "leaf", "default"), &manifest_with_imports("leaf-two", &[]));
    let top = cv("one", "top", "default");
    let first = resolve_cratevars_with_imports(&cache, "one", &[top.clone()]).unwrap();
    assert_eq!(names(&first), vec!["one/top:default", "one/leaf:default"]);
    let second = resolve_cratevars_with_imports(&cache, "two", &[top]).unwrap();
    assert_eq!(names(&second), vec!["one/top:default", "two/leaf:default"]);
}

#[test]
fn resolve_reports_missing_and_malformed_imports() {
    let mut cache = ManifestCache::new();
    cache.save(&cv("t", "a", "default"), &manifest_with_imports("a", &["t/b", "t/gone"]));
    cache.save(&cv("t", "b", "default"), &manifest_with_imports("b", &[]));
    match resolve_cratevars_with_imports(&cache, "t", &[cv("t", "a", "default")]) {
        Err(ResolveError::NotCached(c)) => assert_eq!(c.display_name(), "t/gone:default"),
        other => panic!("expected a crate that is not cached, got {:?}", other),
    }
    cache.save(&cv("t", "bad", "default"), &manifest_with_imports("bad", &["t/b", "oh no;"]));
    let err = resolve_cratevars_with_imports(&cache, "t", &[cv("t", "bad", "default")]).unwrap_err();
    match &err {
        ResolveError::InvalidImport { importer, error } => {
            assert_eq!(importer.display_name(), "t/bad:default");
            assert_eq!(error.text, "oh no;");
        },
        other => panic!("expected a malformed import, got {:?}", other),
    }
    assert_eq!(
        err.message(),
        "Invalid import in crate 't/bad:default': Invalid crate name 'oh no;': only alphanumeric characters, hyphens, underscores, and dots are allowed"
    );
}

#[test]
fn resolve_chain_at_and_beyond_the_depth_limit() {
    let limit = MAX_IMPORT_DEPTH as usize;
    assert_eq!(limit, 32);
    let mut cache = ManifestCache::new();
    let total = limit + 2;
    for i in 0..total {
        let imports: Vec<String> = if i + 1 < total { vec![format!("t/c{}", i + 1)] } else { vec![] };
        let refs: Vec<&str> = imports.iter().map(|s| s.as_str()).collect();
        cache.save(&cv("t", &format!("c{}", i), "default"), &manifest_with_imports(&format!("c{}", i), &refs));
    }
    let at_limit = resolve_cratevars_with_imports(&cache, "t", &[cv("t", "c1", "default")]).unwrap();
    assert_eq!(at_limit.len(), limit + 1);
    assert_eq!(at_limit[0].crate_name, "c1");
    assert_eq!(at_limit[limit].crate_name, format!("c{}", limit + 1));
    let beyond = resolve_cratevars_with_imports(&cache, "t", &[cv("t", "c0", "default")]).unwrap_err();
    match &beyond {
        ResolveError::DepthExceeded { reference, limit: l } => {
            assert_eq!(reference.crate_name, format!("c{}", limit + 1));
            assert_eq!(*l, MAX_IMPORT_DEPTH);
        },
        other => panic!("expected the depth limit, got {:?}", other),
    }
    assert_eq!(beyond.message(), "Import depth limit (32) exceeded at crate 't/c33:default'");
}

#[test]
fn cached_then_resolved_then_removed() {
    let mut cache = ManifestCache::new();
    let c = cv("test", "crate", "default");
    let mut manifest = manifest_with_imports("cowsay", &[]);
    manifest.manifest.commands.push(PackageCommand {
        command: "fortune".to_string(),
        docker_image: "nsheff/fortune".to_string(),
        ..Default::default()
    });
    manifest.manifest.host_commands = vec!["ls".to_string()];
    cache.save(&c, &manifest);
    let resolved = resolve_cratevars_with_imports(&cache, "bulker", &[c.clone()]).unwrap();
    assert_eq!(resolved.len(), 1);
    let entries = shimlink_entries(cache.load(&resolved[0]).unwrap(), &[Some("/bin/ls".to_string())]);
    assert_eq!(entries.len(), 5);
    let entry_names: Vec<&str> = entries.iter().map(|e| e.name.as_str()).collect();
    assert_eq!(entry_names, vec!["cowsay", "_cowsay", "fortune", "_fortune", "ls"]);
    assert!(cache.remove(&c));
    match resolve_cratevars_with_imports(&cache, "bulker", &[c]) {
        Err(ResolveError::NotCached(missing)) => assert_eq!(missing.display_name(), "test/crate:default"),
        other => panic!("expected a crate that is not cached, got {:?}", other),
    }
}

#[test]
fn test_resolve_non_strict_appends_existing_path() {
    let mut cache = ManifestCache::new();
    let c = cv("bulker", "demo", "default");
    cache.save(&c, &manifest_with_imports("demo", &[]));
    let resolved = resolve_cratevars_with_imports(&cache, "bulker", &[c]).unwrap();
    assert_eq!(resolved.len(), 1);
    let result = bulker::activate::get_new_path("/tmp/crates/bulker/demo/default", "/usr/bin:/bin", false);
    assert!(result.path.starts_with("/tmp/crates/bulker/demo/default:"));
    assert_eq!(result.path, "/tmp/crates/bulker/demo/default:/usr/bin:/bin");
}

#[test]
fn small_manifest_for_trying_things_out() {
    let m = bulker::manifest::make_manifest_with_imports("demo", vec!["bulker/base".to_string()]);
    assert_eq!(m.manifest.name.as_deref(), Some("demo"));
    assert_eq!(m.manifest.commands.len(), 1);
    assert_eq!(m.manifest.commands[0].command, "demo");
    assert_eq!(m.manifest.commands[0].docker_image, "test/demo:latest");
    assert_eq!(m.manifest.imports, vec!["bulker/base"]);
    assert!(m.manifest.host_commands.is_empty());
}
