use cargo_save::manager::CacheManager;
use cargo_save::model::IncrementalCache;
use cargo_save::model::PackageHash;
use cargo_save::model::WorkspaceState;

fn mgr() -> CacheManager {
    CacheManager::new("cache-base")
}

fn pkg(name: &str, deps: &[&str]) -> PackageHash {
    PackageHash {
        name: name.to_string(),
        version: "0.1.0".to_string(),
        path: format!("/ws/{}", name),
        source_hash: format!("{:0>64}", name),
        dependencies: deps.iter().map(|d| d.to_string()).collect(),
        features_hash: "f".repeat(64),
    }
}

fn workspace(packages: Vec<PackageHash>) -> WorkspaceState {
    WorkspaceState {
        root: "/ws".to_string(),
        packages,
        cargo_lock_hash: "l".repeat(64),
        toolchain_hash: "t".repeat(64),
        timestamp: "2024-01-01T00:00:00Z".to_string(),
        git_features: None,
    }
}

fn record_for(p: &PackageHash, ws: &WorkspaceState) -> IncrementalCache {
    IncrementalCache {
        package_name: p.name.clone(),
        package_version: p.version.clone(),
        source_hash: p.source_hash.clone(),
        cargo_lock_hash: ws.cargo_lock_hash.clone(),
        command_hash: "c".repeat(16),
        env_hash: "e".repeat(64),
        is_release: false,
        features_hash: "f".repeat(64),
        target_files: vec![("/t/a.rlib".to_string(), 10)],
        artifact_paths: vec!["/t/a.rlib".to_string()],
        timestamp: "2024-01-01T00:00:00Z".to_string(),
        build_success: true,
        duration_ms: 5,
    }
}

fn names(list: &[PackageHash]) -> Vec<String> {
    list.iter().map(|p| p.name.clone()).collect()
}

#[test]
fn test_cache_hit_accepted() {
    let cache = mgr();
    let a = pkg("a", &[]);
    let ws = workspace(vec![a.clone()]);
    let rec = record_for(&a, &ws);
    let sizes = vec![Some(10u64)];
    let env_hash = "e".repeat(64);
    let features_hash = "f".repeat(64);
    assert!(cache.check_incremental_cache(&a, &ws, &env_hash, &features_hash, &Some(rec), &sizes));
}

#[test]
fn test_source_miss_rejected() {
    let cache = mgr();
    let a = pkg("a", &[]);
    let ws = workspace(vec![a.clone()]);
    let mut rec = record_for(&a, &ws);
    rec.source_hash = "9".repeat(64);
    let sizes = vec![Some(10u64)];
    assert!(!cache.check_incremental_cache(
        &a,
        &ws,
        &"e".repeat(64),
        &"f".repeat(64),
        &Some(rec),
        &sizes
    ));
}

#[test]
fn test_env_miss_rejected() {
    let cache = mgr();
    let a = pkg("a", &[]);
    let ws = workspace(vec![a.clone()]);
    let rec = record_for(&a, &ws);
    let sizes = vec![Some(10u64)];
    assert!(!cache.check_incremental_cache(
        &a,
        &ws,
        &"x".repeat(64),
        &"f".repeat(64),
        &Some(rec),
        &sizes
    ));
}

#[test]
fn test_lock_miss_rejected() {
    let cache = mgr();
    let a = pkg("a", &[]);
    let mut ws = workspace(vec![a.clone()]);
    let rec = record_for(&a, &ws);
    ws.cargo_lock_hash = "z".repeat(64);
    let sizes = vec![Some(10u64)];
    assert!(!cache.check_incremental_cache(
        &a,
        &ws,
        &"e".repeat(64),
        &"f".repeat(64),
        &Some(rec),
        &sizes
    ));
}

#[test]
fn test_artifact_miss_rejected() {
    let cache = mgr();
    let a = pkg("a", &[]);
    let ws = workspace(vec![a.clone()]);
    let rec = record_for(&a, &ws);
    // the listed file is gone
    let gone = vec![None];
    assert!(!cache.check_incremental_cache(
        &a,
        &ws,
        &"e".repeat(64),
        &"f".repeat(64),
        &Some(rec.clone()),
        &gone
    ));
    // the listed file changed size
    let resized = vec![Some(11u64)];
    assert!(!cache.check_incremental_cache(
        &a,
        &ws,
        &"e".repeat(64),
        &"f".repeat(64),
        &Some(rec),
        &resized
    ));
}

#[test]
fn test_missing_record_rejected() {
    let cache = mgr();
    let a = pkg("a", &[]);
    let ws = workspace(vec![a.clone()]);
    assert!(!cache.check_incremental_cache(
        &a,
        &ws,
        &"e".repeat(64),
        &"f".repeat(64),
        &None,
        &vec![]
    ));
}

#[test]
fn test_failed_build_record_rejected() {
    let cache = mgr();
    let a = pkg("a", &[]);
    let ws = workspace(vec![a.clone()]);
    let mut rec = record_for(&a, &ws);
    rec.build_success = false;
    let sizes = vec![Some(10u64)];
    assert!(!cache.check_incremental_cache(
        &a,
        &ws,
        &"e".repeat(64),
        &"f".repeat(64),
        &Some(rec),
        &sizes
    ));
}

#[test]
fn test_fresh_workspace_changed_in_snapshot_order() {
    let cache = mgr();
    let a = pkg("a", &[]);
    let b = pkg("b", &["a"]);
    let ws = workspace(vec![a, b]);
    let changed = cache.get_changed_packages(&ws, &vec![false, false]);
    assert_eq!(names(&changed), vec!["a".to_string(), "b".to_string()]);
}

#[test]
fn test_all_cached_changed_set_empty() {
    let cache = mgr();
    let a = pkg("a", &[]);
    let b = pkg("b", &["a"]);
    let ws = workspace(vec![a, b]);
    let changed = cache.get_changed_packages(&ws, &vec![true, true]);
    assert!(changed.is_empty());
}

#[test]
fn test_edit_dependency_invalidates_dependents() {
    let cache = mgr();
    let a = pkg("a", &[]);
    let b = pkg("b", &["a"]);
    let ws = workspace(vec![a, b]);
    let changed = cache.get_changed_packages(&ws, &vec![false, true]);
    assert_eq!(names(&changed), vec!["a".to_string(), "b".to_string()]);
}

#[test]
fn test_edit_leaf_invalidates_only_leaf() {
    let cache = mgr();
    let a = pkg("a", &[]);
    let b = pkg("b", &["a"]);
    let ws = workspace(vec![a, b]);
    let changed = cache.get_changed_packages(&ws, &vec![true, false]);
    assert_eq!(names(&changed), vec!["b".to_string()]);
}

#[test]
fn test_transitive_chain_propagates() {
    let cache = mgr();
    let a = pkg("a", &[]);
    let b = pkg("b", &["a"]);
    let c = pkg("c", &["b"]);
    let ws = workspace(vec![a, b, c]);
    // invalidating a forces b and c in
    let changed = cache.get_changed_packages(&ws, &vec![false, true, true]);
    assert_eq!(
        names(&changed),
        vec!["a".to_string(), "b".to_string(), "c".to_string()]
    );
    // invalidating c alone invalidates only c
    let changed = cache.get_changed_packages(&ws, &vec![true, true, false]);
    assert_eq!(names(&changed), vec!["c".to_string()]);
}

#[test]
fn test_dependency_graph_building() {
    let cache = mgr();
    let a = pkg("a", &[]);
    let b = pkg("b", &["a"]);
    let ws = WorkspaceState {
        root: "/ws".to_string(),
        packages: vec![a, b],
        cargo_lock_hash: "test".to_string(),
        toolchain_hash: "test".to_string(),
        timestamp: "2024-01-01T00:00:00Z".to_string(),
        git_features: None,
    };
    let graph = cache.build_dependency_graph(&ws);
    assert_eq!(graph.packages.len(), 2);
    assert_eq!(graph.packages[0].name, "a");
    assert_eq!(graph.packages[0].reverse_dependencies, vec!["b".to_string()]);
    assert_eq!(graph.packages[1].dependencies, vec!["a".to_string()]);
    assert!(graph.packages[1].reverse_dependencies.is_empty());
}

#[test]
fn test_workspace_deps_filters_to_members() {
    let cache = mgr();
    let deps = vec!["serde".to_string(), "a".to_string(), "rayon".to_string()];
    let members = vec!["a".to_string(), "b".to_string()];
    assert_eq!(cache.workspace_deps(&deps, &members), vec!["a".to_string()]);
}

#[test]
fn test_save_incremental_cache_attributes_files() {
    let cache = mgr();
    let a = pkg("alpha", &[]);
    let ws = workspace(vec![a.clone()]);
    let fingerprints = vec![
        ("/t/debug/.fingerprint/alpha-123/lib".to_string(), 7u64),
        ("/t/debug/.fingerprint/other-456/lib".to_string(), 9u64),
    ];
    let deps = vec![
        ("/t/debug/deps/libalpha-123.rlib".to_string(), 21u64),
        ("/t/debug/deps/libother-456.rlib".to_string(), 22u64),
    ];
    let rec = cache.save_incremental_cache(
        &a,
        &ws,
        &"c".repeat(16),
        &"e".repeat(64),
        false,
        &"f".repeat(64),
        &fingerprints,
        &deps,
        "2024-01-01T00:00:00Z",
        17,
    );
    assert_eq!(rec.package_name, "alpha");
    assert!(rec.build_success);
    assert_eq!(rec.duration_ms, 17);
    assert_eq!(
        rec.target_files,
        vec![
            ("/t/debug/.fingerprint/alpha-123/lib".to_string(), 7u64),
            ("/t/debug/deps/libalpha-123.rlib".to_string(), 21u64),
        ]
    );
    assert_eq!(rec.artifact_paths, vec!["/t/debug/deps/libalpha-123.rlib".to_string()]);
}

#[test]
fn test_cache_key_format_and_profile() {
    let cache = mgr();
    let a = pkg("alpha", &[]);
    let cmd = "c".repeat(16);
    let env = "e".repeat(8);
    let feat = "f".repeat(8);
    let key_debug = cache.get_cache_key(&a, &cmd, &env, false, &feat);
    let key_release = cache.get_cache_key(&a, &cmd, &env, true, &feat);
    let source16 = &a.source_hash[..16];
    assert_eq!(
        key_debug,
        format!("alpha-{}-{}-{}-debug-{}", source16, cmd, env, feat)
    );
    // a distinct profile means a distinct composite key
    assert_ne!(key_debug, key_release);
    assert!(key_release.contains("-release-"));
}

#[test]
fn test_artifact_scan_dirs() {
    let cache = mgr();
    let (fp, deps) = cache.artifact_scan_dirs("/ws/target", false);
    assert_eq!(fp, "/ws/target/debug/.fingerprint");
    assert_eq!(deps, "/ws/target/debug/deps");
    let (fp_r, deps_r) = cache.artifact_scan_dirs("/ws/target", true);
    assert_eq!(fp_r, "/ws/target/release/.fingerprint");
    assert_eq!(deps_r, "/ws/target/release/deps");
}

#[test]
fn test_cache_manager_creation() {
    let cache = CacheManager::new("base");
    assert_eq!(cache.cache_dir, "base/v4");
    assert_eq!(cache.incremental_dir, "base/v4/incremental");
    assert_eq!(cache.metadata_dir, "base/v4/metadata");
}

#[test]
fn test_record_and_log_paths() {
    let cache = CacheManager::new("base");
    assert_eq!(cache.log_file_path("20240101-abcd1234"), "base/v4/20240101-abcd1234.log");
    assert_eq!(
        cache.metadata_file_path("20240101-abcd1234"),
        "base/v4/metadata/20240101-abcd1234.json"
    );
    assert_eq!(cache.record_file_path("alpha-xyz"), "base/v4/incremental/alpha-xyz.json");
}

#[test]
fn test_ci_cache_key() {
    let cache = mgr();
    let toolchain = "t".repeat(64);
    let key = cache.generate_cache_key("github", &toolchain);
    assert_eq!(key, format!("cargo-save-github-{}", "t".repeat(16)));
}

#[test]
fn test_distinct_env_hash_gives_distinct_key() {
    let cache = mgr();
    let a = pkg("alpha", &[]);
    let cmd = "c".repeat(16);
    let feat = "f".repeat(8);
    let key1 = cache.get_cache_key(&a, &cmd, &"envhash1".to_string(), false, &feat);
    let key2 = cache.get_cache_key(&a, &cmd, &"envhash2".to_string(), false, &feat);
    // runs under different environments keep independent records
    assert_ne!(key1, key2);
}
