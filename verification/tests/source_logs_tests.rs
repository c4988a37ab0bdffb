use cargo_save::manager::CacheManager;
use cargo_save::source::GitSourceData;

fn mgr() -> CacheManager {
    CacheManager::new("cache-base")
}

fn observations() -> GitSourceData {
    GitSourceData {
        ls_tree: "100644 blob 1111\tsrc/lib.rs\n".to_string(),
        status: " M src/lib.rs\n".to_string(),
        modified_files: vec![("/ws/a/src/lib.rs".to_string(), b"fn main() {}".to_vec())],
        submodule_status: None,
        sparse_file: None,
        is_shallow: false,
        shallow_bytes: None,
        has_lfs: false,
    }
}

#[test]
fn test_source_hash_deterministic() {
    let cache = mgr();
    let data = observations();
    assert_eq!(cache.compute_source_hash(&data), cache.compute_source_hash(&data));
    assert_eq!(cache.compute_source_hash(&data).len(), 64);
}

#[test]
fn test_source_hash_sensitive_to_content() {
    let cache = mgr();
    let data = observations();
    let mut edited = observations();
    edited.modified_files[0].1 = b"fn main() { panic!() }".to_vec();
    assert_ne!(cache.compute_source_hash(&data), cache.compute_source_hash(&edited));
}

#[test]
fn test_source_hash_marks_repo_features() {
    let cache = mgr();
    let plain = observations();
    let mut shallow = observations();
    shallow.is_shallow = true;
    shallow.shallow_bytes = Some(b"deadbeef\n".to_vec());
    assert_ne!(cache.compute_source_hash(&plain), cache.compute_source_hash(&shallow));
    let mut with_submodules = observations();
    with_submodules.submodule_status = Some(" 1111 vendored (v1.0)\n".to_string());
    assert_ne!(
        cache.compute_source_hash(&plain),
        cache.compute_source_hash(&with_submodules)
    );
}

#[test]
fn test_fallback_hash_deterministic() {
    let cache = mgr();
    let files = vec![
        ("/ws/a/Cargo.toml".to_string(), b"[package]".to_vec()),
        ("/ws/a/src/lib.rs".to_string(), b"pub fn f() {}".to_vec()),
    ];
    assert_eq!(
        cache.compute_fallback_source_hash(&files),
        cache.compute_fallback_source_hash(&files)
    );
    let reordered = vec![files[1].clone(), files[0].clone()];
    assert_ne!(
        cache.compute_fallback_source_hash(&files),
        cache.compute_fallback_source_hash(&reordered)
    );
}

#[test]
fn test_fallback_file_wanted() {
    let cache = mgr();
    assert!(cache.fallback_file_wanted("/ws/a/src/lib.rs"));
    assert!(cache.fallback_file_wanted("/ws/a/Cargo.toml"));
    assert!(!cache.fallback_file_wanted("/ws/a/readme.md"));
    assert!(!cache.fallback_file_wanted("/ws/a/target/debug/x.rs"));
    assert!(!cache.fallback_file_wanted("/ws/a/.git/hooks/x.rs"));
    assert!(!cache.fallback_file_wanted("/ws/a/node_modules/x/y.toml"));
}

#[test]
fn test_lfs_pointer_detection() {
    let cache = mgr();
    let pointer = b"version https://git-lfs.github.com/spec/v1\noid sha256:4d7a21\nsize 12345\n"
        .to_vec();
    assert!(cache.is_lfs_file(&pointer, true));
    // without the extension the same bytes are hashed as an ordinary file
    assert!(!cache.is_lfs_file(&pointer, false));
    assert!(!cache.is_lfs_file(&b"ordinary contents".to_vec(), true));
    assert_eq!(cache.get_lfs_pointer_hash(&pointer), Some(b"4d7a21".to_vec()));
    assert_eq!(cache.get_lfs_pointer_hash(&b"no oid here".to_vec()), None);
}

#[test]
fn test_lfs_substitution_changes_hash() {
    let cache = mgr();
    let pointer = b"version https://git-lfs.github.com/spec/v1\noid sha256:4d7a21\nsize 12345\n"
        .to_vec();
    let mut with_lfs = observations();
    with_lfs.has_lfs = true;
    with_lfs.modified_files = vec![("/ws/a/big.bin".to_string(), pointer.clone())];
    let mut without_lfs = with_lfs.clone();
    without_lfs.has_lfs = false;
    assert_ne!(
        cache.compute_source_hash(&with_lfs),
        cache.compute_source_hash(&without_lfs)
    );
}

#[test]
fn test_parse_status_paths() {
    let cache = mgr();
    let status = " M src/lib.rs\n?? notes.txt\n\n";
    assert_eq!(
        cache.parse_status_paths(status),
        vec!["src/lib.rs".to_string(), "notes.txt".to_string()]
    );
}

#[test]
fn test_sparse_checkout_patterns() {
    let cache = mgr();
    let content = "src\n# a comment\n\n  docs  \n";
    assert_eq!(
        cache.get_sparse_checkout_patterns(content),
        vec!["src".to_string(), "docs".to_string()]
    );
}

fn log_lines() -> Vec<String> {
    vec![
        "   Compiling alpha v0.1.0".to_string(),
        "error[E0308]: mismatched types".to_string(),
        "warning: unused variable".to_string(),
        "error: aborting due to 1 previous error".to_string(),
        "    Finished dev profile".to_string(),
    ]
}

#[test]
fn test_query_head_and_tail() {
    let cache = mgr();
    let lines = log_lines();
    assert_eq!(
        cache.select_log_lines("head", Some("2"), &lines),
        lines[..2].to_vec()
    );
    assert_eq!(
        cache.select_log_lines("tail", Some("2"), &lines),
        lines[3..].to_vec()
    );
    // the default window is fifty lines
    assert_eq!(cache.select_log_lines("head", None, &lines), lines);
}

#[test]
fn test_query_errors_and_warnings() {
    let cache = mgr();
    let lines = log_lines();
    assert_eq!(
        cache.select_log_lines("errors", None, &lines),
        vec![lines[1].clone(), lines[3].clone()]
    );
    assert_eq!(
        cache.select_log_lines("error", None, &lines),
        vec![lines[1].clone(), lines[3].clone()]
    );
    assert_eq!(
        cache.select_log_lines("warnings", None, &lines),
        vec![lines[2].clone()]
    );
}

#[test]
fn test_query_grep_case_rules() {
    let cache = mgr();
    let lines = log_lines();
    // a fully lowercase pattern matches case-insensitively
    assert_eq!(
        cache.select_log_lines("grep", Some("compiling"), &lines),
        vec![lines[0].clone()]
    );
    // a pattern with an uppercase letter matches exactly
    assert!(cache.select_log_lines("grep", Some("COMPILING"), &lines).is_empty());
    assert_eq!(
        cache.select_log_lines("grep", Some("Compiling"), &lines),
        vec![lines[0].clone()]
    );
}

#[test]
fn test_query_range_and_all() {
    let cache = mgr();
    let lines = log_lines();
    assert_eq!(
        cache.select_log_lines("range", Some("1-3"), &lines),
        lines[1..3].to_vec()
    );
    assert_eq!(
        cache.select_log_lines("range", Some("1:3"), &lines),
        lines[1..3].to_vec()
    );
    assert_eq!(cache.select_log_lines("range", None, &lines), lines);
    assert_eq!(cache.select_log_lines("all", None, &lines), lines);
    assert!(cache.select_log_lines("nonsense", None, &lines).is_empty());
}

#[test]
fn test_choose_log_id_precedence() {
    let cache = mgr();
    let ids = vec!["newest".to_string(), "older".to_string(), "oldest".to_string()];
    assert_eq!(
        cache.choose_log_id(&Some("explicit".to_string()), &Some(2), &ids),
        Some("explicit".to_string())
    );
    assert_eq!(cache.choose_log_id(&None, &Some(2), &ids), Some("older".to_string()));
    assert_eq!(cache.choose_log_id(&None, &Some(9), &ids), Some("oldest".to_string()));
    assert_eq!(cache.choose_log_id(&None, &None, &ids), Some("newest".to_string()));
    let empty: Vec<String> = vec![];
    assert_eq!(cache.choose_log_id(&None, &None, &empty), None);
}
