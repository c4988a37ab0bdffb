use cargo_save::manager::CacheManager;

fn mgr() -> CacheManager {
    CacheManager::new("cache-base")
}

fn args(list: &[&str]) -> Vec<String> {
    list.iter().map(|s| s.to_string()).collect()
}

#[test]
fn test_is_release_build() {
    let cache = mgr();

    assert!(cache.is_release_build(&args(&["--release"])));
    assert!(!cache.is_release_build(&args(&["--debug"])));
    assert!(!cache.is_release_build(&args(&[])));
}

#[test]
fn integration_tests_test_is_release_build() {
    let cache = mgr();
    assert!(cache.is_release_build(&args(&["--release"])));
    assert!(!cache.is_release_build(&args(&["--debug"])));
    assert!(!cache.is_release_build(&args(&[])));
    assert!(!cache.is_release_build(&args(&["--features", "test"])));
}

#[test]
fn test_release_prefix_argument_counts() {
    let cache = mgr();
    assert!(cache.is_release_build(&args(&["--release=true"])));
}

#[test]
fn test_get_target_dir_from_args() {
    let cache = mgr();
    let none: Option<String> = None;
    assert_eq!(
        cache.get_target_dir(&args(&["--target-dir", "/custom/target"]), &none),
        Some("/custom/target".to_string())
    );
    assert_eq!(
        cache.get_target_dir(&args(&["--target-dir=/custom/target"]), &none),
        Some("/custom/target".to_string())
    );
    assert_eq!(cache.get_target_dir(&args(&[]), &none), None);
}

#[test]
fn test_get_target_dir_from_env() {
    let cache = mgr();
    let env = Some("/env/target".to_string());
    assert_eq!(cache.get_target_dir(&args(&[]), &env), Some("/env/target".to_string()));
    // an argument wins over the environment
    assert_eq!(
        cache.get_target_dir(&args(&["--target-dir", "/custom/target"]), &env),
        Some("/custom/target".to_string())
    );
}

#[test]
fn test_bypass_and_cacheable_subcommands() {
    let cache = mgr();
    for sub in ["clean", "update", "new", "init"] {
        assert!(cache.is_bypass_subcommand(sub));
    }
    assert!(!cache.is_bypass_subcommand("build"));
    for sub in ["build", "check", "clippy", "test"] {
        assert!(cache.is_cacheable_subcommand(sub));
    }
    assert!(!cache.is_cacheable_subcommand("doc"));
}

#[test]
fn test_fast_path_skip_decision() {
    let cache = mgr();
    assert!(cache.should_skip_build("build", 0));
    assert!(cache.should_skip_build("test", 0));
    assert!(!cache.should_skip_build("build", 1));
    assert!(!cache.should_skip_build("clean", 0));
}

#[test]
fn test_records_written_only_on_success() {
    let cache = mgr();
    // successful child: records for the changed set
    assert!(cache.should_write_package_records(&Some(0), "build"));
    // failed child: no records
    assert!(!cache.should_write_package_records(&Some(101), "build"));
    // killed child (no exit code): same as a failure
    assert!(!cache.should_write_package_records(&None, "build"));
    // bypass subcommand: no records even on success
    assert!(!cache.should_write_package_records(&Some(0), "clean"));
}

#[test]
fn test_progress_annotation() {
    let cache = mgr();
    assert!(cache.line_is_compile_progress("   Compiling alpha v0.1.0"));
    assert!(cache.line_is_compile_progress("Building [=>   ] 1/2   "));
    assert!(!cache.line_is_compile_progress("warning: unused variable"));
    assert_eq!(cache.progress_suffix(2, 5), " [2/5]");
    assert_eq!(
        cache.annotate_progress_line("   Compiling alpha v0.1.0", 12, 30),
        "   Compiling alpha v0.1.0 [12/30]"
    );
}

#[test]
fn test_generate_cache_id_shape() {
    let cache = mgr();
    let id = cache.generate_cache_id("20240101_120000", "build", &args(&[]), &None);
    let hash = cache.compute_command_hash("build", &args(&[]), &None);
    assert_eq!(id, format!("20240101_120000-{}", &hash[..8]));
}

#[test]
fn test_apportion_duration() {
    let cache = mgr();
    assert_eq!(cache.apportion_duration(100, 4), 25);
    assert_eq!(cache.apportion_duration(100, 3), 33);
    assert_eq!(cache.apportion_duration(100, 0), 100);
}

#[test]
fn test_cache_clean_keep() {
    let cache = mgr();
    let entries: Vec<(String, u64)> = (0..5)
        .map(|i| (format!("test{}.log", i), 100 + i as u64))
        .collect();
    let removed = cache.prune_keep_last(&entries, 2);
    // three oldest go, at most two remain
    assert_eq!(removed.len(), 3);
    assert!(entries.len() - removed.len() <= 2);
    let mut removed_sorted = removed.clone();
    removed_sorted.sort();
    assert_eq!(removed_sorted, vec![0, 1, 2]);
}

#[test]
fn test_prune_keep_last_when_few_entries() {
    let cache = mgr();
    let entries = vec![("a.log".to_string(), 5u64)];
    assert!(cache.prune_keep_last(&entries, 3).is_empty());
}

#[test]
fn test_prune_older_than_cutoff() {
    let cache = mgr();
    let entries = vec![
        ("old.log".to_string(), 10u64),
        ("new.log".to_string(), 100u64),
        ("older.log".to_string(), 5u64),
    ];
    assert_eq!(cache.prune_older_than(&entries, 50), vec![0, 2]);
    assert!(cache.prune_older_than(&entries, 1).is_empty());
}

#[test]
fn test_cutoff_time() {
    let cache = mgr();
    assert_eq!(cache.cutoff_time(1_000_000, 7), 1_000_000 - 7 * 86400);
    assert_eq!(cache.cutoff_time(100, 7), 0);
}

#[test]
fn test_invalidate_by_package_names() {
    let cache = mgr();
    let filenames = vec![
        "foo-abc123.json".to_string(),
        "foobar-def.json".to_string(),
        "bar-ghi.json".to_string(),
        "foo-zzz.json".to_string(),
    ];
    let removed = cache.invalidate_by_package_names(&filenames, &vec!["foo".to_string()]);
    // exactly the records filed under foo-*; foobar-* survives
    assert_eq!(removed, vec![0, 3]);
    for (i, name) in filenames.iter().enumerate() {
        if !removed.contains(&i) {
            assert!(!name.starts_with("foo-"));
        }
    }
}

#[test]
fn test_truncate_command() {
    let cache = mgr();
    assert_eq!(cache.truncate_command("cargo build"), "cargo build");
    let long = "cargo build --release --features everything";
    let short = cache.truncate_command(long);
    assert_eq!(short, format!("{}...", &long[..27]));
}

#[test]
fn test_is_worktree_git_dir() {
    let cache = mgr();
    assert!(!cache.is_worktree_git_dir("/repo/.git"));
    assert!(cache.is_worktree_git_dir("/repo/.git/worktrees/feature"));
}
