use cargo_save::hashing::hash_hex;
use cargo_save::hashing::hash_hex_short;
use cargo_save::hashing::hex_encode;
use cargo_save::manager::CacheManager;

fn mgr() -> CacheManager {
    CacheManager::new("cache-base")
}

fn args(list: &[&str]) -> Vec<String> {
    list.iter().map(|s| s.to_string()).collect()
}

#[test]
fn test_compute_features_hash() {
    let cache = mgr();

    let hash1 = cache.compute_features_hash(&args(&["--features", "feat1"]));
    let hash2 = cache.compute_features_hash(&args(&["--features=feat1"]));
    let hash3 = cache.compute_features_hash(&args(&["--features", "feat2"]));

    // Different features should produce different hashes
    assert_ne!(hash1, hash3);
    // Both syntaxes should produce the same hash
    assert_eq!(hash1, hash2);
}

#[test]
fn test_compute_command_hash() {
    let cache = mgr();

    let hash1 = cache.compute_command_hash("build", &args(&[]), &None);
    let hash2 = cache.compute_command_hash("build", &args(&[]), &None);
    let hash3 = cache.compute_command_hash("test", &args(&[]), &None);

    // Same command should produce same hash
    assert_eq!(hash1, hash2);
    // Different commands should produce different hashes
    assert_ne!(hash1, hash3);
}

#[test]
fn test_features_hash_consistency() {
    let cache = mgr();
    let a = args(&["--features", "feat1,feat2"]);
    assert_eq!(cache.compute_features_hash(&a), cache.compute_features_hash(&a));
}

#[test]
fn test_features_hash_different_features() {
    let cache = mgr();
    let h1 = cache.compute_features_hash(&args(&["--features", "feat1"]));
    let h2 = cache.compute_features_hash(&args(&["--features", "feat2"]));
    assert_ne!(h1, h2);
}

#[test]
fn test_features_hash_different_syntax() {
    let cache = mgr();
    let h1 = cache.compute_features_hash(&args(&["--features", "feat1"]));
    let h2 = cache.compute_features_hash(&args(&["--features=feat1"]));
    assert_eq!(h1, h2);
}

#[test]
fn test_command_hash_consistency() {
    let cache = mgr();
    let h1 = cache.compute_command_hash("build", &args(&[]), &Some("/ws".to_string()));
    let h2 = cache.compute_command_hash("build", &args(&[]), &Some("/ws".to_string()));
    assert_eq!(h1, h2);
}

#[test]
fn test_command_hash_different_commands() {
    let cache = mgr();
    let h1 = cache.compute_command_hash("build", &args(&[]), &Some("/ws".to_string()));
    let h2 = cache.compute_command_hash("test", &args(&[]), &Some("/ws".to_string()));
    assert_ne!(h1, h2);
}

#[test]
fn test_command_hash_is_short_form() {
    let cache = mgr();
    let h = cache.compute_command_hash("build", &args(&["--release"]), &None);
    assert_eq!(h.len(), 16);
}

#[test]
fn test_env_hash_consistency() {
    let cache = mgr();
    let env = vec![("RUSTFLAGS".to_string(), "-C opt-level=3".to_string())];
    assert_eq!(cache.compute_env_hash(&env), cache.compute_env_hash(&env));
}

#[test]
fn test_env_hash_changes_with_rustflags() {
    let cache = mgr();
    let with = vec![("RUSTFLAGS".to_string(), "-C opt-level=3".to_string())];
    let without: Vec<(String, String)> = vec![];
    assert_ne!(cache.compute_env_hash(&with), cache.compute_env_hash(&without));
}

#[test]
fn test_env_hash_ignores_unrelated_variable() {
    let cache = mgr();
    let with = vec![("SOME_UNRELATED_VARIABLE".to_string(), "on".to_string())];
    let without: Vec<(String, String)> = vec![];
    assert_eq!(cache.compute_env_hash(&with), cache.compute_env_hash(&without));
}

#[test]
fn test_env_hash_differs_per_listed_variable() {
    let cache = mgr();
    let base: Vec<(String, String)> = vec![];
    for name in cargo_save::fingerprint::env_vars_that_affect_build() {
        let env = vec![(name.clone(), "value".to_string())];
        assert_ne!(
            cache.compute_env_hash(&env),
            cache.compute_env_hash(&base),
            "setting {} must change the environment hash",
            name
        );
    }
}

#[test]
fn test_env_var_list_is_the_documented_one() {
    let names = cargo_save::fingerprint::env_vars_that_affect_build();
    assert_eq!(names.len(), 17);
    assert_eq!(names[0], "RUSTFLAGS");
    assert_eq!(names[16], "LINKER");
}

#[test]
fn test_lock_hash_without_lockfile() {
    let cache = mgr();
    let h = cache.compute_cargo_lock_hash(&None);
    assert_eq!(h, "no-lock-file");
}

#[test]
fn test_lock_hash_with_contents() {
    let cache = mgr();
    let h1 = cache.compute_cargo_lock_hash(&Some(b"[[package]]".to_vec()));
    let h2 = cache.compute_cargo_lock_hash(&Some(b"[[package]]".to_vec()));
    let h3 = cache.compute_cargo_lock_hash(&Some(b"other".to_vec()));
    assert_eq!(h1, h2);
    assert_ne!(h1, h3);
    assert_eq!(h1.len(), 64);
}

#[test]
fn test_toolchain_hash_deterministic() {
    let cache = mgr();
    let rustc = Some(b"rustc 1.70.0".to_vec());
    let cargo = Some(b"cargo 1.70.0".to_vec());
    assert_eq!(
        cache.compute_toolchain_hash(&rustc, &cargo),
        cache.compute_toolchain_hash(&rustc, &cargo)
    );
    assert_ne!(
        cache.compute_toolchain_hash(&rustc, &cargo),
        cache.compute_toolchain_hash(&None, &cargo)
    );
}

#[test]
fn test_hex_encode_exact() {
    assert_eq!(hex_encode(&vec![0x00u8, 0xff, 0x1a]), "00ff1a");
    assert_eq!(hex_encode(&vec![]), "");
}

#[test]
fn test_hash_hex_shape() {
    let h = hash_hex(&b"abc".to_vec());
    assert_eq!(h.len(), 64);
    assert!(h.chars().all(|c| c.is_ascii_hexdigit() && !c.is_ascii_uppercase()));
    let s = hash_hex_short(&b"abc".to_vec(), 16);
    assert_eq!(s, h[..16].to_string());
}

#[test]
fn test_hash_hex_deterministic_and_sensitive() {
    assert_eq!(hash_hex(&b"same".to_vec()), hash_hex(&b"same".to_vec()));
    assert_ne!(hash_hex(&b"one".to_vec()), hash_hex(&b"two".to_vec()));
}
