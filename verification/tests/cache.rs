use tokf::config::cache::{compute_mtimes, is_cache_valid, ResolvedManifest, CACHE_VERSION};

#[test]
fn stale_on_version_mismatch() {
    let manifest = ResolvedManifest {
        version: 0, // wrong version
        dir_mtimes: compute_mtimes(vec![], 7),
        filters: vec![],
    };
    assert!(!is_cache_valid(&manifest, &compute_mtimes(vec![], 7)));
}

#[test]
fn binary_sentinel_in_mtimes() {
    let mtimes = compute_mtimes(vec![], 7);
    assert!(mtimes.iter().any(|(k, _)| k == "<binary>"));
}

#[test]
fn valid_when_version_and_mtimes_agree() {
    let dirs = vec![("/a/filters".to_string(), 11u64), ("/b/filters".to_string(), 12u64)];
    let manifest = ResolvedManifest {
        version: CACHE_VERSION,
        dir_mtimes: compute_mtimes(dirs.clone(), 7),
        filters: vec![],
    };
    assert_eq!(
        manifest.dir_mtimes,
        vec![
            ("/a/filters".to_string(), 11u64),
            ("/b/filters".to_string(), 12u64),
            ("<binary>".to_string(), 7u64)
        ]
    );
    assert!(is_cache_valid(&manifest, &compute_mtimes(dirs, 7)));
}

#[test]
fn stale_when_a_time_stamp_differs() {
    let manifest = ResolvedManifest {
        version: CACHE_VERSION,
        dir_mtimes: compute_mtimes(vec![("/a".to_string(), 11)], 7),
        filters: vec![],
    };
    assert!(!is_cache_valid(&manifest, &compute_mtimes(vec![("/a".to_string(), 12)], 7)));
    assert!(!is_cache_valid(&manifest, &compute_mtimes(vec![("/b".to_string(), 11)], 7)));
    assert!(!is_cache_valid(&manifest, &compute_mtimes(vec![("/a".to_string(), 11)], 8)));
    assert!(!is_cache_valid(&manifest, &compute_mtimes(vec![], 7)));
}
