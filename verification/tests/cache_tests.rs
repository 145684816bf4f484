use mermaid_preview::cache::CacheError;
use mermaid_preview::cache::ContentHash;
use mermaid_preview::cache::DiagramCache;

#[test]
fn test_content_hash_generation() {
    let source1 = "graph TD\n    A --> B";
    let source2 = "graph TD\n    A --> B";
    let source3 = "graph TD\n    C --> D";

    let hash1 = ContentHash::from_source(source1);
    let hash2 = ContentHash::from_source(source2);
    let hash3 = ContentHash::from_source(source3);

    // Same content should produce same hash
    assert_eq!(hash1, hash2);

    // Different content should produce different hash
    assert_ne!(hash1, hash3);

    // Hash should be 64 hex characters
    assert_eq!(hash1.as_str().len(), 64);
    assert!(hash1.as_str().chars().all(|c| c.is_ascii_hexdigit()));
}

#[test]
fn test_hash_validation() {
    let valid = ContentHash("a".repeat(64));
    assert!(valid.validate().is_ok());

    let invalid_length = ContentHash("abc".to_string());
    assert!(invalid_length.validate().is_err());

    let invalid_chars = ContentHash("g".repeat(64));
    assert!(invalid_chars.validate().is_err());
}

#[test]
fn test_path_traversal_prevention() {
    let temp_dir = tempfile::TempDir::new().unwrap();
    let cache = DiagramCache::new(temp_dir.path().to_string_lossy().into_owned());

    // Attempt path traversal
    let malicious_hash = ContentHash("../../../etc/passwd".to_string());
    assert!(cache.get_path(&malicious_hash).is_err());
}

#[test]
fn code_hash_deterministic() {
    let code = "graph TD\n  A --> B";
    assert_eq!(ContentHash::from_source(code), ContentHash::from_source(code));
}

#[test]
fn code_hash_different_for_different_code() {
    assert_ne!(
        ContentHash::from_source("graph TD"),
        ContentHash::from_source("graph LR")
    );
}

#[test]
fn from_source_always_validates() {
    for source in ["graph TD", "", "pie title Pets", "\u{2028} exotic"] {
        let hash = ContentHash::from_source(source);
        assert!(hash.validate().is_ok());
        assert!(hash.as_str().chars().all(|c| matches!(c, '0'..='9' | 'a'..='f')));
    }
}

#[test]
fn get_path_joins_under_root() {
    let cache = DiagramCache::new("/tmp/cache-root".to_string());
    let hash = ContentHash("ab".repeat(32));
    let path = cache.get_path(&hash).unwrap();
    assert_eq!(path, format!("/tmp/cache-root/{}.svg", "ab".repeat(32)));
    assert!(path.starts_with(cache.cache_dir()));
}

#[test]
fn invalid_path_error_is_reported_before_any_lookup() {
    // A digest of the right shape but the wrong alphabet must be refused
    // with an invalid-path error.
    let cache = DiagramCache::new("anywhere".to_string());
    let bad = ContentHash("g".repeat(64));
    match cache.get_path(&bad) {
        Err(CacheError::InvalidPath(msg)) => {
            assert_eq!(msg, "Hash must only contain hex characters");
        }
        other => panic!("expected an invalid-path error, got {:?}", other),
    }
    let short = ContentHash("abc".to_string());
    match cache.get_path(&short) {
        Err(CacheError::InvalidPath(msg)) => {
            assert_eq!(msg, "Hash must be 64 characters");
        }
        other => panic!("expected an invalid-path error, got {:?}", other),
    }
}
