//! Identifiers, hashes and timestamps.

use sakur4_core::ids::{
    content_hash, digest, id_with, new_id, normalize_rel_path, now_rfc3339, parse_rfc3339,
    short_hash, short_hash_str, short_hex, uuid_v7,
};

#[test]
fn ids_are_prefixed_and_sort_by_time() {
    let a = new_id("ep");
    let start = std::time::Instant::now();
    while start.elapsed() < std::time::Duration::from_millis(2) {}
    let b = new_id("ep");
    assert!(a.starts_with("ep_"));
    assert!(a < b, "uuidv7 ids must be time-ordered");
}

#[test]
fn hashes_are_stable_and_short() {
    assert_eq!(short_hash_str("abc"), short_hash_str("abc"));
    assert_ne!(short_hash_str("abc"), short_hash_str("abd"));
    assert_eq!(short_hash_str("abc").len(), 16);
    assert_eq!(content_hash(b"abc").len(), 64);
}

#[test]
fn rel_paths_use_forward_slashes() {
    let p = std::path::Path::new("src").join("nested").join("mod.rs");
    assert_eq!(normalize_rel_path(&p.to_string_lossy()), "src/nested/mod.rs");
}

#[test]
fn hashes_are_those_of_blake3() {
    // The digest of the empty input is a published test vector.
    let empty = "af1349b9f5f9a1a6a0404dea36dcc9499bcb25c9adc112b7cc9a93cae41f3262";
    assert_eq!(content_hash(b""), empty);
    assert_eq!(short_hash(b""), "af1349b9f5f9a1a6");
    assert_eq!(short_hash_str(""), "af1349b9f5f9a1a6");
    assert_eq!(digest(b"")[0], 0xaf);
    assert_eq!(short_hex(digest(b"")), "af1349b9f5f9a1a6");
}

#[test]
fn ids_and_uuids_have_their_shapes() {
    assert_eq!(id_with("ep", "x"), "ep_x");
    let id = new_id("sym");
    assert_eq!(id.len(), 36);
    assert!(id[4..].chars().all(|c| c.is_ascii_hexdigit() && !c.is_ascii_uppercase()));
    let u = uuid_v7();
    assert_eq!(u.len(), 36);
    assert_eq!(u.as_bytes()[8], b'-');
    assert_eq!(u.as_bytes()[14], b'7');
    assert_ne!(u, uuid_v7());
}

#[test]
fn instants_are_read_in_utc() {
    let a = parse_rfc3339("1970-01-01T00:00:01Z").unwrap();
    assert_eq!((a.secs, a.nanos), (1, 0));
    let b = parse_rfc3339("1970-01-01T01:00:00.500+01:00").unwrap();
    assert_eq!((b.secs, b.nanos), (0, 500_000_000));
    assert!(a.after(b));
    assert!(!b.after(a));
    assert!(parse_rfc3339("yesterday").is_none());
    assert!(parse_rfc3339(&now_rfc3339()).is_some());
}

#[test]
fn normalizing_a_path_twice_changes_nothing() {
    assert_eq!(normalize_rel_path("./src/./a.rs"), "src/a.rs");
    for p in ["src/a.rs", "/abs/b", "a//b/./c/", "../up", ""] {
        let once = normalize_rel_path(p);
        assert_eq!(normalize_rel_path(&once), once);
    }
}
