use realm_agent::digest::{decode_base64, hex_encode, sha256_hex};
use realm_agent::storage::{ContentStore, IndexEntry, IndexFile};

const HELLO: &str = "2cf24dba5fb0a30e26e83b2ac5b9e29e1b161e5c1fa7425e73043362938b9824";
const ABC: &str = "ba7816bf8f01cfea414140de5dae2223b00361a396177a9cb410ff61f20015ad";

#[test]
fn sha256_known_vectors() {
    assert_eq!(sha256_hex(b"abc"), ABC);
    assert_eq!(sha256_hex(b"hello"), HELLO);
    assert_eq!(
        sha256_hex(b""),
        "e3b0c44298fc1c149afbf4c8996fb92427ae41e4649b934ca495991b7852b855"
    );
}

#[test]
fn hex_and_base64() {
    assert_eq!(hex_encode(&[0x00, 0x0f, 0xa0, 0xff]), "000fa0ff");
    assert_eq!(decode_base64("aGVsbG8="), Ok(b"hello".to_vec()));
    assert_eq!(decode_base64(""), Ok(Vec::new()));
    assert!(decode_base64("not base64!").is_err());
}

#[test]
fn blob_paths_fan_out() {
    let store = ContentStore::open("/var/lib/realm", IndexFile::new());
    assert_eq!(store.base_dir, "/var/lib/realm/artifacts/blobs/sha256");
    assert_eq!(store.index_path, "/var/lib/realm/artifacts/index.json");
    assert_eq!(
        store.path_for_digest(ABC),
        format!("/var/lib/realm/artifacts/blobs/sha256/ba/78/{}", ABC)
    );
}

#[test]
fn put_then_list_and_get() {
    let mut store = ContentStore::open("/d", IndexFile::new());
    let (digest, path) = store.put_bytes(b"hello", 100);
    assert_eq!(digest, HELLO);
    assert_eq!(path, format!("/d/artifacts/blobs/sha256/2c/f2/{}", HELLO));
    let (d2, _) = store.put_bytes(b"abc", 50);
    assert_eq!(d2, ABC);
    assert_eq!(store.total_size_bytes(), 8);

    // listed in digest order, as the index file keeps them
    let listed = store.list();
    assert_eq!(listed.len(), 2);
    assert_eq!(listed[0].0, HELLO);
    assert_eq!(listed[0].1, IndexEntry { size_bytes: 5, last_accessed_unix: 100, pinned: false });
    assert_eq!(listed[1].0, ABC);

    // an access is recorded only when the blob file exists
    assert_eq!(store.get_path(ABC, false, 300), None);
    assert_eq!(store.list()[1].1.last_accessed_unix, 50);
    assert!(store.get_path(ABC, true, 300).is_some());
    assert_eq!(store.list()[1].1.last_accessed_unix, 300);

    // storing the same bytes again keeps one record and its pin
    store.pin(HELLO, true).unwrap();
    store.put_bytes(b"hello", 400);
    let listed = store.list();
    assert_eq!(listed.len(), 2);
    assert_eq!(listed[0].1, IndexEntry { size_bytes: 5, last_accessed_unix: 400, pinned: true });
}

#[test]
fn pin_unknown_digest() {
    let mut store = ContentStore::open("/d", IndexFile::new());
    assert_eq!(store.pin("ffff", true), Err("digest not found".to_string()));
}

#[test]
fn gc_removes_least_recently_used_first() {
    let mut idx = IndexFile::new();
    idx.record_put("aaaa01", 10, 5);
    idx.record_put("bbbb02", 20, 1);
    idx.record_put("cccc03", 30, 3);
    idx.record_put("dddd04", 40, 2);
    idx.pin("bbbb02", true).unwrap();
    assert_eq!(idx.total_size_bytes(), 100);
    let removed = idx.gc_to_target(50);
    // bbbb02 is the oldest but pinned; dddd04 (2) goes, then cccc03 (3)
    assert_eq!(removed, vec!["dddd04".to_string(), "cccc03".to_string()]);
    assert_eq!(idx.total_size_bytes(), 30);
    let left: Vec<String> = idx.list().into_iter().map(|(d, _)| d).collect();
    assert_eq!(left, vec!["aaaa01".to_string(), "bbbb02".to_string()]);
}

#[test]
fn gc_stops_when_only_pinned_remain() {
    let mut store = ContentStore::open("/d", IndexFile::new());
    store.put_bytes(b"abc", 1);
    store.put_bytes(b"hello", 2);
    store.pin(ABC, true).unwrap();
    let paths = store.gc_to_target(0);
    assert_eq!(paths, vec![format!("/d/artifacts/blobs/sha256/2c/f2/{}", HELLO)]);
    assert_eq!(store.total_size_bytes(), 3);
    assert!(store.gc_to_target(0).is_empty());
}

#[test]
fn gc_ties_go_in_digest_order() {
    let mut idx = IndexFile::new();
    idx.record_put("ffff", 1, 7);
    idx.record_put("0000", 1, 7);
    let removed = idx.gc_to_target(1);
    assert_eq!(removed, vec!["0000".to_string()]);
}

#[test]
fn index_restored_entry_by_entry() {
    let mut idx = IndexFile::new();
    idx.set_entry("beef", IndexEntry { size_bytes: 3, last_accessed_unix: 9, pinned: true });
    idx.set_entry("abba", IndexEntry { size_bytes: 1, last_accessed_unix: 2, pinned: false });
    let listed = idx.list();
    assert_eq!(listed[0].0, "abba");
    assert_eq!(listed[1].1, IndexEntry { size_bytes: 3, last_accessed_unix: 9, pinned: true });
    assert!(idx.touch("abba", 11));
    assert!(!idx.touch("cafe", 11));
    assert_eq!(idx.list()[0].1.last_accessed_unix, 11);
}
