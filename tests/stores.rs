use sccache_dist::client::{packaged_archive_path, weak_toolchain_key, DistError, SccacheDaemonClient, DEFAULT_IMAGE};
use sccache_dist::key::content_id;
use sccache_dist::store::{StoreError, TcCache};

#[test]
fn store_first_write_wins() {
    let mut store = TcCache::new();
    assert!(!store.contains_key("k"));
    assert_eq!(store.get("k"), Err(StoreError::NotInCache));
    assert!(store.insert_with("k", || b"first".to_vec()));
    assert!(store.contains_key("k"));
    assert_eq!(store.get("k"), Ok(b"first".to_vec()));
    let mut called = false;
    assert!(!store.insert_with("k", || {
        called = true;
        b"second".to_vec()
    }));
    assert!(!called);
    assert_eq!(store.get("k"), Ok(b"first".to_vec()));
}

#[test]
fn store_keys_are_independent() {
    let mut store = TcCache::new();
    assert!(store.insert("a", b"1".to_vec()));
    assert!(store.insert("b", b"2".to_vec()));
    assert!(!store.insert("a", b"3".to_vec()));
    assert_eq!(store.get("a"), Ok(b"1".to_vec()));
    assert_eq!(store.get("b"), Ok(b"2".to_vec()));
}

#[test]
fn weak_key_shape() {
    assert_eq!(weak_toolchain_key("/usr/bin/cc", "abcd"), "/usr/bin/cc-abcd");
}

#[test]
fn put_toolchain_packages_once() {
    let mut client = SccacheDaemonClient::new();
    let archive = b"toolchain archive".to_vec();
    let strong = client.put_toolchain_cache("/usr/bin/cc-abcd", || Some(archive.clone())).unwrap();
    assert_eq!(strong, content_id(&archive));
    assert_eq!(client.weak_to_strong("/usr/bin/cc-abcd"), Some(strong.clone()));
    assert_eq!(client.get_toolchain_cache(&strong), Ok(archive.clone()));
    let mut called = false;
    let again = client
        .put_toolchain_cache("/usr/bin/cc-abcd", || {
            called = true;
            Some(b"other".to_vec())
        })
        .unwrap();
    assert!(!called);
    assert_eq!(again, strong);
}

#[test]
fn weak_map_round_trips_through_entries() {
    let client = SccacheDaemonClient::from_weak_entries(vec![
        ("w1".to_string(), "s1".to_string()),
        ("w2".to_string(), "s2".to_string()),
        ("w1".to_string(), "s3".to_string()),
    ]);
    assert_eq!(client.weak_to_strong("w1"), Some("s3".to_string()));
    assert_eq!(client.weak_to_strong("w2"), Some("s2".to_string()));
    assert_eq!(client.weak_to_strong("w3"), None);
    let copy = SccacheDaemonClient::from_weak_entries(client.weak_entries());
    assert_eq!(copy.weak_to_strong("w1"), Some("s3".to_string()));
    assert_eq!(copy.weak_to_strong("w2"), Some("s2".to_string()));
    assert_eq!(client.get_toolchain_cache("s1"), Err(StoreError::NotInCache));
}

#[test]
fn failed_packaging_changes_nothing() {
    let mut client = SccacheDaemonClient::new();
    assert_eq!(client.put_toolchain_cache("w", || None), Err(DistError::ToolchainPackaging));
    assert_eq!(client.weak_to_strong("w"), None);
    assert!(client.weak_entries().is_empty());
    let t = client.resolve_toolchain("w", || None);
    assert!(t.is_err());
}

#[test]
fn resolved_toolchain_uses_the_strong_key() {
    let mut client = SccacheDaemonClient::new();
    let t = client.resolve_toolchain("w", || Some(b"tc".to_vec())).unwrap();
    assert_eq!(t.docker_img, "aidanhs/busybox");
    assert_eq!(DEFAULT_IMAGE, "aidanhs/busybox");
    assert_eq!(t.archive_id, content_id(b"tc"));
    let again = client.resolve_toolchain("w", || panic!("packaged twice")).unwrap();
    assert_eq!(again, t);
}

#[test]
fn packager_output_names_the_archive() {
    let out = b"adding /usr/bin/cc\ncreating abc123.tar.gz\ncreating other\n";
    assert_eq!(packaged_archive_path(out), Some(b"abc123.tar.gz".to_vec()));
    assert_eq!(packaged_archive_path(b"nothing here\n"), None);
    assert_eq!(packaged_archive_path(b""), None);
}
