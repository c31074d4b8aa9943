use sccache_dist::key::{cached_env_vars, content_id, hash_key, hex_encode, is_cached_env_var, Language};

fn ovec(items: &[&str]) -> Vec<Vec<u8>> {
    items.iter().map(|s| s.as_bytes().to_vec()).collect()
}

const PREPROCESSED: &[u8] = b"hello world";

#[test]
fn test_hash_key_executable_contents_differs() {
    let args = ovec(&["a", "b", "c"]);
    assert_ne!(
        hash_key("abcd", Language::C, &args, &[], PREPROCESSED),
        hash_key("wxyz", Language::C, &args, &[], PREPROCESSED)
    );
}

#[test]
fn test_hash_key_args_differs() {
    let digest = "abcd";
    let abc = ovec(&["a", "b", "c"]);
    let xyz = ovec(&["x", "y", "z"]);
    let ab = ovec(&["a", "b"]);
    let a = ovec(&["a"]);
    assert_ne!(
        hash_key(digest, Language::C, &abc, &[], PREPROCESSED),
        hash_key(digest, Language::C, &xyz, &[], PREPROCESSED)
    );
    assert_ne!(
        hash_key(digest, Language::C, &abc, &[], PREPROCESSED),
        hash_key(digest, Language::C, &ab, &[], PREPROCESSED)
    );
    assert_ne!(
        hash_key(digest, Language::C, &abc, &[], PREPROCESSED),
        hash_key(digest, Language::C, &a, &[], PREPROCESSED)
    );
}

#[test]
fn test_hash_key_preprocessed_content_differs() {
    let args = ovec(&["a", "b", "c"]);
    assert_ne!(
        hash_key("abcd", Language::C, &args, &[], &b"hello world"[..]),
        hash_key("abcd", Language::C, &args, &[], &b"goodbye"[..])
    );
}

#[test]
fn test_hash_key_env_var_differs() {
    let args = ovec(&["a", "b", "c"]);
    let digest = "abcd";
    for var in cached_env_vars().iter() {
        let h1 = hash_key(digest, Language::C, &args, &[], PREPROCESSED);
        let vars = vec![(var.clone(), b"something".to_vec())];
        let h2 = hash_key(digest, Language::C, &args, &vars, PREPROCESSED);
        let vars = vec![(var.clone(), b"something else".to_vec())];
        let h3 = hash_key(digest, Language::C, &args, &vars, PREPROCESSED);
        assert_ne!(h1, h2);
        assert_ne!(h2, h3);
    }
}

#[test]
fn hash_key_is_deterministic() {
    let args = ovec(&["-c", "foo.c"]);
    let env = vec![(b"MACOSX_DEPLOYMENT_TARGET".to_vec(), b"10.9".to_vec())];
    let k1 = hash_key("abcd", Language::Cxx, &args, &env, PREPROCESSED);
    let k2 = hash_key("abcd", Language::Cxx, &args, &env, PREPROCESSED);
    assert_eq!(k1, k2);
    assert_eq!(k1.len(), 128);
    assert!(k1.bytes().all(|b| b.is_ascii_digit() || (b'a'..=b'f').contains(&b)));
}

#[test]
fn hash_key_language_differs() {
    let args = ovec(&["a"]);
    let c = hash_key("abcd", Language::C, &args, &[], PREPROCESSED);
    let cxx = hash_key("abcd", Language::Cxx, &args, &[], PREPROCESSED);
    let objc = hash_key("abcd", Language::ObjectiveC, &args, &[], PREPROCESSED);
    assert_ne!(c, cxx);
    assert_ne!(c, objc);
    assert_ne!(cxx, objc);
}

#[test]
fn unlisted_env_var_leaves_key_unchanged() {
    let args = ovec(&["a", "b", "c"]);
    let plain = hash_key("abcd", Language::C, &args, &[], PREPROCESSED);
    let vars = vec![(b"PATH".to_vec(), b"/usr/bin".to_vec())];
    assert_eq!(plain, hash_key("abcd", Language::C, &args, &vars, PREPROCESSED));
    let other = vec![(b"PATH".to_vec(), b"/bin".to_vec())];
    assert_eq!(
        hash_key("abcd", Language::C, &args, &vars, PREPROCESSED),
        hash_key("abcd", Language::C, &args, &other, PREPROCESSED)
    );
}

#[test]
fn deployment_target_changes_key() {
    let args = ovec(&["a"]);
    let v1 = vec![(b"MACOSX_DEPLOYMENT_TARGET".to_vec(), b"10.9".to_vec())];
    let v2 = vec![(b"MACOSX_DEPLOYMENT_TARGET".to_vec(), b"10.10".to_vec())];
    assert_ne!(
        hash_key("abcd", Language::C, &args, &v1, PREPROCESSED),
        hash_key("abcd", Language::C, &args, &v2, PREPROCESSED)
    );
}

#[test]
fn same_inputs_from_different_include_paths_share_a_key() {
    // Two compiles that preprocess to the same bytes with the same arguments.
    let args = ovec(&["-c", "x.c", "-o", "x.o"]);
    let first = hash_key("abcd", Language::C, &args, &[], b"int x;\n");
    let second = hash_key("abcd", Language::C, &args, &[], b"int x;\n");
    assert_eq!(first, second);
}

#[test]
fn keyed_env_var_names() {
    assert!(is_cached_env_var(b"MACOSX_DEPLOYMENT_TARGET"));
    assert!(is_cached_env_var(b"IPHONEOS_DEPLOYMENT_TARGET"));
    assert!(!is_cached_env_var(b"PATH"));
    assert_eq!(cached_env_vars().len(), 2);
}

#[test]
fn hex_encoding_of_known_bytes() {
    assert_eq!(hex_encode(&[0x00, 0x0f, 0xa5, 0xff]), b"000fa5ff".to_vec());
    assert_eq!(hex_encode(&[]), Vec::<u8>::new());
}

#[test]
fn content_id_of_empty_input() {
    assert_eq!(
        content_id(b""),
        "cf83e1357eefb8bdf1542850d66d8007d620e4050b5715dc83f4a921d36ce9ce47d0d13c5d85f2b0ff8318d2877eec2f63b931bd47417a81a538327af927da3e"
    );
}

#[test]
fn language_names_and_extensions() {
    assert_eq!(Language::C.as_str(), "c");
    assert_eq!(Language::Cxx.as_str(), "c++");
    assert_eq!(Language::ObjectiveC.as_str(), "objc");
    assert_eq!(Language::ObjectiveCxx.as_str(), "objc++");
    assert_eq!(Language::from_file_name(b"foo.c"), Some(Language::C));
    assert_eq!(Language::from_file_name(b"dir/foo.cc"), Some(Language::Cxx));
    assert_eq!(Language::from_file_name(b"/a.b/foo.cpp"), Some(Language::Cxx));
    assert_eq!(Language::from_file_name(b"foo.cxx"), Some(Language::Cxx));
    assert_eq!(Language::from_file_name(b"foo.m"), Some(Language::ObjectiveC));
    assert_eq!(Language::from_file_name(b"foo.mm"), Some(Language::ObjectiveCxx));
    assert_eq!(Language::from_file_name(b"foo.h"), None);
    assert_eq!(Language::from_file_name(b".c"), None);
    assert_eq!(Language::from_file_name(b"a.c/foo"), None);
    assert_eq!(Language::from_file_name(b"."), None);
    assert_eq!(Language::from_file_name(b"foo"), None);
}

#[test]
fn hash_key_exact_values() {
    assert_eq!(
        hash_key("abcd", Language::C, &ovec(&["a", "b", "c"]), &[], PREPROCESSED),
        "65acb7d0539a7604abdfae99ab3f4f8b003a495005a8f6ea3ed7a7d25011905f885a84f50b3215e1335d1b5b0dd5eded6601d9fdfa1fb2e83d378a06d5fea39a"
    );
    let env = vec![
        (b"PATH".to_vec(), b"/bin".to_vec()),
        (b"MACOSX_DEPLOYMENT_TARGET".to_vec(), b"10.9".to_vec()),
    ];
    assert_eq!(
        hash_key("abcd", Language::Cxx, &ovec(&["-O2"]), &env, b"int x;"),
        "ab69498b571afe07f7621514f2ec09ea0c612b9a146461b8f57c071691e25062d91fd316e39a6d47c167a24fc9c4424e7eba679718c916ea561e6094e6663986"
    );
}

#[test]
fn file_name_ignores_trailing_separators() {
    assert_eq!(Language::from_file_name(b"foo.c/"), Some(Language::C));
    assert_eq!(Language::from_file_name(b"dir/foo.cpp//"), Some(Language::Cxx));
    assert_eq!(Language::from_file_name(b"foo.m/."), Some(Language::ObjectiveC));
    assert_eq!(Language::from_file_name(b"foo.mm/./"), Some(Language::ObjectiveCxx));
    assert_eq!(Language::from_file_name(b"/"), None);
    assert_eq!(Language::from_file_name(b"foo.c/.."), None);
}
