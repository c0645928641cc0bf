//! Locations, private directories and file stems.

use kctx::paths::{
    ancestors, cache_dir, check_private_dir, check_shared_ancestor, deepest_existing_ancestor,
    encode_file_stem, ensure_private_dir, file_name, fnv1a64, home_dir, is_absolute, join_path,
    overlay_dir, same_path, shorten_home, EntryFacts, PrivateDirPlan, MAX_STEM_LEN,
};

fn text(s: &str) -> Option<String> {
    Some(s.to_string())
}

fn directory(mode: u32) -> EntryFacts {
    EntryFacts {
        is_dir: true,
        is_symlink: false,
        mode,
    }
}

#[test]
fn encodes_plain_names_verbatim() {
    assert_eq!(encode_file_stem("production-eu"), "production-eu");
    assert_eq!(encode_file_stem("kind-kind.1"), "kind-kind.1");
}

#[test]
fn escapes_path_and_shell_relevant_characters() {
    assert_eq!(encode_file_stem("a/b"), "a_2fb");
    assert_eq!(encode_file_stem("a b"), "a_20b");
    assert_eq!(encode_file_stem("a_b"), "a_5fb");
    assert_eq!(encode_file_stem(".."), "_2e.");
    assert_eq!(encode_file_stem("."), "_2e");
}

#[test]
fn encoding_is_injective_for_look_alike_names() {
    // Without escaping `_` these three would collide.
    let a = encode_file_stem("a/b");
    let b = encode_file_stem("a_2fb");
    let c = encode_file_stem("a b");
    assert_ne!(a, b);
    assert_ne!(a, c);
    assert_ne!(b, c);
}

#[test]
fn escapes_multibyte_characters_bytewise() {
    // Two different unicode names must not collide and must stay ASCII on disk.
    let one = encode_file_stem("clüster");
    let two = encode_file_stem("cluster");
    assert!(one.is_ascii());
    assert_ne!(one, two);
}

#[test]
fn truncates_overlong_names_with_a_stable_hash() {
    let long = "x".repeat(500);
    let encoded = encode_file_stem(&long);
    assert!(
        encoded.len() <= MAX_STEM_LEN + 17,
        "got {} bytes",
        encoded.len()
    );
    assert_eq!(encoded, encode_file_stem(&long), "must be deterministic");

    let other = format!("{}y", "x".repeat(499));
    assert_ne!(encoded, encode_file_stem(&other), "hash must disambiguate");
}

#[test]
fn truncation_never_splits_an_escape_sequence() {
    let long = " ".repeat(500);
    let encoded = encode_file_stem(&long);
    let stem = encoded.split('-').next().unwrap();
    assert_eq!(
        stem.len() % 3,
        0,
        "escape sequences are three bytes each: {stem}"
    );
}

#[test]
fn the_empty_name_has_a_stem() {
    assert_eq!(encode_file_stem(""), "_empty");
    assert_ne!(encode_file_stem("_empty"), "_empty");
}

#[test]
fn names_just_short_enough_are_written_in_full() {
    let fits = "x".repeat(180);
    assert_eq!(encode_file_stem(&fits), fits);
    let over = "x".repeat(181);
    let encoded = encode_file_stem(&over);
    assert_eq!(encoded.len(), 197);
    assert!(encoded.starts_with(&format!("{fits}-")));
}

#[test]
fn the_hash_is_fnv_1a() {
    assert_eq!(fnv1a64(b""), 0xcbf2_9ce4_8422_2325);
    assert_eq!(fnv1a64(b"a"), 0xaf63_dc4c_8601_ec8c);
    assert_eq!(fnv1a64(b"foobar"), 0x8594_4171_f739_67e8);
}

#[test]
fn the_cache_follows_xdg_and_falls_back_to_home() {
    assert_eq!(cache_dir(&text("/xdg"), &text("/home/u")), text("/xdg/kctx"));
    // Relative XDG paths are ignored.
    assert_eq!(
        cache_dir(&text("xdg"), &text("/home/u")),
        text("/home/u/.cache/kctx")
    );
    assert_eq!(cache_dir(&None, &text("/home/u")), text("/home/u/.cache/kctx"));
    assert_eq!(cache_dir(&None, &text("")), None);
    assert_eq!(cache_dir(&None, &None), None);
    assert_eq!(
        overlay_dir(&None, &text("/home/u")),
        text("/home/u/.cache/kctx/contexts")
    );
    assert_eq!(home_dir(&text("/home/u")), text("/home/u"));
    assert_eq!(home_dir(&text("")), None);
}

#[test]
fn paths_below_home_are_abbreviated() {
    let home = text("/home/u");
    assert_eq!(shorten_home("/home/u/.kube/config", &home), "~/.kube/config");
    assert_eq!(shorten_home("/home/u", &home), "~");
    assert_eq!(shorten_home("/home/user/config", &home), "/home/user/config");
    assert_eq!(shorten_home("/etc/kube", &home), "/etc/kube");
    assert_eq!(shorten_home("/etc/kube", &None), "/etc/kube");
}

#[test]
fn paths_are_taken_apart_by_component() {
    assert_eq!(file_name("/k/prod.yaml"), text("prod.yaml"));
    assert_eq!(file_name("/k/prod.yaml/"), text("prod.yaml"));
    assert_eq!(file_name("/"), None);
    assert_eq!(file_name(".."), None);
    assert!(is_absolute("/k"));
    assert!(!is_absolute("k"));
    assert!(same_path("/k/config", "/k//./config/"));
    assert!(!same_path("/k/config", "k/config"));
    assert_eq!(join_path("/k", "config"), "/k/config");
    assert_eq!(join_path("/k/", "config"), "/k/config");
    assert_eq!(join_path("/k", "/etc"), "/etc");
    assert_eq!(ancestors("/a/b/c"), vec!["/a/b", "/a", "/"]);
}

#[test]
fn the_closest_existing_ancestor_is_found() {
    let existing = vec!["/".to_string(), "/home".to_string()];
    assert_eq!(
        deepest_existing_ancestor("/home/u/.cache", &existing),
        text("/home")
    );
    assert_eq!(deepest_existing_ancestor("/home/u", &Vec::new()), None);
}

#[test]
fn private_directories_are_checked_not_trusted() {
    assert_eq!(check_private_dir("/c", directory(0o40700)), Ok(()));
    assert_eq!(
        check_private_dir("/c", directory(0o40755)).unwrap_err(),
        "/c is accessible to other users (mode 755); run `chmod 700` on it"
    );
    let link = EntryFacts {
        is_dir: false,
        is_symlink: true,
        mode: 0o120777,
    };
    assert_eq!(
        check_private_dir("/c", link).unwrap_err(),
        "/c is a symbolic link; kctx will not write overlays through one"
    );
    let file = EntryFacts {
        is_dir: false,
        is_symlink: false,
        mode: 0o100600,
    };
    assert_eq!(
        check_private_dir("/c", file).unwrap_err(),
        "/c exists but is not a directory"
    );
}

#[test]
fn shared_ancestors_must_not_be_writable_by_others() {
    assert_eq!(check_shared_ancestor("/home", directory(0o40755)), Ok(()));
    // The sticky bit makes a world-writable directory safe to build in.
    assert_eq!(check_shared_ancestor("/tmp", directory(0o41777)), Ok(()));
    assert_eq!(
        check_shared_ancestor("/open", directory(0o40777)).unwrap_err(),
        "/open is writable by other users (mode 777); kctx will not keep its cache below it"
    );
    let file = EntryFacts {
        is_dir: false,
        is_symlink: false,
        mode: 0o100600,
    };
    assert_eq!(
        check_shared_ancestor("/file", file).unwrap_err(),
        "/file is not a directory, so kctx cannot keep its cache below it"
    );
}

#[test]
fn a_private_directory_is_created_or_reused() {
    let good = Some(("/home".to_string(), directory(0o40755)));
    let bad = Some(("/open".to_string(), directory(0o40777)));
    assert_eq!(
        ensure_private_dir("/home/c", &good, &None),
        Ok(PrivateDirPlan::Create)
    );
    assert_eq!(
        ensure_private_dir("/home/c", &good, &Some(directory(0o40700))),
        Ok(PrivateDirPlan::Ready)
    );
    // What is wrong with the ancestor is reported before what is wrong with the directory.
    let message = ensure_private_dir("/open/c", &bad, &Some(directory(0o40777))).unwrap_err();
    assert!(message.starts_with("/open is writable"), "{message}");
    let message = ensure_private_dir("/home/c", &good, &Some(directory(0o40777))).unwrap_err();
    assert!(message.starts_with("/home/c is accessible"), "{message}");
}
