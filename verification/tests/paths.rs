use mrpack::path::{has_pack_extension, is_contained, is_file_path};
use mrpack::text::{chars_of, join_text, same_text, slice_text, text_precedes};

#[test]
fn pack_extension_is_required() {
    assert!(has_pack_extension("foo.mrpack"));
    assert!(!has_pack_extension("foo.zip"));
    assert!(!has_pack_extension(".mrpack"));
    assert!(!has_pack_extension("dir/.mrpack"));
    assert!(has_pack_extension("dir/a.mrpack"));
    assert!(!has_pack_extension("foo.mrpack.zip"));
    assert!(!has_pack_extension(""));
}

#[test]
fn parent_segments_are_not_contained() {
    assert!(is_contained("mods/a.jar"));
    assert!(!is_contained("../a.jar"));
    assert!(!is_contained("mods/../../a.jar"));
    assert!(!is_contained("mods/.."));
    assert!(!is_contained(".."));
    assert!(!is_contained("mods\\..\\a.jar"));
    assert!(is_contained("mods/..a.jar"));
    assert!(is_contained("mods/a..jar"));
    assert!(is_contained("mods/a.."));
    assert!(is_contained("mods/.../a"));
    assert!(!is_contained("/etc/passwd"));
    assert!(!is_contained("C:/windows"));
}

#[test]
fn file_paths_name_files() {
    assert!(is_file_path("config/a.cfg"));
    assert!(!is_file_path(""));
    assert!(!is_file_path("config/"));
    assert!(!is_file_path("config/../a.cfg"));
}

#[test]
fn extension_guard() {
    assert_eq!(mrpack::archive::check_extension("foo.zip"), Err(mrpack::Error::InvalidExtension));
    assert_eq!(mrpack::archive::check_extension("foo.mrpack"), Ok(()));
    assert_eq!(mrpack::archive::check_extension("foo"), Err(mrpack::Error::InvalidExtension));
    assert_eq!(mrpack::archive::check_extension("packs/foo.mrpack"), Ok(()));
    assert_eq!(
        mrpack::archive::check_extension("packs/.mrpack"),
        Err(mrpack::Error::InvalidExtension)
    );
}

#[test]
fn dictionary_order_of_texts() {
    assert!(text_precedes("a", "b"));
    assert!(!text_precedes("b", "a"));
    assert!(!text_precedes("a", "a"));
    assert!(text_precedes("", "a"));
    assert!(!text_precedes("a", ""));
    assert!(!text_precedes("", ""));
    assert!(text_precedes("a", "ab"));
    assert!(text_precedes("a.b", "a/b"));
    assert!(text_precedes("Z", "a"));
    assert!(text_precedes("config/a.cfg", "config/b.cfg"));
    assert!(text_precedes("z", "é"));
}

#[test]
fn texts_are_cut_and_joined_by_characters() {
    assert_eq!(chars_of("aé/"), vec!['a', 'é', '/']);
    assert_eq!(slice_text("overrides/é.cfg", 10, 15), "é.cfg");
    assert_eq!(join_text("overrides/", "a"), "overrides/a");
    assert!(same_text("sha1", "sha1"));
    assert!(!same_text("sha1", "sha512"));
}
