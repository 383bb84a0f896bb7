//! Text, numbers, paths, versions and the in-memory tree.

use achilles::bytes::{be32_of, begins_with, le16_of, le32_of, le64_of};
use achilles::num::{decimal_of, hex_of, zero_padded_of};
use achilles::path::{
    file_name_of, is_plain_name, join_safe, name_extension_of, name_stem_of, normal_of, parent_of,
};
use achilles::sorted::slot_of;
use achilles::text::{contains, lower_of, sorts_before_of, split_of, CharClass};
use achilles::version::{cmp_version, components_of};
use achilles::vfs::{MemTree, Platform};

#[test]
fn numbers_are_written_and_read() {
    assert_eq!(decimal_of(0), "0");
    assert_eq!(decimal_of(u64::MAX), "18446744073709551615");
    assert_eq!(hex_of(0xbeef), "beef");
    assert_eq!(zero_padded_of("2a", 4), "002a");
    assert_eq!(le16_of(&[1, 2], 0), 0x0201);
    assert_eq!(le32_of(&[0, 1, 2, 3, 4], 1), 0x0403_0201);
    assert_eq!(le64_of(&[1, 0, 0, 0, 0, 0, 0, 0x80], 0), 0x8000_0000_0000_0001);
    assert_eq!(be32_of(&[1, 2, 3, 4], 0), 0x0102_0304);
    assert!(begins_with(b"hsqs", b"hs") && !begins_with(b"h", b"hs"));
}

#[test]
fn text_is_split_and_compared() {
    assert_eq!(
        split_of("a\\b/c", CharClass::Slashes),
        vec!["a".to_string(), "b".to_string(), "c".to_string()]
    );
    assert!(contains("haystack", "sta"));
    assert_eq!(lower_of("ABC-é"), "abc-é");
    assert!(sorts_before_of("a", "b") && !sorts_before_of("b", "a") && !sorts_before_of("a", "a"));
    let list = vec![("a".to_string(), 1), ("c".to_string(), 2)];
    assert_eq!(slot_of(&list, "b"), 1);
}

#[test]
fn paths_are_taken_apart() {
    assert_eq!(file_name_of("/a/b.tar.gz").as_deref(), Some("b.tar.gz"));
    assert_eq!(parent_of("/a/b").as_deref(), Some("/a"));
    assert_eq!(name_stem_of("b.tar.gz"), "b.tar");
    assert_eq!(name_extension_of("b.tar.gz").as_deref(), Some("gz"));
    assert_eq!(name_extension_of(".hidden"), None);
    assert_eq!(normal_of("/a//./b/"), "/a/b");
    assert!(is_plain_name("x") && !is_plain_name("..") && !is_plain_name("a/b"));
    assert_eq!(join_safe("/base", "x/./y").as_deref(), Some("/base/x/y"));
}

#[test]
fn versions_compare_by_component() {
    assert_eq!(components_of("1.20.3"), vec![1, 20, 3]);
    assert!(cmp_version("1.10", "1.9").is_gt());
    assert!(cmp_version("1.0", "1").is_eq());
    assert!(!cmp_version("1.9", "1.10").is_gt());
}

#[test]
fn the_tree_follows_links() {
    let mut tree = MemTree::default();
    tree.insert_file("/a/file", b"x".to_vec());
    tree.insert_symlink("/a/link", "file");
    tree.insert_symlink("/up", "a");
    tree.insert_dir("/empty");
    assert_eq!(tree.read("/a/link"), Some(b"x".as_slice()));
    assert_eq!(tree.read("/up/file"), Some(b"x".as_slice()));
    assert!(tree.is_dir("/empty") && tree.is_dir("/a") && !tree.is_file("/a"));
    assert!(!tree.has("/b"));
    let mut names = tree.read_dir("/a").unwrap();
    names.sort();
    assert_eq!(names, vec!["file".to_string(), "link".to_string()]);
    assert_eq!(tree.read_dir("/a/file"), None);
}

#[test]
fn what_is_inserted_is_found() {
    let mut tree = MemTree::default();
    tree.insert_file("/app/data", b"x".to_vec());
    tree.insert_file_with_mode("/app/tool", b"y".to_vec(), 0o755);
    tree.insert_symlink("/tool", "app/tool");
    assert_eq!(tree.read("/app/tool"), Some(b"y".as_slice()));
    assert_eq!(tree.mode("/app/tool"), Some(0o755));
    assert_eq!(tree.mode("/tool"), Some(0o755));
    assert_eq!(tree.mode("/app/data"), Some(0o644));
    assert_eq!(tree.mode("/app"), None);
    tree.insert_file("/app/tool", b"z".to_vec());
    assert_eq!(tree.read("/app/tool"), Some(b"z".as_slice()));
    assert_eq!(tree.read("/app/data"), Some(b"x".as_slice()));
}

#[test]
fn platforms_have_names() {
    assert_eq!(Platform::parse("windows"), Some(Platform::Windows));
    assert_eq!(Platform::parse("beos"), None);
    assert_eq!(Platform::Macos.as_str(), "macos");
    assert!(Platform::Macos.is_bundle() && !Platform::Linux.is_bundle());
}
