use git_starter_rust::order::{
    bytes_eq, compare_tree_entry_bytes_builder, first_mismatch, follows, sort_entries,
    HashedEntry, TreeEntryBytesBuilder,
};
use git_starter_rust::tree::TreeEntryMode;
use std::cmp::Ordering;

fn named(name: &str, is_dir: bool) -> TreeEntryBytesBuilder {
    TreeEntryBytesBuilder {
        mode: Some(if is_dir { TreeEntryMode::Directory } else { TreeEntryMode::RegularFile }),
        name: Some(String::from(name)),
        is_dir: Some(is_dir),
    }
}

fn file(name: &str) -> TreeEntryBytesBuilder {
    named(name, false)
}

fn dir(name: &str) -> TreeEntryBytesBuilder {
    named(name, true)
}

fn compare(a: &TreeEntryBytesBuilder, b: &TreeEntryBytesBuilder) -> Ordering {
    compare_tree_entry_bytes_builder(a, b)
}

fn sorted_names(entries: Vec<TreeEntryBytesBuilder>) -> Vec<String> {
    let mut hashed: Vec<HashedEntry> = entries
        .into_iter()
        .enumerate()
        .map(|(i, builder)| HashedEntry { builder, hash: [i as u8; 20] })
        .collect();
    sort_entries(&mut hashed);
    hashed.into_iter().map(|e| e.builder.name.unwrap()).collect()
}

#[test]
fn a_file_sorts_before_a_longer_name() {
    assert_eq!(compare(&file("foo"), &file("foo.txt")), Ordering::Less);
    assert_eq!(compare(&file("foo.txt"), &file("foo")), Ordering::Greater);
    assert_eq!(compare(&file("foo"), &dir("foo.txt")), Ordering::Less);
    assert_eq!(compare(&file(""), &file("a")), Ordering::Less);
}

#[test]
fn a_directory_is_compared_by_its_virtual_slash() {
    // '.' (0x2E) sorts before '/' (0x2F)
    assert_eq!(compare(&dir("foo"), &file("foo.txt")), Ordering::Greater);
    assert_eq!(compare(&file("foo.txt"), &dir("foo")), Ordering::Less);
    // '-' (0x2D) too
    assert_eq!(compare(&dir("foo"), &file("foo-bar")), Ordering::Greater);
    // '0' (0x30) sorts after '/'
    assert_eq!(compare(&dir("foo"), &file("foo0")), Ordering::Less);
    assert_eq!(compare(&file("foo0"), &dir("foo")), Ordering::Greater);
    // a real slash is the same as the virtual one
    assert_eq!(compare(&dir("foo"), &file("foo/")), Ordering::Equal);
    assert_eq!(compare(&dir("foo"), &dir("foobar")), Ordering::Less);
    assert_eq!(compare(&dir(""), &file("/")), Ordering::Equal);
    assert_eq!(compare(&dir(""), &file(".")), Ordering::Greater);
}

#[test]
fn the_first_differing_byte_decides() {
    assert_eq!(compare(&file("abc"), &file("abd")), Ordering::Less);
    assert_eq!(compare(&dir("abd"), &file("abc")), Ordering::Greater);
    assert_eq!(compare(&file("b"), &dir("abc")), Ordering::Greater);
    assert_eq!(compare(&file("Z"), &file("a")), Ordering::Less);
    // bytes, not characters: 'é' is 0xC3 0xA9
    assert_eq!(compare(&file("z"), &file("é")), Ordering::Less);
    assert_eq!(compare(&file("\u{7f}"), &file("\u{80}")), Ordering::Less);
}

#[test]
fn names_of_equal_length_that_agree_are_equal() {
    assert_eq!(compare(&file("foo"), &file("foo")), Ordering::Equal);
    assert_eq!(compare(&dir("foo"), &file("foo")), Ordering::Equal);
    assert_eq!(compare(&file("foo"), &dir("foo")), Ordering::Equal);
    assert_eq!(compare(&file(""), &dir("")), Ordering::Equal);
}

#[test]
fn follows_is_the_strict_side_of_the_order() {
    assert!(follows(&dir("foo"), &file("foo.txt")));
    assert!(!follows(&file("foo.txt"), &dir("foo")));
    assert!(!follows(&file("foo"), &file("foo")));
}

#[test]
fn mismatches_are_found() {
    assert_eq!(first_mismatch(b"", b""), 0);
    assert_eq!(first_mismatch(b"abc", b"abd"), 2);
    assert_eq!(first_mismatch(b"abc", b"abcd"), 3);
    assert_eq!(first_mismatch(b"abcd", b"abc"), 3);
    assert_eq!(first_mismatch(b"x", b"abc"), 0);
    assert!(bytes_eq(b"abc", b"abc"));
    assert!(bytes_eq(b"", b""));
    assert!(!bytes_eq(b"abc", b"abd"));
    assert!(!bytes_eq(b"abc", b"ab"));
    assert!(!bytes_eq(b"ab", b"abc"));
}

#[test]
fn entries_are_sorted_canonically() {
    let names = sorted_names(vec![
        file("foo0"),
        dir("foo"),
        file("foo.txt"),
        file("b"),
        dir("a"),
        file("foo-bar"),
        file("Foo"),
        dir("fo"),
    ]);
    assert_eq!(names, vec!["Foo", "a", "b", "fo", "foo-bar", "foo.txt", "foo", "foo0"]);
    assert_eq!(sorted_names(vec![]), Vec::<String>::new());
    assert_eq!(sorted_names(vec![file("only")]), vec!["only"]);
    assert_eq!(sorted_names(vec![file("c"), file("b"), file("a")]), vec!["a", "b", "c"]);
    assert_eq!(sorted_names(vec![file("a"), file("b"), file("c")]), vec!["a", "b", "c"]);
}

#[test]
fn sorting_keeps_each_entry_whole() {
    let mut hashed = vec![
        HashedEntry { builder: file("b"), hash: [2; 20] },
        HashedEntry { builder: dir("a"), hash: [1; 20] },
        HashedEntry { builder: file("c"), hash: [3; 20] },
    ];
    sort_entries(&mut hashed);
    assert_eq!(hashed.len(), 3);
    assert_eq!(hashed[0].builder.name.as_deref(), Some("a"));
    assert_eq!(hashed[0].builder.mode, Some(TreeEntryMode::Directory));
    assert_eq!(hashed[0].hash, [1; 20]);
    assert_eq!(hashed[1].builder.name.as_deref(), Some("b"));
    assert_eq!(hashed[1].hash, [2; 20]);
    assert_eq!(hashed[2].builder.name.as_deref(), Some("c"));
    assert_eq!(hashed[2].hash, [3; 20]);
}

#[test]
fn equal_entries_keep_their_order() {
    let mut hashed = vec![
        HashedEntry { builder: file("same"), hash: [1; 20] },
        HashedEntry { builder: file("a"), hash: [0; 20] },
        HashedEntry { builder: dir("same"), hash: [2; 20] },
        HashedEntry { builder: file("same"), hash: [3; 20] },
    ];
    sort_entries(&mut hashed);
    let hashes: Vec<u8> = hashed.iter().map(|e| e.hash[0]).collect();
    assert_eq!(hashes, vec![0, 1, 2, 3]);
}
