use git_starter_rust::assemble::{concat_entries, write_entries, write_entry, write_tree_for};
use git_starter_rust::error::GitError;
use git_starter_rust::object::ObjectType;
use git_starter_rust::order::{HashedEntry, TreeEntryBytesBuilder};
use git_starter_rust::store::ObjectStore;
use git_starter_rust::tree::{
    build_tree, parse_entries, FileMetadata, Tree, TreeEntry, TreeEntryMode, TreeEntryType,
};
use git_starter_rust::worktree::{Contents, DirEntry, Directory};

fn tree_content(entries: &[(&str, &str, &str)]) -> Vec<u8> {
    let mut content = Vec::new();
    for (mode, name, sha) in entries {
        content.extend_from_slice(mode.as_bytes());
        content.push(b' ');
        content.extend_from_slice(name.as_bytes());
        content.push(0);
        content.extend_from_slice(&hex::decode(sha).expect("hex"));
    }
    content
}

/// A store that holds the root tree of a small application.
fn build_simple_app_store() -> ObjectStore {
    let mut store = ObjectStore::new();
    let content = tree_content(&[
        ("100644", ".gitignore", "ea8c4bf7f35f6f77f75d92ad8ce8349f6e81ddba"),
        ("100644", "Cargo.toml", "f195397afef8ad7a138507d1cf1c118d6e0d6dfc"),
        ("40000", "src", "305157a396c6858705a9cb625bab219053264ee4"),
    ]);
    let digest = store.put(ObjectType::Tree, &content).expect("put");
    assert_eq!(hex::encode(digest), "825ad6339808aa69dd0b2d487586a32fe4b6be17");
    store
}

fn file(name: &str, permissions: u32, content: &[u8]) -> DirEntry {
    DirEntry {
        name: String::from(name),
        metadata: FileMetadata { is_dir: false, is_symlink: false, permissions },
        contents: Contents::File(content.to_vec()),
    }
}

fn symlink(name: &str, content: &[u8]) -> DirEntry {
    DirEntry {
        name: String::from(name),
        metadata: FileMetadata { is_dir: false, is_symlink: true, permissions: 0o777 },
        contents: Contents::File(content.to_vec()),
    }
}

fn dir(name: &str, entries: Vec<DirEntry>) -> DirEntry {
    DirEntry {
        name: String::from(name),
        metadata: FileMetadata { is_dir: true, is_symlink: false, permissions: 0o755 },
        contents: Contents::Directory(Directory { entries }),
    }
}

fn entry(mode: TreeEntryMode, name: &str, sha: &str) -> TreeEntry {
    TreeEntry { mode, name: String::from(name), sha: String::from(sha) }
}

#[test]
fn test_build_tree() {
    let store = build_simple_app_store();
    let tree_sha = String::from("825ad6339808aa69dd0b2d487586a32fe4b6be17");
    let tree = build_tree(&store, &tree_sha).expect("tree");
    assert_eq!(tree.entries.len(), 3);
    assert_eq!(
        tree.entries[0],
        TreeEntry {
            mode: TreeEntryMode::RegularFile,
            name: String::from(".gitignore"),
            sha: String::from("ea8c4bf7f35f6f77f75d92ad8ce8349f6e81ddba"),
        }
    );
    assert_eq!(
        tree.entries[1],
        TreeEntry {
            mode: TreeEntryMode::RegularFile,
            name: String::from("Cargo.toml"),
            sha: String::from("f195397afef8ad7a138507d1cf1c118d6e0d6dfc"),
        }
    );
    assert_eq!(
        tree.entries[2],
        TreeEntry {
            mode: TreeEntryMode::Directory,
            name: String::from("src"),
            sha: String::from("305157a396c6858705a9cb625bab219053264ee4"),
        }
    );
}

#[test]
fn build_tree_reports_what_is_wrong_with_the_object() {
    let mut store = build_simple_app_store();
    assert_eq!(
        build_tree(&store, "305157a396c6858705a9cb625bab219053264ee4"),
        Err(GitError::ObjectNotFound)
    );
    assert_eq!(build_tree(&store, "not a digest"), Err(GitError::ObjectNotFound));
    let blob = store.put(ObjectType::Blob, b"hello world").expect("put");
    assert_eq!(build_tree(&store, &hex::encode(blob)), Err(GitError::WrongObjectType));
    let commit = store.put(ObjectType::Commit, b"tree 0\n").expect("put");
    assert_eq!(build_tree(&store, &hex::encode(commit)), Err(GitError::WrongObjectType));
    assert!(store.insert([7u8; 20], b"not zlib".to_vec()));
    assert_eq!(build_tree(&store, &hex::encode([7u8; 20])), Err(GitError::CorruptStream));
}

#[test]
fn tree_entry_types_follow_the_mode() {
    let sha = "ea8c4bf7f35f6f77f75d92ad8ce8349f6e81ddba";
    assert_eq!(entry(TreeEntryMode::Directory, "src", sha).tree_entry_type(), TreeEntryType::Tree);
    assert_eq!(entry(TreeEntryMode::RegularFile, "a", sha).tree_entry_type(), TreeEntryType::Blob);
    assert_eq!(
        entry(TreeEntryMode::ExecutableFile, "a", sha).tree_entry_type(),
        TreeEntryType::Blob
    );
    assert_eq!(entry(TreeEntryMode::SymbolicLink, "a", sha).tree_entry_type(), TreeEntryType::Blob);
    assert_eq!(TreeEntryType::Blob.name_bytes(), b"blob");
    assert_eq!(TreeEntryType::Tree.name_bytes(), b"tree");
}

#[test]
fn defaults() {
    assert_eq!(TreeEntryType::default(), TreeEntryType::Tree);
    assert_eq!(TreeEntryMode::default(), TreeEntryMode::RegularFile);
    assert_eq!(TreeEntry::default(), entry(TreeEntryMode::RegularFile, "", ""));
    assert_eq!(Tree::default(), Tree { entries: vec![] });
    let builder = TreeEntryBytesBuilder::default();
    assert!(builder.mode.is_none() && builder.name.is_none() && builder.is_dir.is_none());
}

#[test]
fn modes_are_written_and_read() {
    assert_eq!(TreeEntryMode::RegularFile.display_bytes(), b"100644");
    assert_eq!(TreeEntryMode::ExecutableFile.display_bytes(), b"100755");
    assert_eq!(TreeEntryMode::SymbolicLink.display_bytes(), b"120000");
    assert_eq!(TreeEntryMode::Directory.display_bytes(), b"040000");
    assert_eq!(TreeEntryMode::RegularFile.raw_bytes(), b"100644");
    assert_eq!(TreeEntryMode::ExecutableFile.raw_bytes(), b"100755");
    assert_eq!(TreeEntryMode::SymbolicLink.raw_bytes(), b"120000");
    assert_eq!(TreeEntryMode::Directory.raw_bytes(), b"40000");
    assert_eq!(TreeEntryMode::from_text(b"100644"), Some(TreeEntryMode::RegularFile));
    assert_eq!(TreeEntryMode::from_text(b"100755"), Some(TreeEntryMode::ExecutableFile));
    assert_eq!(TreeEntryMode::from_text(b"120000"), Some(TreeEntryMode::SymbolicLink));
    assert_eq!(TreeEntryMode::from_text(b"040000"), Some(TreeEntryMode::Directory));
    assert_eq!(TreeEntryMode::from_text(b"40000"), Some(TreeEntryMode::Directory));
    assert_eq!(TreeEntryMode::from_text(b"100645"), None);
    assert_eq!(TreeEntryMode::from_text(b"0040000"), None);
    assert_eq!(TreeEntryMode::from_text(b"4000"), None);
    assert_eq!(TreeEntryMode::from_text(b""), None);
}

#[test]
fn modes_follow_the_metadata_in_priority() {
    let meta = |is_dir, is_symlink, permissions| FileMetadata { is_dir, is_symlink, permissions };
    assert_eq!(TreeEntryMode::from_metadata(&meta(true, true, 0o777)), TreeEntryMode::Directory);
    assert_eq!(TreeEntryMode::from_metadata(&meta(false, true, 0o777)), TreeEntryMode::SymbolicLink);
    assert_eq!(
        TreeEntryMode::from_metadata(&meta(false, false, 0o100755)),
        TreeEntryMode::ExecutableFile
    );
    assert_eq!(
        TreeEntryMode::from_metadata(&meta(false, false, 0o100001)),
        TreeEntryMode::ExecutableFile
    );
    assert_eq!(
        TreeEntryMode::from_metadata(&meta(false, false, 0o100010)),
        TreeEntryMode::ExecutableFile
    );
    assert_eq!(
        TreeEntryMode::from_metadata(&meta(false, false, 0o100644)),
        TreeEntryMode::RegularFile
    );
    assert_eq!(TreeEntryMode::from_metadata(&meta(false, false, 0)), TreeEntryMode::RegularFile);
    assert_eq!(TreeEntryMode::from(&meta(false, false, 0o700)), TreeEntryMode::ExecutableFile);
    assert_eq!(TreeEntryMode::from(&meta(true, false, 0o644)), TreeEntryMode::Directory);
}

#[test]
fn parse_entries_reads_each_entry() {
    let content = tree_content(&[
        ("100755", "run me.sh", "95d09f2b10159347eece71399a7e2e907ea3df4f"),
        ("120000", "lïnk", "e69de29bb2d1d6434b8b29ae775ad8c2e48c5391"),
        ("040000", "", "00ff10a0b0c0d0e0f0112233445566778899aabb"),
    ]);
    let tree = parse_entries(&content).expect("tree");
    assert_eq!(
        tree.entries,
        vec![
            entry(
                TreeEntryMode::ExecutableFile,
                "run me.sh",
                "95d09f2b10159347eece71399a7e2e907ea3df4f"
            ),
            entry(TreeEntryMode::SymbolicLink, "lïnk", "e69de29bb2d1d6434b8b29ae775ad8c2e48c5391"),
            entry(TreeEntryMode::Directory, "", "00ff10a0b0c0d0e0f0112233445566778899aabb"),
        ]
    );
    assert_eq!(parse_entries(b""), Ok(Tree { entries: vec![] }));
}

#[test]
fn parse_entries_reports_truncated_entries() {
    let whole = tree_content(&[("100644", "a", "95d09f2b10159347eece71399a7e2e907ea3df4f")]);
    assert_eq!(whole.len(), 29);
    assert!(parse_entries(&whole).is_ok());
    // no nul at all
    assert_eq!(parse_entries(b"100644 a"), Err(GitError::TruncatedEntry));
    // the digest is cut short
    assert_eq!(parse_entries(&whole[..28]), Err(GitError::TruncatedEntry));
    assert_eq!(parse_entries(&whole[..9]), Err(GitError::TruncatedEntry));
    // a second entry starts and does not end
    let mut more = whole.clone();
    more.extend_from_slice(b"100644");
    assert_eq!(parse_entries(&more), Err(GitError::TruncatedEntry));
    // truncation is seen before the text is looked at
    assert_eq!(parse_entries(b"junk\0"), Err(GitError::TruncatedEntry));
}

#[test]
fn parse_entries_reports_malformed_entries() {
    let sha = [0x11u8; 20];
    let with = |text: &[u8]| {
        let mut content = text.to_vec();
        content.push(0);
        content.extend_from_slice(&sha);
        content
    };
    assert_eq!(parse_entries(&with(b"100644")), Err(GitError::MalformedEntry));
    assert_eq!(parse_entries(&with(b"")), Err(GitError::MalformedEntry));
    assert_eq!(parse_entries(&with(b"100646 a")), Err(GitError::MalformedEntry));
    assert_eq!(parse_entries(&with(b" a")), Err(GitError::MalformedEntry));
    assert_eq!(parse_entries(&with(b"100644 \xff")), Err(GitError::MalformedEntry));
    assert_eq!(parse_entries(&with(b"100644 \xc3")), Err(GitError::MalformedEntry));
    assert!(parse_entries(&with(b"100644 a b")).is_ok());
    // the first entry that is wrong decides
    let mut two = with(b"100644 a");
    two.extend_from_slice(&with(b"bad"));
    two.extend_from_slice(b"cut");
    assert_eq!(parse_entries(&two), Err(GitError::MalformedEntry));
}

#[test]
fn entries_are_serialised() {
    let hash: [u8; 20] = hex::decode("95d09f2b10159347eece71399a7e2e907ea3df4f")
        .unwrap()
        .try_into()
        .unwrap();
    let builder = TreeEntryBytesBuilder::default().dir_entry(&file("a b.txt", 0o644, b""));
    let mut expected = b"100644 a b.txt\0".to_vec();
    expected.extend_from_slice(&hash);
    assert_eq!(builder.to_raw_bytes(hash), Ok(expected));

    let builder = TreeEntryBytesBuilder::default().dir_entry(&dir("src", vec![]));
    let mut expected = b"40000 src\0".to_vec();
    expected.extend_from_slice(&hash);
    assert_eq!(builder.to_raw_bytes(hash), Ok(expected));
    assert!(builder.is_dir());

    let builder = TreeEntryBytesBuilder::default().dir_entry(&symlink("l", b"target"));
    assert_eq!(builder.mode, Some(TreeEntryMode::SymbolicLink));
    assert_eq!(builder.is_dir, Some(false));

    assert_eq!(
        TreeEntryBytesBuilder::default().to_raw_bytes(hash),
        Err(GitError::MissingField)
    );
    let nameless = TreeEntryBytesBuilder {
        mode: Some(TreeEntryMode::RegularFile),
        name: None,
        is_dir: Some(false),
    };
    assert_eq!(nameless.to_raw_bytes(hash), Err(GitError::MissingField));
    let modeless =
        TreeEntryBytesBuilder { mode: None, name: Some(String::from("a")), is_dir: Some(false) };
    assert_eq!(modeless.to_raw_bytes(hash), Err(GitError::MissingField));
    assert_eq!(
        concat_entries(&vec![HashedEntry { builder: modeless, hash }]),
        Err(GitError::MissingField)
    );
    assert_eq!(concat_entries(&vec![]), Ok(vec![]));
}

#[test]
fn the_reserved_name_is_recognised() {
    let builder = TreeEntryBytesBuilder::default().dir_entry(&dir(".git", vec![]));
    assert!(builder.is_dot_git_entry(".git"));
    assert!(!builder.is_dot_git_entry(".gi"));
    assert!(!builder.is_dot_git_entry(".git2"));
    assert!(!builder.is_dot_git_entry("dot-git"));
    assert!(!TreeEntryBytesBuilder::default().is_dot_git_entry(".git"));
    assert!(!TreeEntryBytesBuilder::default().is_dot_git_entry(""));
}

#[test]
fn write_tree_with_a_readme_and_an_empty_directory() {
    let mut store = ObjectStore::new();
    let app = Directory {
        entries: vec![dir("emptydir", vec![]), file("README.md", 0o644, b"hi\n")],
    };
    let hash = write_tree_for(&mut store, ".git", &app).expect("tree").expect("not empty");
    assert_eq!(hex::encode(hash), "444a8fa98e219b9ee8585973bba9425676aba452");
    assert_eq!(store.len(), 2);
    let tree = build_tree(&store, "444a8fa98e219b9ee8585973bba9425676aba452").expect("tree");
    assert_eq!(
        tree.entries,
        vec![entry(
            TreeEntryMode::RegularFile,
            "README.md",
            "45b983be36b73c0788dc9cbcb76cbb80fc7bb057"
        )]
    );
    assert!(store.contains(&hash));
    let blob: [u8; 20] = hex::decode("45b983be36b73c0788dc9cbcb76cbb80fc7bb057")
        .unwrap()
        .try_into()
        .unwrap();
    assert_eq!(store.get(&blob).expect("blob").content, b"hi\n");
}

#[test]
fn write_tree_elides_empty_subtrees_at_every_level() {
    let mut store = ObjectStore::new();
    let nothing = Directory { entries: vec![] };
    assert_eq!(write_tree_for(&mut store, ".git", &nothing), Ok(None));
    let hollow = Directory {
        entries: vec![
            dir("a", vec![dir("b", vec![dir("c", vec![])]), dir("d", vec![])]),
            dir("e", vec![]),
        ],
    };
    assert_eq!(write_tree_for(&mut store, ".git", &hollow), Ok(None));
    assert_eq!(store.len(), 0);
    // a directory that holds nothing but the metadata directory is empty too
    let bare = Directory {
        entries: vec![dir(".git", vec![file("HEAD", 0o644, b"ref: refs/heads/master\n")])],
    };
    assert_eq!(write_tree_for(&mut store, ".git", &bare), Ok(None));
    assert_eq!(store.len(), 0);
    // under another reserved name it is a directory like any other
    assert!(write_tree_for(&mut store, "dot-git", &bare).expect("tree").is_some());
    assert_eq!(store.len(), 3);
}

#[test]
fn write_tree_orders_entries_canonically() {
    let mut store = ObjectStore::new();
    let root = Directory {
        entries: vec![
            file("foo0", 0o755, b"z\n"),
            dir("foo", vec![file("a.txt", 0o644, b"a\n")]),
            dir(".git", vec![file("HEAD", 0o644, b"ref: refs/heads/master\n")]),
            file("foo.txt", 0o644, b"x\n"),
            file("foo-bar", 0o644, b"y\n"),
        ],
    };
    let hash = write_tree_for(&mut store, ".git", &root).expect("tree").expect("not empty");
    assert_eq!(hex::encode(hash), "d41bdfd32acf1e2f751ae2aa98c5a49315b6a5c9");
    let tree = build_tree(&store, &hex::encode(hash)).expect("tree");
    assert_eq!(
        tree.entries,
        vec![
            entry(
                TreeEntryMode::RegularFile,
                "foo-bar",
                "975fbec8256d3e8a3797e7a3611380f27c49f4ac"
            ),
            entry(
                TreeEntryMode::RegularFile,
                "foo.txt",
                "587be6b4c3f93f93c489c0111bba5596147a26cb"
            ),
            entry(TreeEntryMode::Directory, "foo", "08585692ce06452da6f82ae66b90d98b55536fca"),
            entry(
                TreeEntryMode::ExecutableFile,
                "foo0",
                "b68025345d5301abad4d9ec9166f455243a0d746"
            ),
        ]
    );
    // blobs a, x, y, z and the trees foo and root; nothing of the metadata directory
    assert_eq!(store.len(), 6);
    let sub = build_tree(&store, "08585692ce06452da6f82ae66b90d98b55536fca").expect("tree");
    assert_eq!(
        sub.entries,
        vec![entry(TreeEntryMode::RegularFile, "a.txt", "78981922613b2afb6025042ff6bd878ac1994e85")]
    );
}

#[test]
fn write_tree_is_idempotent() {
    let root = Directory {
        entries: vec![
            file("b", 0o644, b"x\n"),
            dir("d", vec![file("a.txt", 0o644, b"a\n"), file("copy.txt", 0o644, b"a\n")]),
        ],
    };
    let mut store = ObjectStore::new();
    let first = write_tree_for(&mut store, ".git", &root).expect("tree");
    let stored = store.len();
    // two files with one content are one blob
    assert_eq!(stored, 4);
    let second = write_tree_for(&mut store, ".git", &root).expect("tree");
    assert_eq!(first, second);
    assert_eq!(store.len(), stored);
    let mut other = ObjectStore::new();
    other.put(ObjectType::Blob, b"unrelated").expect("put");
    assert_eq!(write_tree_for(&mut other, ".git", &root), Ok(first));
    // the order of the listing does not matter
    let shuffled = Directory {
        entries: vec![
            dir("d", vec![file("copy.txt", 0o644, b"a\n"), file("a.txt", 0o644, b"a\n")]),
            file("b", 0o644, b"x\n"),
        ],
    };
    assert_eq!(write_tree_for(&mut store, ".git", &shuffled), Ok(first));
    assert_eq!(store.len(), stored);
}

#[test]
fn write_tree_refuses_entries_that_contradict_their_metadata() {
    let mut store = ObjectStore::new();
    let mut odd = file("a", 0o644, b"a\n");
    odd.metadata.is_dir = true;
    let root = Directory { entries: vec![file("0", 0o644, b"kept\n"), odd, file("b", 0o644, b"b\n")] };
    assert_eq!(write_tree_for(&mut store, ".git", &root), Err(GitError::StorageIo));
    // what was stored before the failure stays; nothing is stored after it
    assert_eq!(store.len(), 1);
    let mut odd = dir("d", vec![]);
    odd.metadata.is_dir = false;
    assert_eq!(write_entry(&mut store, ".git", &odd).err(), Some(GitError::StorageIo));
    // under the reserved name the entry is not looked at
    assert!(write_entry(&mut store, "d", &odd).expect("entry").is_none());
    assert_eq!(store.len(), 1);
    let kept = write_entry(&mut store, ".git", &file("run", 0o755, b"#!/bin/sh\n"))
        .expect("entry")
        .expect("kept");
    assert_eq!(kept.builder.mode, Some(TreeEntryMode::ExecutableFile));
    assert_eq!(kept.builder.name.as_deref(), Some("run"));
    assert_eq!(kept.builder.is_dir, Some(false));
    assert_eq!(hex::encode(kept.hash), "1a2485251c33a70432394c93fb89330ef214bfc9");
    assert_eq!(store.len(), 2);
}

#[test]
fn write_entries_of_nothing_stores_nothing() {
    let mut store = ObjectStore::new();
    assert_eq!(write_entries(&mut store, vec![]), Ok(None));
    assert_eq!(store.len(), 0);
}

fn hashed(mode: TreeEntryMode, name: &str, sha: &str) -> HashedEntry {
    HashedEntry {
        builder: TreeEntryBytesBuilder {
            mode: Some(mode),
            name: Some(String::from(name)),
            is_dir: Some(mode == TreeEntryMode::Directory),
        },
        hash: hex::decode(sha).unwrap().try_into().unwrap(),
    }
}

#[test]
fn a_tree_of_one_known_blob() {
    let mut store = ObjectStore::new();
    let actual_sha = write_entries(
        &mut store,
        vec![hashed(
            TreeEntryMode::RegularFile,
            "foo.rs",
            "3524658cc82dda8611f51bd132493e711d50bb81",
        )],
    )
    .expect("tree")
    .expect("SHA should be present");
    let actual_sha = hex::encode(actual_sha);
    assert_eq!(actual_sha, "5da554cc6d31c65185d6d63ae707cc1328eeb8c2");
    assert_eq!(store.len(), 1);
    let tree = build_tree(&store, &actual_sha).expect("tree");
    assert_eq!(tree.entries.len(), 1);
    assert_eq!(
        tree.entries[0],
        TreeEntry {
            mode: TreeEntryMode::RegularFile,
            name: String::from("foo.rs"),
            sha: String::from("3524658cc82dda8611f51bd132493e711d50bb81"),
        }
    );
}

#[test]
fn nested_trees_of_known_blobs() {
    let mut store = ObjectStore::new();
    let foo = write_entries(
        &mut store,
        vec![
            hashed(TreeEntryMode::RegularFile, "bc.txt", "2ce489f987a7d6dbfa73a54df760cdc90e841794"),
            hashed(TreeEntryMode::RegularFile, "ab.txt", "4a3055de6ce49aa356dd07a1e7feeff79bd18fb8"),
        ],
    )
    .expect("tree")
    .expect("SHA should be present");
    assert_eq!(hex::encode(foo), "68ab77c490a5cbdcf70a2094ce43780c5780ab4b");
    let src = write_entries(
        &mut store,
        vec![
            hashed(TreeEntryMode::Directory, "foo", &hex::encode(foo)),
            hashed(TreeEntryMode::RegularFile, "foo.txt", "1657a67183cbc4719b4818685a2f5635bf481094"),
        ],
    )
    .expect("tree")
    .expect("SHA should be present");
    assert_eq!(hex::encode(src), "32692fb2462bbe82c8b88e54ec5f0fec3badbe88");
    let root = write_entries(
        &mut store,
        vec![hashed(TreeEntryMode::Directory, "src", &hex::encode(src))],
    )
    .expect("tree")
    .expect("SHA should be present");
    let actual_sha = hex::encode(root);
    assert_eq!(actual_sha, "f33421767929a06951899aa91cc699df29c3893b");
    assert_eq!(store.len(), 3);

    let tree = build_tree(&store, &actual_sha).expect("tree");
    assert_eq!(tree.entries.len(), 1);
    assert_eq!(
        tree.entries[0],
        TreeEntry {
            mode: TreeEntryMode::Directory,
            name: String::from("src"),
            sha: String::from("32692fb2462bbe82c8b88e54ec5f0fec3badbe88"),
        }
    );
    let tree = build_tree(&store, "32692fb2462bbe82c8b88e54ec5f0fec3badbe88").expect("tree");
    assert_eq!(tree.entries.len(), 2);
    assert_eq!(
        tree.entries[0],
        TreeEntry {
            mode: TreeEntryMode::RegularFile,
            name: String::from("foo.txt"),
            sha: String::from("1657a67183cbc4719b4818685a2f5635bf481094"),
        }
    );
    assert_eq!(
        tree.entries[1],
        TreeEntry {
            mode: TreeEntryMode::Directory,
            name: String::from("foo"),
            sha: String::from("68ab77c490a5cbdcf70a2094ce43780c5780ab4b"),
        }
    );
    let tree = build_tree(&store, "68ab77c490a5cbdcf70a2094ce43780c5780ab4b").expect("tree");
    assert_eq!(tree.entries.len(), 2);
    assert_eq!(
        tree.entries[0],
        TreeEntry {
            mode: TreeEntryMode::RegularFile,
            name: String::from("ab.txt"),
            sha: String::from("4a3055de6ce49aa356dd07a1e7feeff79bd18fb8"),
        }
    );
    assert_eq!(
        tree.entries[1],
        TreeEntry {
            mode: TreeEntryMode::RegularFile,
            name: String::from("bc.txt"),
            sha: String::from("2ce489f987a7d6dbfa73a54df760cdc90e841794"),
        }
    );
}
