use git_starter_rust::commit::{commit, commit_tree, store_commit, Commit, Signature};
use git_starter_rust::config::Config;
use git_starter_rust::error::GitError;
use git_starter_rust::git::Git;
use git_starter_rust::object::ObjectType;
use git_starter_rust::refs::{symbolic_target, trim, RefStore};
use git_starter_rust::store::ObjectStore;
use git_starter_rust::tree::{build_tree, FileMetadata, TreeEntry, TreeEntryMode};
use git_starter_rust::worktree::{Contents, DirEntry, Directory};

const HEAD: &[u8] = b"ref: refs/heads/master\n";
const TREE: &str = "444a8fa98e219b9ee8585973bba9425676aba452";
const FIRST: &str = "906c1187c72c563bed3f2902d82c5711ad9e513e";
const SECOND: &str = "b4ed68ab165fbb02f096935f100312f4122266de";

fn ada() -> Signature {
    Signature { name: String::from("Ada Lovelace"), email: String::from("ada@example.org") }
}

fn file(name: &str, content: &[u8]) -> DirEntry {
    DirEntry {
        name: String::from(name),
        metadata: FileMetadata { is_dir: false, is_symlink: false, permissions: 0o644 },
        contents: Contents::File(content.to_vec()),
    }
}

fn dir(name: &str, entries: Vec<DirEntry>) -> DirEntry {
    DirEntry {
        name: String::from(name),
        metadata: FileMetadata { is_dir: true, is_symlink: false, permissions: 0o755 },
        contents: Contents::Directory(Directory { entries }),
    }
}

fn app() -> Directory {
    Directory { entries: vec![file("README.md", b"hi\n"), dir("emptydir", vec![])] }
}

fn first_commit_text() -> Vec<u8> {
    b"tree 444a8fa98e219b9ee8585973bba9425676aba452\n\
author Ada Lovelace <ada@example.org> 1700000000 +0000\n\
committer Ada Lovelace <ada@example.org> 1700000000 +0000\n\
\n\
initial commit\n"
        .to_vec()
}

#[test]
fn signatures_are_rendered() {
    assert_eq!(ada().render(), b"Ada Lovelace <ada@example.org>");
    let blank = Signature { name: String::new(), email: String::new() };
    assert_eq!(blank.render(), b" <>");
}

#[test]
fn commits_are_rendered() {
    let mut commit = Commit {
        tree: TREE.as_bytes().to_vec(),
        parent: None,
        author: ada().render(),
        committer: ada().render(),
        timestamp: 1700000000,
        message: b"initial commit".to_vec(),
    };
    assert_eq!(commit.render(), first_commit_text());
    commit.parent = Some(FIRST.as_bytes().to_vec());
    commit.committer = b"C <c@example.org>".to_vec();
    commit.timestamp = 0;
    commit.message = b"two\nlines".to_vec();
    let expected = format!(
        "tree {TREE}\nparent {FIRST}\nauthor Ada Lovelace <ada@example.org> 0 +0000\n\
committer C <c@example.org> 0 +0000\n\ntwo\nlines\n"
    );
    assert_eq!(String::from_utf8(commit.render()).unwrap(), expected);
}

#[test]
fn commit_tree_stores_the_rendered_commit() {
    let mut store = ObjectStore::new();
    let hash = commit_tree(&mut store, "initial commit", TREE, None, &ada(), 1700000000)
        .expect("commit")
        .expect("digest");
    assert_eq!(hex::encode(hash), FIRST);
    assert_eq!(hex::encode(hash).len(), 40);
    let object = store.get(&hash).expect("get");
    assert_eq!(object.object_type, ObjectType::Commit);
    assert_eq!(object.expected_size, 175);
    assert_eq!(object.content, first_commit_text());

    let second = commit_tree(&mut store, "initial commit", TREE, Some(FIRST), &ada(), 1700000001)
        .expect("commit")
        .expect("digest");
    assert_eq!(hex::encode(second), SECOND);
    assert_eq!(store.len(), 2);
}

#[test]
fn store_commit_is_content_addressed() {
    let commit = Commit {
        tree: TREE.as_bytes().to_vec(),
        parent: None,
        author: ada().render(),
        committer: ada().render(),
        timestamp: 1700000000,
        message: b"initial commit".to_vec(),
    };
    let mut store = ObjectStore::new();
    let first = store_commit(&mut store, &commit).expect("commit");
    let again = store_commit(&mut store, &commit).expect("commit");
    assert_eq!(first, again);
    assert_eq!(hex::encode(first), FIRST);
    assert_eq!(store.len(), 1);
}

#[test]
fn symbolic_references_are_read() {
    assert_eq!(symbolic_target(HEAD), Some(b"refs/heads/master".to_vec()));
    assert_eq!(symbolic_target(b"ref: refs/heads/main"), Some(b"refs/heads/main".to_vec()));
    assert_eq!(symbolic_target(b"ref:  \t refs/heads/x \r\n\n"), Some(b"refs/heads/x".to_vec()));
    assert_eq!(symbolic_target(b"ref: a b\n"), Some(b"a b".to_vec()));
    assert_eq!(symbolic_target(b"ref: "), Some(b"".to_vec()));
    assert_eq!(symbolic_target(b"ref:refs/heads/master\n"), None);
    assert_eq!(symbolic_target(b"906c1187c72c563bed3f2902d82c5711ad9e513e\n"), None);
    assert_eq!(symbolic_target(b" ref: refs/heads/master\n"), None);
    assert_eq!(symbolic_target(b"Ref: refs/heads/master\n"), None);
    assert_eq!(symbolic_target(b"ref:"), None);
    assert_eq!(symbolic_target(b""), None);
}

#[test]
fn white_space_is_trimmed_at_both_ends() {
    assert_eq!(trim(b"  a b \n"), b"a b");
    assert_eq!(trim(b"\t\n\x0b\x0c\r x\t\n\x0b\x0c\r "), b"x");
    assert_eq!(trim(b"x"), b"x");
    assert_eq!(trim(b""), b"");
    assert_eq!(trim(b" \n "), b"");
    assert_eq!(trim(b"\x08x\x0e"), b"\x08x\x0e");
    assert_eq!(trim(b"\0x\0"), b"\0x\0");
}

#[test]
fn branch_pointers_are_kept_by_name() {
    let mut refs = RefStore::new();
    assert_eq!(refs.get(b"refs/heads/master"), None);
    refs.set(b"refs/heads/master".to_vec(), b"one".to_vec());
    refs.set(b"refs/heads/other".to_vec(), b"two".to_vec());
    assert_eq!(refs.get(b"refs/heads/master"), Some(&b"one".to_vec()));
    assert_eq!(refs.get(b"refs/heads/other"), Some(&b"two".to_vec()));
    refs.set(b"refs/heads/master".to_vec(), b"three".to_vec());
    assert_eq!(refs.get(b"refs/heads/master"), Some(&b"three".to_vec()));
    assert_eq!(refs.get(b"refs/heads/other"), Some(&b"two".to_vec()));
    assert_eq!(refs.get(b"refs/heads/maste"), None);
    assert_eq!(refs.pointers.len(), 2);
}

#[test]
fn committing_an_empty_directory_commits_nothing() {
    let mut store = ObjectStore::new();
    let mut refs = RefStore::new();
    refs.set(b"refs/heads/master".to_vec(), FIRST.as_bytes().to_vec());
    let hollow = Directory { entries: vec![dir("a", vec![dir("b", vec![])]), dir(".git", vec![file("HEAD", HEAD)])] };
    let out = commit(&mut store, HEAD, &mut refs, ".git", &hollow, "nothing", &ada(), 1700000000);
    assert_eq!(out, Ok(None));
    assert_eq!(store.len(), 0);
    assert_eq!(refs.get(b"refs/heads/master"), Some(&FIRST.as_bytes().to_vec()));
    assert_eq!(refs.pointers.len(), 1);

    let mut fresh = RefStore::new();
    let empty = Directory { entries: vec![] };
    assert_eq!(commit(&mut store, HEAD, &mut fresh, ".git", &empty, "nothing", &ada(), 0), Ok(None));
    assert!(fresh.pointers.is_empty());
}

#[test]
fn committing_twice_chains_two_commits_of_one_tree() {
    let mut store = ObjectStore::new();
    let mut refs = RefStore::new();
    let first = commit(&mut store, HEAD, &mut refs, ".git", &app(), "initial commit", &ada(), 1700000000)
        .expect("commit")
        .expect("digest");
    assert_eq!(hex::encode(first), FIRST);
    assert_eq!(refs.get(b"refs/heads/master"), Some(&FIRST.as_bytes().to_vec()));
    // the blob, the tree and the commit
    assert_eq!(store.len(), 3);

    let second = commit(&mut store, HEAD, &mut refs, ".git", &app(), "initial commit", &ada(), 1700000001)
        .expect("commit")
        .expect("digest");
    assert_eq!(hex::encode(second), SECOND);
    assert_ne!(first, second);
    assert_eq!(refs.get(b"refs/heads/master"), Some(&SECOND.as_bytes().to_vec()));
    assert_eq!(store.len(), 4);

    let one = String::from_utf8(store.get(&first).expect("get").content).unwrap();
    let two = String::from_utf8(store.get(&second).expect("get").content).unwrap();
    assert!(one.starts_with(&format!("tree {TREE}\nauthor ")));
    assert!(two.starts_with(&format!("tree {TREE}\nparent {FIRST}\nauthor ")));
    let tree = build_tree(&store, TREE).expect("tree");
    assert_eq!(
        tree.entries,
        vec![TreeEntry {
            mode: TreeEntryMode::RegularFile,
            name: String::from("README.md"),
            sha: String::from("45b983be36b73c0788dc9cbcb76cbb80fc7bb057"),
        }]
    );
}

#[test]
fn committing_at_the_same_second_still_chains() {
    let mut store = ObjectStore::new();
    let mut refs = RefStore::new();
    let first = commit(&mut store, HEAD, &mut refs, ".git", &app(), "again", &ada(), 5).expect("commit");
    let second = commit(&mut store, HEAD, &mut refs, ".git", &app(), "again", &ada(), 5).expect("commit");
    assert!(first.is_some() && second.is_some());
    assert_ne!(first, second);
}

#[test]
fn a_detached_head_refuses_the_commit() {
    let mut store = ObjectStore::new();
    let mut refs = RefStore::new();
    let detached = b"906c1187c72c563bed3f2902d82c5711ad9e513e\n";
    let out = commit(&mut store, detached, &mut refs, ".git", &app(), "no", &ada(), 1700000000);
    assert_eq!(out, Err(GitError::DetachedHead));
    assert_eq!(store.len(), 0);
    assert!(refs.pointers.is_empty());
}

#[test]
fn the_parent_is_read_without_the_white_space_around_it() {
    let mut store = ObjectStore::new();
    let mut refs = RefStore::new();
    refs.set(b"refs/heads/master".to_vec(), format!("  {FIRST}\n").into_bytes());
    let out = commit(&mut store, HEAD, &mut refs, ".git", &app(), "initial commit", &ada(), 1700000001)
        .expect("commit")
        .expect("digest");
    assert_eq!(hex::encode(out), SECOND);
    // a blank pointer is a branch without commits
    let mut blank = RefStore::new();
    blank.set(b"refs/heads/master".to_vec(), b"\n".to_vec());
    let out = commit(&mut store, HEAD, &mut blank, ".git", &app(), "initial commit", &ada(), 1700000000)
        .expect("commit")
        .expect("digest");
    assert_eq!(hex::encode(out), FIRST);
}

#[test]
fn a_failed_snapshot_leaves_the_branch_where_it_is() {
    let mut store = ObjectStore::new();
    let mut refs = RefStore::new();
    refs.set(b"refs/heads/master".to_vec(), FIRST.as_bytes().to_vec());
    let mut odd = file("a", b"a\n");
    odd.metadata.is_dir = true;
    let broken = Directory { entries: vec![odd] };
    let out = commit(&mut store, HEAD, &mut refs, ".git", &broken, "no", &ada(), 1700000000);
    assert_eq!(out, Err(GitError::StorageIo));
    assert_eq!(refs.get(b"refs/heads/master"), Some(&FIRST.as_bytes().to_vec()));
}

#[test]
fn committing_through_the_repository_handle() {
    let mut git = Git::new(Config::default());
    git.init().expect("init");
    git.config.writer.clear();
    let staging = Directory {
        entries: vec![dir(
            "src",
            vec![
                dir("foo", vec![file("bc.txt", b"bc\n"), file("ab.txt", b"ab\n")]),
                file("foo.txt", b"foo\n"),
            ],
        )],
    };
    git.write_tree(&staging).expect("write-tree");
    let tree_sha = String::from_utf8(git.config.writer.clone()).unwrap();
    assert_eq!(tree_sha.len(), 41);
    git.config.writer.clear();
    git.commit(&staging, "initial commit", &ada(), 1700000000).expect("commit");
    let commit_sha = String::from_utf8(git.config.writer.clone()).unwrap();
    assert_eq!(commit_sha.trim_end().len(), 40);
    assert!(commit_sha.ends_with('\n'));
    assert_eq!(
        git.refs.get(b"refs/heads/master"),
        Some(&commit_sha.trim_end().as_bytes().to_vec())
    );

    let head = String::from_utf8(git.head.clone().unwrap()).unwrap();
    assert_eq!(head, "ref: refs/heads/master\n");

    let tree = build_tree(&git.objects, tree_sha.trim_end()).expect("tree");
    assert_eq!(tree.entries.len(), 1);
    assert_eq!(tree.entries[0].mode, TreeEntryMode::Directory);
    assert_eq!(tree.entries[0].name, "src");
    let src = build_tree(&git.objects, &tree.entries[0].sha).expect("tree");
    let names: Vec<&str> = src.entries.iter().map(|e| e.name.as_str()).collect();
    assert_eq!(names, vec!["foo.txt", "foo"]);
    let foo = build_tree(&git.objects, &src.entries[1].sha).expect("tree");
    let names: Vec<&str> = foo.entries.iter().map(|e| e.name.as_str()).collect();
    assert_eq!(names, vec!["ab.txt", "bc.txt"]);
    assert_eq!(foo.entries[0].sha, "81bf396956110ad81c14860af1bbcc9dfbe4df20");
    assert_eq!(foo.entries[1].sha, "c53e629560a411c986ea3945d758a48231052c24");
}

#[test]
fn the_commands_report_through_the_writers() {
    let mut git = Git::new(Config::default());
    // no repository yet
    assert_eq!(git.commit(&app(), "m", &ada(), 1), Err(GitError::StorageIo));
    git.init().expect("init");
    git.config.writer.clear();

    let empty = Directory { entries: vec![] };
    assert_eq!(git.write_tree(&empty), Err(GitError::EmptyTree));
    assert!(git.config.writer.is_empty());
    assert_eq!(git.commit(&empty, "m", &ada(), 1), Ok(()));
    assert!(git.config.writer.is_empty());
    assert_eq!(git.config.error_writer, b"not committing empty tree\n");
    assert!(git.refs.pointers.is_empty());

    git.write_tree(&app()).expect("write-tree");
    assert_eq!(git.config.writer, format!("{TREE}\n").into_bytes());
    git.config.writer.clear();
    git.commit_tree("initial commit", TREE, None, &ada(), 1700000000).expect("commit-tree");
    assert_eq!(git.config.writer, format!("{FIRST}\n").into_bytes());
    assert!(git.refs.pointers.is_empty());
    git.config.writer.clear();
    git.commit(&app(), "initial commit", &ada(), 1700000000).expect("commit");
    assert_eq!(git.config.writer, format!("{FIRST}\n").into_bytes());
    git.config.writer.clear();
    git.commit_tree("initial commit", TREE, Some(FIRST), &ada(), 1700000001).expect("commit-tree");
    assert_eq!(git.config.writer, format!("{SECOND}\n").into_bytes());

    git.head = Some(FIRST.as_bytes().to_vec());
    assert_eq!(git.commit(&app(), "m", &ada(), 2), Err(GitError::DetachedHead));
    assert_eq!(git.config.error_writer, b"not committing empty tree\n");
}

#[test]
fn failures_have_messages() {
    assert_eq!(GitError::ObjectNotFound.message(), "object not found");
    assert_eq!(GitError::DetachedHead.message(), "refusing to commit onto detached HEAD");
    assert_eq!(GitError::WrongObjectType.message(), "object type not supported");
    assert_eq!(GitError::EmptyTree.message(), "failed to write tree");
    let all = [
        GitError::StorageIo,
        GitError::ObjectNotFound,
        GitError::CorruptStream,
        GitError::MalformedHeader,
        GitError::UnknownType,
        GitError::SizeMismatch { expected: 2, actual: 1 },
        GitError::TruncatedEntry,
        GitError::MalformedEntry,
        GitError::WrongObjectType,
        GitError::DetachedHead,
        GitError::CompressionFailed,
        GitError::MissingField,
        GitError::EmptyTree,
    ];
    for (i, a) in all.iter().enumerate() {
        assert!(!a.message().is_empty());
        for b in &all[i + 1..] {
            assert_ne!(a.message(), b.message());
        }
    }
}
