use flate2::read::ZlibDecoder;
use flate2::write::ZlibEncoder;
use flate2::Compression;
use git_starter_rust::config::Config;
use git_starter_rust::error::GitError;
use git_starter_rust::git::Git;
use git_starter_rust::object::ObjectType;
use sha1::{Digest, Sha1};
use std::io::{BufRead, Read, Write};

type TestGit = Git;

fn build_test_git() -> TestGit {
    Git::new(Config {
        writer: Vec::new(),
        error_writer: Vec::new(),
        dot_git_name: String::from(".git"),
    })
}

/// Stores `file_contents` as they are, compressed, under their own SHA-1.
fn write_to_git_objects(git: &mut TestGit, file_contents: &[u8]) -> String {
    let mut hasher = Sha1::new();
    hasher.update(file_contents);
    let digest: [u8; 20] = hasher.finalize().into();

    let mut encoder = ZlibEncoder::new(Vec::new(), Compression::default());
    encoder.write_all(file_contents).expect("compress");
    let compressed_bytes = encoder.finish().expect("finish");

    assert!(git.objects.insert(digest, compressed_bytes));
    hex::encode(digest)
}

fn tree_content(entries: &[(&str, &str, &str)]) -> Vec<u8> {
    let mut content = Vec::new();
    for (mode, name, sha) in entries {
        content.extend_from_slice(mode.as_bytes());
        content.push(b' ');
        content.extend_from_slice(name.as_bytes());
        content.push(0);
        content.extend_from_slice(&hex::decode(sha).expect("hex"));
    }
    content
}

/// A repository that holds the root tree of a small application.
fn build_simple_app_git() -> TestGit {
    let mut git = build_test_git();
    let content = tree_content(&[
        ("100644", ".gitignore", "ea8c4bf7f35f6f77f75d92ad8ce8349f6e81ddba"),
        ("100644", "Cargo.toml", "f195397afef8ad7a138507d1cf1c118d6e0d6dfc"),
        ("40000", "src", "305157a396c6858705a9cb625bab219053264ee4"),
    ]);
    let mut envelope = format!("tree {}\0", content.len()).into_bytes();
    envelope.extend_from_slice(&content);
    let hash = write_to_git_objects(&mut git, &envelope);
    assert_eq!(hash, "825ad6339808aa69dd0b2d487586a32fe4b6be17");
    git
}

#[test]
fn test_init() {
    let mut git = build_test_git();
    git.init().expect("init");
    assert!(git.head.is_some());
    assert!(git.objects.len() == 0);
    assert!(git.refs.pointers.is_empty());
    let head_contents = String::from_utf8(git.head.clone().unwrap()).expect("Found invalid UTF-8");
    assert_eq!(head_contents, "ref: refs/heads/master\n");
    let result_string = String::from_utf8(git.config.writer).expect("Found invalid UTF-8");
    assert_eq!(result_string, "Initialized git directory\n");
}

#[test]
fn init_twice_is_refused() {
    let mut git = build_test_git();
    git.init().expect("init");
    assert_eq!(git.init(), Err(GitError::StorageIo));
    assert_eq!(git.config.writer, b"Initialized git directory\n");
    assert_eq!(git.head, Some(b"ref: refs/heads/master\n".to_vec()));
}

#[test]
fn test_cat_file() {
    let file_contents = b"blob 11\0hello world";
    let mut git = build_test_git();
    let hash = write_to_git_objects(&mut git, file_contents);
    assert_eq!(hash, "95d09f2b10159347eece71399a7e2e907ea3df4f");

    git.cat_file(&true, &hash).expect("unable to cat the file");
    let result_string = String::from_utf8(git.config.writer).expect("Found invalid UTF-8");
    assert_eq!(result_string, "hello world");
}

#[test]
fn cat_file_of_a_missing_object() {
    let mut git = build_test_git();
    assert_eq!(
        git.cat_file(&true, "95d09f2b10159347eece71399a7e2e907ea3df4f"),
        Err(GitError::ObjectNotFound)
    );
    assert_eq!(git.cat_file(&true, "95d0"), Err(GitError::ObjectNotFound));
    assert_eq!(
        git.cat_file(&true, "95D09F2B10159347EECE71399A7E2E907EA3DF4F"),
        Err(GitError::ObjectNotFound)
    );
    assert!(git.config.writer.is_empty());
}

#[test]
fn cat_file_of_a_tree_is_refused() {
    let mut git = build_simple_app_git();
    assert_eq!(
        git.cat_file(&true, "825ad6339808aa69dd0b2d487586a32fe4b6be17"),
        Err(GitError::WrongObjectType)
    );
    assert!(git.config.writer.is_empty());
}

#[test]
fn cat_file_of_a_short_object() {
    let mut git = build_test_git();
    let hash = write_to_git_objects(&mut git, b"blob 12\0hello world");
    assert_eq!(
        git.cat_file(&true, &hash),
        Err(GitError::SizeMismatch { expected: 12, actual: 11 })
    );
    assert!(git.config.writer.is_empty());
}

#[test]
fn cat_file_stops_at_the_declared_size() {
    let mut git = build_test_git();
    let hash = write_to_git_objects(&mut git, b"blob 5\0hello world");
    git.cat_file(&true, &hash).expect("cat");
    assert_eq!(git.config.writer, b"hello");
}

#[test]
fn test_hash_object() {
    let file_contents = b"hello world with some content";
    let mut git = build_test_git();
    git.hash_object(&true, file_contents).expect("hash");
    let hash = String::from_utf8(git.config.writer.clone()).expect("Found invalid UTF-8");
    assert_eq!(hash, "e078244198669cd20c80e001b6c9b32b261bd041");
    assert_eq!(git.objects.len(), 1);
    let stored = git.objects.object_at(0);
    assert_eq!(hex::encode(stored.digest), hash);

    let z = ZlibDecoder::new(&stored.bytes[..]);
    let mut z = std::io::BufReader::new(z);
    let mut buffer = Vec::new();
    z.read_until(0, &mut buffer).expect("read until in cat file");
    let header = std::str::from_utf8(&buffer[..buffer.len() - 1]).expect("Failed to parse object header");
    let (kind, size) = header.split_once(' ').expect("header");
    assert_eq!(kind, "blob");
    assert_eq!(size, "29");
    let mut z = z.take(29);
    let mut content = Vec::new();
    z.read_to_end(&mut content).expect("Failed to read to end of file");
    assert_eq!(content, file_contents);
}

#[test]
fn hash_object_without_writing() {
    let mut git = build_test_git();
    git.hash_object(&false, b"hello world").expect("hash");
    assert_eq!(git.config.writer, b"95d09f2b10159347eece71399a7e2e907ea3df4f");
    assert_eq!(git.objects.len(), 0);
    git.hash_object(&false, b"").expect("hash");
    assert_eq!(
        &git.config.writer[40..],
        b"e69de29bb2d1d6434b8b29ae775ad8c2e48c5391"
    );
}

#[test]
fn test_ls_tree_name_only() {
    let mut git = build_simple_app_git();
    let tree_sha = "825ad6339808aa69dd0b2d487586a32fe4b6be17";
    git.ls_tree(&true, tree_sha).expect("ls-tree");
    let result_string = String::from_utf8(git.config.writer).expect("Found invalid UTF-8");
    assert_eq!(result_string, String::from(".gitignore\nCargo.toml\nsrc\n"));
}

#[test]
fn test_ls_tree() {
    let mut git = build_simple_app_git();
    let tree_sha = "825ad6339808aa69dd0b2d487586a32fe4b6be17";
    git.ls_tree(&false, tree_sha).expect("ls-tree");
    let actual = String::from_utf8(git.config.writer).expect("Found invalid UTF-8");
    let expected = "100644 blob ea8c4bf7f35f6f77f75d92ad8ce8349f6e81ddba	.gitignore
100644 blob f195397afef8ad7a138507d1cf1c118d6e0d6dfc	Cargo.toml
040000 tree 305157a396c6858705a9cb625bab219053264ee4	src
"
    .to_string();
    assert_eq!(actual, expected);
}

#[test]
fn ls_tree_of_a_blob_is_refused() {
    let mut git = build_test_git();
    let hash = write_to_git_objects(&mut git, b"blob 11\0hello world");
    assert_eq!(git.ls_tree(&false, &hash), Err(GitError::WrongObjectType));
    assert!(git.config.writer.is_empty());
}

#[test]
fn ls_tree_appends_to_earlier_output() {
    let mut git = build_simple_app_git();
    git.config.writer.extend_from_slice(b"before\n");
    git.ls_tree(&true, "825ad6339808aa69dd0b2d487586a32fe4b6be17")
        .expect("ls-tree");
    assert_eq!(git.config.writer, b"before\n.gitignore\nCargo.toml\nsrc\n");
    let _ = ObjectType::Tree;
}
