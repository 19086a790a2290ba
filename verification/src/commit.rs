//! Commits: the text that records a snapshot, its parent and who made it,
//! and the step that stores it and advances the current branch.
use crate::assemble::{digest_view, stored_as, tree_digest, tree_store, write_tree_for};
use crate::snapshot::{hollow, lemma_hollow_directory, lemma_none_is_hollow};
use crate::ascii::{decimal, format_decimal};
use crate::digest::{digest_to_hex, hex_lower};
use crate::error::GitError;
use crate::object::ObjectType;
use crate::refs::{ref_target, symbolic_target, trim, trimmed, RefStore};
use crate::store::{put_digest, put_store, ObjectStore};
use crate::text::utf8;
use crate::worktree::Directory;
use vstd::prelude::*;

verus! {

/// Who made a commit.
#[derive(Debug)]
pub struct Signature {
    pub name: String,
    pub email: String,
}

impl Signature {
    /// The signature as a commit shows it: the name, then the address in
    /// angle brackets.
    pub open spec fn text(&self) -> Seq<u8> {
        utf8(self.name@) + utf8(" <"@) + utf8(self.email@) + utf8(">"@)
    }

    /// Writes the signature.
    pub fn render(&self) -> (text: Vec<u8>)
        ensures
            text@ == self.text(),
    {
        let mut text: Vec<u8> = Vec::new();
        text.extend_from_slice(self.name.as_str().as_bytes());
        text.extend_from_slice(" <".as_bytes());
        text.extend_from_slice(self.email.as_str().as_bytes());
        text.extend_from_slice(">".as_bytes());
        assert(text@ =~= self.text());
        text
    }
}

/// A commit: the digest of its tree and of its parent in hexadecimal, who
/// wrote and who committed it, when, and why.
#[derive(Debug)]
pub struct Commit {
    pub tree: Vec<u8>,
    pub parent: Option<Vec<u8>>,
    pub author: Vec<u8>,
    pub committer: Vec<u8>,
    /// Seconds since the Unix epoch.
    pub timestamp: u64,
    pub message: Vec<u8>,
}

/// A commit as a value.
pub struct CommitModel {
    pub tree: Seq<u8>,
    pub parent: Option<Seq<u8>>,
    pub author: Seq<u8>,
    pub committer: Seq<u8>,
    pub timestamp: u64,
    pub message: Seq<u8>,
}

impl View for Commit {
    type V = CommitModel;

    open spec fn view(&self) -> CommitModel {
        CommitModel {
            tree: self.tree@,
            parent: match self.parent {
                Some(parent) => Some(parent@),
                None => None,
            },
            author: self.author@,
            committer: self.committer@,
            timestamp: self.timestamp,
            message: self.message@,
        }
    }
}

/// The line that names the parent, where there is one.
pub open spec fn parent_line(parent: Option<Seq<u8>>) -> Seq<u8> {
    match parent {
        Some(digest) => utf8("parent "@) + digest + utf8("\n"@),
        None => Seq::empty(),
    }
}

/// A line that names a person and the time, in the zone `+0000`.
pub open spec fn person_line(role: Seq<char>, who: Seq<u8>, seconds: u64) -> Seq<u8> {
    utf8(role) + who + utf8(" "@) + decimal(seconds as nat) + utf8(" +0000\n"@)
}

impl CommitModel {
    /// The content of the commit object: the tree, the parent if any, the
    /// author, the committer, an empty line, the message and a line feed.
    pub open spec fn text(self) -> Seq<u8> {
        utf8("tree "@) + self.tree + utf8("\n"@) + parent_line(self.parent) + person_line(
            "author "@,
            self.author,
            self.timestamp,
        ) + person_line("committer "@, self.committer, self.timestamp) + utf8("\n"@)
            + self.message + utf8("\n"@)
    }
}

/// Writes a line that names a person and the time.
fn push_person_line(text: &mut Vec<u8>, role: &str, who: &[u8], seconds: u64)
    ensures
        final(text)@ == old(text)@ + person_line(role@, who@, seconds),
{
    text.extend_from_slice(role.as_bytes());
    text.extend_from_slice(who);
    text.extend_from_slice(" ".as_bytes());
    let mut time = format_decimal(seconds);
    text.append(&mut time);
    text.extend_from_slice(" +0000\n".as_bytes());
    assert(text@ =~= old(text)@ + person_line(role@, who@, seconds));
}

impl Commit {
    /// Writes the content of the commit object.
    pub fn render(&self) -> (text: Vec<u8>)
        ensures
            text@ == self@.text(),
    {
        let mut text: Vec<u8> = Vec::new();
        text.extend_from_slice("tree ".as_bytes());
        text.extend_from_slice(self.tree.as_slice());
        text.extend_from_slice("\n".as_bytes());
        match &self.parent {
            Some(parent) => {
                text.extend_from_slice("parent ".as_bytes());
                text.extend_from_slice(parent.as_slice());
                text.extend_from_slice("\n".as_bytes());
            },
            None => {},
        }
        assert(text@ =~= utf8("tree "@) + self@.tree + utf8("\n"@) + parent_line(self@.parent));
        push_person_line(&mut text, "author ", self.author.as_slice(), self.timestamp);
        push_person_line(&mut text, "committer ", self.committer.as_slice(), self.timestamp);
        text.extend_from_slice("\n".as_bytes());
        text.extend_from_slice(self.message.as_slice());
        text.extend_from_slice("\n".as_bytes());
        assert(text@ =~= self@.text());
        text
    }
}

/// The commit that `commit_tree` stores: `who` is both author and
/// committer.
pub open spec fn commit_of(
    message: Seq<char>,
    tree_hash: Seq<char>,
    parent_hash: Option<Seq<char>>,
    who: Signature,
    timestamp: u64,
) -> CommitModel {
    CommitModel {
        tree: utf8(tree_hash),
        parent: match parent_hash {
            Some(parent) => Some(utf8(parent)),
            None => None,
        },
        author: who.text(),
        committer: who.text(),
        timestamp,
        message: utf8(message),
    }
}

/// The view of an optional text.
pub open spec fn text_view(text: Option<&str>) -> Option<Seq<char>> {
    match text {
        Some(text) => Some(text@),
        None => None,
    }
}

/// Stores a commit of the tree `tree_hash` on top of `parent_hash` and
/// returns its digest.
pub fn commit_tree(
    store: &mut ObjectStore,
    message: &str,
    tree_hash: &str,
    parent_hash: Option<&str>,
    who: &Signature,
    timestamp: u64,
) -> (out: Result<Option<[u8; 20]>, GitError>)
    ensures
        ({
            let text = commit_of(message@, tree_hash@, text_view(parent_hash), *who, timestamp).text();
            &&& digest_view(out) == stored_as(put_digest(ObjectType::Commit, text))
            &&& final(store)@ == put_store(old(store)@, ObjectType::Commit, text)
        }),
{
    let commit = Commit {
        tree: vstd::slice::slice_to_vec(tree_hash.as_bytes()),
        parent: match parent_hash {
            Some(parent) => Some(vstd::slice::slice_to_vec(parent.as_bytes())),
            None => None,
        },
        author: who.render(),
        committer: who.render(),
        timestamp,
        message: vstd::slice::slice_to_vec(message.as_bytes()),
    };
    match store_commit(store, &commit) {
        Ok(digest) => Ok(Some(digest)),
        Err(e) => Err(e),
    }
}

/// Stores a commit object and returns its digest.
pub fn store_commit(store: &mut ObjectStore, commit: &Commit) -> (out: Result<[u8; 20], GitError>)
    ensures
        match out {
            Ok(digest) => put_digest(ObjectType::Commit, commit@.text()) == Ok::<
                Seq<u8>,
                GitError,
            >(digest@),
            Err(e) => put_digest(ObjectType::Commit, commit@.text()) == Err::<Seq<u8>, GitError>(
                e,
            ),
        },
        final(store)@ == put_store(old(store)@, ObjectType::Commit, commit@.text()),
{
    let text = commit.render();
    store.put(ObjectType::Commit, text.as_slice())
}

/// The parent that the branch `target` records: the text kept for it
/// without the white space around it. A branch without a pointer, or with
/// a blank one, has no commit yet.
pub open spec fn parent_of(refs: Map<Seq<u8>, Seq<u8>>, target: Seq<u8>) -> Option<Seq<u8>> {
    if refs.contains_key(target) && trimmed(refs[target]).len() > 0 {
        Some(trimmed(refs[target]))
    } else {
        None
    }
}

/// The commit that records the snapshot `tree` on top of `parent`.
pub open spec fn snapshot_commit(
    tree: Seq<u8>,
    parent: Option<Seq<u8>>,
    message: Seq<char>,
    who: Signature,
    timestamp: u64,
) -> CommitModel {
    CommitModel {
        tree: utf8(hex_lower(tree)),
        parent,
        author: who.text(),
        committer: who.text(),
        timestamp,
        message: utf8(message),
    }
}

/// What a commit step leaves behind: its result, the object store and the
/// branch pointers.
pub struct Committed {
    pub outcome: Result<Option<Seq<u8>>, GitError>,
    pub store: Map<Seq<u8>, Seq<u8>>,
    pub refs: Map<Seq<u8>, Seq<u8>>,
}

/// The commit step.
///
/// A pointer that is no symbolic reference refuses the commit before
/// anything is touched. Otherwise the directory is assembled. Where it
/// contributes nothing, nothing is committed and the branch stays where it
/// is. Else the commit is stored, and only then the branch advances to it.
pub open spec fn committed(
    store: Map<Seq<u8>, Seq<u8>>,
    head: Seq<u8>,
    refs: Map<Seq<u8>, Seq<u8>>,
    reserved: Seq<char>,
    dir: Directory,
    message: Seq<char>,
    who: Signature,
    timestamp: u64,
) -> Committed {
    match ref_target(head) {
        None => Committed { outcome: Err(GitError::DetachedHead), store, refs },
        Some(target) => {
            let kept = tree_store(store, reserved, dir);
            match tree_digest(reserved, dir) {
                Err(e) => Committed { outcome: Err(e), store: kept, refs },
                Ok(None) => Committed { outcome: Ok(None), store: kept, refs },
                Ok(Some(tree)) => {
                    let text = snapshot_commit(
                        tree,
                        parent_of(refs, target),
                        message,
                        who,
                        timestamp,
                    ).text();
                    Committed {
                        outcome: stored_as(put_digest(ObjectType::Commit, text)),
                        store: put_store(kept, ObjectType::Commit, text),
                        refs: match put_digest(ObjectType::Commit, text) {
                            Ok(digest) => refs.insert(target, utf8(hex_lower(digest))),
                            Err(_) => refs,
                        },
                    }
                },
            }
        },
    }
}

/// Committing a directory that holds nothing commits nothing: the result
/// is `None`, and the store and the branch pointers stay as they are. A
/// commit step that returns `None` has touched neither.
pub proof fn lemma_nothing_to_commit(
    store: Map<Seq<u8>, Seq<u8>>,
    head: Seq<u8>,
    refs: Map<Seq<u8>, Seq<u8>>,
    reserved: Seq<char>,
    dir: Directory,
    message: Seq<char>,
    who: Signature,
    timestamp: u64,
)
    ensures
        ref_target(head) is Some && hollow(reserved, dir) ==> committed(
            store,
            head,
            refs,
            reserved,
            dir,
            message,
            who,
            timestamp,
        ) == (Committed { outcome: Ok(None), store, refs }),
        committed(store, head, refs, reserved, dir, message, who, timestamp).outcome == Ok::<
            Option<Seq<u8>>,
            GitError,
        >(None) ==> committed(store, head, refs, reserved, dir, message, who, timestamp) == (
        Committed { outcome: Ok(None), store, refs }),
        committed(store, head, refs, reserved, dir, message, who, timestamp).outcome is Err
            ==> committed(store, head, refs, reserved, dir, message, who, timestamp).refs == refs,
{
    if ref_target(head) is Some {
        if hollow(reserved, dir) {
            lemma_hollow_directory(store, reserved, dir);
        }
        if tree_digest(reserved, dir) == Ok::<Option<Seq<u8>>, GitError>(None) {
            lemma_none_is_hollow(reserved, dir);
            lemma_hollow_directory(store, reserved, dir);
        }
    }
}

/// Snapshots the directory `dir`, commits the snapshot on top of the
/// current branch, and advances the branch to the new commit.
///
/// Returns the digest of the commit, or `None` where there was nothing to
/// commit.
pub fn commit(
    store: &mut ObjectStore,
    head: &[u8],
    refs: &mut RefStore,
    dot_git_name: &str,
    dir: &Directory,
    message: &str,
    who: &Signature,
    timestamp: u64,
) -> (out: Result<Option<[u8; 20]>, GitError>)
    ensures
        ({
            let done = committed(
                old(store)@,
                head@,
                old(refs)@,
                dot_git_name@,
                *dir,
                message@,
                *who,
                timestamp,
            );
            &&& digest_view(out) == done.outcome
            &&& final(store)@ == done.store
            &&& final(refs)@ == done.refs
        }),
{
    let head_ref = match symbolic_target(head) {
        Some(head_ref) => head_ref,
        None => {
            return Err(GitError::DetachedHead);
        },
    };
    let parent_hash: Option<Vec<u8>> = match refs.get(head_ref.as_slice()) {
        Some(text) => {
            let parent = trim(text.as_slice());
            if parent.len() > 0 {
                Some(vstd::slice::slice_to_vec(parent))
            } else {
                None
            }
        },
        None => None,
    };
    let tree_hash = match write_tree_for(store, dot_git_name, dir) {
        Ok(Some(tree_hash)) => tree_hash,
        Ok(None) => {
            return Ok(None);
        },
        Err(e) => {
            return Err(e);
        },
    };
    let tree_hex = digest_to_hex(&tree_hash);
    let commit = Commit {
        tree: vstd::slice::slice_to_vec(tree_hex.as_str().as_bytes()),
        parent: parent_hash,
        author: who.render(),
        committer: who.render(),
        timestamp,
        message: vstd::slice::slice_to_vec(message.as_bytes()),
    };
    assert(commit@ == snapshot_commit(
        tree_hash@,
        parent_of(old(refs)@, head_ref@),
        message@,
        *who,
        timestamp,
    ));
    match store_commit(store, &commit) {
        Ok(commit_hash) => {
            let commit_hex = digest_to_hex(&commit_hash);
            refs.set(head_ref, vstd::slice::slice_to_vec(commit_hex.as_str().as_bytes()));
            Ok(Some(commit_hash))
        },
        Err(e) => Err(e),
    }
}

} // verus!
