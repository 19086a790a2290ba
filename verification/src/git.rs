//! The repository handle: the commands, each on the repository's state in
//! memory, with its output collected in the configured writers.
use crate::assemble::{tree_digest, tree_store, write_tree_for};
use crate::commit::{
    commit, commit_of, commit_tree, committed, text_view, Committed, Signature,
};
use crate::config::Config;
use crate::digest::{digest_to_hex, hex_lower};
use crate::error::GitError;
use crate::object::{object_digest, ObjectType, SPACE};
use crate::refs::RefStore;
use crate::store::{fetched_hex, put_digest, put_store, ObjectStore};
use crate::text::utf8;
use crate::tree::{build_tree, tree_at, Tree, TreeEntry, TreeEntryModel};
use crate::worktree::Directory;
use vstd::prelude::*;

verus! {

/// The byte between the digest and the name in a listing.
pub const TAB: u8 = 0x09;

/// The byte that ends a line.
pub const LINE_FEED: u8 = 0x0A;

/// A repository: its configuration, the pointer to the current branch, the
/// branch pointers and the objects.
#[derive(Debug)]
pub struct Git {
    pub config: Config,
    /// The pointer to the current branch; `None` before the repository is
    /// initialised.
    pub head: Option<Vec<u8>>,
    pub refs: RefStore,
    pub objects: ObjectStore,
}

/// A repository as a value: what was printed and reported so far, the name
/// of the metadata directory, the pointer to the current branch, the
/// branch pointers and the objects.
pub struct GitModel {
    pub writer: Seq<u8>,
    pub error_writer: Seq<u8>,
    pub dot_git_name: Seq<char>,
    pub head: Option<Seq<u8>>,
    pub refs: Map<Seq<u8>, Seq<u8>>,
    pub objects: Map<Seq<u8>, Seq<u8>>,
}

impl View for Git {
    type V = GitModel;

    open spec fn view(&self) -> GitModel {
        GitModel {
            writer: self.config.writer@,
            error_writer: self.config.error_writer@,
            dot_git_name: self.config.dot_git_name@,
            head: match self.head {
                Some(head) => Some(head@),
                None => None,
            },
            refs: self.refs@,
            objects: self.objects@,
        }
    }
}

/// What a command leaves behind: its result and the repository.
pub struct Ran {
    pub outcome: Result<(), GitError>,
    pub git: GitModel,
}

/// The pointer of a fresh repository: `ref: refs/heads/master`, and a line
/// feed.
pub open spec fn initial_head() -> Seq<u8> {
    utf8("ref: refs/heads/master\n"@)
}

/// A digest on a line of its own, in hexadecimal.
pub open spec fn digest_line(digest: Seq<u8>) -> Seq<u8> {
    utf8(hex_lower(digest)) + seq![LINE_FEED]
}

impl GitModel {
    /// The repository after `text` was printed.
    pub open spec fn printed(self, text: Seq<u8>) -> GitModel {
        GitModel { writer: self.writer + text, ..self }
    }

    /// The repository after `text` was reported beside the result.
    pub open spec fn reported(self, text: Seq<u8>) -> GitModel {
        GitModel { error_writer: self.error_writer + text, ..self }
    }

    /// The repository with other objects.
    pub open spec fn storing(self, objects: Map<Seq<u8>, Seq<u8>>) -> GitModel {
        GitModel { objects, ..self }
    }

    /// `init`: a repository that has no current branch yet gets `master`
    /// and says so; one that has a current branch refuses.
    pub open spec fn init(self) -> Ran {
        if self.head is None {
            Ran {
                outcome: Ok(()),
                git: (GitModel { head: Some(initial_head()), ..self }).printed(
                    utf8("Initialized git directory\n"@),
                ),
            }
        } else {
            Ran { outcome: Err(GitError::StorageIo), git: self }
        }
    }

    /// `hash_object`: the digest of the blob is printed in hexadecimal,
    /// without a line feed. With `write` the blob is stored first, and
    /// nothing is printed if that fails.
    pub open spec fn hash_object(self, write: bool, file: Seq<u8>) -> Ran {
        let hex = utf8(hex_lower(object_digest(ObjectType::Blob, file)));
        if !write {
            Ran { outcome: Ok(()), git: self.printed(hex) }
        } else {
            let stored = self.storing(put_store(self.objects, ObjectType::Blob, file));
            match put_digest(ObjectType::Blob, file) {
                Ok(_) => Ran { outcome: Ok(()), git: stored.printed(hex) },
                Err(e) => Ran { outcome: Err(e), git: stored },
            }
        }
    }

    /// `cat_file`: the content of the blob is printed as it is. An object
    /// that is no blob is refused.
    pub open spec fn cat_file(self, object_hash: Seq<char>) -> Ran {
        match fetched_hex(self.objects, object_hash) {
            Err(e) => Ran { outcome: Err(e), git: self },
            Ok(object) => if object.object_type == ObjectType::Blob {
                Ran { outcome: Ok(()), git: self.printed(object.content) }
            } else {
                Ran { outcome: Err(GitError::WrongObjectType), git: self }
            },
        }
    }

    /// `ls_tree`: the listing of the tree is printed.
    pub open spec fn ls_tree(self, name_only: bool, tree_sha: Seq<char>) -> Ran {
        match tree_at(self.objects, tree_sha) {
            Err(e) => Ran { outcome: Err(e), git: self },
            Ok(entries) => Ran { outcome: Ok(()), git: self.printed(listing(entries, name_only)) },
        }
    }

    /// `write_tree`: the directory is assembled into the store, and the
    /// digest of its tree is printed on a line. A directory that
    /// contributes nothing is refused.
    pub open spec fn write_tree(self, root: Directory) -> Ran {
        let stored = self.storing(tree_store(self.objects, self.dot_git_name, root));
        match tree_digest(self.dot_git_name, root) {
            Err(e) => Ran { outcome: Err(e), git: stored },
            Ok(None) => Ran { outcome: Err(GitError::EmptyTree), git: stored },
            Ok(Some(digest)) => Ran { outcome: Ok(()), git: stored.printed(digest_line(digest)) },
        }
    }

    /// `commit_tree`: the commit is stored, and its digest is printed on a
    /// line.
    pub open spec fn commit_tree(
        self,
        message: Seq<char>,
        tree_hash: Seq<char>,
        parent_hash: Option<Seq<char>>,
        who: Signature,
        timestamp: u64,
    ) -> Ran {
        let text = commit_of(message, tree_hash, parent_hash, who, timestamp).text();
        let stored = self.storing(put_store(self.objects, ObjectType::Commit, text));
        match put_digest(ObjectType::Commit, text) {
            Err(e) => Ran { outcome: Err(e), git: stored },
            Ok(digest) => Ran { outcome: Ok(()), git: stored.printed(digest_line(digest)) },
        }
    }

    /// `commit`: the commit step is taken on the current branch, and the
    /// digest of the commit is printed on a line. Where there is nothing to
    /// commit, that is reported beside the result and nothing is printed.
    /// Without a pointer to a current branch the command fails.
    pub open spec fn commit(
        self,
        root: Directory,
        message: Seq<char>,
        who: Signature,
        timestamp: u64,
    ) -> Ran {
        match self.head {
            None => Ran { outcome: Err(GitError::StorageIo), git: self },
            Some(head) => {
                let done = committed(
                    self.objects,
                    head,
                    self.refs,
                    self.dot_git_name,
                    root,
                    message,
                    who,
                    timestamp,
                );
                let after = GitModel { objects: done.store, refs: done.refs, ..self };
                match done.outcome {
                    Err(e) => Ran { outcome: Err(e), git: after },
                    Ok(None) => Ran {
                        outcome: Ok(()),
                        git: after.reported(utf8("not committing empty tree\n"@)),
                    },
                    Ok(Some(digest)) => Ran {
                        outcome: Ok(()),
                        git: after.printed(digest_line(digest)),
                    },
                }
            },
        }
    }
}

/// One line of a listing: the name alone, or mode, type, digest, a tab and
/// the name.
pub open spec fn listing_line(entry: TreeEntryModel, name_only: bool) -> Seq<u8> {
    if name_only {
        utf8(entry.name) + seq![LINE_FEED]
    } else {
        entry.mode.display_text() + seq![SPACE] + entry.entry_type().name() + seq![SPACE] + utf8(
            entry.sha,
        ) + seq![TAB] + utf8(entry.name) + seq![LINE_FEED]
    }
}

/// The listing of a tree: one line for each entry, in stored order.
pub open spec fn listing(entries: Seq<TreeEntryModel>, name_only: bool) -> Seq<u8>
    decreases entries.len(),
{
    if entries.len() == 0 {
        Seq::empty()
    } else {
        listing(entries.drop_last(), name_only) + listing_line(entries.last(), name_only)
    }
}

/// Writes one line of a listing.
pub fn list_entry(entry: &TreeEntry, name_only: bool) -> (line: Vec<u8>)
    ensures
        line@ == listing_line(entry@, name_only),
{
    let mut line: Vec<u8> = Vec::new();
    if !name_only {
        let mut mode = entry.mode.display_bytes();
        line.append(&mut mode);
        line.push(SPACE);
        let mut kind = entry.tree_entry_type().name_bytes();
        line.append(&mut kind);
        line.push(SPACE);
        line.extend_from_slice(entry.sha.as_str().as_bytes());
        line.push(TAB);
    }
    line.extend_from_slice(entry.name.as_str().as_bytes());
    line.push(LINE_FEED);
    assert(line@ =~= listing_line(entry@, name_only));
    line
}

/// Writes the listing of a tree.
pub fn list_tree(tree: &Tree, name_only: bool) -> (text: Vec<u8>)
    ensures
        text@ == listing(tree@, name_only),
{
    let mut text: Vec<u8> = Vec::new();
    let mut i: usize = 0;
    assert(tree@.take(0) =~= Seq::<TreeEntryModel>::empty());
    while i < tree.entries.len()
        invariant
            i <= tree.entries@.len(),
            text@ == listing(tree@.take(i as int), name_only),
        decreases tree.entries@.len() - i,
    {
        let mut line = list_entry(&tree.entries[i], name_only);
        proof {
            let upto = tree@.take(i + 1);
            assert(upto.drop_last() =~= tree@.take(i as int));
            assert(upto.last() == tree.entries@[i as int]@);
        }
        text.append(&mut line);
        i = i + 1;
    }
    assert(tree@.take(tree.entries@.len() as int) =~= tree@);
    text
}

impl Git {
    /// A handle on a repository that is not initialised yet.
    pub fn new(config: Config) -> (git: Git)
        ensures
            git.config == config,
            git.head is None,
            git.refs@ == Map::<Seq<u8>, Seq<u8>>::empty(),
            git.objects@ == Map::<Seq<u8>, Seq<u8>>::empty(),
    {
        Git { config, head: None, refs: RefStore::new(), objects: ObjectStore::new() }
    }

    /// Initialises the repository: the current branch is `master`, and no
    /// commit is on it. A repository that is initialised already is left
    /// as it is, and the command fails.
    pub fn init(&mut self) -> (out: Result<(), GitError>)
        ensures
            out == old(self)@.init().outcome,
            final(self)@ == old(self)@.init().git,
    {
        if self.head.is_some() {
            return Err(GitError::StorageIo);
        }
        self.head = Some(vstd::slice::slice_to_vec("ref: refs/heads/master\n".as_bytes()));
        self.config.writer.extend_from_slice("Initialized git directory\n".as_bytes());
        assert(self.config.writer@ =~= old(self).config.writer@ + utf8(
            "Initialized git directory\n"@,
        ));
        Ok(())
    }

    /// Prints the digest of the blob that holds `file`, in hexadecimal.
    /// With `write` the blob is stored as well.
    pub fn hash_object(&mut self, write: &bool, file: &[u8]) -> (out: Result<(), GitError>)
        ensures
            out == old(self)@.hash_object(*write, file@).outcome,
            final(self)@ == old(self)@.hash_object(*write, file@).git,
    {
        let hash = if *write {
            match self.objects.put(ObjectType::Blob, file) {
                Ok(hash) => hash,
                Err(e) => {
                    return Err(e);
                },
            }
        } else {
            ObjectStore::put_sink(ObjectType::Blob, file)
        };
        let hex = digest_to_hex(&hash);
        self.config.writer.extend_from_slice(hex.as_str().as_bytes());
        assert(self.config.writer@ =~= old(self).config.writer@ + utf8(hex@));
        Ok(())
    }

    /// Prints the content of the blob stored under the digest that
    /// `object_hash` names.
    pub fn cat_file(&mut self, _pretty_print: &bool, object_hash: &str) -> (out: Result<
        (),
        GitError,
    >)
        ensures
            out == old(self)@.cat_file(object_hash@).outcome,
            final(self)@ == old(self)@.cat_file(object_hash@).git,
    {
        let mut object = match self.objects.get_hex(object_hash) {
            Ok(object) => object,
            Err(e) => {
                return Err(e);
            },
        };
        match object.object_type {
            ObjectType::Blob => {
                self.config.writer.append(&mut object.content);
                Ok(())
            },
            _ => Err(GitError::WrongObjectType),
        }
    }

    /// Prints the entries of the tree stored under the digest that
    /// `tree_sha` names, one on each line, in stored order.
    pub fn ls_tree(&mut self, name_only: &bool, tree_sha: &str) -> (out: Result<(), GitError>)
        ensures
            out == old(self)@.ls_tree(*name_only, tree_sha@).outcome,
            final(self)@ == old(self)@.ls_tree(*name_only, tree_sha@).git,
    {
        let tree = match build_tree(&self.objects, tree_sha) {
            Ok(tree) => tree,
            Err(e) => {
                return Err(e);
            },
        };
        let mut text = list_tree(&tree, *name_only);
        self.config.writer.append(&mut text);
        Ok(())
    }

    /// Snapshots the directory `root` and prints the digest of its tree on
    /// a line. A directory that contributes nothing is refused.
    pub fn write_tree(&mut self, root: &Directory) -> (out: Result<(), GitError>)
        ensures
            out == old(self)@.write_tree(*root).outcome,
            final(self)@ == old(self)@.write_tree(*root).git,
    {
        let hash = match write_tree_for(
            &mut self.objects,
            self.config.dot_git_name.as_str(),
            root,
        ) {
            Ok(Some(hash)) => hash,
            Ok(None) => {
                return Err(GitError::EmptyTree);
            },
            Err(e) => {
                return Err(e);
            },
        };
        self.print_digest(&hash);
        Ok(())
    }

    /// Stores a commit of the tree `tree_hash` on top of `parent_hash` and
    /// prints its digest on a line.
    pub fn commit_tree(
        &mut self,
        message: &str,
        tree_hash: &str,
        parent_hash: Option<&str>,
        who: &Signature,
        timestamp: u64,
    ) -> (out: Result<(), GitError>)
        ensures
            out == old(self)@.commit_tree(
                message@,
                tree_hash@,
                text_view(parent_hash),
                *who,
                timestamp,
            ).outcome,
            final(self)@ == old(self)@.commit_tree(
                message@,
                tree_hash@,
                text_view(parent_hash),
                *who,
                timestamp,
            ).git,
    {
        let hash = match commit_tree(
            &mut self.objects,
            message,
            tree_hash,
            parent_hash,
            who,
            timestamp,
        ) {
            Ok(Some(hash)) => hash,
            Ok(None) => {
                return Err(GitError::EmptyTree);
            },
            Err(e) => {
                return Err(e);
            },
        };
        self.print_digest(&hash);
        Ok(())
    }

    /// Snapshots the directory `root`, commits the snapshot on top of the
    /// current branch, advances the branch, and prints the digest of the
    /// commit on a line. Where there is nothing to commit, that is
    /// reported beside the result, nothing is printed, and the branch stays
    /// where it is. A repository that is not initialised has no current
    /// branch to commit to.
    pub fn commit(&mut self, root: &Directory, message: &str, who: &Signature, timestamp: u64) -> (out:
        Result<(), GitError>)
        ensures
            out == old(self)@.commit(*root, message@, *who, timestamp).outcome,
            final(self)@ == old(self)@.commit(*root, message@, *who, timestamp).git,
    {
        let done = match &self.head {
            Some(head) => commit(
                &mut self.objects,
                head.as_slice(),
                &mut self.refs,
                self.config.dot_git_name.as_str(),
                root,
                message,
                who,
                timestamp,
            ),
            None => {
                return Err(GitError::StorageIo);
            },
        };
        match done {
            Ok(Some(hash)) => {
                self.print_digest(&hash);
                Ok(())
            },
            Ok(None) => {
                self.config.error_writer.extend_from_slice(
                    "not committing empty tree\n".as_bytes(),
                );
                assert(self.config.error_writer@ =~= old(self).config.error_writer@ + utf8(
                    "not committing empty tree\n"@,
                ));
                Ok(())
            },
            Err(e) => Err(e),
        }
    }

    /// Prints a digest on a line of its own.
    fn print_digest(&mut self, hash: &[u8; 20])
        ensures
            final(self)@ == old(self)@.printed(digest_line(hash@)),
    {
        let hex = digest_to_hex(hash);
        self.config.writer.extend_from_slice(hex.as_str().as_bytes());
        self.config.writer.push(LINE_FEED);
        assert(self.config.writer@ =~= old(self).config.writer@ + digest_line(hash@));
    }
}

} // verus!
