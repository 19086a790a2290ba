//! Assembling a directory into tree objects, bottom-up.
//!
//! Every file becomes a blob and every directory a tree of its surviving
//! children. A child survives unless it bears the reserved name or is a
//! directory that contributes nothing; a directory without survivors
//! contributes nothing itself and leaves no object behind.
use crate::digest::{hex_lower, lemma_hex_round_trip};
use crate::error::GitError;
use crate::object::ObjectType;
use crate::snapshot::{all_readable, lemma_tree_round_trip, listed_all, readable};
use crate::tree::{tree_at, TreeEntryModel};
use crate::order::{
    all_keyed, builder_of, canonical_order, lemma_canonical_order_permutes, models, sort_entries,
    HashedEntry, HashedModel, TreeEntryBytesBuilder,
};
use crate::store::{put_digest, put_store, ObjectStore};
use crate::worktree::{Contents, DirEntry, Directory};
use vstd::prelude::*;

verus! {

/// The content of the tree object that holds `entries`: their binary forms,
/// one after the other.
pub open spec fn tree_bytes(entries: Seq<HashedModel>) -> Seq<u8>
    decreases entries.len(),
{
    if entries.len() == 0 {
        Seq::empty()
    } else {
        tree_bytes(entries.drop_last()) + entries.last().builder.raw(entries.last().hash)
    }
}

/// The tree entry for the directory entry `entry` whose child has the
/// digest `digest`.
pub open spec fn hashed(entry: DirEntry, digest: Seq<u8>) -> HashedModel {
    HashedModel { builder: builder_of(entry), hash: digest }
}

/// The digest of a stored object, if one was stored.
pub open spec fn stored_as(digest: Result<Seq<u8>, GitError>) -> Result<Option<Seq<u8>>, GitError> {
    match digest {
        Ok(d) => Ok(Some(d)),
        Err(e) => Err(e),
    }
}

/// The digest of the tree object that holds `entries`, or `None` where
/// there is nothing to hold.
pub open spec fn tree_of(entries: Seq<HashedModel>) -> Result<Option<Seq<u8>>, GitError> {
    let content = tree_bytes(canonical_order(entries));
    if content.len() == 0 {
        Ok(None)
    } else {
        stored_as(put_digest(ObjectType::Tree, content))
    }
}

/// What the directory `dir` assembles to: the digest of its tree object, or
/// `None` where no child survives. `reserved` is the name of the metadata
/// directory, which no snapshot includes.
pub open spec fn tree_digest(reserved: Seq<char>, dir: Directory) -> Result<
    Option<Seq<u8>>,
    GitError,
>
    decreases dir,
{
    match survivors(reserved, dir.entries@) {
        Err(e) => Err(e),
        Ok(entries) => tree_of(entries),
    }
}

/// The children that survive, in listed order, each with the digest of
/// what it holds. The first failure ends the walk.
pub open spec fn survivors(reserved: Seq<char>, children: Seq<DirEntry>) -> Result<
    Seq<HashedModel>,
    GitError,
>
    decreases children,
{
    if children.len() == 0 {
        Ok(Seq::empty())
    } else {
        match survivors(reserved, children.drop_last()) {
            Err(e) => Err(e),
            Ok(entries) => match entry_digest(reserved, children.last()) {
                Err(e) => Err(e),
                Ok(None) => Ok(entries),
                Ok(Some(digest)) => Ok(entries.push(hashed(children.last(), digest))),
            },
        }
    }
}

/// What one child contributes: nothing under the reserved name, the tree
/// of a directory, the blob of a file. An entry whose metadata disagrees
/// with what it holds cannot be read.
pub open spec fn entry_digest(reserved: Seq<char>, entry: DirEntry) -> Result<
    Option<Seq<u8>>,
    GitError,
>
    decreases entry,
{
    if entry.name@ == reserved {
        Ok(None)
    } else {
        match entry.contents {
            Contents::Directory(dir) => if entry.metadata.is_dir {
                tree_digest(reserved, dir)
            } else {
                Err(GitError::StorageIo)
            },
            Contents::File(content) => if entry.metadata.is_dir {
                Err(GitError::StorageIo)
            } else {
                stored_as(put_digest(ObjectType::Blob, content@))
            },
        }
    }
}

/// The store after `dir` was assembled into it.
pub open spec fn tree_store(store: Map<Seq<u8>, Seq<u8>>, reserved: Seq<char>, dir: Directory) -> Map<
    Seq<u8>,
    Seq<u8>,
>
    decreases dir,
{
    let kept = children_store(store, reserved, dir.entries@);
    match survivors(reserved, dir.entries@) {
        Err(_) => kept,
        Ok(entries) => {
            let content = tree_bytes(canonical_order(entries));
            if content.len() == 0 {
                kept
            } else {
                put_store(kept, ObjectType::Tree, content)
            }
        },
    }
}

/// The store after the children were assembled into it, one after the
/// other, up to the first failure.
pub open spec fn children_store(
    store: Map<Seq<u8>, Seq<u8>>,
    reserved: Seq<char>,
    children: Seq<DirEntry>,
) -> Map<Seq<u8>, Seq<u8>>
    decreases children,
{
    if children.len() == 0 {
        store
    } else {
        let kept = children_store(store, reserved, children.drop_last());
        if survivors(reserved, children.drop_last()) is Err {
            kept
        } else {
            entry_store(kept, reserved, children.last())
        }
    }
}

/// The store after one child was assembled into it.
pub open spec fn entry_store(store: Map<Seq<u8>, Seq<u8>>, reserved: Seq<char>, entry: DirEntry) -> Map<
    Seq<u8>,
    Seq<u8>,
>
    decreases entry,
{
    if entry.name@ == reserved {
        store
    } else {
        match entry.contents {
            Contents::Directory(dir) => if entry.metadata.is_dir {
                tree_store(store, reserved, dir)
            } else {
                store
            },
            Contents::File(content) => if entry.metadata.is_dir {
                store
            } else {
                put_store(store, ObjectType::Blob, content@)
            },
        }
    }
}

/// A digest as a value.
pub open spec fn digest_view(out: Result<Option<[u8; 20]>, GitError>) -> Result<
    Option<Seq<u8>>,
    GitError,
> {
    match out {
        Ok(Some(digest)) => Ok(Some(digest@)),
        Ok(None) => Ok(None),
        Err(e) => Err(e),
    }
}

/// Every entry can be serialised.
pub open spec fn all_complete(entries: Seq<HashedModel>) -> bool {
    forall|i: int| 0 <= i < entries.len() ==> (#[trigger] entries[i]).builder.complete()
}

/// Once a child has failed, the walk has failed, and the store is as that
/// child left it.
pub proof fn lemma_failure_ends_walk(
    store: Map<Seq<u8>, Seq<u8>>,
    reserved: Seq<char>,
    children: Seq<DirEntry>,
    upto: int,
)
    requires
        0 <= upto <= children.len(),
        survivors(reserved, children.take(upto)) is Err,
    ensures
        survivors(reserved, children) == survivors(reserved, children.take(upto)),
        children_store(store, reserved, children) == children_store(
            store,
            reserved,
            children.take(upto),
        ),
    decreases children.len(),
{
    if upto < children.len() {
        assert(children.drop_last().take(upto) =~= children.take(upto));
        lemma_failure_ends_walk(store, reserved, children.drop_last(), upto);
    } else {
        assert(children.take(upto) =~= children);
    }
}

/// Writes the entries of a tree one after the other.
pub fn concat_entries(entries: &Vec<HashedEntry>) -> (out: Result<Vec<u8>, GitError>)
    ensures
        all_complete(models(entries@)) ==> out is Ok && out->Ok_0@ == tree_bytes(
            models(entries@),
        ),
        !all_complete(models(entries@)) ==> out == Err::<Vec<u8>, GitError>(
            GitError::MissingField,
        ),
{
    let mut tree_object: Vec<u8> = Vec::new();
    let mut i: usize = 0;
    assert(models(entries@).take(0) =~= Seq::<HashedModel>::empty());
    while i < entries.len()
        invariant
            i <= entries@.len(),
            all_complete(models(entries@).take(i as int)),
            tree_object@ == tree_bytes(models(entries@).take(i as int)),
        decreases entries@.len() - i,
    {
        let entry = &entries[i];
        let ghost upto = models(entries@).take(i + 1);
        proof {
            assert(upto.drop_last() =~= models(entries@).take(i as int));
            assert(upto.last() == entry@);
            assert(models(entries@)[i as int] == entry@);
        }
        match entry.builder.to_raw_bytes(entry.hash) {
            Ok(mut raw) => {
                tree_object.append(&mut raw);
            },
            Err(e) => {
                return Err(e);
            },
        }
        proof {
            assert forall|j: int| 0 <= j < upto.len() implies (#[trigger] upto[j]).builder.complete() by {
                if j < i {
                    assert(upto[j] == models(entries@).take(i as int)[j]);
                }
            }
        }
        i = i + 1;
    }
    assert(models(entries@).take(entries@.len() as int) =~= models(entries@));
    Ok(tree_object)
}

/// The store after the tree object that holds `entries` was written, if
/// there is anything to hold.
pub open spec fn sealed_store(store: Map<Seq<u8>, Seq<u8>>, entries: Seq<HashedModel>) -> Map<
    Seq<u8>,
    Seq<u8>,
> {
    let content = tree_bytes(canonical_order(entries));
    if content.len() == 0 {
        store
    } else {
        put_store(store, ObjectType::Tree, content)
    }
}

/// Orders the surviving entries of a directory and stores the tree object
/// that holds them. Without entries nothing is stored and `None` is
/// returned.
///
/// What was written reads back as the entries in canonical order, unless
/// the digest was taken before or a name holds a nul.
pub fn write_entries(store: &mut ObjectStore, entries: Vec<HashedEntry>) -> (out: Result<
    Option<[u8; 20]>,
    GitError,
>)
    requires
        all_keyed(models(entries@)),
        all_complete(models(entries@)),
    ensures
        digest_view(out) == tree_of(models(entries@)),
        final(store)@ == sealed_store(old(store)@, models(entries@)),
        out matches Ok(Some(digest)) ==> all_readable(models(entries@)) && !old(
            store)@.contains_key(digest@) ==> tree_at(final(store)@, hex_lower(digest@)) == Ok::<
            Seq<TreeEntryModel>,
            GitError,
        >(listed_all(canonical_order(models(entries@)))),
{
    let ghost gathered = models(entries@);
    let mut entries = entries;
    sort_entries(&mut entries);
    proof {
        lemma_canonical_order_permutes(gathered);
        let sorted = models(entries@);
        assert forall|j: int| 0 <= j < sorted.len() implies (#[trigger] sorted[j]).builder.complete() by {
            assert(gathered.contains(sorted[j]));
        }
        if all_readable(gathered) {
            assert forall|j: int| 0 <= j < sorted.len() implies readable(#[trigger] sorted[j]) by {
                assert(gathered.contains(sorted[j]));
            }
            lemma_tree_round_trip(sorted);
        }
    }
    let tree_object = match concat_entries(&entries) {
        Ok(tree_object) => tree_object,
        Err(e) => {
            return Err(e);
        },
    };
    if tree_object.len() == 0 {
        Ok(None)
    } else {
        match store.put(ObjectType::Tree, tree_object.as_slice()) {
            Ok(digest) => {
                proof {
                    lemma_hex_round_trip(digest@, hex_lower(digest@));
                }
                Ok(Some(digest))
            },
            Err(e) => Err(e),
        }
    }
}

/// What one child adds to the tree of its parent: its entry with the
/// digest of what it holds, or nothing.
pub open spec fn entry_of(reserved: Seq<char>, entry: DirEntry) -> Result<
    Option<HashedModel>,
    GitError,
> {
    match entry_digest(reserved, entry) {
        Ok(Some(digest)) => Ok(Some(hashed(entry, digest))),
        Ok(None) => Ok(None),
        Err(e) => Err(e),
    }
}

/// An optional entry as a value.
pub open spec fn entry_view(out: Result<Option<HashedEntry>, GitError>) -> Result<
    Option<HashedModel>,
    GitError,
> {
    match out {
        Ok(Some(entry)) => Ok(Some(entry@)),
        Ok(None) => Ok(None),
        Err(e) => Err(e),
    }
}

/// Snapshots one child of a directory into `store` and returns its tree
/// entry, or `None` where it contributes nothing.
pub fn write_entry(store: &mut ObjectStore, dot_git_name: &str, entry: &DirEntry) -> (out: Result<
    Option<HashedEntry>,
    GitError,
>)
    ensures
        entry_view(out) == entry_of(dot_git_name@, *entry),
        final(store)@ == entry_store(old(store)@, dot_git_name@, *entry),
    decreases entry,
{
    let builder = TreeEntryBytesBuilder::default().dir_entry(entry);
    if builder.is_dot_git_entry(dot_git_name) {
        return Ok(None);
    }
    let found = match &entry.contents {
        Contents::Directory(sub) => if builder.is_dir() {
            write_tree_for(store, dot_git_name, sub)
        } else {
            Err(GitError::StorageIo)
        },
        Contents::File(content) => if builder.is_dir() {
            Err(GitError::StorageIo)
        } else {
            match store.put(ObjectType::Blob, content.as_slice()) {
                Ok(digest) => Ok(Some(digest)),
                Err(e) => Err(e),
            }
        },
    };
    match found {
        Ok(Some(hash)) => Ok(Some(HashedEntry { builder, hash })),
        Ok(None) => Ok(None),
        Err(e) => Err(e),
    }
}

/// Snapshots the directory `dir` into `store` and returns the digest of its
/// tree, or `None` where the directory contributes nothing.
///
/// The children are visited in listed order and each is stored before the
/// tree that names it. The digest depends on the directory alone, not on
/// what the store held before.
pub fn write_tree_for(store: &mut ObjectStore, dot_git_name: &str, dir: &Directory) -> (out: Result<
    Option<[u8; 20]>,
    GitError,
>)
    ensures
        digest_view(out) == tree_digest(dot_git_name@, *dir),
        final(store)@ == tree_store(old(store)@, dot_git_name@, *dir),
    decreases dir,
{
    let ghost reserved = dot_git_name@;
    let ghost initial = store@;
    let ghost children = dir.entries@;
    let mut entries: Vec<HashedEntry> = Vec::new();
    let mut i: usize = 0;
    assert(children.take(0) =~= Seq::<DirEntry>::empty());
    assert(models(entries@) =~= Seq::<HashedModel>::empty());
    while i < dir.entries.len()
        invariant
            i <= children.len(),
            children == dir.entries@,
            reserved == dot_git_name@,
            initial == old(store)@,
            survivors(reserved, children.take(i as int)) == Ok::<Seq<HashedModel>, GitError>(
                models(entries@),
            ),
            store@ == children_store(initial, reserved, children.take(i as int)),
            all_keyed(models(entries@)),
            all_complete(models(entries@)),
        decreases children.len() - i,
    {
        let entry = &dir.entries[i];
        let ghost upto = children.take(i + 1);
        let ghost before = models(entries@);
        proof {
            assert(upto.drop_last() =~= children.take(i as int));
            assert(upto.last() == *entry);
        }
        match write_entry(store, dot_git_name, entry) {
            Err(e) => {
                proof {
                    assert(survivors(reserved, upto) == Err::<Seq<HashedModel>, GitError>(e));
                    assert(store@ == children_store(initial, reserved, upto));
                    lemma_failure_ends_walk(initial, reserved, children, i + 1);
                }
                return Err(e);
            },
            Ok(None) => {
                assert(survivors(reserved, upto) == Ok::<Seq<HashedModel>, GitError>(before));
            },
            Ok(Some(hashed_entry)) => {
                let ghost model = hashed_entry@;
                entries.push(hashed_entry);
                proof {
                    assert(models(entries@) =~= before.push(model));
                    assert(survivors(reserved, upto) == Ok::<Seq<HashedModel>, GitError>(
                        before.push(model),
                    ));
                }
            },
        }
        assert(store@ == children_store(initial, reserved, upto));
        i = i + 1;
    }
    assert(children.take(children.len() as int) =~= children);
    write_entries(store, entries)
}

} // verus!
