//! What holds of snapshots.
//!
//! A directory that holds only empty directories leaves no trace. Assembling
//! a directory again changes nothing. Once a directory is assembled, the
//! store holds every object that its tree names. And the content of a tree
//! object reads back as the entries it was written from.
use crate::ascii::lemma_find_unique;
use crate::assemble::{
    children_store, entry_digest, entry_store, hashed, stored_as, survivors, tree_bytes,
    tree_digest, tree_store,
};
use crate::digest::hex_lower;
use crate::error::GitError;
use crate::object::{ObjectType, NUL, SPACE};
use crate::order::{canonical_order, lemma_canonical_order_permutes, HashedModel};
use crate::store::{put_digest, put_store};
use crate::tree::{entry_len, first_entry, lemma_mode_round_trip, parse_tree, TreeEntryModel};
use crate::worktree::{Contents, DirEntry, Directory};
use vstd::prelude::*;

verus! {

/// The directory holds nothing that a snapshot keeps: each of its children
/// bears the reserved name or is a directory of that kind itself.
pub open spec fn hollow(reserved: Seq<char>, dir: Directory) -> bool
    decreases dir,
{
    all_hollow(reserved, dir.entries@)
}

/// Each of the children bears the reserved name or is a hollow directory.
pub open spec fn all_hollow(reserved: Seq<char>, children: Seq<DirEntry>) -> bool
    decreases children,
{
    children.len() == 0 || (all_hollow(reserved, children.drop_last()) && entry_hollow(
        reserved,
        children.last(),
    ))
}

/// The child bears the reserved name or is a hollow directory.
pub open spec fn entry_hollow(reserved: Seq<char>, entry: DirEntry) -> bool
    decreases entry,
{
    entry.name@ == reserved || (entry.metadata.is_dir && match entry.contents {
        Contents::Directory(dir) => hollow(reserved, dir),
        Contents::File(_) => false,
    })
}

/// Empty-subtree elision: a directory that holds only empty directories,
/// at whatever depth, assembles to `None`, and nothing is stored for it.
pub proof fn lemma_hollow_directory(store: Map<Seq<u8>, Seq<u8>>, reserved: Seq<char>, dir: Directory)
    requires
        hollow(reserved, dir),
    ensures
        tree_digest(reserved, dir) == Ok::<Option<Seq<u8>>, GitError>(None),
        tree_store(store, reserved, dir) == store,
    decreases dir,
{
    lemma_hollow_children(store, reserved, dir.entries@);
    assert(canonical_order(Seq::<HashedModel>::empty()) =~= Seq::<HashedModel>::empty());
}

/// Of children that are all hollow none survives, and nothing is stored
/// for them.
pub proof fn lemma_hollow_children(
    store: Map<Seq<u8>, Seq<u8>>,
    reserved: Seq<char>,
    children: Seq<DirEntry>,
)
    requires
        all_hollow(reserved, children),
    ensures
        survivors(reserved, children) == Ok::<Seq<HashedModel>, GitError>(Seq::empty()),
        children_store(store, reserved, children) == store,
    decreases children,
{
    if children.len() > 0 {
        lemma_hollow_children(store, reserved, children.drop_last());
        lemma_hollow_entry(store, reserved, children.last());
    }
}

/// A hollow child is left out of its parent, and nothing is stored for it.
pub proof fn lemma_hollow_entry(store: Map<Seq<u8>, Seq<u8>>, reserved: Seq<char>, entry: DirEntry)
    requires
        entry_hollow(reserved, entry),
    ensures
        entry_digest(reserved, entry) == Ok::<Option<Seq<u8>>, GitError>(None),
        entry_store(store, reserved, entry) == store,
    decreases entry,
{
    if entry.name@ != reserved {
        match entry.contents {
            Contents::Directory(dir) => {
                lemma_hollow_directory(store, reserved, dir);
            },
            Contents::File(_) => {},
        }
    }
}

/// A tree object holds at least one byte for each of its entries.
pub proof fn lemma_tree_bytes_len(entries: Seq<HashedModel>)
    ensures
        tree_bytes(entries).len() >= entries.len(),
    decreases entries.len(),
{
    if entries.len() > 0 {
        lemma_tree_bytes_len(entries.drop_last());
    }
}

/// A directory assembles to `None` only where no child survives: whatever
/// survives is named in the tree. And where nothing fails, the walk stores
/// an object only where something survives.
pub proof fn lemma_none_means_no_survivor(reserved: Seq<char>, dir: Directory)
    requires
        tree_digest(reserved, dir) == Ok::<Option<Seq<u8>>, GitError>(None),
    ensures
        survivors(reserved, dir.entries@) == Ok::<Seq<HashedModel>, GitError>(Seq::empty()),
{
    let entries = survivors(reserved, dir.entries@)->Ok_0;
    lemma_canonical_order_permutes(entries);
    lemma_tree_bytes_len(canonical_order(entries));
    assert(entries =~= Seq::<HashedModel>::empty());
}

/// A directory assembles to `None` only if it is hollow.
pub proof fn lemma_none_is_hollow(reserved: Seq<char>, dir: Directory)
    requires
        tree_digest(reserved, dir) == Ok::<Option<Seq<u8>>, GitError>(None),
    ensures
        hollow(reserved, dir),
    decreases dir,
{
    lemma_none_means_no_survivor(reserved, dir);
    lemma_no_survivor_is_hollow(reserved, dir.entries@);
}

/// Children of which none survives are all hollow.
pub proof fn lemma_no_survivor_is_hollow(reserved: Seq<char>, children: Seq<DirEntry>)
    requires
        survivors(reserved, children) == Ok::<Seq<HashedModel>, GitError>(Seq::empty()),
    ensures
        all_hollow(reserved, children),
    decreases children,
{
    if children.len() > 0 {
        let front = survivors(reserved, children.drop_last())->Ok_0;
        let last = children.last();
        if let Ok(Some(digest)) = entry_digest(reserved, last) {
            assert(front.push(hashed(last, digest)).len() > 0);
        }
        assert(front =~= Seq::<HashedModel>::empty());
        assert(entry_digest(reserved, last) == Ok::<Option<Seq<u8>>, GitError>(None));
        lemma_no_survivor_is_hollow(reserved, children.drop_last());
        if last.name@ != reserved {
            match last.contents {
                Contents::Directory(dir) => {
                    assert(last.metadata.is_dir);
                    lemma_none_is_hollow(reserved, dir);
                },
                Contents::File(content) => {
                    assert(last.metadata.is_dir || stored_as(
                        put_digest(ObjectType::Blob, content@),
                    ) != Ok::<Option<Seq<u8>>, GitError>(None));
                },
            }
        }
        assert(entry_hollow(reserved, last));
    }
}

/// The store only grows while a directory is assembled into it: what it
/// held before, it holds after, unchanged.
pub proof fn lemma_tree_store_grows(store: Map<Seq<u8>, Seq<u8>>, reserved: Seq<char>, dir: Directory)
    ensures
        store.submap_of(tree_store(store, reserved, dir)),
    decreases dir,
{
    let kept = children_store(store, reserved, dir.entries@);
    lemma_children_store_grows(store, reserved, dir.entries@);
    assert(kept.submap_of(tree_store(store, reserved, dir)));
    vstd::map_lib::lemma_submap_of_trans(store, kept, tree_store(store, reserved, dir));
}

/// The store only grows while children are assembled into it.
pub proof fn lemma_children_store_grows(
    store: Map<Seq<u8>, Seq<u8>>,
    reserved: Seq<char>,
    children: Seq<DirEntry>,
)
    ensures
        store.submap_of(children_store(store, reserved, children)),
    decreases children,
{
    if children.len() > 0 {
        let kept = children_store(store, reserved, children.drop_last());
        lemma_children_store_grows(store, reserved, children.drop_last());
        lemma_entry_store_grows(kept, reserved, children.last());
        if survivors(reserved, children.drop_last()) is Ok {
            vstd::map_lib::lemma_submap_of_trans(store, kept, entry_store(kept, reserved, children.last()));
        }
    }
}

/// The store only grows while one child is assembled into it.
pub proof fn lemma_entry_store_grows(
    store: Map<Seq<u8>, Seq<u8>>,
    reserved: Seq<char>,
    entry: DirEntry,
)
    ensures
        store.submap_of(entry_store(store, reserved, entry)),
    decreases entry,
{
    match entry.contents {
        Contents::Directory(dir) => {
            lemma_tree_store_grows(store, reserved, dir);
        },
        Contents::File(_) => {},
    }
}

/// A store that holds all that assembling `dir` has stored is left as it
/// is when `dir` is assembled into it.
pub proof fn lemma_tree_store_absorbs(
    store: Map<Seq<u8>, Seq<u8>>,
    later: Map<Seq<u8>, Seq<u8>>,
    reserved: Seq<char>,
    dir: Directory,
)
    requires
        tree_store(store, reserved, dir).submap_of(later),
    ensures
        tree_store(later, reserved, dir) == later,
    decreases dir,
{
    let kept = children_store(store, reserved, dir.entries@);
    assert(kept.submap_of(tree_store(store, reserved, dir)));
    vstd::map_lib::lemma_submap_of_trans(kept, tree_store(store, reserved, dir), later);
    lemma_children_store_absorbs(store, later, reserved, dir.entries@);
    if let Ok(entries) = survivors(reserved, dir.entries@) {
        let content = tree_bytes(canonical_order(entries));
        if content.len() != 0 {
            if let Ok(digest) = put_digest(ObjectType::Tree, content) {
                assert(put_store(kept, ObjectType::Tree, content).contains_key(digest));
                assert(later.contains_key(digest));
            }
        }
    }
}

/// A store that holds all that assembling the children has stored is left
/// as it is when they are assembled into it.
pub proof fn lemma_children_store_absorbs(
    store: Map<Seq<u8>, Seq<u8>>,
    later: Map<Seq<u8>, Seq<u8>>,
    reserved: Seq<char>,
    children: Seq<DirEntry>,
)
    requires
        children_store(store, reserved, children).submap_of(later),
    ensures
        children_store(later, reserved, children) == later,
    decreases children,
{
    if children.len() > 0 {
        let front = children.drop_last();
        let kept = children_store(store, reserved, front);
        if survivors(reserved, front) is Err {
            lemma_children_store_absorbs(store, later, reserved, front);
        } else {
            lemma_entry_store_grows(kept, reserved, children.last());
            vstd::map_lib::lemma_submap_of_trans(kept, entry_store(kept, reserved, children.last()), later);
            lemma_children_store_absorbs(store, later, reserved, front);
            lemma_entry_store_absorbs(kept, later, reserved, children.last());
        }
    }
}

/// A store that holds all that assembling one child has stored is left as
/// it is when the child is assembled into it.
pub proof fn lemma_entry_store_absorbs(
    store: Map<Seq<u8>, Seq<u8>>,
    later: Map<Seq<u8>, Seq<u8>>,
    reserved: Seq<char>,
    entry: DirEntry,
)
    requires
        entry_store(store, reserved, entry).submap_of(later),
    ensures
        entry_store(later, reserved, entry) == later,
    decreases entry,
{
    if entry.name@ != reserved {
        match entry.contents {
            Contents::Directory(dir) => {
                if entry.metadata.is_dir {
                    lemma_tree_store_absorbs(store, later, reserved, dir);
                }
            },
            Contents::File(content) => {
                if !entry.metadata.is_dir {
                    if let Ok(digest) = put_digest(ObjectType::Blob, content@) {
                        assert(put_store(store, ObjectType::Blob, content@).contains_key(digest));
                        assert(later.contains_key(digest));
                    }
                }
            },
        }
    }
}

/// Idempotence: assembling an unchanged directory again gives the same
/// digest, since the digest does not depend on the store, and leaves the
/// store as the first run left it. The tree that was returned is in the
/// store.
pub proof fn lemma_assembling_again_changes_nothing(
    store: Map<Seq<u8>, Seq<u8>>,
    reserved: Seq<char>,
    dir: Directory,
)
    ensures
        tree_store(tree_store(store, reserved, dir), reserved, dir) == tree_store(
            store,
            reserved,
            dir,
        ),
        tree_digest(reserved, dir) matches Ok(Some(digest)) ==> tree_store(
            store,
            reserved,
            dir,
        ).contains_key(digest),
{
    lemma_tree_store_absorbs(store, tree_store(store, reserved, dir), reserved, dir);
}

/// The store holds every object that the snapshot of `dir` names: the blob
/// or the tree of each surviving child, at every depth.
pub open spec fn holds_snapshot(store: Map<Seq<u8>, Seq<u8>>, reserved: Seq<char>, dir: Directory) -> bool
    decreases dir,
{
    holds_children(store, reserved, dir.entries@)
}

/// The store holds what each of the children contributes.
pub open spec fn holds_children(
    store: Map<Seq<u8>, Seq<u8>>,
    reserved: Seq<char>,
    children: Seq<DirEntry>,
) -> bool
    decreases children,
{
    children.len() == 0 || (holds_children(store, reserved, children.drop_last()) && holds_entry(
        store,
        reserved,
        children.last(),
    ))
}

/// The store holds what the child contributes: its own object and, for a
/// directory, all that its snapshot names.
pub open spec fn holds_entry(store: Map<Seq<u8>, Seq<u8>>, reserved: Seq<char>, entry: DirEntry) -> bool
    decreases entry,
{
    match entry_digest(reserved, entry) {
        Ok(Some(digest)) => store.contains_key(digest) && match entry.contents {
            Contents::Directory(dir) => holds_snapshot(store, reserved, dir),
            Contents::File(_) => true,
        },
        _ => true,
    }
}

/// What a store holds of a snapshot, a store that has grown from it holds
/// too.
pub proof fn lemma_holds_snapshot_grows(
    store: Map<Seq<u8>, Seq<u8>>,
    later: Map<Seq<u8>, Seq<u8>>,
    reserved: Seq<char>,
    dir: Directory,
)
    requires
        store.submap_of(later),
        holds_snapshot(store, reserved, dir),
    ensures
        holds_snapshot(later, reserved, dir),
    decreases dir,
{
    lemma_holds_children_grows(store, later, reserved, dir.entries@);
}

/// What a store holds of the children, a store that has grown from it
/// holds too.
pub proof fn lemma_holds_children_grows(
    store: Map<Seq<u8>, Seq<u8>>,
    later: Map<Seq<u8>, Seq<u8>>,
    reserved: Seq<char>,
    children: Seq<DirEntry>,
)
    requires
        store.submap_of(later),
        holds_children(store, reserved, children),
    ensures
        holds_children(later, reserved, children),
    decreases children,
{
    if children.len() > 0 {
        lemma_holds_children_grows(store, later, reserved, children.drop_last());
        let last = children.last();
        assert(holds_entry(store, reserved, last));
        if let Ok(Some(digest)) = entry_digest(reserved, last) {
            assert(store.dom().contains(digest));
            assert(later.contains_key(digest));
            match last.contents {
                Contents::Directory(dir) => {
                    lemma_holds_snapshot_grows(store, later, reserved, dir);
                },
                Contents::File(_) => {},
            }
        }
        assert(holds_entry(later, reserved, last));
    }
}

/// A snapshot is whole: once a directory is assembled, the store holds its
/// tree and every object that the tree names, at every depth.
pub proof fn lemma_snapshot_is_whole(store: Map<Seq<u8>, Seq<u8>>, reserved: Seq<char>, dir: Directory)
    requires
        tree_digest(reserved, dir) is Ok,
    ensures
        holds_snapshot(tree_store(store, reserved, dir), reserved, dir),
        tree_digest(reserved, dir) matches Ok(Some(digest)) ==> tree_store(
            store,
            reserved,
            dir,
        ).contains_key(digest),
    decreases dir,
{
    let kept = children_store(store, reserved, dir.entries@);
    lemma_children_are_whole(store, reserved, dir.entries@);
    assert(kept.submap_of(tree_store(store, reserved, dir)));
    lemma_holds_children_grows(kept, tree_store(store, reserved, dir), reserved, dir.entries@);
}

/// Once children are assembled, the store holds what each contributes.
pub proof fn lemma_children_are_whole(
    store: Map<Seq<u8>, Seq<u8>>,
    reserved: Seq<char>,
    children: Seq<DirEntry>,
)
    requires
        survivors(reserved, children) is Ok,
    ensures
        holds_children(children_store(store, reserved, children), reserved, children),
    decreases children,
{
    if children.len() > 0 {
        let front = children.drop_last();
        let last = children.last();
        let kept = children_store(store, reserved, front);
        lemma_children_are_whole(store, reserved, front);
        lemma_entry_is_whole(kept, reserved, last);
        lemma_entry_store_grows(kept, reserved, last);
        lemma_holds_children_grows(kept, entry_store(kept, reserved, last), reserved, front);
    }
}

/// Once a child is assembled, the store holds what it contributes.
pub proof fn lemma_entry_is_whole(store: Map<Seq<u8>, Seq<u8>>, reserved: Seq<char>, entry: DirEntry)
    requires
        entry_digest(reserved, entry) is Ok,
    ensures
        holds_entry(entry_store(store, reserved, entry), reserved, entry),
    decreases entry,
{
    if entry.name@ != reserved {
        match entry.contents {
            Contents::Directory(dir) => {
                if entry.metadata.is_dir {
                    lemma_snapshot_is_whole(store, reserved, dir);
                }
            },
            Contents::File(_) => {},
        }
    }
}

/// The entry as it is read back from a tree object.
pub open spec fn listed(entry: HashedModel) -> TreeEntryModel {
    TreeEntryModel {
        mode: entry.builder.mode->0,
        name: entry.builder.name->0,
        sha: hex_lower(entry.hash),
    }
}

/// The entries as they are read back from a tree object.
pub open spec fn listed_all(entries: Seq<HashedModel>) -> Seq<TreeEntryModel> {
    Seq::new(entries.len(), |i: int| listed(entries[i]))
}

/// Every entry can be read back.
pub open spec fn all_readable(entries: Seq<HashedModel>) -> bool {
    forall|i: int| 0 <= i < entries.len() ==> readable(#[trigger] entries[i])
}

/// The entry can be read back: it is complete, its name holds no nul, and
/// its digest has twenty bytes.
pub open spec fn readable(entry: HashedModel) -> bool {
    &&& entry.builder.complete()
    &&& entry.hash.len() == 20
    &&& forall|i: int|
        0 <= i < entry.builder.name_bytes().len() ==> entry.builder.name_bytes()[i] != NUL
}

/// The content of a tree object starts with the binary form of its first
/// entry.
pub proof fn lemma_tree_bytes_front(entries: Seq<HashedModel>)
    requires
        entries.len() > 0,
    ensures
        tree_bytes(entries) == entries[0].builder.raw(entries[0].hash) + tree_bytes(
            entries.drop_first(),
        ),
    decreases entries.len(),
{
    let last = entries.last();
    if entries.len() == 1 {
        assert(entries.drop_last() =~= Seq::<HashedModel>::empty());
        assert(entries.drop_first() =~= Seq::<HashedModel>::empty());
        assert(tree_bytes(entries.drop_last()) =~= Seq::<u8>::empty());
        assert(tree_bytes(entries.drop_first()) =~= Seq::<u8>::empty());
        assert(tree_bytes(entries) =~= last.builder.raw(last.hash) + Seq::<u8>::empty());
    } else {
        lemma_tree_bytes_front(entries.drop_last());
        assert(entries.drop_last().drop_first() =~= entries.drop_first().drop_last());
        assert(entries.drop_first().last() == last);
        assert(entries.drop_last()[0] == entries[0]);
        let head = entries[0].builder.raw(entries[0].hash);
        let middle = tree_bytes(entries.drop_first().drop_last());
        assert((head + middle) + last.builder.raw(last.hash) =~= head + (middle + last.builder.raw(
            last.hash,
        )));
    }
}

/// The binary form of an entry, with whatever follows it, reads back as
/// that entry, and takes as many bytes as it has.
pub proof fn lemma_entry_round_trip(entry: HashedModel, rest: Seq<u8>)
    requires
        readable(entry),
    ensures
        first_entry(entry.builder.raw(entry.hash) + rest) == Ok::<TreeEntryModel, GitError>(
            listed(entry),
        ),
        entry_len(entry.builder.raw(entry.hash) + rest) == entry.builder.raw(entry.hash).len(),
{
    let mode = entry.builder.mode->0;
    let name = entry.builder.name_bytes();
    let raw = entry.builder.raw(entry.hash);
    let content = raw + rest;
    let text = mode.text() + seq![SPACE] + name;
    let nul = text.len() as int;
    lemma_mode_round_trip(mode);
    assert forall|i: int| 0 <= i < nul implies content[i] != NUL by {
        assert(content[i] == text[i]);
        if i < mode.text().len() {
            assert(text[i] == mode.text()[i]);
        } else if i > mode.text().len() {
            assert(text[i] == name[i - mode.text().len() - 1]);
        }
    }
    assert(content[nul] == NUL);
    lemma_find_unique(content, NUL, nul);
    let head = content.take(nul);
    assert(head =~= text);
    assert forall|i: int| 0 <= i < mode.text().len() implies head[i] != SPACE by {
        assert(head[i] == mode.text()[i]);
    }
    let space = mode.text().len() as int;
    assert(head[space] == SPACE);
    lemma_find_unique(head, SPACE, space);
    assert(head.take(space) =~= mode.text());
    assert(head.skip(space + 1) =~= name);
    assert(content.subrange(nul + 1, nul + 21) =~= entry.hash);
    vstd::utf8::encode_utf8_valid_utf8(entry.builder.name->0);
    vstd::utf8::encode_utf8_decode_utf8(entry.builder.name->0);
}

/// Round trip: the content of a tree object reads back as the entries it
/// was written from, in the same order.
pub proof fn lemma_tree_round_trip(entries: Seq<HashedModel>)
    requires
        all_readable(entries),
    ensures
        parse_tree(tree_bytes(entries)) == Ok::<Seq<TreeEntryModel>, GitError>(
            listed_all(entries),
        ),
    decreases entries.len(),
{
    let all = listed_all(entries);
    if entries.len() == 0 {
        assert(all =~= Seq::<TreeEntryModel>::empty());
    } else {
        let rest = entries.drop_first();
        let tail = tree_bytes(rest);
        let raw = entries[0].builder.raw(entries[0].hash);
        lemma_tree_bytes_front(entries);
        lemma_entry_round_trip(entries[0], tail);
        assert forall|i: int| 0 <= i < rest.len() implies readable(#[trigger] rest[i]) by {
            assert(rest[i] == entries[i + 1]);
        }
        lemma_tree_round_trip(rest);
        assert((raw + tail).skip(raw.len() as int) =~= tail);
        assert(seq![listed(entries[0])] + listed_all(rest) =~= all);
    }
}

} // verus!
