//! The canonical order of the entries of a tree.
//!
//! Names are compared byte by byte. Where one name is a prefix of the
//! other, the shorter one is extended by one virtual byte: `/` if it names
//! a directory, nothing if it names a file, and nothing sorts before any
//! byte.
use crate::error::GitError;
use crate::object::{NUL, SPACE};
use crate::tree::TreeEntryMode;
use crate::worktree::DirEntry;
use core::cmp::Ordering;
use vstd::prelude::*;
use vstd::utf8::{encode_utf8, encode_utf8_decode_utf8};

verus! {

/// The byte that stands after the name of a directory when it is compared.
pub const SLASH: u8 = 0x2F;

/// The first position at or after `from` at which `a` and `b` differ or one
/// of them ends.
pub open spec fn mismatch_from(a: Seq<u8>, b: Seq<u8>, from: int) -> int
    decreases a.len() - from,
{
    if from >= a.len() || from >= b.len() || a[from] != b[from] {
        from
    } else {
        mismatch_from(a, b, from + 1)
    }
}

/// What `mismatch_from` returns: up to there the names agree, and there
/// they differ unless one of them has ended.
pub proof fn lemma_mismatch_from(a: Seq<u8>, b: Seq<u8>, from: int)
    requires
        0 <= from <= a.len(),
        from <= b.len(),
    ensures
        from <= mismatch_from(a, b, from) <= a.len(),
        mismatch_from(a, b, from) <= b.len(),
        forall|i: int| from <= i < mismatch_from(a, b, from) ==> a[i] == b[i],
        mismatch_from(a, b, from) < a.len() && mismatch_from(a, b, from) < b.len() ==> a[mismatch_from(
            a,
            b,
            from,
        )] != b[mismatch_from(a, b, from)],
    decreases a.len() - from,
{
    if !(from >= a.len() || from >= b.len() || a[from] != b[from]) {
        lemma_mismatch_from(a, b, from + 1);
    }
}

/// Finds the first position at which two names differ or one of them ends.
pub fn first_mismatch(a: &[u8], b: &[u8]) -> (at: usize)
    ensures
        at == mismatch_from(a@, b@, 0),
        at <= a@.len(),
        at <= b@.len(),
{
    let mut i: usize = 0;
    while i < a.len() && i < b.len() && a[i] == b[i]
        invariant
            i <= a@.len(),
            i <= b@.len(),
            mismatch_from(a@, b@, 0) == mismatch_from(a@, b@, i as int),
        decreases a@.len() - i,
    {
        i = i + 1;
    }
    i
}

/// The byte that a name presents at position `at`: its own byte while it
/// lasts, then `/` for a directory and nothing for a file.
pub open spec fn virtual_byte(name: Seq<u8>, is_dir: bool, at: int) -> Option<u8> {
    if at < name.len() {
        Some(name[at])
    } else if is_dir {
        Some(SLASH)
    } else {
        None
    }
}

/// Nothing sorts before any byte; bytes sort by value.
pub open spec fn byte_order(x: Option<u8>, y: Option<u8>) -> Ordering {
    match (x, y) {
        (None, None) => Ordering::Equal,
        (None, Some(_)) => Ordering::Less,
        (Some(_), None) => Ordering::Greater,
        (Some(p), Some(q)) => if p < q {
            Ordering::Less
        } else if p == q {
            Ordering::Equal
        } else {
            Ordering::Greater
        },
    }
}

/// The order of two entries, by their names and by whether each is a
/// directory.
///
/// The first differing byte decides. Names of equal length that nowhere
/// differ are equal. Otherwise one name is a proper prefix of the other,
/// and the next byte of the longer is compared with the virtual byte of
/// the shorter.
pub open spec fn name_order(a: Seq<u8>, a_dir: bool, b: Seq<u8>, b_dir: bool) -> Ordering {
    let at = mismatch_from(a, b, 0);
    if at < a.len() && at < b.len() {
        if a[at] < b[at] {
            Ordering::Less
        } else {
            Ordering::Greater
        }
    } else if a.len() == b.len() {
        Ordering::Equal
    } else {
        byte_order(virtual_byte(a, a_dir, at), virtual_byte(b, b_dir, at))
    }
}

/// A tree entry in the making: the mode and the name that go into its
/// binary form, and whether it is a directory, which decides its place.
#[derive(Debug)]
pub struct TreeEntryBytesBuilder {
    pub mode: Option<TreeEntryMode>,
    pub name: Option<String>,
    pub is_dir: Option<bool>,
}

/// A tree entry in the making, as a value.
pub struct BuilderModel {
    pub mode: Option<TreeEntryMode>,
    pub name: Option<Seq<char>>,
    pub is_dir: Option<bool>,
}

impl View for TreeEntryBytesBuilder {
    type V = BuilderModel;

    open spec fn view(&self) -> BuilderModel {
        BuilderModel {
            mode: self.mode,
            name: match self.name {
                Some(name) => Some(name@),
                None => None,
            },
            is_dir: self.is_dir,
        }
    }
}

impl BuilderModel {
    /// The entry can be ordered: its name and its kind are set.
    pub open spec fn keyed(self) -> bool {
        self.name is Some && self.is_dir is Some
    }

    /// The entry can be serialised: its mode and its name are set.
    pub open spec fn complete(self) -> bool {
        self.mode is Some && self.name is Some
    }

    /// The bytes of the name.
    pub open spec fn name_bytes(self) -> Seq<u8> {
        encode_utf8(self.name->0)
    }

    /// The binary form of the entry with `hash` as its child's digest.
    pub open spec fn raw(self, hash: Seq<u8>) -> Seq<u8> {
        raw_entry(self.mode->0, self.name_bytes(), hash)
    }
}

impl Default for TreeEntryBytesBuilder {
    fn default() -> (builder: TreeEntryBytesBuilder)
        ensures
            builder@ == (BuilderModel { mode: None, name: None, is_dir: None }),
    {
        TreeEntryBytesBuilder { mode: None, name: None, is_dir: None }
    }
}

/// The binary form of one tree entry: the mode, a space, the name, a nul,
/// and the twenty raw bytes of the child's digest.
pub open spec fn raw_entry(mode: TreeEntryMode, name: Seq<u8>, hash: Seq<u8>) -> Seq<u8> {
    mode.text() + seq![SPACE] + name + seq![NUL] + hash
}

impl TreeEntryBytesBuilder {
    /// Takes mode, name and kind from a directory entry.
    pub fn dir_entry(self, entry: &DirEntry) -> (builder: TreeEntryBytesBuilder)
        ensures
            builder@ == builder_of(*entry),
    {
        TreeEntryBytesBuilder {
            mode: Some(TreeEntryMode::from_metadata(&entry.metadata)),
            name: Some(entry.name.clone()),
            is_dir: Some(entry.metadata.is_dir),
        }
    }

    /// Whether the entry is a directory.
    pub fn is_dir(&self) -> (is_dir: bool)
        requires
            self@.is_dir is Some,
        ensures
            is_dir == self@.is_dir->0,
    {
        self.is_dir.unwrap()
    }

    /// Whether the entry bears the reserved name of the metadata directory.
    pub fn is_dot_git_entry(&self, dot_git_name: &str) -> (reserved: bool)
        ensures
            reserved == (self@.name == Some(dot_git_name@)),
    {
        match &self.name {
            Some(name) => {
                proof {
                    encode_utf8_decode_utf8(name@);
                    encode_utf8_decode_utf8(dot_git_name@);
                }
                bytes_eq(name.as_str().as_bytes(), dot_git_name.as_bytes())
            },
            None => false,
        }
    }

    /// Writes the binary form of the entry with `hash` as its child's
    /// digest.
    pub fn to_raw_bytes(&self, hash: [u8; 20]) -> (out: Result<Vec<u8>, GitError>)
        ensures
            self@.complete() ==> out is Ok && out->Ok_0@ == self@.raw(hash@),
            !self@.complete() ==> out == Err::<Vec<u8>, GitError>(GitError::MissingField),
    {
        let mode = match self.mode {
            Some(mode) => mode,
            None => {
                return Err(GitError::MissingField);
            },
        };
        let name = match &self.name {
            Some(name) => name,
            None => {
                return Err(GitError::MissingField);
            },
        };
        let mut raw = mode.raw_bytes();
        raw.push(SPACE);
        raw.extend_from_slice(name.as_str().as_bytes());
        raw.push(NUL);
        raw.extend_from_slice(hash.as_slice());
        assert(raw@ =~= self@.raw(hash@));
        Ok(raw)
    }
}

/// The entry that is made of a directory entry: its mode by its metadata,
/// its name, and whether it is a directory.
pub open spec fn builder_of(entry: DirEntry) -> BuilderModel {
    BuilderModel {
        mode: Some(TreeEntryMode::of_metadata(entry.metadata)),
        name: Some(entry.name@),
        is_dir: Some(entry.metadata.is_dir),
    }
}

/// Whether two byte strings are the same.
pub fn bytes_eq(a: &[u8], b: &[u8]) -> (same: bool)
    ensures
        same == (a@ == b@),
{
    if a.len() != b.len() {
        return false;
    }
    let at = first_mismatch(a, b);
    proof {
        lemma_mismatch_from(a@, b@, 0);
        if at == a.len() {
            assert(a@ =~= b@);
        }
    }
    at == a.len()
}

/// `a` is `b` cut short: a proper prefix of it.
pub open spec fn cut_short(a: Seq<u8>, b: Seq<u8>) -> bool {
    a.len() < b.len() && mismatch_from(a, b, 0) == a.len()
}

/// The two entries can be compared: both are named, and one whose name is
/// the other's name cut short says whether it is a directory.
pub open spec fn comparable(a: BuilderModel, b: BuilderModel) -> bool {
    &&& a.name is Some
    &&& b.name is Some
    &&& cut_short(a.name_bytes(), b.name_bytes()) ==> a.is_dir is Some
    &&& cut_short(b.name_bytes(), a.name_bytes()) ==> b.is_dir is Some
}

/// Compares two entries for their place in a tree.
pub fn compare_tree_entry_bytes_builder(
    a: &TreeEntryBytesBuilder,
    b: &TreeEntryBytesBuilder,
) -> (order: Ordering)
    requires
        comparable(a@, b@),
    ensures
        order == name_order(a@.name_bytes(), a@.is_dir->0, b@.name_bytes(), b@.is_dir->0),
{
    let afn = a.name.as_ref().unwrap().as_str().as_bytes();
    let bfn = b.name.as_ref().unwrap().as_str().as_bytes();
    let common_len = first_mismatch(afn, bfn);
    proof {
        lemma_mismatch_from(afn@, bfn@, 0);
        lemma_mismatch_from(bfn@, afn@, 0);
    }
    if common_len < afn.len() && common_len < bfn.len() {
        return if afn[common_len] < bfn[common_len] {
            Ordering::Less
        } else {
            Ordering::Greater
        };
    }
    if afn.len() == bfn.len() {
        return Ordering::Equal;
    }
    let c1 = if common_len < afn.len() {
        Some(afn[common_len])
    } else if a.is_dir() {
        Some(SLASH)
    } else {
        None
    };
    let c2 = if common_len < bfn.len() {
        Some(bfn[common_len])
    } else if b.is_dir() {
        Some(SLASH)
    } else {
        None
    };
    match (c1, c2) {
        (None, None) => Ordering::Equal,
        (None, Some(_)) => Ordering::Less,
        (Some(_), None) => Ordering::Greater,
        (Some(p), Some(q)) => if p < q {
            Ordering::Less
        } else if p == q {
            Ordering::Equal
        } else {
            Ordering::Greater
        },
    }
}

/// A tree entry with the digest of its child: what a tree object is made
/// of.
#[derive(Debug)]
pub struct HashedEntry {
    pub builder: TreeEntryBytesBuilder,
    pub hash: [u8; 20],
}

/// A tree entry with the digest of its child, as a value.
pub struct HashedModel {
    pub builder: BuilderModel,
    pub hash: Seq<u8>,
}

impl View for HashedEntry {
    type V = HashedModel;

    open spec fn view(&self) -> HashedModel {
        HashedModel { builder: self.builder@, hash: self.hash@ }
    }
}

/// The values of a list of entries.
pub open spec fn models(entries: Seq<HashedEntry>) -> Seq<HashedModel> {
    Seq::new(entries.len(), |i: int| entries[i]@)
}

/// `a` sorts after `b`.
pub open spec fn sorts_after(a: BuilderModel, b: BuilderModel) -> bool {
    name_order(a.name_bytes(), a.is_dir->0, b.name_bytes(), b.is_dir->0) == Ordering::Greater
}

/// `a` sorts before `b`.
pub open spec fn sorts_before(a: BuilderModel, b: BuilderModel) -> bool {
    name_order(a.name_bytes(), a.is_dir->0, b.name_bytes(), b.is_dir->0) == Ordering::Less
}

/// Whether `a` sorts after `b`.
pub fn follows(a: &TreeEntryBytesBuilder, b: &TreeEntryBytesBuilder) -> (after: bool)
    requires
        a@.keyed(),
        b@.keyed(),
    ensures
        after == sorts_after(a@, b@),
{
    match compare_tree_entry_bytes_builder(a, b) {
        Ordering::Greater => true,
        _ => false,
    }
}

/// Every entry can be ordered.
pub open spec fn all_keyed(entries: Seq<HashedModel>) -> bool {
    forall|i: int| 0 <= i < entries.len() ==> (#[trigger] entries[i]).builder.keyed()
}

/// Where `entry` goes among the first `upto` of `sorted`: behind the last
/// of them that does not sort after it.
pub open spec fn slot(sorted: Seq<HashedModel>, entry: HashedModel, upto: int) -> int
    decreases upto,
{
    if upto <= 0 {
        0
    } else if sorts_after(sorted[upto - 1].builder, entry.builder) {
        slot(sorted, entry, upto - 1)
    } else {
        upto
    }
}

/// The entries in canonical order: each in turn is put in its slot among
/// those before it.
pub open spec fn canonical_order(entries: Seq<HashedModel>) -> Seq<HashedModel>
    decreases entries.len(),
{
    if entries.len() == 0 {
        entries
    } else {
        let sorted = canonical_order(entries.drop_last());
        sorted.insert(slot(sorted, entries.last(), sorted.len() as int), entries.last())
    }
}

/// A slot lies within the part that was searched.
pub proof fn lemma_slot_bounds(sorted: Seq<HashedModel>, entry: HashedModel, upto: int)
    requires
        0 <= upto <= sorted.len(),
    ensures
        0 <= slot(sorted, entry, upto) <= upto,
    decreases upto,
{
    if upto > 0 && sorts_after(sorted[upto - 1].builder, entry.builder) {
        lemma_slot_bounds(sorted, entry, upto - 1);
    }
}

/// Ordering rearranges: nothing is added, dropped or changed.
pub proof fn lemma_canonical_order_permutes(entries: Seq<HashedModel>)
    ensures
        canonical_order(entries).len() == entries.len(),
        canonical_order(entries).to_multiset() == entries.to_multiset(),
        forall|i: int|
            0 <= i < entries.len() ==> entries.contains(#[trigger] canonical_order(entries)[i]),
        all_keyed(entries) ==> all_keyed(canonical_order(entries)),
    decreases entries.len(),
{
    if entries.len() > 0 {
        let front = entries.drop_last();
        let sorted = canonical_order(front);
        lemma_canonical_order_permutes(front);
        lemma_slot_bounds(sorted, entries.last(), sorted.len() as int);
        let at = slot(sorted, entries.last(), sorted.len() as int);
        vstd::seq_lib::to_multiset_insert(sorted, at, entries.last());
        assert(front.push(entries.last()) =~= entries);
        vstd::seq_lib::to_multiset_build(front, entries.last());
        let out = canonical_order(entries);
        assert forall|i: int| 0 <= i < entries.len() implies entries.contains(#[trigger] out[i]) by {
            if i < at {
                assert(out[i] == sorted[i]);
                assert(front.contains(sorted[i]));
                let j = choose|j: int| 0 <= j < front.len() && front[j] == sorted[i];
                assert(entries[j] == sorted[i]);
            } else if i == at {
                assert(out[i] == entries[entries.len() - 1]);
            } else {
                assert(out[i] == sorted[i - 1]);
                assert(front.contains(sorted[i - 1]));
                let j = choose|j: int| 0 <= j < front.len() && front[j] == sorted[i - 1];
                assert(entries[j] == sorted[i - 1]);
            }
        }
        if all_keyed(entries) {
            assert forall|i: int| 0 <= i < front.len() implies (#[trigger] front[i]).builder.keyed() by {
                assert(front[i] == entries[i]);
            }
            assert forall|i: int| 0 <= i < out.len() implies (#[trigger] out[i]).builder.keyed() by {
                if i < at {
                    assert(out[i] == sorted[i]);
                } else if i == at {
                    assert(out[i] == entries.last());
                } else {
                    assert(out[i] == sorted[i - 1]);
                }
            }
        }
    }
}

/// Puts entries into canonical order.
pub fn sort_entries(entries: &mut Vec<HashedEntry>)
    requires
        all_keyed(models(old(entries)@)),
    ensures
        models(final(entries)@) == canonical_order(models(old(entries)@)),
{
    let ghost input = models(entries@);
    let n = entries.len();
    let mut done: usize = 0;
    assert(models(entries@).take(0) =~= canonical_order(input.take(0)));
    while done < n
        invariant
            n == input.len(),
            done <= n,
            entries@.len() == n,
            all_keyed(input),
            models(entries@).take(done as int) == canonical_order(input.take(done as int)),
            models(entries@).skip(done as int) == input.skip(done as int),
        decreases n - done,
    {
        let ghost before = models(entries@);
        let ghost sorted = before.take(done as int);
        proof {
            lemma_canonical_order_permutes(input.take(done as int));
            assert forall|i: int| 0 <= i < done implies (#[trigger] input.take(
                done as int,
            )[i]).builder.keyed() by {
                assert(input.take(done as int)[i] == input[i]);
            }
            assert(before[done as int] == input.skip(done as int)[0]);
        }
        let entry = entries.remove(done);
        assert(entry@ == input[done as int]);
        assert(models(entries@) =~= before.remove(done as int));
        assert forall|i: int| 0 <= i < done implies (#[trigger] entries@[i])@ == sorted[i] by {
            assert(models(entries@)[i] == before[i]);
        }
        let mut at: usize = done;
        while at > 0 && follows(&entries[at - 1].builder, &entry.builder)
            invariant
                at <= done,
                done < n,
                entries@.len() == n - 1,
                forall|i: int| 0 <= i < done ==> (#[trigger] entries@[i])@ == sorted[i],
                models(entries@) == before.remove(done as int),
                sorted == before.take(done as int),
                before.len() == n,
                all_keyed(sorted),
                entry@.builder.keyed(),
                slot(sorted, entry@, done as int) == slot(sorted, entry@, at as int),
            decreases at,
        {
            at = at - 1;
        }
        assert(slot(sorted, entry@, done as int) == at);
        let ghost removed = entries@;
        let ghost value = entry@;
        entries.insert(at, entry);
        proof {
            assert(models(entries@) =~= models(removed).insert(at as int, value));
            let next = input.take(done + 1);
            assert(next.drop_last() =~= input.take(done as int));
            assert(next.last() == value);
            assert(models(entries@).take(done + 1) =~= sorted.insert(at as int, value));
            let tail = models(entries@).skip(done + 1);
            assert(tail =~= input.skip(done + 1)) by {
                assert forall|i: int| 0 <= i < n - done - 1 implies #[trigger] tail[i]
                    == input.skip(done + 1)[i] by {
                    assert(input.skip(done as int)[i + 1] == input[done + 1 + i]);
                    assert(before.skip(done as int)[i + 1] == before[done + 1 + i]);
                }
            }
        }
        done = done + 1;
    }
    proof {
        assert(models(entries@).take(n as int) =~= models(entries@));
        assert(input.take(n as int) =~= input);
    }
}

} // verus!
