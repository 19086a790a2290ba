//! Why the canonical order is canonical.
//!
//! Among entries whose names hold no `/` and differ from each other, as the
//! names in a directory do, the comparison is that of the names with a `/`
//! put behind those of directories, byte by byte. It is then a strict total
//! order, the ordered entries ascend in it, and however the entries were
//! listed they come out in the same order.
use crate::order::{
    all_keyed, canonical_order, lemma_canonical_order_permutes, lemma_mismatch_from,
    mismatch_from, name_order, slot, sorts_after, sorts_before, BuilderModel, HashedModel, SLASH,
};
use core::cmp::Ordering;
use vstd::prelude::*;

verus! {

/// A position up to which two names agree, and at which they differ or one
/// of them ends, is the one that `mismatch_from` finds.
pub proof fn lemma_mismatch_unique(a: Seq<u8>, b: Seq<u8>, at: int)
    requires
        0 <= at <= a.len(),
        at <= b.len(),
        forall|i: int| 0 <= i < at ==> a[i] == b[i],
        at == a.len() || at == b.len() || a[at] != b[at],
    ensures
        mismatch_from(a, b, 0) == at,
{
    lemma_mismatch_from(a, b, 0);
}

/// Swapping the entries swaps the outcome: what sorts before the other
/// has the other sort after it, and equal stays equal. This holds of all
/// names.
pub proof fn lemma_order_reverses(a: Seq<u8>, a_dir: bool, b: Seq<u8>, b_dir: bool)
    ensures
        (name_order(a, a_dir, b, b_dir) == Ordering::Less) == (name_order(b, b_dir, a, a_dir)
            == Ordering::Greater),
        (name_order(a, a_dir, b, b_dir) == Ordering::Equal) == (name_order(b, b_dir, a, a_dir)
            == Ordering::Equal),
        (name_order(a, a_dir, b, b_dir) == Ordering::Greater) == (name_order(b, b_dir, a, a_dir)
            == Ordering::Less),
{
    lemma_mismatch_from(a, b, 0);
    lemma_mismatch_unique(b, a, mismatch_from(a, b, 0));
}

/// An entry is equal to itself, whatever its name.
pub proof fn lemma_order_reflexive(a: Seq<u8>, a_dir: bool)
    ensures
        name_order(a, a_dir, a, a_dir) == Ordering::Equal,
{
    lemma_mismatch_from(a, a, 0);
}

/// The name as it is compared: with a `/` behind it if it names a
/// directory.
pub open spec fn sort_key(name: Seq<u8>, is_dir: bool) -> Seq<u8> {
    if is_dir {
        name.push(SLASH)
    } else {
        name
    }
}

/// The lexicographic order of byte strings: at the first position where
/// they part, `x` has ended or holds the smaller byte.
pub open spec fn lex_less(x: Seq<u8>, y: Seq<u8>) -> bool {
    let at = mismatch_from(x, y, 0);
    at < y.len() && (at == x.len() || x[at] < y[at])
}

/// The name holds no `/`.
pub open spec fn plain(name: Seq<u8>) -> bool {
    forall|i: int| 0 <= i < name.len() ==> name[i] != SLASH
}

/// No byte string comes before itself.
pub proof fn lemma_lex_irreflexive(x: Seq<u8>)
    ensures
        !lex_less(x, x),
{
    lemma_mismatch_unique(x, x, x.len() as int);
}

/// The lexicographic order is transitive.
pub proof fn lemma_lex_transitive(x: Seq<u8>, y: Seq<u8>, z: Seq<u8>)
    requires
        lex_less(x, y),
        lex_less(y, z),
    ensures
        lex_less(x, z),
{
    let p = mismatch_from(x, y, 0);
    let q = mismatch_from(y, z, 0);
    lemma_mismatch_from(x, y, 0);
    lemma_mismatch_from(y, z, 0);
    if p <= q {
        lemma_mismatch_unique(x, z, p);
    } else {
        lemma_mismatch_unique(x, z, q);
    }
}

/// Of two different byte strings one comes before the other.
pub proof fn lemma_lex_total(x: Seq<u8>, y: Seq<u8>)
    requires
        x != y,
    ensures
        lex_less(x, y) || lex_less(y, x),
{
    let at = mismatch_from(x, y, 0);
    lemma_mismatch_from(x, y, 0);
    lemma_mismatch_unique(y, x, at);
    if at == x.len() && at == y.len() {
        assert(x =~= y);
    }
}

/// Among names without `/` that differ, the comparison is the
/// lexicographic order of the names as they are compared, and never finds
/// two entries equal.
pub proof fn lemma_order_is_lex(a: Seq<u8>, a_dir: bool, b: Seq<u8>, b_dir: bool)
    requires
        plain(a),
        plain(b),
        a != b,
    ensures
        (name_order(a, a_dir, b, b_dir) == Ordering::Less) == lex_less(
            sort_key(a, a_dir),
            sort_key(b, b_dir),
        ),
        (name_order(a, a_dir, b, b_dir) == Ordering::Greater) == lex_less(
            sort_key(b, b_dir),
            sort_key(a, a_dir),
        ),
        name_order(a, a_dir, b, b_dir) != Ordering::Equal,
{
    let at = mismatch_from(a, b, 0);
    let ka = sort_key(a, a_dir);
    let kb = sort_key(b, b_dir);
    lemma_mismatch_from(a, b, 0);
    if at == a.len() && at == b.len() {
        assert(a =~= b);
    }
    assert forall|i: int| 0 <= i < at implies ka[i] == kb[i] by {
        assert(ka[i] == a[i] && kb[i] == b[i]);
    }
    if at < a.len() {
        assert(ka[at] == a[at]);
    }
    if at < b.len() {
        assert(kb[at] == b[at]);
    }
    lemma_mismatch_unique(ka, kb, at);
    lemma_mismatch_unique(kb, ka, at);
}

/// The entries are named as the children of a directory are: each can be
/// ordered, no name holds a `/`, and no two names are the same.
pub open spec fn well_named(entries: Seq<HashedModel>) -> bool {
    &&& all_keyed(entries)
    &&& forall|i: int| 0 <= i < entries.len() ==> plain((#[trigger] entries[i]).builder.name_bytes())
    &&& forall|i: int, j: int|
        0 <= i < entries.len() && 0 <= j < entries.len() && i != j ==> (#[trigger] entries[i]).builder.name_bytes()
            != (#[trigger] entries[j]).builder.name_bytes()
}

/// Each entry sorts before all that follow it.
pub open spec fn ascending(entries: Seq<HashedModel>) -> bool {
    forall|i: int, j: int|
        0 <= i < j < entries.len() ==> sorts_before(
            (#[trigger] entries[i]).builder,
            (#[trigger] entries[j]).builder,
        )
}

/// Among entries with different names without `/`, one sorts before the
/// other, the other then sorts after the one, and never both.
pub proof fn lemma_strict_order(a: BuilderModel, b: BuilderModel)
    requires
        plain(a.name_bytes()),
        plain(b.name_bytes()),
        a.name_bytes() != b.name_bytes(),
    ensures
        sorts_before(a, b) != sorts_after(a, b),
        sorts_before(a, b) == sorts_after(b, a),
        sorts_before(a, b) == lex_less(
            sort_key(a.name_bytes(), a.is_dir->0),
            sort_key(b.name_bytes(), b.is_dir->0),
        ),
{
    lemma_order_is_lex(a.name_bytes(), a.is_dir->0, b.name_bytes(), b.is_dir->0);
    lemma_order_is_lex(b.name_bytes(), b.is_dir->0, a.name_bytes(), a.is_dir->0);
    let ka = sort_key(a.name_bytes(), a.is_dir->0);
    let kb = sort_key(b.name_bytes(), b.is_dir->0);
    if lex_less(ka, kb) && lex_less(kb, ka) {
        lemma_lex_transitive(ka, kb, ka);
        lemma_lex_irreflexive(ka);
    }
}

/// Among entries with different names without `/`, what sorts before an
/// entry sorts before all that the entry sorts before.
pub proof fn lemma_sorts_before_transitive(a: BuilderModel, b: BuilderModel, c: BuilderModel)
    requires
        plain(a.name_bytes()),
        plain(b.name_bytes()),
        plain(c.name_bytes()),
        a.name_bytes() != b.name_bytes(),
        b.name_bytes() != c.name_bytes(),
        a.name_bytes() != c.name_bytes(),
        sorts_before(a, b),
        sorts_before(b, c),
    ensures
        sorts_before(a, c),
{
    lemma_strict_order(a, b);
    lemma_strict_order(b, c);
    lemma_strict_order(a, c);
    lemma_lex_transitive(
        sort_key(a.name_bytes(), a.is_dir->0),
        sort_key(b.name_bytes(), b.is_dir->0),
        sort_key(c.name_bytes(), c.is_dir->0),
    );
}

/// What `slot` returns: all from the slot on sort after the entry, and the
/// one before the slot does not.
pub proof fn lemma_slot(sorted: Seq<HashedModel>, entry: HashedModel, upto: int)
    requires
        0 <= upto <= sorted.len(),
    ensures
        0 <= slot(sorted, entry, upto) <= upto,
        forall|k: int|
            slot(sorted, entry, upto) <= k < upto ==> sorts_after(
                (#[trigger] sorted[k]).builder,
                entry.builder,
            ),
        slot(sorted, entry, upto) > 0 ==> !sorts_after(
            sorted[slot(sorted, entry, upto) - 1].builder,
            entry.builder,
        ),
    decreases upto,
{
    if upto > 0 && sorts_after(sorted[upto - 1].builder, entry.builder) {
        lemma_slot(sorted, entry, upto - 1);
    }
}

/// The canonical order ascends: among entries that are named as the
/// children of a directory are, each sorts before all that follow it.
pub proof fn lemma_canonical_order_ascends(entries: Seq<HashedModel>)
    requires
        well_named(entries),
    ensures
        ascending(canonical_order(entries)),
        well_named(canonical_order(entries)),
    decreases entries.len(),
{
    if entries.len() > 0 {
        let front = entries.drop_last();
        let last = entries.last();
        let sorted = canonical_order(front);
        let at = slot(sorted, last, sorted.len() as int);
        let out = canonical_order(entries);
        assert(well_named(front)) by {
            assert forall|i: int| 0 <= i < front.len() implies (#[trigger] front[i]) == entries[i] by {}
        }
        lemma_canonical_order_ascends(front);
        lemma_canonical_order_permutes(front);
        lemma_slot(sorted, last, sorted.len() as int);
        // every ordered entry is one of those before the last, so it is
        // named otherwise than the last
        assert forall|k: int| 0 <= k < sorted.len() implies (#[trigger] sorted[k]).builder.name_bytes()
            != last.builder.name_bytes() by {
            assert(front.contains(sorted[k]));
            let j = choose|j: int| 0 <= j < front.len() && front[j] == sorted[k];
            assert(entries[j] == sorted[k]);
            assert(entries[entries.len() - 1] == last);
        }
        assert(plain(last.builder.name_bytes())) by {
            assert(entries[entries.len() - 1] == last);
        }
        assert(last.builder.keyed()) by {
            assert(entries[entries.len() - 1] == last);
        }
        assert forall|i: int| 0 <= i < out.len() implies (#[trigger] out[i]) == (if i < at {
            sorted[i]
        } else if i == at {
            last
        } else {
            sorted[i - 1]
        }) by {}
        // all before the slot sort before the entry
        assert forall|k: int| 0 <= k < at implies sorts_before(
            (#[trigger] sorted[k]).builder,
            last.builder,
        ) by {
            lemma_strict_order(sorted[at - 1].builder, last.builder);
            if k < at - 1 {
                lemma_sorts_before_transitive(
                    sorted[k].builder,
                    sorted[at - 1].builder,
                    last.builder,
                );
            }
        }
        // all from the slot on sort after it
        assert forall|k: int| at <= k < sorted.len() implies sorts_before(
            last.builder,
            (#[trigger] sorted[k]).builder,
        ) by {
            lemma_strict_order(last.builder, sorted[k].builder);
        }
        assert forall|i: int, j: int| 0 <= i < j < out.len() implies sorts_before(
            (#[trigger] out[i]).builder,
            (#[trigger] out[j]).builder,
        ) by {
            if j < at {
                assert(sorts_before(sorted[i].builder, sorted[j].builder));
            } else if j == at {
                assert(sorts_before(sorted[i].builder, last.builder));
            } else if i < at {
                assert(sorts_before(sorted[i].builder, sorted[j - 1].builder));
            } else if i == at {
                assert(sorts_before(last.builder, sorted[j - 1].builder));
            } else {
                assert(sorts_before(sorted[i - 1].builder, sorted[j - 1].builder));
            }
        }
    }
}

/// Two ascending lists that hold the same entries are the same list.
pub proof fn lemma_ascending_is_unique(first: Seq<HashedModel>, second: Seq<HashedModel>)
    requires
        well_named(first),
        well_named(second),
        ascending(first),
        ascending(second),
        first.to_multiset() == second.to_multiset(),
    ensures
        first == second,
    decreases first.len(),
{
    first.to_multiset_ensures();
    second.to_multiset_ensures();
    if first.len() == 0 {
        assert(first =~= second);
    } else {
        let head = first[0];
        assert(first.contains(head));
        assert(first.to_multiset().count(head) > 0);
        assert(second.to_multiset().count(head) > 0);
        assert(second.contains(head));
        let j = choose|j: int| 0 <= j < second.len() && second[j] == head;
        if j > 0 {
            // the entry at the front of the second list sorts before
            // `head`, yet stands behind it in the first
            let other = second[0];
            assert(second.contains(other));
            assert(second.to_multiset().count(other) > 0);
            assert(first.to_multiset().count(other) > 0);
            assert(first.contains(other));
            let i = choose|i: int| 0 <= i < first.len() && first[i] == other;
            assert(sorts_before(second[0].builder, second[j].builder));
            if i > 0 {
                assert(sorts_before(first[0].builder, first[i].builder));
                lemma_strict_order(head.builder, other.builder);
                lemma_strict_order(other.builder, head.builder);
            } else {
                lemma_lex_irreflexive(sort_key(head.builder.name_bytes(), head.builder.is_dir->0));
                assert(second[0].builder.name_bytes() != second[j].builder.name_bytes());
            }
        }
        assert(second[0] == head);
        let rest_first = first.remove(0);
        let rest_second = second.remove(0);
        vstd::seq_lib::to_multiset_remove(first, 0);
        vstd::seq_lib::to_multiset_remove(second, 0);
        assert forall|i: int| 0 <= i < rest_first.len() implies (#[trigger] rest_first[i])
            == first[i + 1] by {}
        assert forall|i: int| 0 <= i < rest_second.len() implies (#[trigger] rest_second[i])
            == second[i + 1] by {}
        lemma_ascending_is_unique(rest_first, rest_second);
        assert(first =~= second) by {
            assert forall|i: int| 0 <= i < first.len() implies first[i] == second[i] by {
                if i > 0 {
                    assert(rest_first[i - 1] == first[i]);
                    assert(rest_second[i - 1] == second[i]);
                }
            }
        }
    }
}

/// The canonical order does not depend on the order of the listing: two
/// listings of the same entries, named as the children of a directory are,
/// come out the same.
pub proof fn lemma_listing_order_is_immaterial(first: Seq<HashedModel>, second: Seq<HashedModel>)
    requires
        well_named(first),
        well_named(second),
        first.to_multiset() == second.to_multiset(),
    ensures
        canonical_order(first) == canonical_order(second),
{
    lemma_canonical_order_ascends(first);
    lemma_canonical_order_ascends(second);
    lemma_canonical_order_permutes(first);
    lemma_canonical_order_permutes(second);
    lemma_ascending_is_unique(canonical_order(first), canonical_order(second));
}

} // verus!
