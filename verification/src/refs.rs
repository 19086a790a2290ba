//! Branch pointers: the symbolic reference that names the current branch,
//! and the table that maps each branch to the commit at its tip.
use crate::order::bytes_eq;
use vstd::prelude::*;
use vstd::slice::slice_subrange;

verus! {

/// ASCII white space: space, tab, line feed, vertical tab, form feed and
/// carriage return.
pub open spec fn is_space(byte: u8) -> bool {
    byte == 0x20 || (0x09 <= byte <= 0x0D)
}

/// The number of white-space bytes at the start of `bytes`.
pub open spec fn leading_space(bytes: Seq<u8>) -> int
    decreases bytes.len(),
{
    if bytes.len() > 0 && is_space(bytes[0]) {
        1 + leading_space(bytes.drop_first())
    } else {
        0
    }
}

/// The number of white-space bytes at the end of `bytes`.
pub open spec fn trailing_space(bytes: Seq<u8>) -> int
    decreases bytes.len(),
{
    if bytes.len() > 0 && is_space(bytes.last()) {
        1 + trailing_space(bytes.drop_last())
    } else {
        0
    }
}

/// `bytes` without the white space at its start and at its end.
pub open spec fn trimmed(bytes: Seq<u8>) -> Seq<u8> {
    let rest = bytes.skip(leading_space(bytes));
    rest.take(rest.len() - trailing_space(rest))
}

/// Whether `byte` is ASCII white space.
pub fn is_space_byte(byte: u8) -> (space: bool)
    ensures
        space == is_space(byte),
{
    byte == 0x20 || (0x09 <= byte && byte <= 0x0D)
}

/// Strips the white space from both ends of `bytes`.
pub fn trim(bytes: &[u8]) -> (out: &[u8])
    ensures
        out@ == trimmed(bytes@),
{
    let mut start: usize = 0;
    assert(bytes@.skip(0) =~= bytes@);
    while start < bytes.len() && is_space_byte(bytes[start])
        invariant
            start <= bytes@.len(),
            leading_space(bytes@) == start + leading_space(bytes@.skip(start as int)),
        decreases bytes@.len() - start,
    {
        assert(bytes@.skip(start as int).drop_first() =~= bytes@.skip(start + 1));
        start = start + 1;
    }
    let rest = slice_subrange(bytes, start, bytes.len());
    assert(rest@ =~= bytes@.skip(leading_space(bytes@)));
    let mut end: usize = rest.len();
    assert(rest@.take(end as int) =~= rest@);
    while end > 0 && is_space_byte(rest[end - 1])
        invariant
            end <= rest@.len(),
            trailing_space(rest@) == rest@.len() - end + trailing_space(rest@.take(end as int)),
        decreases end,
    {
        assert(rest@.take(end as int).drop_last() =~= rest@.take(end - 1));
        end = end - 1;
    }
    slice_subrange(rest, 0, end)
}

/// The bytes with which a symbolic reference starts: `ref: ` in ASCII.
pub open spec fn ref_prefix() -> Seq<u8> {
    seq![0x72u8, 0x65, 0x66, 0x3a, 0x20]
}

/// The branch that the pointer `head` names: what follows `ref: `, without
/// the white space around it. A pointer of any other form names none.
pub open spec fn ref_target(head: Seq<u8>) -> Option<Seq<u8>> {
    if head.len() >= 5 && head.take(5) == ref_prefix() {
        Some(trimmed(head.skip(5)))
    } else {
        None
    }
}

/// Reads the branch that a pointer names.
pub fn symbolic_target(head: &[u8]) -> (target: Option<Vec<u8>>)
    ensures
        match target {
            Some(name) => ref_target(head@) == Some(name@),
            None => ref_target(head@) is None,
        },
{
    if head.len() >= 5 && head[0] == 0x72 && head[1] == 0x65 && head[2] == 0x66 && head[3] == 0x3a
        && head[4] == 0x20 {
        assert(head@.take(5) =~= ref_prefix());
        let rest = slice_subrange(head, 5, head.len());
        assert(rest@ =~= head@.skip(5));
        Some(vstd::slice::slice_to_vec(trim(rest)))
    } else {
        proof {
            if head@.len() >= 5 && head@.take(5) == ref_prefix() {
                assert(head@.take(5)[0] == head@[0]);
                assert(head@.take(5)[1] == head@[1]);
                assert(head@.take(5)[2] == head@[2]);
                assert(head@.take(5)[3] == head@[3]);
                assert(head@.take(5)[4] == head@[4]);
            }
        }
        None
    }
}

/// One branch and the text kept for it.
#[derive(Debug)]
pub struct Pointer {
    pub name: Vec<u8>,
    pub target: Vec<u8>,
}

/// The table of branch pointers. Its view maps each branch to the text
/// kept for it.
#[derive(Debug)]
pub struct RefStore {
    pub pointers: Vec<Pointer>,
}

/// The position of the first pointer named `name` at or after `from`, or
/// the number of pointers when there is none.
pub open spec fn pointer_from(pointers: Seq<Pointer>, name: Seq<u8>, from: int) -> int
    decreases pointers.len() - from,
{
    if from >= pointers.len() {
        pointers.len() as int
    } else if pointers[from].name@ == name {
        from
    } else {
        pointer_from(pointers, name, from + 1)
    }
}

/// What `pointer_from` returns: the least position at or after `from` with
/// the name.
pub proof fn lemma_pointer_from(pointers: Seq<Pointer>, name: Seq<u8>, from: int)
    requires
        0 <= from <= pointers.len(),
    ensures
        from <= pointer_from(pointers, name, from) <= pointers.len(),
        pointer_from(pointers, name, from) < pointers.len() ==> pointers[pointer_from(
            pointers,
            name,
            from,
        )].name@ == name,
        forall|i: int| from <= i < pointer_from(pointers, name, from) ==> pointers[i].name@ != name,
    decreases pointers.len() - from,
{
    if from < pointers.len() && pointers[from].name@ != name {
        lemma_pointer_from(pointers, name, from + 1);
    }
}

/// Any position with these three properties is the one that `pointer_from`
/// returns.
pub proof fn lemma_pointer_unique(pointers: Seq<Pointer>, name: Seq<u8>, at: int)
    requires
        0 <= at <= pointers.len(),
        at < pointers.len() ==> pointers[at].name@ == name,
        forall|i: int| 0 <= i < at ==> pointers[i].name@ != name,
    ensures
        pointer_from(pointers, name, 0) == at,
{
    lemma_pointer_from(pointers, name, 0);
}

impl View for RefStore {
    type V = Map<Seq<u8>, Seq<u8>>;

    open spec fn view(&self) -> Map<Seq<u8>, Seq<u8>> {
        Map::new(
            |name: Seq<u8>| pointer_from(self.pointers@, name, 0) < self.pointers@.len(),
            |name: Seq<u8>| self.pointers@[pointer_from(self.pointers@, name, 0)].target@,
        )
    }
}

impl RefStore {
    /// A table without pointers.
    pub fn new() -> (refs: RefStore)
        ensures
            refs@ == Map::<Seq<u8>, Seq<u8>>::empty(),
    {
        let refs = RefStore { pointers: Vec::new() };
        assert(refs@ =~= Map::<Seq<u8>, Seq<u8>>::empty());
        refs
    }

    fn position(&self, name: &[u8]) -> (at: usize)
        ensures
            at == pointer_from(self.pointers@, name@, 0),
            at <= self.pointers@.len(),
    {
        let mut i: usize = 0;
        while i < self.pointers.len()
            invariant
                i <= self.pointers@.len(),
                pointer_from(self.pointers@, name@, 0) == pointer_from(
                    self.pointers@,
                    name@,
                    i as int,
                ),
            decreases self.pointers@.len() - i,
        {
            if bytes_eq(self.pointers[i].name.as_slice(), name) {
                return i;
            }
            i = i + 1;
        }
        i
    }

    /// The text kept for the branch `name`.
    pub fn get(&self, name: &[u8]) -> (target: Option<&Vec<u8>>)
        ensures
            match target {
                Some(text) => self@.contains_key(name@) && self@[name@] == text@,
                None => !self@.contains_key(name@),
            },
    {
        let at = self.position(name);
        if at < self.pointers.len() {
            Some(&self.pointers[at].target)
        } else {
            None
        }
    }

    /// Points the branch `name` at `target`, whether or not it pointed
    /// anywhere before.
    pub fn set(&mut self, name: Vec<u8>, target: Vec<u8>)
        ensures
            final(self)@ == old(self)@.insert(name@, target@),
    {
        let at = self.position(name.as_slice());
        let ghost before = self.pointers@;
        let ghost key = name@;
        let ghost text = target@;
        proof {
            lemma_pointer_from(before, key, 0);
        }
        if at < self.pointers.len() {
            self.pointers[at] = Pointer { name, target };
        } else {
            self.pointers.push(Pointer { name, target });
        }
        proof {
            let after = self.pointers@;
            assert forall|other: Seq<u8>|
                pointer_from(after, other, 0) == if other == key {
                    at as int
                } else if pointer_from(before, other, 0) < before.len() {
                    pointer_from(before, other, 0)
                } else {
                    after.len() as int
                } by {
                lemma_pointer_from(before, other, 0);
                let p = pointer_from(before, other, 0);
                if other == key {
                    lemma_pointer_unique(after, other, at as int);
                } else if p < before.len() {
                    lemma_pointer_unique(after, other, p);
                } else {
                    lemma_pointer_unique(after, other, after.len() as int);
                }
            }
            assert forall|other: Seq<u8>| #[trigger]
                self@.contains_key(other) implies self@[other] == old(self)@.insert(
                key,
                text,
            )[other] by {
                lemma_pointer_from(after, other, 0);
                lemma_pointer_from(before, other, 0);
            }
            assert(self@ =~= old(self)@.insert(key, text));
        }
    }
}

} // verus!
