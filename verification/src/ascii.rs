//! Byte-level text: searching for a separator, and decimal numbers as they
//! appear in object headers.
use vstd::prelude::*;

verus! {

/// The position of the first `needle` in `bytes` at or after `from`, or the
/// length of `bytes` when there is none.
pub open spec fn find_from(bytes: Seq<u8>, needle: u8, from: int) -> int
    decreases bytes.len() - from,
{
    if from >= bytes.len() {
        bytes.len() as int
    } else if bytes[from] == needle {
        from
    } else {
        find_from(bytes, needle, from + 1)
    }
}

/// The position of the first `needle` in `bytes`, or the length of `bytes`
/// when there is none.
pub open spec fn find(bytes: Seq<u8>, needle: u8) -> int {
    find_from(bytes, needle, 0)
}

/// What `find_from` returns: the least position at or after `from` that
/// holds `needle`.
pub proof fn lemma_find_from(bytes: Seq<u8>, needle: u8, from: int)
    requires
        0 <= from <= bytes.len(),
    ensures
        from <= find_from(bytes, needle, from) <= bytes.len(),
        find_from(bytes, needle, from) < bytes.len() ==> bytes[find_from(bytes, needle, from)]
            == needle,
        forall|i: int| from <= i < find_from(bytes, needle, from) ==> bytes[i] != needle,
    decreases bytes.len() - from,
{
    if from < bytes.len() && bytes[from] != needle {
        lemma_find_from(bytes, needle, from + 1);
    }
}

/// `find` is determined by its three properties: any position with them is
/// the one it returns.
pub proof fn lemma_find_unique(bytes: Seq<u8>, needle: u8, at: int)
    requires
        0 <= at <= bytes.len(),
        at < bytes.len() ==> bytes[at] == needle,
        forall|i: int| 0 <= i < at ==> bytes[i] != needle,
    ensures
        find(bytes, needle) == at,
{
    lemma_find_from(bytes, needle, 0);
}

/// Finds the first `needle` in `bytes`.
pub fn find_byte(bytes: &[u8], needle: u8) -> (at: usize)
    ensures
        at == find(bytes@, needle),
        at <= bytes@.len(),
{
    let mut i: usize = 0;
    while i < bytes.len() && bytes[i] != needle
        invariant
            i <= bytes@.len(),
            find(bytes@, needle) == find_from(bytes@, needle, i as int),
        decreases bytes@.len() - i,
    {
        i = i + 1;
    }
    i
}

/// The value of the decimal digits `digits`, read most significant first.
pub open spec fn digits_value(digits: Seq<u8>) -> nat
    decreases digits.len(),
{
    if digits.len() == 0 {
        0
    } else {
        (digits_value(digits.drop_last()) * 10 + (digits.last() - 0x30)) as nat
    }
}

/// Every byte is an ASCII decimal digit.
pub open spec fn all_digits(bytes: Seq<u8>) -> bool {
    forall|i: int| 0 <= i < bytes.len() ==> 0x30 <= #[trigger] bytes[i] <= 0x39
}

/// The digits of a number text once an optional leading `+` is dropped.
pub open spec fn unsigned_digits(text: Seq<u8>) -> Seq<u8> {
    if text.len() > 0 && text[0] == 0x2B {
        text.drop_first()
    } else {
        text
    }
}

/// The number that `text` denotes: an optional `+`, then one or more decimal
/// digits whose value fits in 64 bits. Leading zeros are accepted.
pub open spec fn parse_decimal(text: Seq<u8>) -> Option<u64> {
    let digits = unsigned_digits(text);
    if digits.len() > 0 && all_digits(digits) && digits_value(digits) <= u64::MAX {
        Some(digits_value(digits) as u64)
    } else {
        None
    }
}

/// The decimal text of `n`, without sign or leading zeros.
pub open spec fn decimal(n: nat) -> Seq<u8>
    decreases n,
{
    if n < 10 {
        seq![(0x30 + n) as u8]
    } else {
        decimal(n / 10).push((0x30 + n % 10) as u8)
    }
}

/// A longer digit string with the same leading digits denotes no smaller a
/// number.
pub proof fn lemma_digits_value_prefix(digits: Seq<u8>, k: int)
    requires
        all_digits(digits),
        0 <= k <= digits.len(),
    ensures
        digits_value(digits.take(k)) <= digits_value(digits),
    decreases digits.len(),
{
    if k < digits.len() {
        lemma_digits_value_prefix(digits.drop_last(), k);
        assert(digits.drop_last().take(k) =~= digits.take(k));
    } else {
        assert(digits.take(k) =~= digits);
    }
}

/// Decimal text is made of digits, starts with no `+`, and reads back as the
/// number it was written from.
pub proof fn lemma_decimal_round_trip(n: nat)
    ensures
        decimal(n).len() > 0,
        all_digits(decimal(n)),
        digits_value(decimal(n)) == n,
        unsigned_digits(decimal(n)) == decimal(n),
        n <= u64::MAX ==> parse_decimal(decimal(n)) == Some(n as u64),
    decreases n,
{
    if n < 10 {
        let d = decimal(n);
        assert(d.drop_last() =~= Seq::<u8>::empty());
        assert(digits_value(d.drop_last()) == 0);
    } else {
        lemma_decimal_round_trip(n / 10);
        let d = decimal(n);
        assert(d.drop_last() =~= decimal(n / 10));
        assert(d[0] == decimal(n / 10)[0]);
    }
}

/// Writes `n` in decimal.
pub fn format_decimal(n: u64) -> (text: Vec<u8>)
    ensures
        text@ == decimal(n as nat),
{
    let mut reversed: Vec<u8> = Vec::new();
    let mut rest: u64 = n;
    while rest >= 10
        invariant
            decimal(n as nat) == decimal(rest as nat) + reversed@.reverse(),
        decreases rest,
    {
        let digit: u8 = 0x30 + (rest % 10) as u8;
        proof {
            let tail = reversed@.reverse();
            assert(decimal(rest as nat) == decimal((rest / 10) as nat).push(digit));
            assert(reversed@.push(digit).reverse() =~= seq![digit] + tail);
            assert(decimal((rest / 10) as nat).push(digit) + tail =~= decimal((rest / 10) as nat)
                + (seq![digit] + tail));
        }
        reversed.push(digit);
        rest = rest / 10;
    }
    let mut text: Vec<u8> = Vec::new();
    text.push(0x30 + rest as u8);
    let mut i: usize = reversed.len();
    while i > 0
        invariant
            i <= reversed@.len(),
            text@ == decimal(rest as nat) + reversed@.reverse().take(reversed@.len() - i),
        decreases i,
    {
        i = i - 1;
        proof {
            let r = reversed@.reverse();
            let k = reversed@.len() - i - 1;
            assert(r.take(k + 1) =~= r.take(k).push(reversed@[i as int]));
            assert((decimal(rest as nat) + r.take(k)).push(reversed@[i as int]) =~= decimal(
                rest as nat,
            ) + r.take(k + 1));
        }
        text.push(reversed[i]);
    }
    proof {
        let r = reversed@.reverse();
        assert(r.take(reversed@.len() as int) =~= r);
    }
    text
}

/// Reads a decimal number.
pub fn parse_u64(text: &[u8]) -> (value: Option<u64>)
    ensures
        value == parse_decimal(text@),
{
    let start: usize = if text.len() > 0 && text[0] == 0x2B {
        1
    } else {
        0
    };
    let ghost digits = unsigned_digits(text@);
    assert(digits =~= text@.subrange(start as int, text@.len() as int));
    if start == text.len() {
        return None;
    }
    let mut value: u64 = 0;
    let mut i: usize = start;
    while i < text.len()
        invariant
            start <= i <= text@.len(),
            digits == unsigned_digits(text@),
            digits == text@.subrange(start as int, text@.len() as int),
            all_digits(digits.take(i - start)),
            value == digits_value(digits.take(i - start)),
        decreases text@.len() - i,
    {
        let byte = text[i];
        let ghost k = i - start;
        if byte < 0x30 || byte > 0x39 {
            assert(digits[k] == byte);
            return None;
        }
        proof {
            assert(digits.take(k + 1).drop_last() =~= digits.take(k));
            assert(digits.take(k + 1).last() == byte);
            assert forall|j: int| 0 <= j < k + 1 implies 0x30 <= #[trigger] digits.take(k + 1)[j]
                <= 0x39 by {
                if j < k {
                    assert(digits.take(k)[j] == digits.take(k + 1)[j]);
                }
            }
        }
        let digit: u64 = (byte - 0x30) as u64;
        if value > (u64::MAX - digit) / 10 {
            proof {
                // The digits read so far already exceed 64 bits, and more
                // digits can only add to them.
                assert(digits_value(digits.take(k + 1)) == value * 10 + digit);
                if all_digits(digits) {
                    lemma_digits_value_prefix(digits, k + 1);
                }
            }
            return None;
        }
        value = value * 10 + digit;
        i = i + 1;
    }
    proof {
        assert(digits.take(digits.len() as int) =~= digits);
    }
    Some(value)
}

} // verus!
