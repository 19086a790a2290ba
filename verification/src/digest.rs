//! Digests: SHA-1 over a byte string, and the lowercase hexadecimal form in
//! which a digest crosses the library's boundary.
use sha1::{Digest, Sha1};
use vstd::prelude::*;
use vstd::string::{StrSliceExecFns, StringExecFns};
use vstd::utf8::{
    encode_utf8, encode_utf8_decode_utf8, is_ascii_chars, is_ascii_chars_encode_utf8,
};

verus! {

/// The SHA-1 digest of `data`.
pub uninterp spec fn sha1_digest(data: Seq<u8>) -> Seq<u8>;

/// The sixteen lowercase hexadecimal digits, in order of value.
pub open spec fn lower_hex_digits() -> Seq<char> {
    seq!['0', '1', '2', '3', '4', '5', '6', '7', '8', '9', 'a', 'b', 'c', 'd', 'e', 'f']
}

/// The lowercase hexadecimal text of `bytes`: two digits per byte, the high
/// nibble first.
pub open spec fn hex_lower(bytes: Seq<u8>) -> Seq<char> {
    Seq::new(
        2 * bytes.len(),
        |i: int|
            if i % 2 == 0 {
                lower_hex_digits()[bytes[i / 2] as int / 16]
            } else {
                lower_hex_digits()[bytes[i / 2] as int % 16]
            },
    )
}

/// Trusted: `sha1::Sha1::digest`, the one-shot SHA-1 of the RustCrypto
/// `sha1` crate. The digest is a function of the input bytes alone; nothing
/// else about it is assumed.
#[verifier::external_body]
pub(crate) fn sha1_of(data: &[u8]) -> (hash: [u8; 20])
    ensures
        hash@ == sha1_digest(data@),
{
    Sha1::digest(data).into()
}

/// Trusted: `hex::encode`. For every input byte the crate emits two
/// characters from its lowercase table, the high nibble first.
#[verifier::external_body]
pub(crate) fn hex_encode(data: &[u8]) -> (text: String)
    ensures
        text@ == hex_lower(data@),
{
    hex::encode(data)
}

/// The hexadecimal text of a digest, as it is shown to callers.
pub fn digest_to_hex(hash: &[u8; 20]) -> (text: String)
    ensures
        text@ == hex_lower(hash@),
        text@.len() == 40,
{
    hex_encode(hash.as_slice())
}

/// The value of a lowercase hexadecimal digit.
pub open spec fn hex_digit_value(c: char) -> Option<int> {
    if '0' <= c <= '9' {
        Some(c as int - '0' as int)
    } else if 'a' <= c <= 'f' {
        Some(c as int - 'a' as int + 10)
    } else {
        None
    }
}

/// The digest that `text` names: forty lowercase hexadecimal digits, two per
/// byte, the high nibble first. Anything else names no digest.
pub open spec fn digest_named(text: Seq<char>) -> Option<Seq<u8>> {
    if text.len() == 40 && forall|i: int| 0 <= i < 40 ==> hex_digit_value(#[trigger] text[i])
        is Some {
        Some(
            Seq::new(
                20,
                |i: int|
                    (16 * hex_digit_value(text[2 * i])->0 + hex_digit_value(
                        text[2 * i + 1],
                    )->0) as u8,
            ),
        )
    } else {
        None
    }
}

/// Each of the sixteen digits has its position as its value.
pub proof fn lemma_hex_digits(n: int)
    requires
        0 <= n < 16,
    ensures
        hex_digit_value(lower_hex_digits()[n]) == Some(n),
        lower_hex_digits()[n] <= '\u{7f}',
{
}

/// The hexadecimal text of a digest names that digest, and no other text
/// does.
pub proof fn lemma_hex_round_trip(digest: Seq<u8>, text: Seq<char>)
    requires
        digest.len() == 20,
    ensures
        digest_named(text) == Some(digest) <==> text == hex_lower(digest),
        digest_named(hex_lower(digest)) == Some(digest),
{
    let hex = hex_lower(digest);
    assert forall|i: int| 0 <= i < 40 implies hex_digit_value(#[trigger] hex[i]) == Some(
        if i % 2 == 0 {
            digest[i / 2] as int / 16
        } else {
            digest[i / 2] as int % 16
        },
    ) by {
        lemma_hex_digits(digest[i / 2] as int / 16);
        lemma_hex_digits(digest[i / 2] as int % 16);
    }
    assert(digest_named(hex)->0 =~= digest) by {
        assert forall|i: int| 0 <= i < 20 implies digest_named(hex)->0[i] == digest[i] by {
            assert(hex_digit_value(hex[2 * i]) == Some(digest[i] as int / 16));
            assert(hex_digit_value(hex[2 * i + 1]) == Some(digest[i] as int % 16));
        }
    }
    if digest_named(text) == Some(digest) {
        assert forall|i: int| 0 <= i < 40 implies text[i] == hex[i] by {
            let k = i / 2;
            assert(digest_named(text)->0[k] == digest[k]);
            let hi = hex_digit_value(text[2 * k])->0;
            let lo = hex_digit_value(text[2 * k + 1])->0;
            assert(hex_digit_value(text[2 * k]) is Some);
            assert(hex_digit_value(text[2 * k + 1]) is Some);
            assert(0 <= hi < 16 && 0 <= lo < 16);
            assert(digest[k] as int == 16 * hi + lo);
            lemma_hex_digits(hi);
            lemma_hex_digits(lo);
            assert(hex_digit_value(text[i]) == hex_digit_value(hex[i]));
        }
        assert(text =~= hex);
    }
}

/// Hexadecimal text is ASCII: it takes one byte per character in UTF-8.
pub proof fn lemma_hex_is_ascii(bytes: Seq<u8>)
    ensures
        is_ascii_chars(hex_lower(bytes)),
        hex_lower(bytes).len() == 2 * bytes.len(),
{
    let hex = hex_lower(bytes);
    assert forall|i: int| 0 <= i < hex.len() implies '\0' <= #[trigger] hex[i] <= '\u{7f}' by {
        lemma_hex_digits(bytes[i / 2] as int / 16);
        lemma_hex_digits(bytes[i / 2] as int % 16);
    }
}

/// Where an object is kept: in a directory named by the first two digits
/// of its digest in hexadecimal, in a file named by the other thirty-eight.
#[derive(Debug, PartialEq, Eq)]
pub struct ObjectPath {
    pub directory: String,
    pub file: String,
}

/// The place of the object with the digest `hash`.
pub fn object_path(hash: &[u8; 20]) -> (path: ObjectPath)
    ensures
        path.directory@ == hex_lower(hash@).take(2),
        path.file@ == hex_lower(hash@).skip(2),
{
    let hex = hex_encode(hash.as_slice());
    proof {
        lemma_hex_is_ascii(hash@);
    }
    let text = hex.as_str();
    let directory = String::from_str(text.substring_ascii(0, 2));
    let file = String::from_str(text.substring_ascii(2, 40));
    proof {
        assert(hex_lower(hash@).subrange(0, 2) =~= hex_lower(hash@).take(2));
        assert(hex_lower(hash@).subrange(2, 40) =~= hex_lower(hash@).skip(2));
    }
    ObjectPath { directory, file }
}

/// The value of the lowercase hexadecimal digit that the ASCII byte `b`
/// stands for.
fn hex_nibble(b: u8) -> (value: Option<u8>)
    ensures
        match value {
            Some(v) => hex_digit_value(b as char) == Some(v as int),
            None => hex_digit_value(b as char) is None,
        },
{
    if 0x30 <= b && b <= 0x39 {
        Some(b - 0x30)
    } else if 0x61 <= b && b <= 0x66 {
        Some(b - 0x61 + 10)
    } else {
        None
    }
}

/// A text of single-byte characters is its own bytes, and the other way
/// round.
pub proof fn lemma_ascii_text(text: Seq<char>)
    ensures
        is_ascii_chars(text) <==> (forall|i: int|
            0 <= i < encode_utf8(text).len() ==> encode_utf8(text)[i] < 0x80),
        is_ascii_chars(text) ==> encode_utf8(text).len() == text.len(),
        is_ascii_chars(text) ==> forall|i: int|
            0 <= i < text.len() ==> #[trigger] encode_utf8(text)[i] as char == text[i],
{
    let bytes = encode_utf8(text);
    if is_ascii_chars(text) {
        is_ascii_chars_encode_utf8(text);
        assert forall|i: int| 0 <= i < text.len() implies bytes[i] < 0x80 && #[trigger] bytes[i]
            as char == text[i] by {
            assert(text[i] as u8 == bytes[i]);
        }
    }
    if forall|i: int| 0 <= i < bytes.len() ==> bytes[i] < 0x80 {
        let plain = Seq::new(bytes.len(), |i: int| bytes[i] as char);
        assert(is_ascii_chars(plain));
        is_ascii_chars_encode_utf8(plain);
        assert(encode_utf8(plain) =~= bytes);
        encode_utf8_decode_utf8(plain);
        encode_utf8_decode_utf8(text);
        assert(text == plain);
    }
}

/// Reads a digest from its hexadecimal text.
pub fn parse_digest(text: &str) -> (digest: Option<[u8; 20]>)
    ensures
        match digest {
            Some(d) => digest_named(text@) == Some(d@),
            None => digest_named(text@) is None,
        },
{
    let bytes = text.as_bytes();
    proof {
        lemma_ascii_text(text@);
    }
    if bytes.len() != 40 {
        proof {
            if text@.len() == 40 && forall|i: int|
                0 <= i < 40 ==> hex_digit_value(#[trigger] text@[i]) is Some {
                assert(is_ascii_chars(text@));
            }
        }
        return None;
    }
    let mut digest: [u8; 20] = [0u8; 20];
    let mut i: usize = 0;
    while i < 20
        invariant
            i <= 20,
            bytes@.len() == 40,
            bytes@ == encode_utf8(text@),
            forall|j: int| 0 <= j < 2 * i ==> bytes@[j] < 0x80,
            forall|j: int|
                0 <= j < 2 * i ==> hex_digit_value(#[trigger] (bytes@[j] as char)) is Some,
            forall|k: int|
                0 <= k < i ==> digest@[k] as int == 16 * hex_digit_value(
                    bytes@[2 * k] as char,
                )->0 + hex_digit_value(bytes@[2 * k + 1] as char)->0,
            is_ascii_chars(text@) ==> forall|j: int|
                0 <= j < text@.len() ==> #[trigger] encode_utf8(text@)[j] as char == text@[j],
            is_ascii_chars(text@) <==> (forall|j: int|
                0 <= j < encode_utf8(text@).len() ==> encode_utf8(text@)[j] < 0x80),
            is_ascii_chars(text@) ==> encode_utf8(text@).len() == text@.len(),
        decreases 20 - i,
    {
        let hi = hex_nibble(bytes[2 * i]);
        let lo = hex_nibble(bytes[2 * i + 1]);
        match (hi, lo) {
            (Some(hi), Some(lo)) => {
                digest[i] = 16 * hi + lo;
            },
            _ => {
                proof {
                    if text@.len() == 40 && forall|j: int|
                        0 <= j < 40 ==> hex_digit_value(#[trigger] text@[j]) is Some {
                        assert(is_ascii_chars(text@));
                        assert(bytes@[2 * i as int] as char == text@[2 * i as int]);
                        assert(bytes@[2 * i + 1] as char == text@[2 * i + 1]);
                    }
                }
                return None;
            },
        }
        i = i + 1;
    }
    proof {
        assert(is_ascii_chars(text@));
        assert forall|j: int| 0 <= j < 40 implies hex_digit_value(#[trigger] text@[j]) is Some by {
            assert(bytes@[j] as char == text@[j]);
        }
        assert(digest_named(text@)->0 =~= digest@) by {
            assert forall|k: int| 0 <= k < 20 implies digest_named(text@)->0[k] == digest@[k] by {
                assert(bytes@[2 * k] as char == text@[2 * k]);
                assert(bytes@[2 * k + 1] as char == text@[2 * k + 1]);
            }
        }
    }
    Some(digest)
}

/// Whether two digests are the same.
pub fn digest_eq(a: &[u8; 20], b: &[u8; 20]) -> (same: bool)
    ensures
        same == (a@ == b@),
{
    let mut i: usize = 0;
    while i < 20
        invariant
            i <= 20,
            forall|j: int| 0 <= j < i ==> a@[j] == b@[j],
        decreases 20 - i,
    {
        if a[i] != b[i] {
            return false;
        }
        i = i + 1;
    }
    assert(a@ =~= b@);
    true
}

} // verus!
