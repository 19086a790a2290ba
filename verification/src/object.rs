//! The object envelope: a type tag and a declared size in an ASCII header,
//! a nul byte, then the content. Objects are stored zlib-compressed and are
//! addressed by the SHA-1 digest of the uncompressed envelope.
use crate::ascii::{
    decimal, find, find_byte, format_decimal, lemma_decimal_round_trip, lemma_find_from,
    lemma_find_unique, parse_decimal, parse_u64,
};
use crate::digest::{sha1_digest, sha1_of};
use crate::error::GitError;
use crate::text::{is_utf8, lemma_ascii_is_utf8};
use flate2::read::ZlibDecoder;
use flate2::write::ZlibEncoder;
use flate2::Compression;
use std::io::{Read, Write};
use vstd::prelude::*;
use vstd::slice::slice_subrange;
use vstd::utf8::valid_utf8;

verus! {

/// The byte that separates the fields of a header.
pub const SPACE: u8 = 0x20;

/// The byte that ends a header.
pub const NUL: u8 = 0;

/// The three kinds of object.
#[derive(Debug, Clone, Copy, PartialEq, Eq, Structural)]
pub enum ObjectType {
    Blob,
    Tree,
    Commit,
}

impl ObjectType {
    /// The type's name as it is written in a header: `blob`, `tree` or
    /// `commit`, in ASCII.
    pub open spec fn name(self) -> Seq<u8> {
        match self {
            ObjectType::Blob => seq![0x62u8, 0x6c, 0x6f, 0x62],
            ObjectType::Tree => seq![0x74u8, 0x72, 0x65, 0x65],
            ObjectType::Commit => seq![0x63u8, 0x6f, 0x6d, 0x6d, 0x69, 0x74],
        }
    }

    /// Writes the type's name.
    pub fn name_bytes(&self) -> (name: Vec<u8>)
        ensures
            name@ == self.name(),
    {
        let name = match self {
            ObjectType::Blob => vec![0x62u8, 0x6c, 0x6f, 0x62],
            ObjectType::Tree => vec![0x74u8, 0x72, 0x65, 0x65],
            ObjectType::Commit => vec![0x63u8, 0x6f, 0x6d, 0x6d, 0x69, 0x74],
        };
        assert(name@ =~= self.name());
        name
    }

    /// Reads a type's name.
    pub fn from_name(name: &[u8]) -> (kind: Option<ObjectType>)
        ensures
            kind == type_named(name@),
    {
        if name.len() == 4 && name[0] == 0x62 && name[1] == 0x6c && name[2] == 0x6f && name[3]
            == 0x62 {
            assert(name@ =~= ObjectType::Blob.name());
            Some(ObjectType::Blob)
        } else if name.len() == 4 && name[0] == 0x74 && name[1] == 0x72 && name[2] == 0x65
            && name[3] == 0x65 {
            assert(name@ =~= ObjectType::Tree.name());
            Some(ObjectType::Tree)
        } else if name.len() == 6 && name[0] == 0x63 && name[1] == 0x6f && name[2] == 0x6d
            && name[3] == 0x6d && name[4] == 0x69 && name[5] == 0x74 {
            assert(name@ =~= ObjectType::Commit.name());
            Some(ObjectType::Commit)
        } else {
            None
        }
    }
}

/// The type that `name` names, if any.
pub open spec fn type_named(name: Seq<u8>) -> Option<ObjectType> {
    if name == ObjectType::Blob.name() {
        Some(ObjectType::Blob)
    } else if name == ObjectType::Tree.name() {
        Some(ObjectType::Tree)
    } else if name == ObjectType::Commit.name() {
        Some(ObjectType::Commit)
    } else {
        None
    }
}

/// An object as a value: its type, the size that its header declares, and
/// its content.
pub struct ObjectModel {
    pub object_type: ObjectType,
    pub expected_size: u64,
    pub content: Seq<u8>,
}

/// An object read from, or about to be written to, a store.
#[derive(Debug)]
pub struct Object {
    pub object_type: ObjectType,
    pub expected_size: u64,
    pub content: Vec<u8>,
}

impl View for Object {
    type V = ObjectModel;

    open spec fn view(&self) -> ObjectModel {
        ObjectModel {
            object_type: self.object_type,
            expected_size: self.expected_size,
            content: self.content@,
        }
    }
}

impl ObjectModel {
    /// The declared size is the length of the content.
    pub open spec fn wf(self) -> bool {
        self.expected_size == self.content.len()
    }
}

/// The object of type `kind` that holds `content`.
pub open spec fn object_of(kind: ObjectType, content: Seq<u8>) -> ObjectModel {
    ObjectModel { object_type: kind, expected_size: content.len() as u64, content }
}

/// The header of an object of type `kind` whose content has `size` bytes:
/// the type's name, a space, the size in decimal, a nul.
pub open spec fn header(kind: ObjectType, size: nat) -> Seq<u8> {
    kind.name() + seq![SPACE] + decimal(size) + seq![NUL]
}

/// The envelope of an object: its header, then its content.
pub open spec fn envelope(kind: ObjectType, content: Seq<u8>) -> Seq<u8> {
    header(kind, content.len()) + content
}

/// The digest under which an object of type `kind` with `content` is known.
pub open spec fn object_digest(kind: ObjectType, content: Seq<u8>) -> Seq<u8> {
    sha1_digest(envelope(kind, content))
}

/// The object that the envelope `raw` holds.
///
/// The header runs up to the first nul. It must be UTF-8 text and hold a
/// space; before the first space stands the type's name, after it the size.
/// The content is limited to the declared size: bytes past it are not part
/// of the object.
pub open spec fn parse_envelope(raw: Seq<u8>) -> Result<ObjectModel, GitError> {
    let nul = find(raw, NUL);
    let head = raw.take(nul);
    let space = find(head, SPACE);
    let rest = raw.skip(nul + 1);
    if nul >= raw.len() || !valid_utf8(head) || space >= head.len() {
        Err(GitError::MalformedHeader)
    } else {
        match type_named(head.take(space)) {
            None => Err(GitError::UnknownType),
            Some(kind) => match parse_decimal(head.skip(space + 1)) {
                None => Err(GitError::MalformedHeader),
                Some(size) => if rest.len() < size {
                    Err(GitError::SizeMismatch { expected: size, actual: rest.len() as u64 })
                } else {
                    Ok(
                        ObjectModel {
                            object_type: kind,
                            expected_size: size,
                            content: rest.take(size as int),
                        },
                    )
                },
            },
        }
    }
}

/// What the zlib compressor makes of `data` at its default level, or `None`
/// where it gives up.
pub uninterp spec fn zlib_compressed(data: Seq<u8>) -> Option<Seq<u8>>;

/// What the zlib decompressor makes of `data`, or `None` where `data` is
/// not a complete zlib stream.
pub uninterp spec fn zlib_expanded(data: Seq<u8>) -> Option<Seq<u8>>;

/// Trusted: `std::io::Error`, the failure that flate2's streams report. It
/// is carried through unread.
#[verifier::external_type_specification]
#[verifier::external_body]
pub struct ExIoError(std::io::Error);

/// Trusted: `flate2::write::ZlibEncoder` over a `Vec<u8>`, at
/// `Compression::default()`: everything is written with `write_all`, then
/// the stream is closed with `finish`. Two things are assumed of it. The
/// bytes handed back, or the failure, are a function of the input alone.
/// And the stream is one that `flate2::read::ZlibDecoder` expands to the
/// input again, the two being compressor and decompressor of one format.
#[verifier::external_body]
pub(crate) fn zlib_compress(data: &[u8]) -> (out: Result<Vec<u8>, std::io::Error>)
    ensures
        match out {
            Ok(bytes) => zlib_compressed(data@) == Some(bytes@),
            Err(_) => zlib_compressed(data@) is None,
        },
        out matches Ok(bytes) ==> zlib_expanded(bytes@) == Some(data@),
{
    let mut encoder = ZlibEncoder::new(Vec::new(), Compression::default());
    encoder.write_all(data)?;
    encoder.finish()
}

/// Trusted: `flate2::read::ZlibDecoder` over a byte slice, read to its end
/// with `read_to_end`. The bytes handed back, or the failure, are assumed
/// to be a function of the input alone.
#[verifier::external_body]
pub(crate) fn zlib_expand(data: &[u8]) -> (out: Result<Vec<u8>, std::io::Error>)
    ensures
        match out {
            Ok(bytes) => zlib_expanded(data@) == Some(bytes@),
            Err(_) => zlib_expanded(data@) is None,
        },
{
    let mut decoder = ZlibDecoder::new(data);
    let mut raw = Vec::new();
    decoder.read_to_end(&mut raw)?;
    Ok(raw)
}

/// A header is ASCII text with its first space after the type's name and
/// its only nul at the end.
pub proof fn lemma_header_shape(kind: ObjectType, size: nat)
    ensures
        find(header(kind, size), NUL) == header(kind, size).len() - 1,
        find(header(kind, size).drop_last(), SPACE) == kind.name().len(),
        header(kind, size).drop_last() == kind.name() + seq![SPACE] + decimal(size),
        valid_utf8(header(kind, size).drop_last()),
{
    lemma_decimal_round_trip(size);
    let h = header(kind, size);
    let name = kind.name();
    let text = name + seq![SPACE] + decimal(size);
    assert(h.drop_last() =~= text);
    assert forall|i: int| 0 <= i < text.len() implies 0 < #[trigger] text[i] < 0x80 by {
        if i > name.len() {
            assert(text[i] == decimal(size)[i - name.len() - 1]);
        }
    }
    assert forall|i: int| 0 <= i < h.len() - 1 implies h[i] != NUL by {
        assert(h[i] == text[i]);
    }
    lemma_find_unique(h, NUL, h.len() - 1);
    lemma_find_unique(text, SPACE, name.len() as int);
    lemma_ascii_is_utf8(text);
}

/// Round trip: an envelope reads back as the type and the content that it
/// was made of.
pub proof fn lemma_envelope_round_trip(kind: ObjectType, content: Seq<u8>)
    requires
        content.len() <= u64::MAX,
    ensures
        parse_envelope(envelope(kind, content)) == Ok::<ObjectModel, GitError>(
            object_of(kind, content),
        ),
{
    let h = header(kind, content.len());
    let raw = envelope(kind, content);
    lemma_header_shape(kind, content.len());
    lemma_decimal_round_trip(content.len());
    let nul = h.len() - 1;
    assert forall|i: int| 0 <= i < nul implies raw[i] != NUL by {
        lemma_find_from(h, NUL, 0);
        assert(raw[i] == h[i]);
    }
    assert(raw[nul] == h[nul]);
    lemma_find_from(h, NUL, 0);
    lemma_find_unique(raw, NUL, nul);
    let head = raw.take(nul);
    assert(head =~= h.drop_last());
    let space = kind.name().len() as int;
    assert(head.take(space) =~= kind.name());
    assert(head.skip(space + 1) =~= decimal(content.len()));
    assert(raw.skip(nul + 1) =~= content);
    assert(content.take(content.len() as int) =~= content);
    assert(type_named(kind.name()) == Some(kind)) by {
        assert(ObjectType::Blob.name().len() == 4);
        assert(ObjectType::Commit.name().len() == 6);
        assert(ObjectType::Blob.name()[0] != ObjectType::Tree.name()[0]);
    }
}

/// Reads the object that an uncompressed envelope holds.
pub fn parse(raw: &[u8]) -> (out: Result<Object, GitError>)
    ensures
        match out {
            Ok(object) => parse_envelope(raw@) == Ok::<ObjectModel, GitError>(object@),
            Err(e) => parse_envelope(raw@) == Err::<ObjectModel, GitError>(e),
        },
        out matches Ok(object) ==> object@.wf(),
{
    let nul = find_byte(raw, NUL);
    if nul >= raw.len() {
        return Err(GitError::MalformedHeader);
    }
    let head = slice_subrange(raw, 0, nul);
    assert(head@ =~= raw@.take(nul as int));
    if !is_utf8(head) {
        return Err(GitError::MalformedHeader);
    }
    let space = find_byte(head, SPACE);
    if space >= head.len() {
        return Err(GitError::MalformedHeader);
    }
    let name = slice_subrange(head, 0, space);
    assert(name@ =~= head@.take(space as int));
    let kind = match ObjectType::from_name(name) {
        Some(kind) => kind,
        None => {
            return Err(GitError::UnknownType);
        },
    };
    let digits = slice_subrange(head, space + 1, head.len());
    assert(digits@ =~= head@.skip(space + 1));
    let size = match parse_u64(digits) {
        Some(size) => size,
        None => {
            return Err(GitError::MalformedHeader);
        },
    };
    let rest = slice_subrange(raw, nul + 1, raw.len());
    assert(rest@ =~= raw@.skip(nul + 1));
    if (rest.len() as u64) < size {
        return Err(GitError::SizeMismatch { expected: size, actual: rest.len() as u64 });
    }
    let content = vstd::slice::slice_to_vec(slice_subrange(rest, 0, size as usize));
    assert(content@ =~= rest@.take(size as int));
    Ok(Object { object_type: kind, expected_size: size, content })
}

/// An object made ready for storage: its digest and its compressed
/// envelope.
#[derive(Debug)]
pub struct EncodedObject {
    pub digest: [u8; 20],
    pub compressed: Vec<u8>,
}

/// An encoded object as a value.
pub struct EncodedModel {
    pub digest: Seq<u8>,
    pub compressed: Seq<u8>,
}

impl View for EncodedObject {
    type V = EncodedModel;

    open spec fn view(&self) -> EncodedModel {
        EncodedModel { digest: self.digest@, compressed: self.compressed@ }
    }
}

/// The stored form of an object of type `kind` with `content`: the SHA-1
/// digest of its envelope, and the envelope compressed.
pub open spec fn encoded(kind: ObjectType, content: Seq<u8>) -> Result<EncodedModel, GitError> {
    match zlib_compressed(envelope(kind, content)) {
        Some(compressed) => Ok(
            EncodedModel { digest: object_digest(kind, content), compressed },
        ),
        None => Err(GitError::CompressionFailed),
    }
}

/// The object that the stored bytes `compressed` hold.
pub open spec fn decoded(compressed: Seq<u8>) -> Result<ObjectModel, GitError> {
    match zlib_expanded(compressed) {
        Some(raw) => parse_envelope(raw),
        None => Err(GitError::CorruptStream),
    }
}

/// Writes the envelope of an object of type `kind` with `content`.
pub fn build_envelope(kind: ObjectType, content: &[u8]) -> (raw: Vec<u8>)
    ensures
        raw@ == envelope(kind, content@),
{
    let mut raw = kind.name_bytes();
    raw.push(SPACE);
    let mut size = format_decimal(content.len() as u64);
    raw.append(&mut size);
    raw.push(NUL);
    raw.extend_from_slice(content);
    assert(raw@ =~= envelope(kind, content@));
    raw
}

/// The digest of an object, computed without compressing or storing it.
pub fn digest_of(kind: ObjectType, content: &[u8]) -> (digest: [u8; 20])
    ensures
        digest@ == object_digest(kind, content@),
{
    let raw = build_envelope(kind, content);
    sha1_of(raw.as_slice())
}

/// Encodes an object for storage.
///
/// The digest is taken over the uncompressed envelope. What is returned
/// decodes to the same type and content.
pub fn encode(kind: ObjectType, content: &[u8]) -> (out: Result<EncodedObject, GitError>)
    ensures
        match out {
            Ok(object) => encoded(kind, content@) == Ok::<EncodedModel, GitError>(object@),
            Err(e) => encoded(kind, content@) == Err::<EncodedModel, GitError>(e),
        },
        out matches Ok(object) ==> decoded(object.compressed@) == Ok::<ObjectModel, GitError>(
            object_of(kind, content@),
        ),
{
    let raw = build_envelope(kind, content);
    let digest = sha1_of(raw.as_slice());
    match zlib_compress(raw.as_slice()) {
        Ok(compressed) => {
            proof {
                assert(content@.len() == content.len());
                lemma_envelope_round_trip(kind, content@);
            }
            Ok(EncodedObject { digest, compressed })
        },
        Err(_) => Err(GitError::CompressionFailed),
    }
}

/// Decodes stored bytes into an object.
pub fn decode(compressed: &[u8]) -> (out: Result<Object, GitError>)
    ensures
        match out {
            Ok(object) => decoded(compressed@) == Ok::<ObjectModel, GitError>(object@),
            Err(e) => decoded(compressed@) == Err::<ObjectModel, GitError>(e),
        },
        out matches Ok(object) ==> object@.wf(),
{
    match zlib_expand(compressed) {
        Ok(raw) => parse(raw.as_slice()),
        Err(_) => Err(GitError::CorruptStream),
    }
}

} // verus!
