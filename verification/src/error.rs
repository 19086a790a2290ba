//! The failures that the library reports.
use vstd::prelude::*;
use vstd::string::StringExecFns;

verus! {

/// Why an operation was refused. No failure is transient: each is handed to
/// the caller at once and nothing is retried.
#[derive(Debug, Clone, Copy, PartialEq, Eq, Structural)]
pub enum GitError {
    /// The backing storage refused an operation.
    StorageIo,
    /// No object is stored under the requested digest.
    ObjectNotFound,
    /// The stored bytes are not a zlib stream.
    CorruptStream,
    /// An envelope has no nul byte, a header that is not UTF-8 text of the
    /// form `<type> <size>`, or a size that is not a decimal number.
    MalformedHeader,
    /// An envelope names a type other than blob, tree or commit.
    UnknownType,
    /// Fewer content bytes follow the header than it declares.
    SizeMismatch { expected: u64, actual: u64 },
    /// A tree ends in the middle of an entry.
    TruncatedEntry,
    /// A tree entry is not UTF-8 text of the form `<mode> <name>` with a
    /// known mode.
    MalformedEntry,
    /// The object is not of the type that the operation reads.
    WrongObjectType,
    /// The current branch pointer is not a symbolic reference.
    DetachedHead,
    /// The compressor gave up on an envelope.
    CompressionFailed,
    /// A tree entry was serialised before its mode and name were set.
    MissingField,
    /// A snapshot was asked for of a directory that contributes nothing.
    EmptyTree,
}

impl GitError {
    /// The text shown for this failure.
    pub open spec fn message_text(self) -> Seq<char> {
        match self {
            GitError::StorageIo => "storage operation failed"@,
            GitError::ObjectNotFound => "object not found"@,
            GitError::CorruptStream => "object is not a zlib stream"@,
            GitError::MalformedHeader => "malformed object header"@,
            GitError::UnknownType => "unknown object type"@,
            GitError::SizeMismatch { .. } => "object is shorter than its header declares"@,
            GitError::TruncatedEntry => "truncated tree entry"@,
            GitError::MalformedEntry => "malformed tree entry"@,
            GitError::WrongObjectType => "object type not supported"@,
            GitError::DetachedHead => "refusing to commit onto detached HEAD"@,
            GitError::CompressionFailed => "compression failed"@,
            GitError::MissingField => "tree entry is missing its mode or name"@,
            GitError::EmptyTree => "failed to write tree"@,
        }
    }

    /// Renders the failure for display.
    pub fn message(&self) -> (text: String)
        ensures
            text@ == self.message_text(),
    {
        match self {
            GitError::StorageIo => String::from_str("storage operation failed"),
            GitError::ObjectNotFound => String::from_str("object not found"),
            GitError::CorruptStream => String::from_str("object is not a zlib stream"),
            GitError::MalformedHeader => String::from_str("malformed object header"),
            GitError::UnknownType => String::from_str("unknown object type"),
            GitError::SizeMismatch { .. } => String::from_str(
                "object is shorter than its header declares",
            ),
            GitError::TruncatedEntry => String::from_str("truncated tree entry"),
            GitError::MalformedEntry => String::from_str("malformed tree entry"),
            GitError::WrongObjectType => String::from_str("object type not supported"),
            GitError::DetachedHead => String::from_str("refusing to commit onto detached HEAD"),
            GitError::CompressionFailed => String::from_str("compression failed"),
            GitError::MissingField => String::from_str("tree entry is missing its mode or name"),
            GitError::EmptyTree => String::from_str("failed to write tree"),
        }
    }
}

} // verus!
