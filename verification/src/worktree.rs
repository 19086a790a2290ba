//! A directory tree as plain values: what a snapshot is taken of.
use crate::tree::FileMetadata;
use vstd::prelude::*;

verus! {

/// What a directory entry holds.
#[derive(Debug)]
pub enum Contents {
    /// The bytes of a file.
    File(Vec<u8>),
    /// The entries of a subdirectory.
    Directory(Directory),
}

/// One child of a directory: its name, its metadata and what it holds.
#[derive(Debug)]
pub struct DirEntry {
    pub name: String,
    pub metadata: FileMetadata,
    pub contents: Contents,
}

/// The immediate children of a directory, in the order in which they were
/// listed.
#[derive(Debug)]
pub struct Directory {
    pub entries: Vec<DirEntry>,
}

} // verus!
