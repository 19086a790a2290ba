//! A content-addressable object store and snapshot-tree builder.
//!
//! Objects are byte strings wrapped in a typed, length-prefixed envelope,
//! addressed by the SHA-1 digest of that envelope and kept zlib-compressed.
//! Directory snapshots are assembled bottom-up into canonically ordered tree
//! objects, and commits chain such snapshots into a linear history.

pub mod ascii;
pub mod assemble;
pub mod canonical;
pub mod commit;
pub mod config;
pub mod digest;
pub mod error;
pub mod git;
pub mod object;
pub mod order;
pub mod refs;
pub mod snapshot;
pub mod store;
pub mod text;
pub mod tree;
pub mod worktree;
