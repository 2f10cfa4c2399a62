//! A read-only view of a tape archive as a filesystem tree.
//!
//! The library builds an inode tree from one streaming pass over the
//! archive's entries, resolves hard links, and answers the kernel-style
//! queries (lookup, getattr, readdir, readlink, open, read, release)
//! against that tree.  Content bytes are keyed in an on-disk cache whose
//! paths are derived from BLAKE-256 digests.  All file and device I/O --
//! opening the archive, decompressing it, iterating tar records, touching
//! the cache directory, speaking to the kernel -- lives outside this
//! crate; the library works on plain bytes and integers handed in.

pub mod cache;
pub mod entry;
pub mod fs;
pub mod magic;
pub mod node;
pub mod paths;
pub mod tree;
