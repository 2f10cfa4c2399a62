//! A plain record of one archive entry.
//!
//! The tar reader runs outside this crate; it hands the library one
//! `EntryMeta` per record, carrying exactly the header fields the tree
//! builder reads.  Paths and link targets are raw bytes.

use vstd::prelude::*;

verus! {

/// The entry types the builder distinguishes.  `Other` covers every tar
/// record kind that is not mounted (character devices, fifos, pax
/// headers and the like); such entries are skipped.
#[derive(Debug, Clone, Copy, PartialEq, Eq, Structural)]
pub enum EntryKind {
    Regular,
    Directory,
    Symlink,
    /// A hard link to an earlier entry.
    Link,
    Other,
}

/// The header fields of one archive record, as plain values.
///
/// `uname_uid` / `gname_gid` carry what the host user database returned
/// for the header's user and group *names* (when the archive names an
/// owner and the lookup succeeded); the raw numeric `uid` / `gid` stand
/// beside them.  `link_target` is the link destination of a symlink or
/// hard-link record.
pub struct EntryMeta {
    pub path: Vec<u8>,
    pub kind: EntryKind,
    pub size: u64,
    pub mode: u32,
    pub uid: u32,
    pub gid: u32,
    pub uname_uid: Option<u32>,
    pub gname_gid: Option<u32>,
    pub mtime: u64,
    pub link_target: Option<Vec<u8>>,
}

/// The mathematical image of an `EntryMeta`: byte strings as sequences.
pub struct EntryM {
    pub path: Seq<u8>,
    pub kind: EntryKind,
    pub size: u64,
    pub mode: u32,
    pub uid: u32,
    pub gid: u32,
    pub uname_uid: Option<u32>,
    pub gname_gid: Option<u32>,
    pub mtime: u64,
    pub link_target: Option<Seq<u8>>,
}

impl View for EntryMeta {
    type V = EntryM;

    open spec fn view(&self) -> EntryM {
        EntryM {
            path: self.path@,
            kind: self.kind,
            size: self.size,
            mode: self.mode,
            uid: self.uid,
            gid: self.gid,
            uname_uid: self.uname_uid,
            gname_gid: self.gname_gid,
            mtime: self.mtime,
            link_target: match self.link_target {
                Some(t) => Some(t@),
                None => None,
            },
        }
    }
}

} // verus!
