//! Detection of the archive's compression from its first bytes.

use vstd::prelude::*;

verus! {

/// The compression formats the mount recognises, told apart by the magic
/// bytes at the start of the archive file.
#[derive(Debug, Clone, Copy, PartialEq, Eq, Structural)]
pub enum Compression {
    Gzip,
    Bzip2,
    Xz,
    Zstd,
    Unknown,
}

/// What `detect` returns for a given prefix of the archive: the first
/// matching magic wins, and anything else (including a prefix too short
/// to hold any magic) is `Unknown`, to be treated as plain tar.
pub open spec fn spec_detect(b: Seq<u8>) -> Compression {
    if b.len() >= 2 && b[0] == 0x1f && b[1] == 0x8b {
        Compression::Gzip
    } else if b.len() >= 3 && b[0] == 0x42 && b[1] == 0x5a && b[2] == 0x68 {
        Compression::Bzip2
    } else if b.len() >= 4 && b[0] == 0x28 && b[1] == 0xb5 && b[2] == 0x2f && b[3] == 0xfd {
        Compression::Zstd
    } else if b.len() >= 6 && b[0] == 0xfd && b[1] == 0x37 && b[2] == 0x7a && b[3] == 0x58
        && b[4] == 0x5a && b[5] == 0x00 {
        Compression::Xz
    } else {
        Compression::Unknown
    }
}

impl Compression {
    /// Inspect the first bytes of the archive and pick the codec by magic:
    /// gzip `1f 8b`, bzip2 `42 5a 68`, zstd `28 b5 2f fd`,
    /// xz `fd 37 7a 58 5a 00`; everything else is `Unknown`.
    pub fn detect(buf: &[u8]) -> (c: Compression)
        ensures
            c == spec_detect(buf@),
    {
        if buf.len() >= 2 && buf[0] == 0x1f && buf[1] == 0x8b {
            Compression::Gzip
        } else if buf.len() >= 3 && buf[0] == 0x42 && buf[1] == 0x5a && buf[2] == 0x68 {
            Compression::Bzip2
        } else if buf.len() >= 4 && buf[0] == 0x28 && buf[1] == 0xb5 && buf[2] == 0x2f
            && buf[3] == 0xfd {
            Compression::Zstd
        } else if buf.len() >= 6 && buf[0] == 0xfd && buf[1] == 0x37 && buf[2] == 0x7a
            && buf[3] == 0x58 && buf[4] == 0x5a && buf[5] == 0x00 {
            Compression::Xz
        } else {
            Compression::Unknown
        }
    }
}

} // verus!
