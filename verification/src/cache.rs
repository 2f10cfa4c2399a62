//! Keying of the on-disk entry content cache.
//!
//! Each archive gets a directory under a caller-supplied scratch root,
//! named by the BLAKE-256 digest of the archive's path, hex-encoded;
//! each materialised entry is a file in it, named by the digest of the
//! entry's path.  Digest collisions are treated as impossible.  The
//! library computes every cache path and decides which entry of a scan
//! matches; creating, filling, opening and removing the files is the
//! caller's I/O.

use vstd::prelude::*;

use crate::entry::{EntryM, EntryMeta};
use crate::paths::bytes_eq;

verus! {

/// The 32-byte BLAKE-256 digest of a byte string: a pure function of
/// the bytes alone, left unspecified here.
pub uninterp spec fn blake256_of(data: Seq<u8>) -> Seq<u8>;

/// The ASCII code of `n`'s lowercase hex digit, for `n < 16`:
/// `0`..`9` and `a`..`f`.
pub open spec fn hex_digit(n: u8) -> u8 {
    if n < 10 {
        (48 + n) as u8
    } else {
        (87 + n) as u8
    }
}

/// Lowercase hex encoding as ASCII bytes: each input byte becomes two
/// digits, high nibble first.
pub open spec fn hex_of(data: Seq<u8>) -> Seq<u8> {
    Seq::new(
        data.len() * 2,
        |i: int|
            if i % 2 == 0 {
                hex_digit(data[i / 2] >> 4)
            } else {
                hex_digit(data[i / 2] & 0xf)
            },
    )
}

/// Relies on `blake::hash`: writes the BLAKE-256 digest of `data`, 32
/// bytes, into the output buffer.  The digest depends on the bytes
/// alone, so it carries a name rather than a formula.  With bit length
/// 256 the call's only error (a bad bit length) cannot arise.
#[verifier::external_body]
fn blake256(data: &[u8]) -> (r: Vec<u8>)
    ensures
        r@ == blake256_of(data@),
        r@.len() == 32,
{
    let mut out = [0u8; 32];
    blake::hash(256, data, &mut out).unwrap();
    out.to_vec()
}

/// Relies on `hex::encode`: encodes the bytes as lowercase hex, two
/// digits per byte, high nibble first.
#[verifier::external_body]
fn hex_lower(data: &[u8]) -> (r: Vec<u8>)
    ensures
        r@ == hex_of(data@),
{
    hex::encode(data).into_bytes()
}

/// The name a path is cached under: the hex of its BLAKE-256 digest,
/// 64 ASCII bytes.
pub fn hash_path(path: &[u8]) -> (r: Vec<u8>)
    ensures
        r@ == hex_of(blake256_of(path@)),
        r@.len() == 64,
{
    let h = blake256(path);
    hex_lower(h.as_slice())
}

/// `dir/name`.
pub open spec fn spec_join(dir: Seq<u8>, name: Seq<u8>) -> Seq<u8> {
    dir + seq![47u8] + name
}

/// Join a directory and a file name with `/`.
pub fn join_path(dir: &[u8], name: &[u8]) -> (r: Vec<u8>)
    ensures
        r@ == spec_join(dir@, name@),
{
    let mut out: Vec<u8> = Vec::new();
    let n: usize = dir.len();
    let mut i: usize = 0;
    while i < n
        invariant
            n == dir@.len(),
            i <= n,
            out@ =~= dir@.subrange(0, i as int),
        decreases n - i,
    {
        let b = dir[i];
        out.push(b);
        i = i + 1;
    }
    out.push(47);
    let m: usize = name.len();
    let mut j: usize = 0;
    while j < m
        invariant
            n == dir@.len(),
            m == name@.len(),
            j <= m,
            out@ =~= dir@ + seq![47u8] + name@.subrange(0, j as int),
        decreases m - j,
    {
        let b = name[j];
        out.push(b);
        j = j + 1;
    }
    proof {
        assert(out@ =~= spec_join(dir@, name@));
    }
    out
}

/// The paths of one archive's entry content cache.
pub struct EntryCache {
    archive_path: Vec<u8>,
    base_dir: Vec<u8>,
}

impl EntryCache {
    /// The path of the archive whose entries this cache holds.
    pub closed spec fn spec_archive_path(&self) -> Seq<u8> {
        self.archive_path@
    }

    /// The per-archive cache directory.
    pub closed spec fn spec_base_dir(&self) -> Seq<u8> {
        self.base_dir@
    }

    /// A cache for one archive: its directory is the scratch root plus
    /// the hex BLAKE-256 digest of the archive's path.
    pub fn new(archive_path: Vec<u8>, base_dir: &[u8]) -> (c: EntryCache)
        ensures
            c.spec_archive_path() == archive_path@,
            c.spec_base_dir() == spec_join(base_dir@, hex_of(blake256_of(archive_path@))),
    {
        let h = hash_path(archive_path.as_slice());
        let dir = join_path(base_dir, h.as_slice());
        EntryCache { archive_path, base_dir: dir }
    }

    /// The archive path, for re-opening the archive on a cache miss.
    pub fn archive_path(&self) -> (r: &Vec<u8>)
        ensures
            r@ == self.spec_archive_path(),
    {
        &self.archive_path
    }

    /// The per-archive cache directory, for creating it before a fill
    /// and removing it at unmount.
    pub fn base_dir(&self) -> (r: &Vec<u8>)
        ensures
            r@ == self.spec_base_dir(),
    {
        &self.base_dir
    }

    /// The file an entry's bytes are cached in: the cache directory
    /// plus the hex BLAKE-256 digest of the entry's path.
    pub fn cached_path(&self, entry_path: &[u8]) -> (r: Vec<u8>)
        ensures
            r@ == spec_join(self.spec_base_dir(), hex_of(blake256_of(entry_path@))),
    {
        let h = hash_path(entry_path);
        join_path(self.base_dir.as_slice(), h.as_slice())
    }
}

/// The position of the first entry whose path equals `path` byte for
/// byte, scanning from `i`: the record a cache miss materialises.
pub open spec fn spec_find_entry(es: Seq<EntryM>, path: Seq<u8>, i: int) -> Option<int>
    decreases es.len() - i,
{
    if i < 0 || i >= es.len() {
        None
    } else if es[i].path == path {
        Some(i)
    } else {
        spec_find_entry(es, path, i + 1)
    }
}

/// Scan the entries, in archive order, for the first whose path equals
/// the requested one byte for byte.
pub fn find_entry(entries: &Vec<EntryMeta>, path: &[u8]) -> (r: Option<usize>)
    ensures
        match r {
            Some(k) => spec_find_entry(
                entries@.map_values(|e: EntryMeta| e@),
                path@,
                0,
            ) == Some(k as int) && k < entries@.len(),
            None => spec_find_entry(entries@.map_values(|e: EntryMeta| e@), path@, 0) is None,
        },
{
    let ghost es = entries@.map_values(|e: EntryMeta| e@);
    let n: usize = entries.len();
    let mut i: usize = 0;
    while i < n
        invariant
            n == entries@.len(),
            es == entries@.map_values(|e: EntryMeta| e@),
            i <= n,
            spec_find_entry(es, path@, 0) == spec_find_entry(es, path@, i as int),
        decreases n - i,
    {
        if bytes_eq(entries[i].path.as_slice(), path) {
            return Some(i);
        }
        i = i + 1;
    }
    None
}

} // verus!
