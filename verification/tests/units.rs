//! Unit tests for the leaf pieces: magic detection, path handling,
//! cache keying, entry conversion and range reads.

use tarfs::cache::{find_entry, hash_path, join_path, EntryCache};
use tarfs::entry::{EntryKind, EntryMeta};
use tarfs::fs::read_range;
use tarfs::magic::Compression;
use tarfs::node::{EntryError, Node};
use tarfs::paths::{bytes_eq, canonicalize_entry_path, split_components};

fn meta(path: &[u8], kind: EntryKind) -> EntryMeta {
    EntryMeta {
        path: path.to_vec(),
        kind,
        size: 0,
        mode: 0o644,
        uid: 0,
        gid: 0,
        uname_uid: None,
        gname_gid: None,
        mtime: 0,
        link_target: None,
    }
}

#[test]
fn detects_each_magic() {
    assert_eq!(Compression::detect(&[0x1f, 0x8b, 0, 0, 0, 0]), Compression::Gzip);
    assert_eq!(Compression::detect(&[0x42, 0x5a, 0x68, 0, 0, 0]), Compression::Bzip2);
    assert_eq!(Compression::detect(&[0x28, 0xb5, 0x2f, 0xfd, 0, 0]), Compression::Zstd);
    assert_eq!(Compression::detect(&[0xfd, 0x37, 0x7a, 0x58, 0x5a, 0x00]), Compression::Xz);
    assert_eq!(Compression::detect(b"ustar blocks...."), Compression::Unknown);
}

#[test]
fn detects_short_prefixes() {
    assert_eq!(Compression::detect(&[]), Compression::Unknown);
    assert_eq!(Compression::detect(&[0x1f]), Compression::Unknown);
    assert_eq!(Compression::detect(&[0x1f, 0x8b]), Compression::Gzip);
    // An xz prefix one byte short is not xz.
    assert_eq!(Compression::detect(&[0xfd, 0x37, 0x7a, 0x58, 0x5a]), Compression::Unknown);
}

#[test]
fn canonicalizes_entry_paths() {
    assert_eq!(canonicalize_entry_path(b"./a/b"), b"a/b".to_vec());
    assert_eq!(canonicalize_entry_path(b"/abs/path"), b"abs/path".to_vec());
    assert_eq!(canonicalize_entry_path(b".//x"), b"x".to_vec());
    assert_eq!(canonicalize_entry_path(b"plain"), b"plain".to_vec());
    assert_eq!(canonicalize_entry_path(b""), b"".to_vec());
}

#[test]
fn splits_path_components() {
    let comps = split_components(b"a//b/./c/");
    assert_eq!(comps, vec![b"a".to_vec(), b"b".to_vec(), b"c".to_vec()]);
    assert_eq!(split_components(b""), Vec::<Vec<u8>>::new());
    assert_eq!(split_components(b"."), Vec::<Vec<u8>>::new());
    assert_eq!(split_components(b".."), vec![b"..".to_vec()]);
}

#[test]
fn compares_bytes_exactly() {
    assert!(bytes_eq(b"abc", b"abc"));
    assert!(!bytes_eq(b"abc", b"abd"));
    assert!(!bytes_eq(b"abc", b"ab"));
    assert!(bytes_eq(b"", b""));
}

#[test]
fn hashes_are_hex_blake256() {
    // BLAKE-256 of the empty string, from the function's reference
    // vectors, hex-encoded in lowercase.
    let h = hash_path(b"");
    assert_eq!(
        h,
        b"716f6e863f744b9ac22c97ec7b76ea5f5908bc5b2f67c61510bfc4751384ea7a".to_vec(),
    );
    // Two digits per input byte, and different paths get different names.
    let h1 = hash_path(b"/tmp/a.tar");
    let h2 = hash_path(b"/tmp/b.tar");
    assert_eq!(h1.len(), 64);
    assert_ne!(h1, h2);
    assert!(h1.iter().all(|b| b.is_ascii_hexdigit() && !b.is_ascii_uppercase()));
}

#[test]
fn cache_paths_are_keyed_by_digests() {
    let cache = EntryCache::new(b"/tmp/a.tar".to_vec(), b"/var/tmp/scratch");
    assert_eq!(cache.archive_path(), &b"/tmp/a.tar".to_vec());
    let dir = cache.base_dir().clone();
    assert_eq!(&dir[..17], b"/var/tmp/scratch/");
    assert_eq!(dir.len(), 17 + 64);
    assert_eq!(&dir[17..], &hash_path(b"/tmp/a.tar")[..]);

    let file = cache.cached_path(b"a/b/c.txt");
    assert_eq!(&file[..dir.len()], &dir[..]);
    assert_eq!(file[dir.len()], b'/');
    assert_eq!(&file[dir.len() + 1..], &hash_path(b"a/b/c.txt")[..]);

    assert_eq!(join_path(b"d", b"f"), b"d/f".to_vec());
}

#[test]
fn finds_first_matching_entry() {
    let entries = vec![
        meta(b"a", EntryKind::Regular),
        meta(b"b", EntryKind::Regular),
        meta(b"b", EntryKind::Regular),
    ];
    assert_eq!(find_entry(&entries, b"b"), Some(1));
    assert_eq!(find_entry(&entries, b"a"), Some(0));
    assert_eq!(find_entry(&entries, b"c"), None);
    assert_eq!(find_entry(&Vec::<EntryMeta>::new(), b"a"), None);
}

#[test]
fn entry_conversion_checks_names_and_targets() {
    let e = meta(b"./", EntryKind::Regular);
    assert!(matches!(Node::try_from_entry(&e, 2, 0, 0, 0, 0o644), Err(EntryError::MissingName)));

    let e = meta(b"a/..", EntryKind::Regular);
    assert!(matches!(Node::try_from_entry(&e, 2, 0, 0, 0, 0o644), Err(EntryError::MissingName)));

    let mut s = meta(b"s", EntryKind::Symlink);
    s.link_target = None;
    assert!(matches!(
        Node::try_from_entry(&s, 2, 0, 0, 0, 0o644),
        Err(EntryError::MissingLinkTarget)
    ));

    let o = meta(b"o", EntryKind::Other);
    assert!(matches!(Node::try_from_entry(&o, 2, 0, 0, 0, 0o644), Ok(None)));

    let f = meta(b"dir/file.txt", EntryKind::Regular);
    let node = Node::try_from_entry(&f, 7, 3, 5, 6, 0o600).unwrap().unwrap();
    assert_eq!(node.index(), 7);
    assert_eq!(node.name(), &b"file.txt".to_vec());
    assert_eq!(node.path(), &b"dir/file.txt".to_vec());
    let attr = node.attr();
    assert_eq!(attr.ino, 7);
    assert_eq!(attr.uid, 5);
    assert_eq!(attr.gid, 6);
    assert_eq!(attr.perm, 0o600);
}

#[test]
fn range_reads_clip_at_both_ends() {
    let c = b"0123456789".to_vec();
    assert_eq!(read_range(&c, 0, 10), b"0123456789".to_vec());
    assert_eq!(read_range(&c, 0, 4), b"0123".to_vec());
    assert_eq!(read_range(&c, 7, 100), b"789".to_vec());
    assert_eq!(read_range(&c, 10, 5), b"".to_vec());
    assert_eq!(read_range(&c, 1000, 5), b"".to_vec());
    assert_eq!(read_range(&c, 3, 0), b"".to_vec());
}
