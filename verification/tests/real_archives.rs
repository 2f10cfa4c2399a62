//! Scenarios over real archive bytes: tar streams written with the tar
//! crate, optionally gzip-compressed, read back the way the mount's
//! edge reads them, and served through the library.

use std::io::{Read, Write};

use tarfs::entry::{EntryKind, EntryMeta};
use tarfs::fs::ArchiveFs;
use tarfs::magic::Compression;
use tarfs::node::FileKind;
use tarfs::tree::{BuildConfig, TreeBuilder};

fn plain_config() -> BuildConfig {
    BuildConfig {
        root_mtime: 0,
        root_uid: 0,
        root_gid: 0,
        numeric_owner: false,
        force_uid: None,
        force_gid: None,
        force_mode: None,
    }
}

/// The edge's conversion of one tar record to the library's plain
/// entry value (owner names unresolved, as on a host without them).
fn convert<R: Read>(entry: &tar::Entry<R>) -> EntryMeta {
    let header = entry.header();
    let kind = match header.entry_type() {
        tar::EntryType::Regular => EntryKind::Regular,
        tar::EntryType::Directory => EntryKind::Directory,
        tar::EntryType::Symlink => EntryKind::Symlink,
        tar::EntryType::Link => EntryKind::Link,
        _ => EntryKind::Other,
    };
    EntryMeta {
        path: entry.path_bytes().to_vec(),
        kind,
        size: entry.size(),
        mode: header.mode().unwrap_or(0),
        uid: header.uid().unwrap_or(0) as u32,
        gid: header.gid().unwrap_or(0) as u32,
        uname_uid: None,
        gname_gid: None,
        mtime: header.mtime().unwrap_or(0),
        link_target: entry.link_name_bytes().map(|t| t.to_vec()),
    }
}

fn read_entries(bytes: &[u8]) -> Vec<EntryMeta> {
    let mut archive = tar::Archive::new(bytes);
    archive.entries().unwrap().map(|e| convert(&e.unwrap())).collect()
}

/// The edge's cache-miss scan: the body of the first record whose path
/// matches, byte for byte.
fn body_of(bytes: &[u8], path: &[u8]) -> Option<Vec<u8>> {
    let mut archive = tar::Archive::new(bytes);
    for entry in archive.entries().unwrap() {
        let mut entry = entry.unwrap();
        if tarfs::paths::bytes_eq(&entry.path_bytes(), path) {
            let mut body = Vec::new();
            entry.read_to_end(&mut body).unwrap();
            return Some(body);
        }
    }
    None
}

fn file_record(builder: &mut tar::Builder<Vec<u8>>, path: &str, body: &[u8], mode: u32, mtime: u64) {
    let mut header = tar::Header::new_gnu();
    header.set_entry_type(tar::EntryType::Regular);
    header.set_mode(mode);
    header.set_uid(0);
    header.set_gid(0);
    header.set_mtime(mtime);
    header.set_size(body.len() as u64);
    builder.append_data(&mut header, path, body).unwrap();
}

fn dir_record(builder: &mut tar::Builder<Vec<u8>>, path: &str) {
    let mut header = tar::Header::new_gnu();
    header.set_entry_type(tar::EntryType::Directory);
    header.set_mode(0o755);
    header.set_uid(0);
    header.set_gid(0);
    header.set_mtime(0);
    header.set_size(0);
    builder.append_data(&mut header, path, &[][..]).unwrap();
}

#[test]
fn real_plain_tar_one_file() {
    let mut builder = tar::Builder::new(Vec::new());
    file_record(&mut builder, "hello.txt", b"hi\n", 0o644, 1700000000);
    let bytes = builder.into_inner().unwrap();

    assert_eq!(Compression::detect(&bytes[..6]), Compression::Unknown);

    let entries = read_entries(&bytes);
    let (tree, warns) = TreeBuilder::new(plain_config()).build(&entries);
    assert_eq!(warns.len(), 0);
    let mut fs = ArchiveFs::new(tree);

    let attr = fs.lookup(1, b"hello.txt").unwrap();
    assert_eq!(attr.ino, 2);
    assert_eq!(attr.size, 3);
    assert_eq!(attr.perm, 0o644);
    assert_eq!(attr.mtime, 1700000000);

    let path = fs.open(2).unwrap();
    let body = body_of(&bytes, &path).unwrap();
    assert_eq!(body, b"hi\n".to_vec());
    let fh = fs.register_handle(body);
    assert_eq!(fs.read(fh, 0, 4096).unwrap(), b"hi\n".to_vec());
}

#[test]
fn real_gzip_nested_directories() {
    let mut builder = tar::Builder::new(Vec::new());
    dir_record(&mut builder, "a/");
    dir_record(&mut builder, "a/b/");
    file_record(&mut builder, "a/b/c.txt", b"xxxxxxxxxx", 0o644, 0);
    let plain = builder.into_inner().unwrap();

    let mut encoder = flate2::write::GzEncoder::new(Vec::new(), flate2::Compression::default());
    encoder.write_all(&plain).unwrap();
    let compressed = encoder.finish().unwrap();

    // The magic picks the gzip path, and decoding restores the stream.
    assert_eq!(Compression::detect(&compressed[..6]), Compression::Gzip);
    let mut decoded = Vec::new();
    flate2::read::GzDecoder::new(&compressed[..]).read_to_end(&mut decoded).unwrap();

    let entries = read_entries(&decoded);
    let (tree, warns) = TreeBuilder::new(plain_config()).build(&entries);
    assert_eq!(warns.len(), 0);

    let node = tree.walk(b"a/b/c.txt").expect("walk finds the nested file");
    let attr = node.attr();
    assert_eq!(attr.size, 10);

    let fs = ArchiveFs::new(tree);
    let listing = fs.readdir(2, 0).unwrap();
    assert_eq!(listing.len(), 1);
    assert_eq!(listing[0].name, b"b".to_vec());
    assert_eq!(listing[0].kind, FileKind::Directory);
}

#[test]
fn real_hard_link_accounting() {
    let mut builder = tar::Builder::new(Vec::new());
    file_record(&mut builder, "f", b"abc", 0o644, 0);
    let mut header = tar::Header::new_gnu();
    header.set_entry_type(tar::EntryType::Link);
    header.set_mode(0o644);
    header.set_uid(0);
    header.set_gid(0);
    header.set_mtime(0);
    header.set_size(0);
    builder.append_link(&mut header, "g", "f").unwrap();
    let bytes = builder.into_inner().unwrap();

    let entries = read_entries(&bytes);
    assert_eq!(entries[1].kind, EntryKind::Link);
    assert_eq!(entries[1].link_target, Some(b"f".to_vec()));

    let (tree, warns) = TreeBuilder::new(plain_config()).build(&entries);
    assert_eq!(warns.len(), 0);
    let mut fs = ArchiveFs::new(tree);

    assert_eq!(fs.getattr(2).unwrap().nlink, 2);
    let gattr = fs.lookup(1, b"g").unwrap();
    assert_eq!(gattr.ino, 2);
    assert_eq!(gattr.nlink, 2);

    let path = fs.open(gattr.ino).unwrap();
    let body = body_of(&bytes, &path).unwrap();
    let fh = fs.register_handle(body);
    assert_eq!(fs.read(fh, 0, 3).unwrap(), b"abc".to_vec());
}
