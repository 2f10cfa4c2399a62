//! End-to-end scenarios: archives as entry lists, mounted through the
//! tree builder and the filesystem adapter.

use tarfs::entry::{EntryKind, EntryMeta};
use tarfs::fs::{ArchiveFs, Errno};
use tarfs::node::FileKind;
use tarfs::tree::{build_path_map, BuildConfig, TreeBuilder, WarnKind};

fn plain_config() -> BuildConfig {
    BuildConfig {
        root_mtime: 0,
        root_uid: 0,
        root_gid: 0,
        numeric_owner: false,
        force_uid: None,
        force_gid: None,
        force_mode: None,
    }
}

fn meta(path: &[u8], kind: EntryKind) -> EntryMeta {
    EntryMeta {
        path: path.to_vec(),
        kind,
        size: 0,
        mode: 0o644,
        uid: 0,
        gid: 0,
        uname_uid: None,
        gname_gid: None,
        mtime: 0,
        link_target: None,
    }
}

#[test]
fn plain_tar_one_file() {
    let mut e = meta(b"hello.txt", EntryKind::Regular);
    e.size = 3;
    e.mode = 0o644;
    e.mtime = 1700000000;
    let entries = vec![e];
    let (tree, warns) = TreeBuilder::new(plain_config()).build(&entries);
    assert_eq!(warns.len(), 0);
    let mut fs = ArchiveFs::new(tree);

    let attr = fs.lookup(1, b"hello.txt").unwrap();
    assert_eq!(attr.ino, 2);
    assert_eq!(attr.size, 3);
    assert_eq!(attr.perm, 0o644);
    assert_eq!(attr.mtime, 1700000000);
    assert_eq!(attr.kind, FileKind::RegularFile);

    let path = fs.open(2).unwrap();
    assert_eq!(path, b"hello.txt".to_vec());
    let fh = fs.register_handle(b"hi\n".to_vec());
    let data = fs.read(fh, 0, 4096).unwrap();
    assert_eq!(data, b"hi\n".to_vec());
    fs.release(fh);
    assert!(matches!(fs.read(fh, 0, 1), Err(Errno::Noent)));
}

#[test]
fn nested_directories() {
    let mut c = meta(b"a/b/c.txt", EntryKind::Regular);
    c.size = 10;
    let entries = vec![meta(b"a/", EntryKind::Directory), meta(b"a/b/", EntryKind::Directory), c];
    let (tree, warns) = TreeBuilder::new(plain_config()).build(&entries);
    assert_eq!(warns.len(), 0);

    let node = tree.walk(b"a/b/c.txt").expect("walk finds the file");
    assert_eq!(node.index(), 4);

    let fs = ArchiveFs::new(tree);
    let listing = fs.readdir(2, 0).unwrap();
    assert_eq!(listing.len(), 1);
    assert_eq!(listing[0].name, b"b".to_vec());
    assert_eq!(listing[0].kind, FileKind::Directory);
    assert_eq!(listing[0].ino, 3);
    assert_eq!(listing[0].next_offset, 1);

    let rest = fs.readdir(2, 1).unwrap();
    assert_eq!(rest.len(), 0);
}

#[test]
fn hard_link_accounting() {
    let mut f = meta(b"f", EntryKind::Regular);
    f.size = 3;
    let mut g = meta(b"g", EntryKind::Link);
    g.link_target = Some(b"f".to_vec());
    let entries = vec![f, g];
    let (tree, warns) = TreeBuilder::new(plain_config()).build(&entries);
    assert_eq!(warns.len(), 0);
    let mut fs = ArchiveFs::new(tree);

    let fattr = fs.getattr(2).unwrap();
    assert_eq!(fattr.nlink, 2);
    let gattr = fs.lookup(1, b"g").unwrap();
    assert_eq!(gattr.ino, 2);
    assert_eq!(gattr.nlink, 2);
    assert_eq!(gattr, fattr);

    // Reading through the link reaches the target's bytes.
    let path = fs.open(gattr.ino).unwrap();
    assert_eq!(path, b"f".to_vec());
    let entries2 = vec![
        {
            let mut f = meta(b"f", EntryKind::Regular);
            f.size = 3;
            f
        },
    ];
    let k = tarfs::cache::find_entry(&entries2, &path).unwrap();
    assert_eq!(k, 0);
    let fh = fs.register_handle(b"abc".to_vec());
    assert_eq!(fs.read(fh, 0, 3).unwrap(), b"abc".to_vec());
}

#[test]
fn symlink_entry() {
    let mut l = meta(b"l", EntryKind::Symlink);
    l.link_target = Some(b"../target".to_vec());
    let entries = vec![l];
    let (tree, warns) = TreeBuilder::new(plain_config()).build(&entries);
    assert_eq!(warns.len(), 0);
    let fs = ArchiveFs::new(tree);

    let attr = fs.lookup(1, b"l").unwrap();
    assert_eq!(attr.kind, FileKind::Symlink);
    assert_eq!(attr.size, 9);
    assert_eq!(attr.perm, 0o777);
    assert_eq!(fs.readlink(attr.ino).unwrap(), b"../target".to_vec());
    assert!(matches!(fs.readlink(1), Err(Errno::Einval)));
}

#[test]
fn forced_ownership_and_mode() {
    let cfg = BuildConfig {
        root_mtime: 0,
        root_uid: 0,
        root_gid: 0,
        numeric_owner: false,
        force_uid: Some(1000),
        force_gid: Some(1000),
        force_mode: Some(0o640),
    };
    let mut e = meta(b"hello.txt", EntryKind::Regular);
    e.size = 3;
    e.mtime = 1700000000;
    e.uid = 12;
    e.gid = 34;
    let entries = vec![meta(b"d/", EntryKind::Directory), e];
    let (tree, warns) = TreeBuilder::new(cfg).build(&entries);
    assert_eq!(warns.len(), 0);
    let fs = ArchiveFs::new(tree);

    let fattr = fs.lookup(1, b"hello.txt").unwrap();
    assert_eq!(fattr.uid, 1000);
    assert_eq!(fattr.gid, 1000);
    assert_eq!(fattr.perm, 0o640);

    let dattr = fs.lookup(1, b"d").unwrap();
    assert_eq!(dattr.uid, 1000);
    assert_eq!(dattr.gid, 1000);
    assert_eq!(dattr.perm, 0o750);
}

#[test]
fn orphan_link_is_dropped() {
    let mut x = meta(b"x", EntryKind::Link);
    x.link_target = Some(b"missing".to_vec());
    let entries = vec![x];
    let (tree, warns) = TreeBuilder::new(plain_config()).build(&entries);
    assert_eq!(tree.len(), 1);
    assert_eq!(warns.len(), 1);
    assert_eq!(warns[0].kind, WarnKind::LinkTargetMissing);
    assert_eq!(warns[0].path, b"x".to_vec());

    let fs = ArchiveFs::new(tree);
    assert!(matches!(fs.lookup(1, b"x"), Err(Errno::Noent)));
}

#[test]
fn orphan_entry_is_dropped() {
    let e = meta(b"missing/child.txt", EntryKind::Regular);
    let entries = vec![e];
    let (tree, warns) = TreeBuilder::new(plain_config()).build(&entries);
    assert_eq!(tree.len(), 1);
    assert_eq!(warns.len(), 1);
    assert_eq!(warns[0].kind, WarnKind::OrphanedEntry);

    let fs = ArchiveFs::new(tree);
    assert_eq!(fs.readdir(1, 0).unwrap().len(), 0);
}

#[test]
fn identity_is_stable_across_mounts() {
    let entries = vec![
        meta(b"a/", EntryKind::Directory),
        meta(b"a/f", EntryKind::Regular),
        {
            let mut l = meta(b"a/l", EntryKind::Symlink);
            l.link_target = Some(b"f".to_vec());
            l
        },
    ];
    let (t1, _) = TreeBuilder::new(plain_config()).build(&entries);
    let (t2, _) = TreeBuilder::new(plain_config()).build(&entries);
    assert_eq!(build_path_map(&t1), build_path_map(&t2));
    let m = build_path_map(&t1);
    assert_eq!(m.len(), 4);
    assert_eq!(m[1], (b"a/".to_vec(), 2));
    assert_eq!(m[2], (b"a/f".to_vec(), 3));
    assert_eq!(m[3], (b"a/l".to_vec(), 4));
}

#[test]
fn unsupported_and_nameless_entries_warn() {
    let entries = vec![
        meta(b"dev", EntryKind::Other),
        meta(b"./", EntryKind::Regular),
        {
            let mut s = meta(b"s", EntryKind::Symlink);
            s.link_target = None;
            s
        },
    ];
    let (tree, warns) = TreeBuilder::new(plain_config()).build(&entries);
    assert_eq!(tree.len(), 1);
    assert_eq!(warns.len(), 3);
    assert_eq!(warns[0].kind, WarnKind::UnsupportedEntry);
    assert_eq!(warns[1].kind, WarnKind::MissingName);
    assert_eq!(warns[2].kind, WarnKind::MissingLinkTarget);
}

#[test]
fn reads_are_consistent_and_repeatable() {
    let e = {
        let mut e = meta(b"data", EntryKind::Regular);
        e.size = 10;
        e
    };
    let entries = vec![e];
    let (tree, _) = TreeBuilder::new(plain_config()).build(&entries);
    let mut fs = ArchiveFs::new(tree);
    let fh = fs.register_handle(b"0123456789".to_vec());

    // Full read, repeated: one materialisation serves both.
    assert_eq!(fs.read(fh, 0, 100).unwrap(), b"0123456789".to_vec());
    assert_eq!(fs.read(fh, 0, 100).unwrap(), b"0123456789".to_vec());
    // Overlapping windows agree byte for byte.
    let r1 = fs.read(fh, 2, 5).unwrap();
    let r2 = fs.read(fh, 4, 5).unwrap();
    assert_eq!(r1, b"23456".to_vec());
    assert_eq!(r2, b"45678".to_vec());
    assert_eq!(r1[2..], r2[..3]);
    // Reads at and past the end are short or empty.
    assert_eq!(fs.read(fh, 8, 10).unwrap(), b"89".to_vec());
    assert_eq!(fs.read(fh, 10, 10).unwrap(), b"".to_vec());
    assert_eq!(fs.read(fh, 99, 10).unwrap(), b"".to_vec());
}

#[test]
fn write_shaped_calls_answer_enosys() {
    let entries = vec![meta(b"f", EntryKind::Regular)];
    let (tree, _) = TreeBuilder::new(plain_config()).build(&entries);
    let fs = ArchiveFs::new(tree);
    assert_eq!(fs.getxattr(), Errno::Enosys);
    assert_eq!(fs.listxattr(), Errno::Enosys);
}

#[test]
fn open_rejects_directories_and_missing_inodes() {
    let entries = vec![meta(b"d/", EntryKind::Directory), meta(b"f", EntryKind::Regular)];
    let (tree, _) = TreeBuilder::new(plain_config()).build(&entries);
    let fs = ArchiveFs::new(tree);
    assert!(matches!(fs.open(2), Err(Errno::Eisdir)));
    assert!(matches!(fs.open(99), Err(Errno::Noent)));
    assert!(matches!(fs.lookup(2, b"x"), Err(Errno::Noent)));
    assert!(matches!(fs.lookup(3, b"x"), Err(Errno::Notdir)));
    assert!(matches!(fs.readdir(3, 0), Err(Errno::Notdir)));
    assert!(matches!(fs.getattr(99), Err(Errno::Noent)));
    assert!(matches!(fs.readdir(99, 0), Err(Errno::Noent)));
    assert!(matches!(fs.readdir(2, 0), Ok(v) if v.is_empty()));
}

#[test]
fn readdirplus_reports_attributes() {
    let mut f = meta(b"f", EntryKind::Regular);
    f.size = 7;
    f.mtime = 42;
    let entries = vec![f];
    let (tree, _) = TreeBuilder::new(plain_config()).build(&entries);
    let fs = ArchiveFs::new(tree);
    let listing = fs.readdirplus(1, 0).unwrap();
    assert_eq!(listing.len(), 1);
    assert_eq!(listing[0].name, b"f".to_vec());
    assert_eq!(listing[0].ino, 2);
    assert_eq!(listing[0].attr.size, 7);
    assert_eq!(listing[0].attr.mtime, 42);
}

#[test]
fn print_tree_lists_names_indented() {
    let entries = vec![meta(b"d/", EntryKind::Directory), meta(b"d/f", EntryKind::Regular), {
        let mut l = meta(b"l", EntryKind::Symlink);
        l.link_target = Some(b"../target".to_vec());
        l
    }];
    let (tree, _) = TreeBuilder::new(plain_config()).build(&entries);
    let root = tree.find(1).unwrap();
    let out = root.print_tree(&tree);
    assert_eq!(out, b"\n  d\n    f\n  l -> ../target\n".to_vec());
}

#[test]
fn several_links_each_count() {
    let mut f = meta(b"f", EntryKind::Regular);
    f.size = 1;
    let mut g = meta(b"g", EntryKind::Link);
    g.link_target = Some(b"f".to_vec());
    let mut h = meta(b"h", EntryKind::Link);
    h.link_target = Some(b"f".to_vec());
    let entries = vec![f, g, h];
    let (tree, warns) = TreeBuilder::new(plain_config()).build(&entries);
    assert_eq!(warns.len(), 0);
    let fs = ArchiveFs::new(tree);
    assert_eq!(fs.getattr(2).unwrap().nlink, 3);
    assert_eq!(fs.lookup(1, b"g").unwrap().ino, 2);
    assert_eq!(fs.lookup(1, b"h").unwrap().ino, 2);
}

#[test]
fn owner_names_resolve_unless_numeric() {
    let mut e = meta(b"f", EntryKind::Regular);
    e.uid = 12;
    e.gid = 34;
    e.uname_uid = Some(999);
    e.gname_gid = Some(998);
    let entries = vec![e];

    let (tree, _) = TreeBuilder::new(plain_config()).build(&entries);
    let fs = ArchiveFs::new(tree);
    let attr = fs.getattr(2).unwrap();
    assert_eq!(attr.uid, 999);
    assert_eq!(attr.gid, 998);

    let mut cfg = plain_config();
    cfg.numeric_owner = true;
    let (tree, _) = TreeBuilder::new(cfg).build(&entries);
    let fs = ArchiveFs::new(tree);
    let attr = fs.getattr(2).unwrap();
    assert_eq!(attr.uid, 12);
    assert_eq!(attr.gid, 34);

    let mut cfg = plain_config();
    cfg.force_uid = Some(7);
    cfg.force_gid = Some(8);
    let (tree, _) = TreeBuilder::new(cfg).build(&entries);
    let fs = ArchiveFs::new(tree);
    let attr = fs.getattr(2).unwrap();
    assert_eq!(attr.uid, 7);
    assert_eq!(attr.gid, 8);
}

#[test]
fn raw_modes_are_masked_to_nine_bits() {
    let mut e = meta(b"f", EntryKind::Regular);
    e.mode = 0o4755;
    let entries = vec![e];
    let (tree, _) = TreeBuilder::new(plain_config()).build(&entries);
    let fs = ArchiveFs::new(tree);
    assert_eq!(fs.getattr(2).unwrap().perm, 0o755);
}

#[test]
fn link_with_orphaned_parent_is_dropped() {
    // The link's target resolves, but the link's own parent directory
    // is not in the tree: the target's count is taken, the edge is not
    // placed, and the drop is reported.
    let f = meta(b"f", EntryKind::Regular);
    let mut x = meta(b"missing/x", EntryKind::Link);
    x.link_target = Some(b"f".to_vec());
    let entries = vec![f, x];
    let (tree, warns) = TreeBuilder::new(plain_config()).build(&entries);
    assert_eq!(tree.len(), 2);
    assert_eq!(warns.len(), 1);
    assert_eq!(warns[0].kind, WarnKind::LinkParentMissing);
    assert_eq!(warns[0].path, b"missing/x".to_vec());
    let fs = ArchiveFs::new(tree);
    assert_eq!(fs.getattr(2).unwrap().nlink, 2);
}

#[test]
fn readdir_resumes_at_the_offset() {
    let entries = vec![
        meta(b"a", EntryKind::Regular),
        meta(b"b", EntryKind::Regular),
        meta(b"c", EntryKind::Regular),
    ];
    let (tree, _) = TreeBuilder::new(plain_config()).build(&entries);
    let fs = ArchiveFs::new(tree);

    let all = fs.readdir(1, 0).unwrap();
    assert_eq!(all.len(), 3);
    assert_eq!(all[0].name, b"a".to_vec());
    assert_eq!(all[2].name, b"c".to_vec());
    assert_eq!(all[2].next_offset, 3);

    // Resuming at an entry's next_offset yields exactly the rest.
    let rest = fs.readdir(1, all[0].next_offset).unwrap();
    assert_eq!(rest.len(), 2);
    assert_eq!(rest[0].name, b"b".to_vec());
    assert_eq!(rest[0].ino, 3);
    assert_eq!(fs.readdir(1, 3).unwrap().len(), 0);
    assert_eq!(fs.readdir(1, 99).unwrap().len(), 0);
}
