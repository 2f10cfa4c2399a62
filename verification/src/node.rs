//! Tree nodes and the attributes the kernel sees.
//!
//! Nodes live in an arena (`tree::Tree`): the node with inode number
//! `id` sits at arena slot `id - 1`.  A directory's children are edges
//! carrying a name and the child's id; a resolved hard link is such an
//! edge whose name is the link's name and whose id is the target's, so
//! a link exposes its target's identity and attributes, as required.

use vstd::prelude::*;

use crate::entry::{EntryKind, EntryM, EntryMeta};
use crate::paths::{canonicalize_entry_path, spec_canonicalize, spec_components, split_components};

verus! {

/// A directory edge: the name under which a node appears in this
/// directory, and the id of the node it leads to.
pub struct ChildRef {
    pub name: Vec<u8>,
    pub id: u64,
}

/// The mathematical image of a `ChildRef`.
pub struct ChildM {
    pub name: Seq<u8>,
    pub id: u64,
}

impl View for ChildRef {
    type V = ChildM;

    open spec fn view(&self) -> ChildM {
        ChildM { name: self.name@, id: self.id }
    }
}

/// One node of the inode tree.
///
/// `id` is the inode number exposed to the kernel; `name` the final
/// path component; `path` the entry's path as the archive spelt it
/// (the key the content cache matches against); `perm` the 9-bit mode;
/// `mtime` seconds since the epoch.  A `File` also records
/// `archive_index`, its zero-based ordinal in the entry stream, and
/// `nlink`, one plus the number of resolved hard links to it (likewise
/// for `Symlink`).  A `Link` is an unresolved hard-link record; the
/// builder queues it and never places it in the arena.
pub enum Node {
    File {
        id: u64,
        name: Vec<u8>,
        path: Vec<u8>,
        size: u64,
        perm: u16,
        mtime: u64,
        uid: u32,
        gid: u32,
        archive_index: u64,
        nlink: u32,
    },
    Directory {
        id: u64,
        name: Vec<u8>,
        path: Vec<u8>,
        perm: u16,
        mtime: u64,
        uid: u32,
        gid: u32,
        children: Vec<ChildRef>,
    },
    Symlink {
        id: u64,
        name: Vec<u8>,
        path: Vec<u8>,
        mtime: u64,
        uid: u32,
        gid: u32,
        target: Vec<u8>,
        nlink: u32,
    },
    Link {
        name: Vec<u8>,
        path: Vec<u8>,
        target: Vec<u8>,
    },
}

/// The mathematical image of a `Node`.
pub enum NodeM {
    File {
        id: u64,
        name: Seq<u8>,
        path: Seq<u8>,
        size: u64,
        perm: u16,
        mtime: u64,
        uid: u32,
        gid: u32,
        archive_index: u64,
        nlink: u32,
    },
    Directory {
        id: u64,
        name: Seq<u8>,
        path: Seq<u8>,
        perm: u16,
        mtime: u64,
        uid: u32,
        gid: u32,
        children: Seq<ChildM>,
    },
    Symlink {
        id: u64,
        name: Seq<u8>,
        path: Seq<u8>,
        mtime: u64,
        uid: u32,
        gid: u32,
        target: Seq<u8>,
        nlink: u32,
    },
    Link {
        name: Seq<u8>,
        path: Seq<u8>,
        target: Seq<u8>,
    },
}

impl View for Node {
    type V = NodeM;

    open spec fn view(&self) -> NodeM {
        match self {
            Node::File { id, name, path, size, perm, mtime, uid, gid, archive_index, nlink } => {
                NodeM::File {
                    id: *id,
                    name: name@,
                    path: path@,
                    size: *size,
                    perm: *perm,
                    mtime: *mtime,
                    uid: *uid,
                    gid: *gid,
                    archive_index: *archive_index,
                    nlink: *nlink,
                }
            },
            Node::Directory { id, name, path, perm, mtime, uid, gid, children } => {
                NodeM::Directory {
                    id: *id,
                    name: name@,
                    path: path@,
                    perm: *perm,
                    mtime: *mtime,
                    uid: *uid,
                    gid: *gid,
                    children: children@.map_values(|c: ChildRef| c@),
                }
            },
            Node::Symlink { id, name, path, mtime, uid, gid, target, nlink } => {
                NodeM::Symlink {
                    id: *id,
                    name: name@,
                    path: path@,
                    mtime: *mtime,
                    uid: *uid,
                    gid: *gid,
                    target: target@,
                    nlink: *nlink,
                }
            },
            Node::Link { name, path, target } => {
                NodeM::Link { name: name@, path: path@, target: target@ }
            },
        }
    }
}

impl NodeM {
    /// The inode number of a placed node.  Unresolved links carry none.
    pub open spec fn spec_id(self) -> u64 {
        match self {
            NodeM::File { id, .. } => id,
            NodeM::Directory { id, .. } => id,
            NodeM::Symlink { id, .. } => id,
            NodeM::Link { .. } => 0,
        }
    }

    pub open spec fn spec_name(self) -> Seq<u8> {
        match self {
            NodeM::File { name, .. } => name,
            NodeM::Directory { name, .. } => name,
            NodeM::Symlink { name, .. } => name,
            NodeM::Link { name, .. } => name,
        }
    }

    pub open spec fn spec_path(self) -> Seq<u8> {
        match self {
            NodeM::File { path, .. } => path,
            NodeM::Directory { path, .. } => path,
            NodeM::Symlink { path, .. } => path,
            NodeM::Link { path, .. } => path,
        }
    }

    pub open spec fn is_dir(self) -> bool {
        self is Directory
    }

    pub open spec fn is_link(self) -> bool {
        self is Link
    }

    /// Targets a hard link may bind to: files and symlinks.
    pub open spec fn is_linkable(self) -> bool {
        self is File || self is Symlink
    }
}

/// The node kinds the kernel distinguishes.
#[derive(Debug, Clone, Copy, PartialEq, Eq, Structural)]
pub enum FileKind {
    RegularFile,
    Directory,
    Symlink,
}

/// The attributes reported for a node.  The four kernel timestamps
/// (atime, mtime, ctime, crtime) all equal `mtime`; blocks and rdev are
/// zero for every node of a mounted archive.
#[derive(Debug, Clone, Copy, PartialEq, Eq, Structural)]
pub struct FileAttr {
    pub ino: u64,
    pub size: u64,
    pub mtime: u64,
    pub kind: FileKind,
    pub perm: u16,
    pub nlink: u32,
    pub uid: u32,
    pub gid: u32,
}

/// The attributes of a placed node: a file reports its body size and
/// tracked link count; a directory reports size 0 and one link; a
/// symlink reports the byte length of its target, mode `0o777`, and its
/// tracked link count.
pub open spec fn spec_attr_of(n: NodeM) -> FileAttr
    recommends
        !n.is_link(),
{
    match n {
        NodeM::File { id, size, perm, mtime, uid, gid, nlink, .. } => FileAttr {
            ino: id,
            size: size,
            mtime: mtime,
            kind: FileKind::RegularFile,
            perm: perm,
            nlink: nlink,
            uid: uid,
            gid: gid,
        },
        NodeM::Directory { id, perm, mtime, uid, gid, .. } => FileAttr {
            ino: id,
            size: 0,
            mtime: mtime,
            kind: FileKind::Directory,
            perm: perm,
            nlink: 1,
            uid: uid,
            gid: gid,
        },
        NodeM::Symlink { id, mtime, uid, gid, target, nlink, .. } => FileAttr {
            ino: id,
            size: target.len() as u64,
            mtime: mtime,
            kind: FileKind::Symlink,
            perm: 0o777,
            nlink: nlink,
            uid: uid,
            gid: gid,
        },
        NodeM::Link { .. } => FileAttr {
            ino: 0,
            size: 0,
            mtime: 0,
            kind: FileKind::RegularFile,
            perm: 0,
            nlink: 0,
            uid: 0,
            gid: 0,
        },
    }
}

/// Why an entry yields no node: tree building skips it with a warning.
#[derive(Debug, Clone, Copy, PartialEq, Eq, Structural)]
pub enum EntryError {
    /// The entry path has no final name component.
    MissingName,
    /// A link record lacks its target.
    MissingLinkTarget,
}

/// The name under which an entry is placed: the last component of its
/// canonicalised path.  An entry with no components, or whose last
/// component is `..`, has no usable name.
pub open spec fn spec_entry_name(path: Seq<u8>) -> Option<Seq<u8>> {
    let comps = spec_components(spec_canonicalize(path));
    if comps.len() == 0 {
        None
    } else if comps.last() == seq![46u8, 46u8] {
        None
    } else {
        Some(comps.last())
    }
}

/// What `Node::try_from_entry` returns: a node of the matching variant
/// carrying the resolved owner and mode, `Ok(None)` for entry kinds the
/// mount does not represent, and an error for a nameless entry or a
/// link without a target.
pub open spec fn spec_node_of(
    e: EntryM,
    id: u64,
    ordinal: u64,
    uid: u32,
    gid: u32,
    perm: u16,
) -> Result<Option<NodeM>, EntryError> {
    match spec_entry_name(e.path) {
        None => Err(EntryError::MissingName),
        Some(name) => match e.kind {
            EntryKind::Regular => Ok(
                Some(
                    NodeM::File {
                        id,
                        name,
                        path: e.path,
                        size: e.size,
                        perm,
                        mtime: e.mtime,
                        uid,
                        gid,
                        archive_index: ordinal,
                        nlink: 1,
                    },
                ),
            ),
            EntryKind::Directory => Ok(
                Some(
                    NodeM::Directory {
                        id,
                        name,
                        path: e.path,
                        perm,
                        mtime: e.mtime,
                        uid,
                        gid,
                        children: seq![],
                    },
                ),
            ),
            EntryKind::Symlink => match e.link_target {
                None => Err(EntryError::MissingLinkTarget),
                Some(t) => Ok(
                    Some(
                        NodeM::Symlink {
                            id,
                            name,
                            path: e.path,
                            mtime: e.mtime,
                            uid,
                            gid,
                            target: t,
                            nlink: 1,
                        },
                    ),
                ),
            },
            EntryKind::Link => match e.link_target {
                None => Err(EntryError::MissingLinkTarget),
                Some(t) => Ok(Some(NodeM::Link { name, path: e.path, target: t })),
            },
            EntryKind::Other => Ok(None),
        },
    }
}

impl Node {
    /// Build the node for one archive entry.
    ///
    /// `index` is the inode number the builder allocated, `ordinal` the
    /// entry's zero-based position in the stream, and `uid`/`gid`/`perm`
    /// the owner and mode after the mount options were applied.
    pub fn try_from_entry(
        entry: &EntryMeta,
        index: u64,
        ordinal: u64,
        uid: u32,
        gid: u32,
        perm: u16,
    ) -> (r: Result<Option<Node>, EntryError>)
        ensures
            match r {
                Ok(Some(n)) => spec_node_of(entry@, index, ordinal, uid, gid, perm)
                    == Ok::<Option<NodeM>, EntryError>(Some(n@)),
                Ok(None) => spec_node_of(entry@, index, ordinal, uid, gid, perm)
                    == Ok::<Option<NodeM>, EntryError>(None),
                Err(e) => spec_node_of(entry@, index, ordinal, uid, gid, perm)
                    == Err::<Option<NodeM>, EntryError>(e),
            },
    {
        let canon = canonicalize_entry_path(entry.path.as_slice());
        let mut comps = split_components(canon.as_slice());
        if comps.len() == 0 {
            return Err(EntryError::MissingName);
        }
        let name = comps.pop().unwrap();
        proof {
            assert(name@ == spec_components(spec_canonicalize(entry@.path)).last());
        }
        if name.len() == 2 && name[0] == 46 && name[1] == 46 {
            proof {
                assert(name@ =~= seq![46u8, 46u8]);
            }
            return Err(EntryError::MissingName);
        }
        proof {
            if name@ == seq![46u8, 46u8] {
                assert(name@.len() == 2 && name@[0] == 46u8 && name@[1] == 46u8);
            }
        }
        let path = clone_bytes(&entry.path);
        match entry.kind {
            EntryKind::Regular => Ok(
                Some(
                    Node::File {
                        id: index,
                        name,
                        path,
                        size: entry.size,
                        perm,
                        mtime: entry.mtime,
                        uid,
                        gid,
                        archive_index: ordinal,
                        nlink: 1,
                    },
                ),
            ),
            EntryKind::Directory => {
                let children: Vec<ChildRef> = Vec::new();
                proof {
                    assert(children@.map_values(|c: ChildRef| c@) =~= seq![]);
                }
                Ok(
                    Some(
                        Node::Directory {
                            id: index,
                            name,
                            path,
                            perm,
                            mtime: entry.mtime,
                            uid,
                            gid,
                            children,
                        },
                    ),
                )
            },
            EntryKind::Symlink => match &entry.link_target {
                None => Err(EntryError::MissingLinkTarget),
                Some(t) => Ok(
                    Some(
                        Node::Symlink {
                            id: index,
                            name,
                            path,
                            mtime: entry.mtime,
                            uid,
                            gid,
                            target: clone_bytes(t),
                            nlink: 1,
                        },
                    ),
                ),
            },
            EntryKind::Link => match &entry.link_target {
                None => Err(EntryError::MissingLinkTarget),
                Some(t) => Ok(Some(Node::Link { name, path, target: clone_bytes(t) })),
            },
            EntryKind::Other => Ok(None),
        }
    }

    /// The inode number of a placed node.
    pub fn index(&self) -> (r: u64)
        requires
            !self@.is_link(),
        ensures
            r == self@.spec_id(),
    {
        match self {
            Node::File { id, .. } => *id,
            Node::Directory { id, .. } => *id,
            Node::Symlink { id, .. } => *id,
            Node::Link { .. } => 0,
        }
    }

    /// The node's name: the final component of its entry path.
    pub fn name(&self) -> (r: &Vec<u8>)
        ensures
            r@ == self@.spec_name(),
    {
        match self {
            Node::File { name, .. } => name,
            Node::Directory { name, .. } => name,
            Node::Symlink { name, .. } => name,
            Node::Link { name, .. } => name,
        }
    }

    /// The entry path as the archive spelt it.
    pub fn path(&self) -> (r: &Vec<u8>)
        ensures
            r@ == self@.spec_path(),
    {
        match self {
            Node::File { path, .. } => path,
            Node::Directory { path, .. } => path,
            Node::Symlink { path, .. } => path,
            Node::Link { path, .. } => path,
        }
    }

    /// The attributes the kernel sees for this node.
    pub fn attr(&self) -> (r: FileAttr)
        requires
            !self@.is_link(),
        ensures
            r == spec_attr_of(self@),
    {
        match self {
            Node::File { id, size, perm, mtime, uid, gid, nlink, .. } => FileAttr {
                ino: *id,
                size: *size,
                mtime: *mtime,
                kind: FileKind::RegularFile,
                perm: *perm,
                nlink: *nlink,
                uid: *uid,
                gid: *gid,
            },
            Node::Directory { id, perm, mtime, uid, gid, .. } => FileAttr {
                ino: *id,
                size: 0,
                mtime: *mtime,
                kind: FileKind::Directory,
                perm: *perm,
                nlink: 1,
                uid: *uid,
                gid: *gid,
            },
            Node::Symlink { id, mtime, uid, gid, target, nlink, .. } => FileAttr {
                ino: *id,
                size: target.len() as u64,
                mtime: *mtime,
                kind: FileKind::Symlink,
                perm: 0o777,
                nlink: *nlink,
                uid: *uid,
                gid: *gid,
            },
            Node::Link { .. } => FileAttr {
                ino: 0,
                size: 0,
                mtime: 0,
                kind: FileKind::RegularFile,
                perm: 0,
                nlink: 0,
                uid: 0,
                gid: 0,
            },
        }
    }
}

/// Attribute fidelity: the node built for an entry reports exactly the
/// entry's header fields, under the resolved owner and mode.  A file
/// reports the header's size; a directory reports size zero; a symlink
/// reports its target's byte length and mode `0o777`.  Every node
/// reports the entry's mtime (as all four kernel timestamps), the
/// resolved owner, and the inode number it was assigned.
pub proof fn lemma_attr_fidelity(
    e: EntryM,
    id: u64,
    ordinal: u64,
    uid: u32,
    gid: u32,
    perm: u16,
    n: NodeM,
)
    requires
        spec_node_of(e, id, ordinal, uid, gid, perm) == Ok::<Option<NodeM>, EntryError>(Some(n)),
        !n.is_link(),
    ensures
        spec_attr_of(n).ino == id,
        spec_attr_of(n).mtime == e.mtime,
        spec_attr_of(n).uid == uid,
        spec_attr_of(n).gid == gid,
        e.kind == EntryKind::Regular ==> spec_attr_of(n).size == e.size && spec_attr_of(n).perm
            == perm && spec_attr_of(n).kind == FileKind::RegularFile,
        e.kind == EntryKind::Directory ==> spec_attr_of(n).size == 0 && spec_attr_of(n).perm
            == perm && spec_attr_of(n).kind == FileKind::Directory,
        e.kind == EntryKind::Symlink ==> spec_attr_of(n).perm == 0o777 && spec_attr_of(n).kind
            == FileKind::Symlink && (match e.link_target {
            Some(t) => spec_attr_of(n).size == t.len() as u64,
            None => false,
        }),
{
}

/// A fresh copy of a byte string.
pub fn clone_bytes(v: &Vec<u8>) -> (r: Vec<u8>)
    ensures
        r@ == v@,
{
    let n: usize = v.len();
    let mut out: Vec<u8> = Vec::new();
    let mut i: usize = 0;
    while i < n
        invariant
            n == v@.len(),
            i <= n,
            out@ =~= v@.subrange(0, i as int),
        decreases n - i,
    {
        let b = v[i];
        out.push(b);
        i = i + 1;
    }
    proof {
        assert(v@.subrange(0, n as int) =~= v@);
    }
    out
}

} // verus!
