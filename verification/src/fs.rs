//! The filesystem adapter: kernel upcalls against the built tree.
//!
//! Each upcall receives an inode number and returns a typed reply or a
//! POSIX-style error.  The adapter owns the open-handle table: `open`
//! names the entry to materialise, `register_handle` stores the
//! materialised bytes under a fresh monotonic handle, `read` serves
//! byte ranges from those stored bytes, `release` drops the handle.
//! The mount is read-only: no upcall writes, and the xattr calls
//! answer "not implemented".

use vstd::prelude::*;

use crate::node::{spec_attr_of, ChildM, FileAttr, FileKind, Node, NodeM};
use crate::tree::{spec_lookup, spec_node_at, children_of, wf_node_at, wf_edge, Tree};

verus! {

/// The POSIX errors the adapter replies with.
#[derive(Debug, Clone, Copy, PartialEq, Eq, Structural)]
pub enum Errno {
    /// `ENOENT`: no such node or handle.
    Noent,
    /// `ENOTDIR`: a directory operation on a non-directory.
    Notdir,
    /// `EISDIR`: opening a directory for reading.
    Eisdir,
    /// `EINVAL`: reading the link target of a non-symlink.
    Einval,
    /// `ENOSYS`: the call is not implemented (extended attributes).
    Enosys,
}

/// One directory listing entry: the child's inode, the offset at which
/// the listing resumes after it, its kind and its name.
pub struct DirEntry {
    pub ino: u64,
    pub next_offset: u64,
    pub kind: FileKind,
    pub name: Vec<u8>,
}

/// The mathematical image of a `DirEntry`.
pub struct DirEntryM {
    pub ino: u64,
    pub next_offset: u64,
    pub kind: FileKind,
    pub name: Seq<u8>,
}

impl View for DirEntry {
    type V = DirEntryM;

    open spec fn view(&self) -> DirEntryM {
        DirEntryM {
            ino: self.ino,
            next_offset: self.next_offset,
            kind: self.kind,
            name: self.name@,
        }
    }
}

/// A directory listing entry together with the child's attributes, as
/// the readdirplus upcall wants it.
pub struct DirEntryPlus {
    pub ino: u64,
    pub next_offset: u64,
    pub name: Vec<u8>,
    pub attr: FileAttr,
}

/// The mathematical image of a `DirEntryPlus`.
pub struct DirEntryPlusM {
    pub ino: u64,
    pub next_offset: u64,
    pub name: Seq<u8>,
    pub attr: FileAttr,
}

impl View for DirEntryPlus {
    type V = DirEntryPlusM;

    open spec fn view(&self) -> DirEntryPlusM {
        DirEntryPlusM {
            ino: self.ino,
            next_offset: self.next_offset,
            name: self.name@,
            attr: self.attr,
        }
    }
}

/// An open handle: the id `open` handed out and the materialised bytes
/// of the entry it reads.
pub struct Handle {
    pub fh: u64,
    pub content: Vec<u8>,
}

/// The mathematical image of a `Handle`.
pub struct HandleM {
    pub fh: u64,
    pub content: Seq<u8>,
}

impl View for Handle {
    type V = HandleM;

    open spec fn view(&self) -> HandleM {
        HandleM { fh: self.fh, content: self.content@ }
    }
}

pub open spec fn view_handles(hs: Seq<Handle>) -> Seq<HandleM> {
    hs.map_values(|h: Handle| h@)
}

/// The content stored under the first handle with id `fh`, scanning
/// from position `j`.
pub open spec fn spec_handle_content(hs: Seq<HandleM>, fh: u64, j: int) -> Option<Seq<u8>>
    decreases hs.len() - j,
{
    if j < 0 || j >= hs.len() {
        None
    } else if hs[j].fh == fh {
        Some(hs[j].content)
    } else {
        spec_handle_content(hs, fh, j + 1)
    }
}

/// The handle table with the first handle carrying id `fh` removed.
pub open spec fn spec_remove_handle(hs: Seq<HandleM>, fh: u64, j: int) -> Seq<HandleM>
    decreases hs.len() - j,
{
    if j < 0 || j >= hs.len() {
        hs
    } else if hs[j].fh == fh {
        hs.remove(j)
    } else {
        spec_remove_handle(hs, fh, j + 1)
    }
}

/// What `read` returns from content `c`: the bytes from `offset` up to
/// `offset + size`, both clipped to the content's length.  A read at
/// or past the end returns no bytes; a read over the end is short.
pub open spec fn spec_read_range(c: Seq<u8>, offset: u64, size: u32) -> Seq<u8> {
    let start: int = if offset <= c.len() {
        offset as int
    } else {
        c.len() as int
    };
    let end: int = if offset + size <= c.len() {
        offset + size
    } else {
        c.len() as int
    };
    c.subrange(start, end)
}

/// One directory listing entry, as `readdir` reports the child edge at
/// position `k`.
pub open spec fn spec_dir_entry(t: Seq<NodeM>, cs: Seq<ChildM>, k: int) -> DirEntryM {
    let c = cs[k];
    DirEntryM {
        ino: c.id,
        next_offset: (k + 1) as u64,
        kind: spec_attr_of(t[c.id - 1]).kind,
        name: c.name,
    }
}

/// The listing of a directory's children from index `off` on, in
/// archive order: entry `j` reports edge `off + j`.
pub open spec fn spec_dir_entries(t: Seq<NodeM>, cs: Seq<ChildM>, off: int) -> Seq<DirEntryM> {
    if 0 <= off && off <= cs.len() {
        Seq::new((cs.len() - off) as nat, |j: int| spec_dir_entry(t, cs, off + j))
    } else {
        Seq::empty()
    }
}

/// The adapter's state: the immutable tree, the open-handle table, and
/// the next handle id to hand out.
pub struct ArchiveFs {
    tree: Tree,
    handles: Vec<Handle>,
    next_fh: u64,
}

impl ArchiveFs {
    /// The tree served.
    pub closed spec fn spec_tree(&self) -> Seq<NodeM> {
        self.tree@
    }

    /// The open-handle table.
    pub closed spec fn spec_handles(&self) -> Seq<HandleM> {
        view_handles(self.handles@)
    }

    /// The next handle id `register_handle` will hand out.
    pub closed spec fn spec_next_fh(&self) -> u64 {
        self.next_fh
    }

    /// The adapter is sound: the tree is well-formed and every open
    /// handle carries an id below `next_fh` (so ids never repeat).
    pub open spec fn wf(&self) -> bool {
        &&& crate::tree::wf_tree(self.spec_tree())
        &&& forall|k: int|
            0 <= k < self.spec_handles().len() ==> (#[trigger] self.spec_handles()[k]).fh
                < self.spec_next_fh()
    }

    /// An adapter over a built tree, with no handle open.  Handle ids
    /// start at 1.
    pub fn new(tree: Tree) -> (r: ArchiveFs)
        requires
            tree.wf(),
        ensures
            r.spec_tree() == tree@,
            r.spec_handles() == Seq::<HandleM>::empty(),
            r.spec_next_fh() == 1,
            r.wf(),
    {
        let handles: Vec<Handle> = Vec::new();
        proof {
            assert(view_handles(handles@) =~= Seq::<HandleM>::empty());
        }
        ArchiveFs { tree, handles, next_fh: 1 }
    }

    /// The tree, for callers that walk paths themselves.
    pub fn tree(&self) -> (t: &Tree)
        ensures
            t@ == self.spec_tree(),
    {
        &self.tree
    }

    /// `getattr`: the attributes of the node `ino` names, or `ENOENT`.
    pub fn getattr(&self, ino: u64) -> (r: Result<FileAttr, Errno>)
        requires
            self.wf(),
        ensures
            match spec_node_at(self.spec_tree(), ino) {
                Some(n) => r == Ok::<FileAttr, Errno>(spec_attr_of(n)),
                None => r == Err::<FileAttr, Errno>(Errno::Noent),
            },
    {
        proof {
            if 1 <= ino && ino <= self.spec_tree().len() {
                assert(wf_node_at(self.spec_tree(), ino - 1));
            }
        }
        match self.tree.find(ino) {
            Some(n) => Ok(n.attr()),
            None => Err(Errno::Noent),
        }
    }

    /// `lookup`: scan the directory `parent` for a child named `name`,
    /// byte-exact, and return the attributes of the node its first
    /// matching edge leads to.  `ENOENT` when the parent or the name is
    /// missing, `ENOTDIR` when the parent is not a directory.
    pub fn lookup(&self, parent: u64, name: &[u8]) -> (r: Result<FileAttr, Errno>)
        requires
            self.wf(),
        ensures
            match spec_node_at(self.spec_tree(), parent) {
                None => r == Err::<FileAttr, Errno>(Errno::Noent),
                Some(p) => if !p.is_dir() {
                    r == Err::<FileAttr, Errno>(Errno::Notdir)
                } else {
                    match spec_lookup(self.spec_tree(), parent, name@) {
                        Some(n) => r == Ok::<FileAttr, Errno>(spec_attr_of(n)),
                        None => r == Err::<FileAttr, Errno>(Errno::Noent),
                    }
                },
            },
    {
        let p = match self.tree.find(parent) {
            Some(p) => p,
            None => {
                return Err(Errno::Noent);
            },
        };
        match p {
            Node::Directory { .. } => {
                match self.tree.lookup(parent, name) {
                    Some(n) => {
                        proof {
                            lemma_lookup_not_link(self.spec_tree(), parent, name@);
                        }
                        Ok(n.attr())
                    },
                    None => Err(Errno::Noent),
                }
            },
            _ => Err(Errno::Notdir),
        }
    }

    /// `readlink`: the raw target bytes of a symlink, `EINVAL` on any
    /// other node, `ENOENT` when the inode names nothing.
    pub fn readlink(&self, ino: u64) -> (r: Result<Vec<u8>, Errno>)
        requires
            self.wf(),
        ensures
            match spec_node_at(self.spec_tree(), ino) {
                None => r == Err::<Vec<u8>, Errno>(Errno::Noent),
                Some(n) => match n {
                    NodeM::Symlink { target, .. } => r is Ok && r.unwrap()@ == target,
                    _ => r == Err::<Vec<u8>, Errno>(Errno::Einval),
                },
            },
    {
        match self.tree.find(ino) {
            Some(n) => match n {
                Node::Symlink { target, .. } => Ok(crate::node::clone_bytes(target)),
                _ => Err(Errno::Einval),
            },
            None => Err(Errno::Noent),
        }
    }

    /// `open`, first half: reject directories with `EISDIR` and missing
    /// inodes with `ENOENT`; otherwise return the node's archive path,
    /// the key under which the caller materialises its content before
    /// registering a handle.
    pub fn open(&self, ino: u64) -> (r: Result<Vec<u8>, Errno>)
        requires
            self.wf(),
        ensures
            match spec_node_at(self.spec_tree(), ino) {
                None => r == Err::<Vec<u8>, Errno>(Errno::Noent),
                Some(n) => if n.is_dir() {
                    r == Err::<Vec<u8>, Errno>(Errno::Eisdir)
                } else {
                    r is Ok && r.unwrap()@ == n.spec_path()
                },
            },
    {
        match self.tree.find(ino) {
            Some(n) => match n {
                Node::Directory { .. } => Err(Errno::Eisdir),
                _ => Ok(crate::node::clone_bytes(n.path())),
            },
            None => Err(Errno::Noent),
        }
    }

    /// Whether another handle id can be handed out.  The id space is
    /// monotonic and runs out only after `u64::MAX` opens; a caller
    /// that sees it exhausted must fail fast rather than reuse ids.
    pub fn handle_space_left(&self) -> (r: bool)
        ensures
            r == (self.spec_next_fh() < u64::MAX),
    {
        self.next_fh < u64::MAX
    }

    /// `open`, second half: store the materialised content and hand
    /// out a fresh handle id.  Handle ids grow monotonically and are
    /// never reused; the id space is assumed never to wrap.
    pub fn register_handle(&mut self, content: Vec<u8>) -> (fh: u64)
        requires
            old(self).wf(),
            old(self).spec_next_fh() < u64::MAX,
        ensures
            fh == old(self).spec_next_fh(),
            final(self).spec_next_fh() == old(self).spec_next_fh() + 1,
            final(self).spec_handles() == old(self).spec_handles().push(
                HandleM { fh, content: content@ },
            ),
            final(self).spec_tree() == old(self).spec_tree(),
            final(self).wf(),
    {
        let fh = self.next_fh;
        self.next_fh = self.next_fh + 1;
        let ghost pre = view_handles(self.handles@);
        let ghost cm = content@;
        self.handles.push(Handle { fh, content });
        proof {
            assert(view_handles(self.handles@) =~= pre.push(HandleM { fh, content: cm }));
        }
        fh
    }

    /// `read`: the bytes of the open handle `fh` from `offset`, at most
    /// `size` of them, clipped at the end of the content; `ENOENT` when
    /// no handle has that id.  Reading needs only a shared borrow: it
    /// never touches the archive again, and never changes the adapter.
    pub fn read(&self, fh: u64, offset: u64, size: u32) -> (r: Result<Vec<u8>, Errno>)
        ensures
            match spec_handle_content(self.spec_handles(), fh, 0) {
                None => r == Err::<Vec<u8>, Errno>(Errno::Noent),
                Some(c) => r is Ok && r.unwrap()@ == spec_read_range(c, offset, size),
            },
    {
        let ghost hsv = self.spec_handles();
        let n: usize = self.handles.len();
        let mut j: usize = 0;
        while j < n
            invariant
                n == self.handles@.len(),
                hsv == self.spec_handles(),
                j <= n,
                spec_handle_content(hsv, fh, 0) == spec_handle_content(hsv, fh, j as int),
            decreases n - j,
        {
            if self.handles[j].fh == fh {
                let c = &self.handles[j].content;
                proof {
                    assert(hsv[j as int].content == c@);
                }
                return Ok(read_range(c, offset, size));
            }
            j = j + 1;
        }
        Err(Errno::Noent)
    }

    /// `release`: drop the handle with id `fh`.  Dropping an id that no
    /// handle carries does nothing; release always succeeds.
    pub fn release(&mut self, fh: u64)
        requires
            old(self).wf(),
        ensures
            final(self).spec_handles() == spec_remove_handle(old(self).spec_handles(), fh, 0),
            final(self).spec_tree() == old(self).spec_tree(),
            final(self).spec_next_fh() == old(self).spec_next_fh(),
            final(self).wf(),
    {
        let ghost hsv = view_handles(self.handles@);
        let n: usize = self.handles.len();
        let mut j: usize = 0;
        while j < n
            invariant
                old(self).wf(),
                n == self.handles@.len(),
                hsv == view_handles(self.handles@),
                hsv == old(self).spec_handles(),
                self.spec_tree() == old(self).spec_tree(),
                self.spec_next_fh() == old(self).spec_next_fh(),
                self.wf(),
                j <= n,
                spec_remove_handle(hsv, fh, 0) == spec_remove_handle(hsv, fh, j as int),
            decreases n - j,
        {
            if self.handles[j].fh == fh {
                self.handles.remove(j);
                proof {
                    assert(view_handles(self.handles@) =~= hsv.remove(j as int));
                    assert forall|k: int|
                        0 <= k < self.spec_handles().len() implies (
                        #[trigger] self.spec_handles()[k]).fh < self.spec_next_fh() by {
                        if k < j {
                            assert(self.spec_handles()[k] == hsv[k]);
                        } else {
                            assert(self.spec_handles()[k] == hsv[k + 1]);
                        }
                    }
                }
                return ;
            }
            j = j + 1;
        }
    }

    /// `readdir`: list the children of the directory `ino` from index
    /// `offset` on, in archive order, each child reported under its
    /// edge's name with its node's inode and kind.  `ENOENT` when the
    /// inode names nothing, `ENOTDIR` on a non-directory.
    pub fn readdir(&self, ino: u64, offset: u64) -> (r: Result<Vec<DirEntry>, Errno>)
        requires
            self.wf(),
        ensures
            match spec_node_at(self.spec_tree(), ino) {
                None => r == Err::<Vec<DirEntry>, Errno>(Errno::Noent),
                Some(n) => if !n.is_dir() {
                    r == Err::<Vec<DirEntry>, Errno>(Errno::Notdir)
                } else {
                    ({
                        let off: int = if offset <= children_of(n).len() {
                            offset as int
                        } else {
                            children_of(n).len() as int
                        };
                        r is Ok && r.unwrap()@.map_values(|d: DirEntry| d@) == spec_dir_entries(
                            self.spec_tree(),
                            children_of(n),
                            off,
                        )
                    })
                },
            },
    {
        let ghost t = self.spec_tree();
        let node = match self.tree.find(ino) {
            Some(n) => n,
            None => {
                return Err(Errno::Noent);
            },
        };
        match node {
            Node::Directory { children, .. } => {
                let ghost cs = children_of(node@);
                let n: usize = children.len();
                let start: usize = if offset <= n as u64 {
                    offset as usize
                } else {
                    n
                };
                let mut out: Vec<DirEntry> = Vec::new();
                let mut k: usize = start;
                proof {
                    assert(out@.map_values(|d: DirEntry| d@) =~= Seq::<DirEntryM>::empty());
                }
                while k < n
                    invariant
                        t == self.spec_tree(),
                        self.wf(),
                        spec_node_at(t, ino) == Some(node@),
                        node@.is_dir(),
                        cs == children_of(node@),
                        n == children@.len(),
                        cs == children@.map_values(|c: crate::node::ChildRef| c@),
                        start <= k <= n,
                        out@.map_values(|d: DirEntry| d@) =~= spec_dir_entries(
                            t,
                            cs,
                            start as int,
                        ).take(k - start),
                    decreases n - k,
                {
                    let edge = &children[k];
                    proof {
                        assert(wf_node_at(t, ino - 1));
                        assert(t[ino - 1] == node@);
                        assert(wf_edge(t, ino - 1, children_of(t[ino - 1])[k as int]));
                        assert(cs[k as int] == edge@);
                        assert(wf_node_at(t, edge@.id - 1));
                    }
                    let child = match self.tree.find(edge.id) {
                        Some(c) => c,
                        None => {
                            proof {
                                assert(false);
                            }
                            return Err(Errno::Noent);
                        },
                    };
                    let attr = child.attr();
                    let ghost pre = out@.map_values(|d: DirEntry| d@);
                    let de = DirEntry {
                        ino: edge.id,
                        next_offset: k as u64 + 1,
                        kind: attr.kind,
                        name: crate::node::clone_bytes(&edge.name),
                    };
                    let ghost dem = de@;
                    out.push(de);
                    proof {
                        assert(out@.map_values(|d: DirEntry| d@) =~= pre.push(dem));
                        assert(dem == spec_dir_entry(t, cs, k as int));
                        assert(spec_dir_entries(t, cs, start as int).take(k - start + 1) =~=
                            spec_dir_entries(t, cs, start as int).take(k - start).push(
                            spec_dir_entry(t, cs, k as int),
                        ));
                    }
                    k = k + 1;
                }
                proof {
                    assert(spec_dir_entries(t, cs, start as int).take(n - start) =~=
                        spec_dir_entries(t, cs, start as int));
                    assert(out@.map_values(|d: DirEntry| d@) == spec_dir_entries(
                        t,
                        cs,
                        start as int,
                    ));
                }
                Ok(out)
            },
            _ => Err(Errno::Notdir),
        }
    }

    /// `readdirplus`: as `readdir`, with each child's full attributes.
    pub fn readdirplus(&self, ino: u64, offset: u64) -> (r: Result<Vec<DirEntryPlus>, Errno>)
        requires
            self.wf(),
        ensures
            match spec_node_at(self.spec_tree(), ino) {
                None => r == Err::<Vec<DirEntryPlus>, Errno>(Errno::Noent),
                Some(n) => if !n.is_dir() {
                    r == Err::<Vec<DirEntryPlus>, Errno>(Errno::Notdir)
                } else {
                    ({
                        let off: int = if offset <= children_of(n).len() {
                            offset as int
                        } else {
                            children_of(n).len() as int
                        };
                        let cs = children_of(n);
                        let t = self.spec_tree();
                        r is Ok && r.unwrap()@.map_values(|d: DirEntryPlus| d@) == Seq::new(
                            (cs.len() - off) as nat,
                            |j: int|
                                DirEntryPlusM {
                                    ino: cs[off + j].id,
                                    next_offset: (off + j + 1) as u64,
                                    name: cs[off + j].name,
                                    attr: spec_attr_of(t[cs[off + j].id - 1]),
                                },
                        )
                    })
                },
            },
    {
        let ghost t = self.spec_tree();
        let node = match self.tree.find(ino) {
            Some(n) => n,
            None => {
                return Err(Errno::Noent);
            },
        };
        match node {
            Node::Directory { children, .. } => {
                let ghost cs = children_of(node@);
                let n: usize = children.len();
                let start: usize = if offset <= n as u64 {
                    offset as usize
                } else {
                    n
                };
                let ghost goal = Seq::new(
                    (cs.len() - start) as nat,
                    |j: int|
                        DirEntryPlusM {
                            ino: cs[start + j].id,
                            next_offset: (start + j + 1) as u64,
                            name: cs[start + j].name,
                            attr: spec_attr_of(t[cs[start + j].id - 1]),
                        },
                );
                let mut out: Vec<DirEntryPlus> = Vec::new();
                let mut k: usize = start;
                proof {
                    assert(out@.map_values(|d: DirEntryPlus| d@) =~= Seq::<
                        DirEntryPlusM,
                    >::empty());
                }
                while k < n
                    invariant
                        t == self.spec_tree(),
                        self.wf(),
                        spec_node_at(t, ino) == Some(node@),
                        node@.is_dir(),
                        cs == children_of(node@),
                        n == children@.len(),
                        cs == children@.map_values(|c: crate::node::ChildRef| c@),
                        start <= k <= n,
                        goal == Seq::new(
                            (cs.len() - start) as nat,
                            |j: int|
                                DirEntryPlusM {
                                    ino: cs[start + j].id,
                                    next_offset: (start + j + 1) as u64,
                                    name: cs[start + j].name,
                                    attr: spec_attr_of(t[cs[start + j].id - 1]),
                                },
                        ),
                        out@.map_values(|d: DirEntryPlus| d@) =~= goal.take(k - start),
                    decreases n - k,
                {
                    let edge = &children[k];
                    proof {
                        assert(wf_node_at(t, ino - 1));
                        assert(t[ino - 1] == node@);
                        assert(wf_edge(t, ino - 1, children_of(t[ino - 1])[k as int]));
                        assert(cs[k as int] == edge@);
                        assert(wf_node_at(t, edge@.id - 1));
                    }
                    let child = match self.tree.find(edge.id) {
                        Some(c) => c,
                        None => {
                            proof {
                                assert(false);
                            }
                            return Err(Errno::Noent);
                        },
                    };
                    let attr = child.attr();
                    let ghost pre = out@.map_values(|d: DirEntryPlus| d@);
                    let de = DirEntryPlus {
                        ino: edge.id,
                        next_offset: k as u64 + 1,
                        name: crate::node::clone_bytes(&edge.name),
                        attr,
                    };
                    let ghost dem = de@;
                    out.push(de);
                    proof {
                        assert(out@.map_values(|d: DirEntryPlus| d@) =~= pre.push(dem));
                        assert(dem == goal[k - start]);
                        assert(goal.take(k - start + 1) =~= goal.take(k - start).push(
                            goal[k - start],
                        ));
                    }
                    k = k + 1;
                }
                proof {
                    assert(goal.take(n - start) =~= goal);
                    assert(out@.map_values(|d: DirEntryPlus| d@) == goal);
                }
                Ok(out)
            },
            _ => Err(Errno::Notdir),
        }
    }

    /// `getxattr`: extended attributes are not implemented; the mount
    /// is read-only and carries none.
    pub fn getxattr(&self) -> (e: Errno)
        ensures
            e == Errno::Enosys,
    {
        Errno::Enosys
    }

    /// `listxattr`: extended attributes are not implemented.
    pub fn listxattr(&self) -> (e: Errno)
        ensures
            e == Errno::Enosys,
    {
        Errno::Enosys
    }
}

/// A looked-up node is never an unresolved link: edges only point at
/// placed nodes.
pub proof fn lemma_lookup_not_link(t: Seq<NodeM>, parent: u64, name: Seq<u8>)
    requires
        crate::tree::wf_tree(t),
    ensures
        match spec_lookup(t, parent, name) {
            Some(n) => !n.is_link(),
            None => true,
        },
{
    match spec_node_at(t, parent) {
        Some(p) => {
            if p.is_dir() {
                match crate::tree::spec_find_child(children_of(p), name, 0) {
                    Some(id) => {
                        crate::tree::lemma_find_child_edge(children_of(p), name, 0, id);
                        let k = choose|k: int|
                            0 <= k < children_of(p).len() && children_of(p)[k].name == name
                                && children_of(p)[k].id == id;
                        assert(wf_node_at(t, parent - 1));
                        assert(wf_edge(t, parent - 1, children_of(t[parent - 1])[k]));
                    },
                    None => {},
                }
            }
        },
        None => {},
    }
}

/// Serve a positional read from in-memory content: the bytes from
/// `offset` to `offset + size`, clipped to the content's end.
pub fn read_range(c: &Vec<u8>, offset: u64, size: u32) -> (r: Vec<u8>)
    ensures
        r@ == spec_read_range(c@, offset, size),
{
    let len: usize = c.len();
    let start: usize = if offset <= len as u64 {
        offset as usize
    } else {
        len
    };
    let want: usize = size as usize;
    let end: usize = if want <= len - start {
        start + want
    } else {
        len
    };
    let mut out: Vec<u8> = Vec::new();
    let mut i: usize = start;
    while i < end
        invariant
            start <= i <= end,
            end <= c@.len(),
            out@ =~= c@.subrange(start as int, i as int),
        decreases end - i,
    {
        let b = c[i];
        out.push(b);
        i = i + 1;
    }
    proof {
        assert(out@ =~= c@.subrange(start as int, end as int));
        assert(c@.subrange(start as int, end as int) =~= spec_read_range(c@, offset, size));
    }
    out
}

/// Reading the whole of a file from offset zero returns its content
/// verbatim: materialised bytes round-trip through `read`.
pub proof fn lemma_content_round_trip(c: Seq<u8>, size: u32)
    requires
        c.len() <= size,
    ensures
        spec_read_range(c, 0, size) == c,
{
    assert(spec_read_range(c, 0, size) =~= c);
}

/// Two reads of one handle are consistent with a single
/// materialisation: wherever their windows overlap, they return the
/// same byte of the same content.  (And `read` takes `&self`: once a
/// handle is open, no read re-scans the archive or changes any state.)
pub proof fn lemma_cache_idempotence(
    c: Seq<u8>,
    o1: u64,
    n1: u32,
    o2: u64,
    n2: u32,
    i: int,
)
    requires
        o1 <= i < o1 + spec_read_range(c, o1, n1).len(),
        o2 <= i < o2 + spec_read_range(c, o2, n2).len(),
    ensures
        spec_read_range(c, o1, n1)[i - o1] == spec_read_range(c, o2, n2)[i - o2],
{
    assert(spec_read_range(c, o1, n1)[i - o1] == c[i]);
    assert(spec_read_range(c, o2, n2)[i - o2] == c[i]);
}

} // verus!
