//! The inode tree and its builder.
//!
//! Nodes live in an arena: the node with inode number `id` sits at slot
//! `id - 1`, and slot 0 holds the synthetic root directory, id 1.  The
//! builder consumes the archive's entries once, in stream order,
//! placing each under the directory its path names, and at the end resolves the
//! queued hard links.  Entries that cannot be placed -- nameless,
//! unsupported kinds, orphaned, or links whose target is missing -- are
//! dropped with a warning and never abort the build.

use vstd::prelude::*;

use crate::entry::{EntryKind, EntryM, EntryMeta};
use crate::node::{
    spec_attr_of, spec_node_of, ChildM, ChildRef, EntryError, Node, NodeM,
};
use crate::paths::{
    bytes_eq, canonicalize_entry_path, spec_canonicalize, spec_components, split_components,
};

verus! {

/// The children of a directory node; other nodes have none.
pub open spec fn children_of(n: NodeM) -> Seq<ChildM> {
    match n {
        NodeM::Directory { children, .. } => children,
        _ => seq![],
    }
}

/// The tracked link count of a file or symlink; 1 elsewhere.
pub open spec fn nlink_of(n: NodeM) -> u32 {
    match n {
        NodeM::File { nlink, .. } => nlink,
        NodeM::Symlink { nlink, .. } => nlink,
        _ => 1,
    }
}

/// The arena as a sequence of node models.
pub open spec fn view_nodes(ns: Seq<Node>) -> Seq<NodeM> {
    ns.map_values(|n: Node| n@)
}

/// The node a given inode number names, if the arena has one.
pub open spec fn spec_node_at(t: Seq<NodeM>, id: u64) -> Option<NodeM> {
    if 1 <= id && id <= t.len() {
        Some(t[id - 1])
    } else {
        None
    }
}

/// One edge of the arena is sound when it points at a placed,
/// resolved node, and edges to directories only ever point forward
/// (to a strictly larger id than their directory's), so every walk
/// down directories terminates.
pub open spec fn wf_edge(t: Seq<NodeM>, i: int, c: ChildM) -> bool {
    &&& 1 <= c.id && c.id <= t.len()
    &&& !t[c.id - 1].is_link()
    &&& (t[c.id - 1].is_dir() ==> c.id > i + 1)
}

/// The node at slot `i` is sound: it bears id `i + 1`, it is not an
/// unresolved link, and its edges are sound.
pub open spec fn wf_node_at(t: Seq<NodeM>, i: int) -> bool {
    &&& t[i].spec_id() == i + 1
    &&& !t[i].is_link()
    &&& forall|j: int|
        0 <= j < children_of(t[i]).len() ==> wf_edge(t, i, #[trigger] children_of(t[i])[j])
}

/// A well-formed arena: nonempty, small enough for ids to be inode
/// numbers, rooted in a directory at slot 0, every slot sound.
pub open spec fn wf_tree(t: Seq<NodeM>) -> bool {
    &&& 1 <= t.len() && t.len() < u64::MAX
    &&& t[0].is_dir()
    &&& forall|i: int| 0 <= i < t.len() ==> wf_node_at(t, i)
}

/// The id the first edge with the given name leads to, scanning the
/// children from position `j` on: the first match wins, as it does for
/// archives that carry duplicate names.
pub open spec fn spec_find_child(cs: Seq<ChildM>, name: Seq<u8>, j: int) -> Option<u64>
    decreases cs.len() - j,
{
    if j < 0 || j >= cs.len() {
        None
    } else if cs[j].name == name {
        Some(cs[j].id)
    } else {
        spec_find_child(cs, name, j + 1)
    }
}

/// Descend from the node `cur` along `comps[i..]`, one directory edge
/// per component.  Exhausting the components yields the node reached;
/// a missing child or a non-directory on the way yields nothing.
pub open spec fn spec_walk_from(t: Seq<NodeM>, cur: u64, comps: Seq<Seq<u8>>, i: int) -> Option<
    u64,
>
    decreases comps.len() - i,
{
    if i < 0 || i >= comps.len() {
        Some(cur)
    } else {
        match spec_node_at(t, cur) {
            Some(n) => if n.is_dir() {
                match spec_find_child(children_of(n), comps[i], 0) {
                    Some(next) => spec_walk_from(t, next, comps, i + 1),
                    None => None,
                }
            } else {
                None
            },
            None => None,
        }
    }
}

/// What `Tree::lookup` returns: the node the first edge named `name`
/// in the directory `parent` leads to.
pub open spec fn spec_lookup(t: Seq<NodeM>, parent: u64, name: Seq<u8>) -> Option<NodeM> {
    match spec_node_at(t, parent) {
        Some(p) => if p.is_dir() {
            match spec_find_child(children_of(p), name, 0) {
                Some(id) => spec_node_at(t, id),
                None => None,
            }
        } else {
            None
        },
        None => None,
    }
}

/// A walk's outcome is a placed node: its id is in range and the node
/// it names is not a link.
pub proof fn lemma_walk_in_range(t: Seq<NodeM>, cur: u64, comps: Seq<Seq<u8>>, i: int, r: u64)
    requires
        wf_tree(t),
        1 <= cur && cur <= t.len(),
        !t[cur - 1].is_link(),
        spec_walk_from(t, cur, comps, i) == Some(r),
    ensures
        1 <= r && r <= t.len(),
        !t[r - 1].is_link(),
    decreases comps.len() - i,
{
    if i < 0 || i >= comps.len() {
    } else {
        let n = spec_node_at(t, cur).unwrap();
        let next = spec_find_child(children_of(n), comps[i], 0).unwrap();
        lemma_find_child_edge(children_of(n), comps[i], 0, next);
        let j = choose|j: int|
            0 <= j < children_of(n).len() && children_of(n)[j].name == comps[i]
                && children_of(n)[j].id == next;
        assert(wf_node_at(t, cur - 1));
        assert(wf_edge(t, cur - 1, children_of(t[cur - 1])[j]));
        lemma_walk_in_range(t, next, comps, i + 1, r);
    }
}

/// A found child id comes from some matching edge of the list.
pub proof fn lemma_find_child_edge(cs: Seq<ChildM>, name: Seq<u8>, j: int, id: u64)
    requires
        spec_find_child(cs, name, j) == Some(id),
        0 <= j,
    ensures
        exists|k: int| j <= k < cs.len() && cs[k].name == name && cs[k].id == id,
    decreases cs.len() - j,
{
    if j >= cs.len() {
    } else if cs[j].name == name {
    } else {
        lemma_find_child_edge(cs, name, j + 1, id);
    }
}

/// The inode tree built from one pass over an archive's entries.
pub struct Tree {
    nodes: Vec<Node>,
}

impl View for Tree {
    type V = Seq<NodeM>;

    closed spec fn view(&self) -> Seq<NodeM> {
        view_nodes(self.nodes@)
    }
}

impl Tree {
    /// Whether the arena is well-formed; the builder establishes it
    /// and every query requires it.
    pub open spec fn wf(&self) -> bool {
        wf_tree(self@)
    }

    /// How many nodes the tree holds, the root included.
    pub fn len(&self) -> (r: usize)
        ensures
            r == self@.len(),
    {
        self.nodes.len()
    }

    /// The node with inode number `ino`, or nothing when no entry got
    /// that number.
    pub fn find(&self, ino: u64) -> (r: Option<&Node>)
        ensures
            match r {
                Some(n) => spec_node_at(self@, ino) == Some(n@),
                None => spec_node_at(self@, ino) is None,
            },
    {
        if ino >= 1 && ino <= self.nodes.len() as u64 {
            let idx: usize = (ino - 1) as usize;
            let n = &self.nodes[idx];
            proof {
                assert(self@[ino - 1] == n@);
            }
            Some(n)
        } else {
            None
        }
    }

    /// Find the node a directory entry names: scan the children of the
    /// directory `parent` for a byte-exact name match and return the
    /// node the first matching edge leads to.  A resolved hard link is
    /// such an edge, so looking it up yields its target.
    pub fn lookup(&self, parent: u64, name: &[u8]) -> (r: Option<&Node>)
        requires
            self.wf(),
        ensures
            match r {
                Some(n) => spec_lookup(self@, parent, name@) == Some(n@),
                None => spec_lookup(self@, parent, name@) is None,
            },
    {
        let p = match self.find(parent) {
            Some(p) => p,
            None => {
                return None;
            },
        };
        match p {
            Node::Directory { children, .. } => {
                match find_child_in(children, name) {
                    Some(id) => {
                        proof {
                            lemma_find_child_edge(children_of(p@), name@, 0, id);
                            let k = choose|k: int|
                                0 <= k < children_of(p@).len() && children_of(p@)[k].name == name@
                                    && children_of(p@)[k].id == id;
                            assert(wf_node_at(self@, parent - 1));
                            assert(wf_edge(self@, parent - 1, children_of(self@[parent - 1])[k]));
                        }
                        self.find(id)
                    },
                    None => None,
                }
            },
            _ => None,
        }
    }

    /// The child edges of the directory `ino` names, in archive order;
    /// nothing for other node kinds or a missing inode.
    pub fn children(&self, ino: u64) -> (r: Option<&Vec<ChildRef>>)
        ensures
            match r {
                Some(cs) => spec_node_at(self@, ino) matches Some(n) && n.is_dir()
                    && cs@.map_values(|c: ChildRef| c@) == children_of(n),
                None => match spec_node_at(self@, ino) {
                    Some(n) => !n.is_dir(),
                    None => true,
                },
            },
    {
        match self.find(ino) {
            Some(Node::Directory { children, .. }) => Some(children),
            _ => None,
        }
    }

    /// Walk a `/`-separated path from the root, after canonicalising
    /// it, descending by component.  The empty path names the root.
    pub fn walk(&self, path: &[u8]) -> (r: Option<&Node>)
        requires
            self.wf(),
        ensures
            ({
                let comps = spec_components(spec_canonicalize(path@));
                match r {
                    Some(n) => spec_walk_from(self@, 1, comps, 0) == Some(n@.spec_id())
                        && spec_node_at(self@, n@.spec_id()) == Some(n@),
                    None => spec_walk_from(self@, 1, comps, 0) is None,
                }
            }),
    {
        let canon = canonicalize_entry_path(path);
        let comps = split_components(canon.as_slice());
        match walk_nodes(&self.nodes, &comps, comps.len()) {
            Some(id) => {
                proof {
                    assert(comps.deep_view().take(comps@.len() as int) =~= comps.deep_view());
                    lemma_walk_in_range(self@, 1, comps.deep_view(), 0, id);
                    assert(wf_node_at(self@, id - 1));
                }
                self.find(id)
            },
            None => {
                proof {
                    assert(comps.deep_view().take(comps@.len() as int) =~= comps.deep_view());
                }
                None
            },
        }
    }

}

/// The first child edge named `name` of the children list, from
/// position 0.
fn find_child_in(children: &Vec<ChildRef>, name: &[u8]) -> (r: Option<u64>)
    ensures
        r == spec_find_child(children@.map_values(|c: ChildRef| c@), name@, 0),
{
    let ghost cs = children@.map_values(|c: ChildRef| c@);
    let n: usize = children.len();
    let mut j: usize = 0;
    while j < n
        invariant
            n == children@.len(),
            cs == children@.map_values(|c: ChildRef| c@),
            j <= n,
            spec_find_child(cs, name@, 0) == spec_find_child(cs, name@, j as int),
        decreases n - j,
    {
        if bytes_eq(children[j].name.as_slice(), name) {
            return Some(children[j].id);
        }
        j = j + 1;
    }
    None
}

/// The options the mount applies while building the tree.
///
/// `root_mtime`, `root_uid` and `root_gid` are stamped on the synthetic
/// root (taken from the archive file itself, when its metadata can be
/// read).  `numeric_owner` makes the builder ignore user and group
/// names in headers; `force_uid` / `force_gid` / `force_mode` override
/// every entry's owner or 9-bit mode.
#[derive(Debug, Clone, Copy)]
pub struct BuildConfig {
    pub root_mtime: u64,
    pub root_uid: u32,
    pub root_gid: u32,
    pub numeric_owner: bool,
    pub force_uid: Option<u32>,
    pub force_gid: Option<u32>,
    pub force_mode: Option<u16>,
}

/// Why the builder dropped an entry or a link.
#[derive(Debug, Clone, Copy, PartialEq, Eq, Structural)]
pub enum WarnKind {
    /// The entry path has no final name component.
    MissingName,
    /// A link record lacks its target.
    MissingLinkTarget,
    /// An entry type the mount does not represent.
    UnsupportedEntry,
    /// The entry's parent directory is not in the tree.
    OrphanedEntry,
    /// A hard link whose target path names no file or symlink.
    LinkTargetMissing,
    /// A resolved hard link whose own parent directory is missing.
    LinkParentMissing,
}

/// One dropped entry, reported to the caller for logging.
pub struct Warning {
    pub kind: WarnKind,
    pub path: Vec<u8>,
}

/// The mathematical image of a `Warning`.
pub struct WarnM {
    pub kind: WarnKind,
    pub path: Seq<u8>,
}

impl View for Warning {
    type V = WarnM;

    open spec fn view(&self) -> WarnM {
        WarnM { kind: self.kind, path: self.path@ }
    }
}

/// A hard-link record queued during the entry pass: the link's own
/// path, its final name, and the path of its target.
pub struct PendingLink {
    pub path: Vec<u8>,
    pub name: Vec<u8>,
    pub target: Vec<u8>,
}

/// The mathematical image of a `PendingLink`.
pub struct PendingM {
    pub path: Seq<u8>,
    pub name: Seq<u8>,
    pub target: Seq<u8>,
}

impl View for PendingLink {
    type V = PendingM;

    open spec fn view(&self) -> PendingM {
        PendingM { path: self.path@, name: self.name@, target: self.target@ }
    }
}

pub open spec fn view_warns(ws: Seq<Warning>) -> Seq<WarnM> {
    ws.map_values(|w: Warning| w@)
}

pub open spec fn view_pending(ps: Seq<PendingLink>) -> Seq<PendingM> {
    ps.map_values(|p: PendingLink| p@)
}

pub open spec fn views_of_entries(es: Seq<EntryMeta>) -> Seq<EntryM> {
    es.map_values(|e: EntryMeta| e@)
}

/// The owner an entry gets: a forced id wins; with `numeric_owner` the
/// raw header id is used; otherwise the id the host user database gave
/// for the header's owner name, falling back to the raw id.
pub open spec fn spec_resolve_owner(
    force: Option<u32>,
    numeric: bool,
    named: Option<u32>,
    raw: u32,
) -> u32 {
    match force {
        Some(u) => u,
        None => if numeric {
            raw
        } else {
            match named {
                Some(u) => u,
                None => raw,
            }
        },
    }
}

/// The 9-bit mode an entry gets: a forced mode wins, and on a
/// directory its read bits are propagated into the execute bits
/// (`(m & 0o444) >> 2 | m`) so readable directories stay searchable;
/// otherwise the raw header mode masked to 9 bits.
pub open spec fn spec_resolve_perm(force: Option<u16>, is_dir: bool, raw_mode: u32) -> u16 {
    match force {
        Some(m) => if is_dir {
            ((m & 0o444) >> 2) | m
        } else {
            m
        },
        None => (raw_mode & 0o777) as u16,
    }
}

/// Under a forced mode, a directory's read bits propagate into its
/// execute bits, so readable directories stay searchable; files and
/// symlink placeholders take the forced mode as given.
pub proof fn lemma_force_mode_dirs(m: u16, raw: u32)
    ensures
        spec_resolve_perm(Some(m), true, raw) == (((m & 0o444) >> 2) | m),
        spec_resolve_perm(Some(m), false, raw) == m,
{
}

/// See `spec_resolve_owner`.
pub fn resolve_owner(force: Option<u32>, numeric: bool, named: Option<u32>, raw: u32) -> (r: u32)
    ensures
        r == spec_resolve_owner(force, numeric, named, raw),
{
    match force {
        Some(u) => u,
        None => if numeric {
            raw
        } else {
            match named {
                Some(u) => u,
                None => raw,
            }
        },
    }
}

/// See `spec_resolve_perm`.
pub fn resolve_perm(force: Option<u16>, is_dir: bool, raw_mode: u32) -> (r: u16)
    ensures
        r == spec_resolve_perm(force, is_dir, raw_mode),
{
    match force {
        Some(m) => if is_dir {
            ((m & 0o444) >> 2) | m
        } else {
            m
        },
        None => {
            assert(raw_mode & 0o777 <= 0o777) by (bit_vector);
            let masked: u32 = raw_mode & 0o777;
            masked as u16
        },
    }
}

/// The state of a build in progress: the arena so far, the hard links
/// queued for the second phase, and the warnings issued so far.
pub struct BuildStM {
    pub nodes: Seq<NodeM>,
    pub pending: Seq<PendingM>,
    pub warns: Seq<WarnM>,
}

/// The synthetic root directory, inode 1, mode `0o555`.
pub open spec fn spec_root(cfg: BuildConfig) -> NodeM {
    NodeM::Directory {
        id: 1,
        name: seq![],
        path: seq![],
        perm: 0o555,
        mtime: cfg.root_mtime,
        uid: cfg.root_uid,
        gid: cfg.root_gid,
        children: seq![],
    }
}

/// The state a build starts from: the root alone, nothing queued.
pub open spec fn st_init(cfg: BuildConfig) -> BuildStM {
    BuildStM { nodes: seq![spec_root(cfg)], pending: seq![], warns: seq![] }
}

/// `d` with one more child edge; nodes of other kinds are unchanged.
pub open spec fn add_child(d: NodeM, c: ChildM) -> NodeM {
    match d {
        NodeM::Directory { id, name, path, perm, mtime, uid, gid, children } => {
            NodeM::Directory { id, name, path, perm, mtime, uid, gid, children: children.push(c) }
        },
        _ => d,
    }
}

/// `n` with its link count one higher; saturates rather than wraps, and
/// leaves nodes that track no link count unchanged.
pub open spec fn with_bumped_nlink(n: NodeM) -> NodeM {
    match n {
        NodeM::File { id, name, path, size, perm, mtime, uid, gid, archive_index, nlink } => {
            NodeM::File {
                id,
                name,
                path,
                size,
                perm,
                mtime,
                uid,
                gid,
                archive_index,
                nlink: if nlink == u32::MAX {
                    nlink
                } else {
                    (nlink + 1) as u32
                },
            }
        },
        NodeM::Symlink { id, name, path, mtime, uid, gid, target, nlink } => {
            NodeM::Symlink {
                id,
                name,
                path,
                mtime,
                uid,
                gid,
                target,
                nlink: if nlink == u32::MAX {
                    nlink
                } else {
                    (nlink + 1) as u32
                },
            }
        },
        _ => n,
    }
}

/// The link destination a symlink or queued hard link carries.
pub open spec fn link_target_of(n: NodeM) -> Seq<u8> {
    match n {
        NodeM::Symlink { target, .. } => target,
        NodeM::Link { target, .. } => target,
        _ => seq![],
    }
}

/// Append `n` to the arena and hang an edge named `name` for it under
/// the directory with id `pid`.
pub open spec fn spec_place(t: Seq<NodeM>, pid: u64, name: Seq<u8>, n: NodeM) -> Seq<NodeM> {
    let t1 = t.push(n);
    t1.update(pid - 1, add_child(t1[pid - 1], ChildM { name, id: n.spec_id() }))
}

/// `st` with one more warning.
pub open spec fn warn_push(st: BuildStM, kind: WarnKind, path: Seq<u8>) -> BuildStM {
    BuildStM {
        nodes: st.nodes,
        pending: st.pending,
        warns: st.warns.push(WarnM { kind, path }),
    }
}

/// One step of the entry pass: resolve owner and mode under the mount
/// options, make the node, and place it under the directory its parent
/// path names; queue hard links; drop (with a warning) nameless
/// entries, unsupported kinds, and orphans.
pub open spec fn spec_apply_entry(cfg: BuildConfig, st: BuildStM, e: EntryM, ordinal: u64) -> BuildStM {
    let uid = spec_resolve_owner(cfg.force_uid, cfg.numeric_owner, e.uname_uid, e.uid);
    let gid = spec_resolve_owner(cfg.force_gid, cfg.numeric_owner, e.gname_gid, e.gid);
    let perm = spec_resolve_perm(cfg.force_mode, e.kind == EntryKind::Directory, e.mode);
    let id_new = (st.nodes.len() + 1) as u64;
    match spec_node_of(e, id_new, ordinal, uid, gid, perm) {
        Err(EntryError::MissingName) => warn_push(st, WarnKind::MissingName, e.path),
        Err(EntryError::MissingLinkTarget) => warn_push(st, WarnKind::MissingLinkTarget, e.path),
        Ok(None) => warn_push(st, WarnKind::UnsupportedEntry, e.path),
        Ok(Some(n)) => if n.is_link() {
            BuildStM {
                nodes: st.nodes,
                pending: st.pending.push(
                    PendingM { path: e.path, name: n.spec_name(), target: link_target_of(n) },
                ),
                warns: st.warns,
            }
        } else {
            let comps = spec_components(spec_canonicalize(e.path));
            match spec_walk_from(st.nodes, 1, comps.drop_last(), 0) {
                Some(pid) => match spec_node_at(st.nodes, pid) {
                    Some(p) => if p.is_dir() {
                        BuildStM {
                            nodes: spec_place(st.nodes, pid, n.spec_name(), n),
                            pending: st.pending,
                            warns: st.warns,
                        }
                    } else {
                        warn_push(st, WarnKind::OrphanedEntry, e.path)
                    },
                    None => warn_push(st, WarnKind::OrphanedEntry, e.path),
                },
                None => warn_push(st, WarnKind::OrphanedEntry, e.path),
            }
        },
    }
}

/// Fold `spec_apply_entry` over the entries from position `i` on.
pub open spec fn spec_build_entries(cfg: BuildConfig, es: Seq<EntryM>, i: int, st: BuildStM) -> BuildStM
    decreases es.len() - i,
{
    if i < 0 || i >= es.len() {
        st
    } else {
        spec_build_entries(cfg, es, i + 1, spec_apply_entry(cfg, st, es[i], i as u64))
    }
}

/// The state of the link-resolution phase: the arena and the warnings.
pub struct LinkStM {
    pub nodes: Seq<NodeM>,
    pub warns: Seq<WarnM>,
}

/// Resolve one queued hard link: walk its target path; if that names a
/// file or symlink, count the link on the target and hang an edge
/// bearing the link's name (and the target's id) under the link's own
/// parent directory.  A target that cannot be resolved, or a missing
/// parent, drops the link with a warning.
pub open spec fn spec_resolve_link(st: LinkStM, p: PendingM) -> LinkStM {
    let tcomps = spec_components(spec_canonicalize(p.target));
    match spec_walk_from(st.nodes, 1, tcomps, 0) {
        Some(tid) => match spec_node_at(st.nodes, tid) {
            Some(tn) => if tn.is_linkable() {
                let pcomps = spec_components(spec_canonicalize(p.path));
                let pcut: int = if pcomps.len() > 0 {
                    pcomps.len() - 1
                } else {
                    0
                };
                let parent = spec_walk_from(st.nodes, 1, pcomps.take(pcut), 0);
                let nodes1 = st.nodes.update(tid - 1, with_bumped_nlink(st.nodes[tid - 1]));
                match parent {
                    Some(pid) => match spec_node_at(nodes1, pid) {
                        Some(pn) => if pn.is_dir() {
                            LinkStM {
                                nodes: nodes1.update(
                                    pid - 1,
                                    add_child(nodes1[pid - 1], ChildM { name: p.name, id: tid }),
                                ),
                                warns: st.warns,
                            }
                        } else {
                            LinkStM {
                                nodes: nodes1,
                                warns: st.warns.push(
                                    WarnM { kind: WarnKind::LinkParentMissing, path: p.path },
                                ),
                            }
                        },
                        None => LinkStM {
                            nodes: nodes1,
                            warns: st.warns.push(
                                WarnM { kind: WarnKind::LinkParentMissing, path: p.path },
                            ),
                        },
                    },
                    None => LinkStM {
                        nodes: nodes1,
                        warns: st.warns.push(
                            WarnM { kind: WarnKind::LinkParentMissing, path: p.path },
                        ),
                    },
                }
            } else {
                LinkStM {
                    nodes: st.nodes,
                    warns: st.warns.push(
                        WarnM { kind: WarnKind::LinkTargetMissing, path: p.path },
                    ),
                }
            },
            None => LinkStM {
                nodes: st.nodes,
                warns: st.warns.push(WarnM { kind: WarnKind::LinkTargetMissing, path: p.path }),
            },
        },
        None => LinkStM {
            nodes: st.nodes,
            warns: st.warns.push(WarnM { kind: WarnKind::LinkTargetMissing, path: p.path }),
        },
    }
}

/// Fold `spec_resolve_link` over the queued links from position `j` on.
pub open spec fn spec_resolve_links(st: LinkStM, pending: Seq<PendingM>, j: int) -> LinkStM
    decreases pending.len() - j,
{
    if j < 0 || j >= pending.len() {
        st
    } else {
        spec_resolve_links(spec_resolve_link(st, pending[j]), pending, j + 1)
    }
}

/// What `TreeBuilder::build` produces from an archive's entries, in
/// stream order: the entry pass from the root-only state, followed by
/// hard-link resolution.
pub open spec fn spec_build(cfg: BuildConfig, es: Seq<EntryM>) -> LinkStM {
    let st = spec_build_entries(cfg, es, 0, st_init(cfg));
    spec_resolve_links(LinkStM { nodes: st.nodes, warns: st.warns }, st.pending, 0)
}

/// The path-to-inode map a tree exposes: each placed node's archive
/// path beside its inode number, in id order.
pub open spec fn spec_path_map(t: Seq<NodeM>) -> Seq<(Seq<u8>, u64)> {
    Seq::new(t.len(), |i: int| (t[i].spec_path(), t[i].spec_id()))
}

/// The map of every placed node's archive path to its inode number.
pub fn build_path_map(tree: &Tree) -> (r: Vec<(Vec<u8>, u64)>)
    requires
        tree.wf(),
    ensures
        r@.map_values(|p: (Vec<u8>, u64)| (p.0@, p.1)) == spec_path_map(tree@),
{
    let ghost t = tree@;
    let n: usize = tree.nodes.len();
    let mut out: Vec<(Vec<u8>, u64)> = Vec::new();
    let mut i: usize = 0;
    proof {
        assert(out@.map_values(|p: (Vec<u8>, u64)| (p.0@, p.1)) =~= Seq::<(Seq<u8>, u64)>::empty());
    }
    while i < n
        invariant
            t == tree@,
            tree.wf(),
            n == tree.nodes@.len(),
            n == t.len(),
            i <= n,
            out@.map_values(|p: (Vec<u8>, u64)| (p.0@, p.1)) =~= spec_path_map(t).take(i as int),
        decreases n - i,
    {
        let node = &tree.nodes[i];
        proof {
            assert(t[i as int] == node@);
            assert(wf_node_at(t, i as int));
        }
        let path = crate::node::clone_bytes(node.path());
        let id = node.index();
        let ghost pre = out@.map_values(|p: (Vec<u8>, u64)| (p.0@, p.1));
        out.push((path, id));
        proof {
            assert(out@.map_values(|p: (Vec<u8>, u64)| (p.0@, p.1)) =~= pre.push(
                (t[i as int].spec_path(), t[i as int].spec_id()),
            ));
            assert(spec_path_map(t).take(i + 1) =~= spec_path_map(t).take(i as int).push(
                spec_path_map(t)[i as int],
            ));
        }
        i = i + 1;
    }
    proof {
        assert(spec_path_map(t).take(n as int) =~= spec_path_map(t));
    }
    out
}

/// Identity stability: the tree a mount builds is a function of the
/// mount options and the archive's entries alone, so mounting the same
/// archive twice with the same options yields the same tree -- and in
/// particular identical path-to-inode maps, so the id a path gets
/// depends only on the archive's content and order.
pub proof fn lemma_identity_stability(
    cfg: BuildConfig,
    es: Seq<EntryM>,
    t1: Seq<NodeM>,
    t2: Seq<NodeM>,
)
    requires
        t1 == spec_build(cfg, es).nodes,
        t2 == spec_build(cfg, es).nodes,
    ensures
        t1 == t2,
        spec_path_map(t1) == spec_path_map(t2),
{
}

/// Orphan safety, entry side: an entry whose parent directory cannot
/// be reached (missing, or not a directory) contributes no node to the
/// arena -- whatever else the step does, the nodes stay exactly as
/// they were, and the build goes on.
pub proof fn lemma_orphan_safety(cfg: BuildConfig, st: BuildStM, e: EntryM, ordinal: u64)
    ensures
        ({
            let comps = spec_components(spec_canonicalize(e.path));
            let parent = spec_walk_from(st.nodes, 1, comps.drop_last(), 0);
            let parent_is_dir = match parent {
                Some(pid) => match spec_node_at(st.nodes, pid) {
                    Some(p) => p.is_dir(),
                    None => false,
                },
                None => false,
            };
            !parent_is_dir ==> spec_apply_entry(cfg, st, e, ordinal).nodes == st.nodes
        }),
{
}

/// Orphan safety, link side: a hard link whose target path resolves to
/// nothing (or to a directory) leaves the arena exactly as it was and
/// is recorded as a dropped link.
pub proof fn lemma_orphan_link_safety(st: LinkStM, p: PendingM)
    ensures
        ({
            let tcomps = spec_components(spec_canonicalize(p.target));
            let target_ok = match spec_walk_from(st.nodes, 1, tcomps, 0) {
                Some(tid) => match spec_node_at(st.nodes, tid) {
                    Some(tn) => tn.is_linkable(),
                    None => false,
                },
                None => false,
            };
            !target_ok ==> spec_resolve_link(st, p).nodes == st.nodes && spec_resolve_link(
                st,
                p,
            ).warns == st.warns.push(WarnM { kind: WarnKind::LinkTargetMissing, path: p.path })
        }),
{
}

/// Whether resolving the queued link `p` against this arena binds it
/// to the node with id `tid`.
pub open spec fn resolves_to(nodes: Seq<NodeM>, p: PendingM, tid: u64) -> bool {
    let tcomps = spec_components(spec_canonicalize(p.target));
    match spec_walk_from(nodes, 1, tcomps, 0) {
        Some(t) => t == tid && (match spec_node_at(nodes, t) {
            Some(tn) => tn.is_linkable(),
            None => false,
        }),
        None => false,
    }
}

/// How many of the queued links from position `j` on resolve to the
/// node with id `tid`, each judged against the arena as it stands when
/// its turn comes.
pub open spec fn spec_resolved_count(st: LinkStM, pending: Seq<PendingM>, j: int, tid: u64) -> nat
    decreases pending.len() - j,
{
    if j < 0 || j >= pending.len() {
        0
    } else {
        (if resolves_to(st.nodes, pending[j], tid) {
            1nat
        } else {
            0nat
        }) + spec_resolved_count(spec_resolve_link(st, pending[j]), pending, j + 1, tid)
    }
}

/// Link counting, resolution side: running link resolution raises the
/// link count of each file or symlink by exactly the number of queued
/// links that resolve to it, and touches no other count (stated below
/// the saturation bound).
pub proof fn lemma_link_counting(st: LinkStM, pending: Seq<PendingM>, j: int, tid: u64)
    requires
        0 <= j <= pending.len(),
        1 <= tid && tid <= st.nodes.len(),
        nlink_of(st.nodes[tid - 1]) + spec_resolved_count(st, pending, j, tid) <= u32::MAX,
    ensures
        spec_resolve_links(st, pending, j).nodes.len() == st.nodes.len(),
        nlink_of(spec_resolve_links(st, pending, j).nodes[tid - 1]) == nlink_of(
            st.nodes[tid - 1],
        ) + spec_resolved_count(st, pending, j, tid),
    decreases pending.len() - j,
{
    if j >= pending.len() {
    } else {
        let p = pending[j];
        let st1 = spec_resolve_link(st, p);
        assert(st1.nodes.len() == st.nodes.len());
        if resolves_to(st.nodes, p, tid) {
            assert(nlink_of(st1.nodes[tid - 1]) == nlink_of(st.nodes[tid - 1]) + 1);
        } else {
            assert(nlink_of(st1.nodes[tid - 1]) == nlink_of(st.nodes[tid - 1]));
        }
        lemma_link_counting(st1, pending, j + 1, tid);
    }
}

/// Every node the entry pass places starts with a link count of one
/// (directories and the root report one throughout).
pub proof fn lemma_entry_phase_nlink(cfg: BuildConfig, es: Seq<EntryM>, i: int, st: BuildStM)
    requires
        forall|k: int| 0 <= k < st.nodes.len() ==> nlink_of(#[trigger] st.nodes[k]) == 1,
    ensures
        forall|k: int|
            0 <= k < spec_build_entries(cfg, es, i, st).nodes.len() ==> nlink_of(
                #[trigger] spec_build_entries(cfg, es, i, st).nodes[k],
            ) == 1,
    decreases es.len() - i,
{
    if i < 0 || i >= es.len() {
    } else {
        let e = es[i];
        let st1 = spec_apply_entry(cfg, st, e, i as u64);
        let uid = spec_resolve_owner(cfg.force_uid, cfg.numeric_owner, e.uname_uid, e.uid);
        let gid = spec_resolve_owner(cfg.force_gid, cfg.numeric_owner, e.gname_gid, e.gid);
        let perm = spec_resolve_perm(cfg.force_mode, e.kind == EntryKind::Directory, e.mode);
        let id_new = (st.nodes.len() + 1) as u64;
        assert forall|k: int| 0 <= k < st1.nodes.len() implies nlink_of(#[trigger] st1.nodes[k])
            == 1 by {
            match spec_node_of(e, id_new, i as u64, uid, gid, perm) {
                Ok(Some(n)) => {
                    assert(nlink_of(n) == 1);
                    if !n.is_link() {
                        let comps = spec_components(spec_canonicalize(e.path));
                        match spec_walk_from(st.nodes, 1, comps.drop_last(), 0) {
                            Some(pid) => {
                                match spec_node_at(st.nodes, pid) {
                                    Some(p) => {
                                        if p.is_dir() {
                                            let t1 = st.nodes.push(n);
                                            let c = ChildM { name: n.spec_name(), id: n.spec_id() };
                                            assert(st1.nodes == t1.update(
                                                pid - 1,
                                                add_child(t1[pid - 1], c),
                                            ));
                                            if k == pid - 1 {
                                                assert(nlink_of(add_child(t1[pid - 1], c))
                                                    == nlink_of(t1[pid - 1]));
                                                assert(nlink_of(st.nodes[k]) == 1);
                                            } else if k == st.nodes.len() {
                                                assert(st1.nodes[k] == n);
                                            } else {
                                                assert(st1.nodes[k] == st.nodes[k]);
                                                assert(nlink_of(st.nodes[k]) == 1);
                                            }
                                        } else {
                                            assert(nlink_of(st.nodes[k]) == 1);
                                        }
                                    },
                                    None => {
                                        assert(nlink_of(st.nodes[k]) == 1);
                                    },
                                }
                            },
                            None => {
                                assert(nlink_of(st.nodes[k]) == 1);
                            },
                        }
                    } else {
                        assert(nlink_of(st.nodes[k]) == 1);
                    }
                },
                _ => {
                    assert(nlink_of(st.nodes[k]) == 1);
                },
            }
        }
        lemma_entry_phase_nlink(cfg, es, i + 1, st1);
        assert(spec_build_entries(cfg, es, i, st) == spec_build_entries(cfg, es, i + 1, st1));
    }
}

/// Link counting, whole build: in a built tree every file and symlink
/// carries a link count of one plus the number of queued hard links
/// that resolved to it (below the saturation bound).
pub proof fn lemma_link_counting_built(cfg: BuildConfig, es: Seq<EntryM>, tid: u64)
    requires
        ({
            let st = spec_build_entries(cfg, es, 0, st_init(cfg));
            &&& 1 <= tid && tid <= st.nodes.len()
            &&& 1 + spec_resolved_count(
                LinkStM { nodes: st.nodes, warns: st.warns },
                st.pending,
                0,
                tid,
            ) <= u32::MAX
        }),
    ensures
        ({
            let st = spec_build_entries(cfg, es, 0, st_init(cfg));
            nlink_of(spec_build(cfg, es).nodes[tid - 1]) == 1 + spec_resolved_count(
                LinkStM { nodes: st.nodes, warns: st.warns },
                st.pending,
                0,
                tid,
            )
        }),
{
    let st = spec_build_entries(cfg, es, 0, st_init(cfg));
    assert forall|k: int| 0 <= k < st_init(cfg).nodes.len() implies nlink_of(
        #[trigger] st_init(cfg).nodes[k],
    ) == 1 by {
        assert(st_init(cfg).nodes[k] == spec_root(cfg));
    }
    lemma_entry_phase_nlink(cfg, es, 0, st_init(cfg));
    assert(nlink_of(st.nodes[tid - 1]) == 1);
    lemma_link_counting(LinkStM { nodes: st.nodes, warns: st.warns }, st.pending, 0, tid);
}

/// Placement visibility: when the entry pass places an entry's node
/// under the directory with id `pid`, and no earlier child of that
/// directory carries the same name, looking the entry's name up there
/// yields exactly the node that was built for it -- so its attributes
/// are the entry's own, as `lemma_attr_fidelity` states them.
pub proof fn lemma_placement_visible(
    cfg: BuildConfig,
    st: BuildStM,
    e: EntryM,
    ordinal: u64,
    n: NodeM,
    pid: u64,
)
    requires
        ({
            let uid = spec_resolve_owner(cfg.force_uid, cfg.numeric_owner, e.uname_uid, e.uid);
            let gid = spec_resolve_owner(cfg.force_gid, cfg.numeric_owner, e.gname_gid, e.gid);
            let perm = spec_resolve_perm(cfg.force_mode, e.kind == EntryKind::Directory, e.mode);
            let id_new = (st.nodes.len() + 1) as u64;
            spec_node_of(e, id_new, ordinal, uid, gid, perm) == Ok::<
                Option<NodeM>,
                EntryError,
            >(Some(n))
        }),
        !n.is_link(),
        st.nodes.len() + 1 < u64::MAX,
        spec_walk_from(
            st.nodes,
            1,
            spec_components(spec_canonicalize(e.path)).drop_last(),
            0,
        ) == Some(pid),
        1 <= pid && pid <= st.nodes.len(),
        st.nodes[pid - 1].is_dir(),
        spec_find_child(children_of(st.nodes[pid - 1]), n.spec_name(), 0) is None,
    ensures
        ({
            let res = spec_apply_entry(cfg, st, e, ordinal).nodes;
            spec_lookup(res, pid, n.spec_name()) == Some(n)
        }),
{
    let res = spec_apply_entry(cfg, st, e, ordinal).nodes;
    let t1 = st.nodes.push(n);
    let c = ChildM { name: n.spec_name(), id: n.spec_id() };
    let d2 = add_child(t1[pid - 1], c);
    assert(res == t1.update(pid - 1, d2));
    assert(children_of(d2) == children_of(st.nodes[pid - 1]).push(c));
    lemma_find_child_push(children_of(st.nodes[pid - 1]), n.spec_name(), c, 0);
    assert(n.spec_id() == st.nodes.len() + 1);
    assert(spec_node_at(res, pid) == Some(d2));
    assert(res[n.spec_id() - 1] == n);
}

/// An unmatched name stays unmatched until the pushed edge: the first
/// edge named `name` in `cs.push(c)` is `c` itself when no edge of
/// `cs` from `j` on carries that name.
pub proof fn lemma_find_child_push(cs: Seq<ChildM>, name: Seq<u8>, c: ChildM, j: int)
    requires
        spec_find_child(cs, name, j) is None,
        c.name == name,
        0 <= j <= cs.len(),
    ensures
        spec_find_child(cs.push(c), name, j) == Some(c.id),
    decreases cs.len() - j,
{
    if j < cs.len() {
        lemma_find_child_push(cs, name, c, j + 1);
    }
}

/// Hard-link transparency: when resolving binds the queued link `p` to
/// the target with id `tid` and hangs its edge under the directory
/// with id `pid`, and no earlier child of that directory carries the
/// link's name, looking the link's name up there yields the target
/// node itself -- the same inode, and therefore the same attributes.
pub proof fn lemma_hardlink_transparency(st: LinkStM, p: PendingM, tid: u64, pid: u64)
    requires
        wf_tree(st.nodes),
        spec_walk_from(st.nodes, 1, spec_components(spec_canonicalize(p.target)), 0) == Some(tid),
        ({
            match spec_node_at(st.nodes, tid) {
                Some(tn) => tn.is_linkable(),
                None => false,
            }
        }),
        ({
            let pcomps = spec_components(spec_canonicalize(p.path));
            let pcut: int = if pcomps.len() > 0 {
                pcomps.len() - 1
            } else {
                0
            };
            spec_walk_from(st.nodes, 1, pcomps.take(pcut), 0) == Some(pid)
        }),
        1 <= pid && pid <= st.nodes.len(),
        st.nodes[pid - 1].is_dir(),
        spec_find_child(children_of(st.nodes[pid - 1]), p.name, 0) is None,
    ensures
        ({
            let res = spec_resolve_link(st, p).nodes;
            &&& spec_lookup(res, pid, p.name) == Some(res[tid - 1])
            &&& spec_attr_of(res[tid - 1]).ino == tid
            &&& spec_attr_of(res[tid - 1]) == spec_attr_of(
                with_bumped_nlink(st.nodes[tid - 1]),
            )
        }),
{
    assert(1 <= tid && tid <= st.nodes.len());
    assert(!st.nodes[tid - 1].is_dir());
    assert(pid != tid);
    let nodes1 = st.nodes.update(tid - 1, with_bumped_nlink(st.nodes[tid - 1]));
    assert(nodes1[pid - 1] == st.nodes[pid - 1]);
    assert(spec_node_at(nodes1, pid) == Some(nodes1[pid - 1]));
    let e = ChildM { name: p.name, id: tid };
    let d2 = add_child(nodes1[pid - 1], e);
    let res = spec_resolve_link(st, p).nodes;
    assert(res == nodes1.update(pid - 1, d2));
    assert(children_of(d2) == children_of(st.nodes[pid - 1]).push(e));
    lemma_find_child_push(children_of(st.nodes[pid - 1]), p.name, e, 0);
    assert(spec_node_at(res, pid) == Some(d2));
    assert(res[tid - 1] == with_bumped_nlink(st.nodes[tid - 1]));
    assert(wf_node_at(st.nodes, tid - 1));
    assert(spec_attr_of(res[tid - 1]).ino == tid);
}

/// `2 * indent` spaces.
pub open spec fn indent_bytes(indent: nat) -> Seq<u8> {
    Seq::new(indent * 2, |i: int| 32u8)
}

/// One listing line (without indentation): the node's name, a symlink
/// also showing ` -> target`, and a newline.
pub open spec fn line_of(n: NodeM) -> Seq<u8> {
    match n {
        NodeM::Symlink { name, target, .. } => name + seq![32u8, 45u8, 62u8, 32u8] + target + seq![
            10u8,
        ],
        _ => n.spec_name() + seq![10u8],
    }
}

/// The indented listing of the subtree rooted at the node with id
/// `id`: its own line, and for a directory the listings of its
/// children, one level deeper, in archive order.
pub open spec fn spec_print_node(t: Seq<NodeM>, id: u64, indent: nat) -> Seq<u8>
    decreases t.len() - id, 1nat, 0nat,
        when wf_tree(t) && 1 <= id && id <= t.len()
{
    let n = t[id - 1];
    let line = indent_bytes(indent) + line_of(n);
    if n.is_dir() {
        line + spec_print_children(t, id, children_of(n), 0, (indent + 1) as nat)
    } else {
        line
    }
}

/// The listings of a directory's children from position `j` on.  A
/// child that is itself a directory recurses; other children get one
/// line each.
pub open spec fn spec_print_children(
    t: Seq<NodeM>,
    pid: u64,
    cs: Seq<ChildM>,
    j: int,
    indent: nat,
) -> Seq<u8>
    decreases t.len() - pid, 0nat, cs.len() - j,
        when wf_tree(t) && 1 <= pid && pid <= t.len() && cs == children_of(t[pid - 1]) && 0 <= j
{
    if j >= cs.len() {
        seq![]
    } else {
        let c = cs[j];
        let part = if pid < c.id && c.id <= t.len() && t[c.id - 1].is_dir() {
            spec_print_node(t, c.id, indent)
        } else if 1 <= c.id && c.id <= t.len() {
            indent_bytes(indent) + line_of(t[c.id - 1])
        } else {
            seq![]
        };
        part + spec_print_children(t, pid, cs, j + 1, indent)
    }
}

/// Append `2 * indent` spaces.
fn push_indent(out: &mut Vec<u8>, indent: usize)
    ensures
        final(out)@ == old(out)@ + indent_bytes(indent as nat),
{
    let mut i: usize = 0;
    while i < indent
        invariant
            i <= indent,
            out@ =~= old(out)@ + indent_bytes(i as nat),
        decreases indent - i,
    {
        out.push(32);
        out.push(32);
        proof {
            assert(out@ =~= old(out)@ + indent_bytes((i + 1) as nat));
        }
        i = i + 1;
    }
}

/// Append one listing line for the node at slot `id - 1`.
fn push_line(out: &mut Vec<u8>, node: &Node)
    ensures
        final(out)@ == old(out)@ + line_of(node@),
{
    match node {
        Node::Symlink { name, target, .. } => {
            let ghost pre = out@;
            append_bytes(out, name);
            out.push(32);
            out.push(45);
            out.push(62);
            out.push(32);
            append_bytes(out, target);
            out.push(10);
            proof {
                assert(out@ =~= pre + line_of(node@));
            }
        },
        _ => {
            let ghost pre = out@;
            append_bytes(out, node.name());
            out.push(10);
            proof {
                assert(out@ =~= pre + line_of(node@));
            }
        },
    }
}

/// Append a byte string.
fn append_bytes(out: &mut Vec<u8>, bytes: &Vec<u8>)
    ensures
        final(out)@ == old(out)@ + bytes@,
{
    let n: usize = bytes.len();
    let mut i: usize = 0;
    while i < n
        invariant
            n == bytes@.len(),
            i <= n,
            out@ =~= old(out)@ + bytes@.subrange(0, i as int),
        decreases n - i,
    {
        let b = bytes[i];
        out.push(b);
        i = i + 1;
    }
    proof {
        assert(out@ =~= old(out)@ + bytes@);
    }
}

/// Append the listing of the subtree rooted at the node with id `id`.
fn print_into(tree: &Tree, id: u64, indent: usize, out: &mut Vec<u8>)
    requires
        tree.wf(),
        1 <= id && id <= tree@.len(),
        indent as int <= id - 1,
    ensures
        final(out)@ == old(out)@ + spec_print_node(tree@, id, indent as nat),
    decreases tree@.len() - id, 1int,
{
    let ghost t = tree@;
    proof {
        assert(t.len() == tree.nodes@.len());
    }
    let ln: usize = tree.nodes.len();
    assert(id <= ln as u64);
    let idx: usize = (id - 1) as usize;
    let node = &tree.nodes[idx];
    proof {
        assert(t[id - 1] == node@);
        assert(wf_node_at(t, id - 1));
    }
    let ghost pre = out@;
    push_indent(out, indent);
    push_line(out, node);
    match node {
        Node::Directory { children, .. } => {
            let ghost cs = children_of(node@);
            let ghost base = out@;
            let n: usize = children.len();
            let mut j: usize = 0;
            proof {
                assert(cs == children@.map_values(|c: ChildRef| c@));
            }
            while j < n
                invariant
                    t == tree@,
                    tree.wf(),
                    1 <= id && id <= t.len(),
                    indent as int <= id - 1,
                    t[id - 1] == node@,
                    node@.is_dir(),
                    cs == children_of(node@),
                    cs == children@.map_values(|c: ChildRef| c@),
                    n == children@.len(),
                    j <= n,
                    base + spec_print_children(t, id, cs, 0, (indent + 1) as nat) == out@
                        + spec_print_children(t, id, cs, j as int, (indent + 1) as nat),
                decreases n - j,
            {
                let edge = &children[j];
                proof {
                    assert(wf_node_at(t, id - 1));
                    assert(wf_edge(t, id - 1, children_of(t[id - 1])[j as int]));
                    assert(cs[j as int] == edge@);
                    assert(wf_node_at(t, edge@.id - 1));
                    assert(t.len() == tree.nodes@.len());
                }
                let ghost before = out@;
                let lnn: usize = tree.nodes.len();
                assert(edge.id <= lnn as u64);
                let cidx: usize = (edge.id - 1) as usize;
                let child = &tree.nodes[cidx];
                proof {
                    assert(t[edge@.id - 1] == child@);
                }
                match child {
                    Node::Directory { .. } => {
                        print_into(tree, edge.id, indent + 1, out);
                    },
                    _ => {
                        push_indent(out, indent + 1);
                        push_line(out, child);
                    },
                }
                proof {
                    let ind1 = (indent + 1) as nat;
                    let part = if id < edge@.id && edge@.id <= t.len() && t[edge@.id
                        - 1].is_dir() {
                        spec_print_node(t, edge@.id, ind1)
                    } else {
                        indent_bytes(ind1) + line_of(t[edge@.id - 1])
                    };
                    if t[edge@.id - 1].is_dir() {
                        assert(edge@.id > id);
                    }
                    assert(out@ == before + part);
                    assert(spec_print_children(t, id, cs, j as int, ind1) == part
                        + spec_print_children(t, id, cs, j + 1, ind1));
                    assert(base + spec_print_children(t, id, cs, 0, ind1) =~= out@
                        + spec_print_children(t, id, cs, j + 1, ind1));
                }
                j = j + 1;
            }
            proof {
                let ind1 = (indent + 1) as nat;
                assert(spec_print_children(t, id, cs, n as int, ind1) =~= Seq::<u8>::empty());
                assert(out@ =~= base + spec_print_children(t, id, cs, 0, ind1));
                assert(out@ =~= pre + spec_print_node(t, id, indent as nat));
            }
        },
        _ => {
            proof {
                assert(out@ =~= pre + spec_print_node(t, id, indent as nat));
            }
        },
    }
}

impl Node {
    /// The indented listing of the subtree rooted at this node (a
    /// placed node of `tree`): one name per line, symlinks shown as
    /// `name -> target`, children two spaces deeper per level, for the
    /// mount's debug dump of the tree.
    pub fn print_tree(&self, tree: &Tree) -> (r: Vec<u8>)
        requires
            tree.wf(),
            1 <= self@.spec_id() && self@.spec_id() <= tree@.len(),
        ensures
            r@ == spec_print_node(tree@, self@.spec_id(), 0),
    {
        proof {
            if self@.is_link() {
                assert(self@.spec_id() == 0);
            }
        }
        let id = self.index();
        let mut out: Vec<u8> = Vec::new();
        print_into(tree, id, 0, &mut out);
        proof {
            assert(out@ =~= Seq::<u8>::empty() + spec_print_node(tree@, id, 0));
        }
        out
    }
}

/// Descend from the root along the first `upto` components.
fn walk_nodes(nodes: &Vec<Node>, comps: &Vec<Vec<u8>>, upto: usize) -> (r: Option<u64>)
    requires
        wf_tree(view_nodes(nodes@)),
        upto <= comps@.len(),
    ensures
        r == spec_walk_from(view_nodes(nodes@), 1, comps.deep_view().take(upto as int), 0),
{
    let ghost t = view_nodes(nodes@);
    let ghost pref = comps.deep_view().take(upto as int);
    let mut cur: u64 = 1;
    let mut i: usize = 0;
    while i < upto
        invariant
            t == view_nodes(nodes@),
            wf_tree(t),
            upto <= comps@.len(),
            pref == comps.deep_view().take(upto as int),
            i <= upto,
            1 <= cur && cur <= t.len(),
            !t[cur - 1].is_link(),
            spec_walk_from(t, 1, pref, 0) == spec_walk_from(t, cur, pref, i as int),
        decreases upto - i,
    {
        proof {
            assert(t.len() == nodes@.len());
        }
        let ln: usize = nodes.len();
        assert(cur <= ln as u64);
        let idx: usize = (cur - 1) as usize;
        let n = &nodes[idx];
        proof {
            assert(t[cur - 1] == n@);
            assert(spec_node_at(t, cur) == Some(n@));
        }
        match n {
            Node::Directory { children, .. } => {
                proof {
                    assert(children_of(n@) == children@.map_values(|c: ChildRef| c@));
                    assert(pref[i as int] == comps@[i as int].deep_view());
                    assert(comps@[i as int].deep_view() =~= comps@[i as int]@);
                }
                match find_child_in(children, comps[i].as_slice()) {
                    Some(next) => {
                        proof {
                            lemma_find_child_edge(children_of(n@), pref[i as int], 0, next);
                            let k = choose|k: int|
                                0 <= k < children_of(n@).len() && children_of(n@)[k].name
                                    == pref[i as int] && children_of(n@)[k].id == next;
                            assert(wf_node_at(t, cur - 1));
                            assert(wf_edge(t, cur - 1, children_of(t[cur - 1])[k]));
                        }
                        cur = next;
                    },
                    None => {
                        return None;
                    },
                }
            },
            _ => {
                return None;
            },
        }
        i = i + 1;
    }
    Some(cur)
}

proof fn lemma_view_nodes_update(ns: Seq<Node>, i: int, n: Node)
    requires
        0 <= i < ns.len(),
    ensures
        view_nodes(ns.update(i, n)) == view_nodes(ns).update(i, n@),
{
    assert(view_nodes(ns.update(i, n)) =~= view_nodes(ns).update(i, n@));
}

/// Replacing a node by one of the same id, kind and edges keeps the
/// arena well-formed: only attribute fields may differ.
proof fn lemma_wf_update_same_shape(t: Seq<NodeM>, i: int, n2: NodeM)
    requires
        wf_tree(t),
        0 <= i < t.len(),
        n2.spec_id() == t[i].spec_id(),
        n2.is_dir() == t[i].is_dir(),
        !n2.is_link(),
        children_of(n2) == children_of(t[i]),
    ensures
        wf_tree(t.update(i, n2)),
{
    let t2 = t.update(i, n2);
    assert forall|k: int| 0 <= k < t2.len() implies wf_node_at(t2, k) by {
        assert(wf_node_at(t, k));
        assert(children_of(t2[k]) == children_of(t[k]));
        assert forall|j: int| 0 <= j < children_of(t2[k]).len() implies wf_edge(
            t2,
            k,
            #[trigger] children_of(t2[k])[j],
        ) by {
            let c = children_of(t[k])[j];
            assert(wf_edge(t, k, c));
            assert(t2[c.id - 1].is_link() == t[c.id - 1].is_link());
            assert(t2[c.id - 1].is_dir() == t[c.id - 1].is_dir());
        }
    }
}

/// Appending a fresh node and its parent edge keeps the arena
/// well-formed: the new node takes the next id, a new directory starts
/// empty, and the parent's new edge points forward.
proof fn lemma_wf_place(t: Seq<NodeM>, pid: u64, name: Seq<u8>, n: NodeM)
    requires
        wf_tree(t),
        1 <= pid && pid <= t.len(),
        t[pid - 1].is_dir(),
        n.spec_id() == t.len() + 1,
        !n.is_link(),
        n.is_dir() ==> children_of(n) == Seq::<ChildM>::empty(),
        t.len() + 1 < u64::MAX,
    ensures
        wf_tree(spec_place(t, pid, name, n)),
{
    let t1 = t.push(n);
    let e = ChildM { name, id: n.spec_id() };
    let d2 = add_child(t1[pid - 1], e);
    let t2 = t1.update(pid - 1, d2);
    assert(spec_place(t, pid, name, n) == t2);
    assert(children_of(d2) == children_of(t[pid - 1]).push(e));
    assert(t2[0].is_dir());
    assert forall|k: int| 0 <= k < t2.len() implies wf_node_at(t2, k) by {
        if k == t.len() {
            assert(t2[k] == n);
            assert(children_of(n).len() == 0);
        } else if k == pid - 1 {
            assert(wf_node_at(t, k));
            assert(t2[k] == d2);
            assert(d2.spec_id() == t[k].spec_id());
            assert forall|j: int| 0 <= j < children_of(t2[k]).len() implies wf_edge(
                t2,
                k,
                #[trigger] children_of(t2[k])[j],
            ) by {
                if j < children_of(t[k]).len() {
                    let c = children_of(t[k])[j];
                    assert(wf_edge(t, k, c));
                    assert(children_of(t2[k])[j] == c);
                    assert(t2[c.id - 1].is_link() == t[c.id - 1].is_link());
                    assert(t2[c.id - 1].is_dir() == t[c.id - 1].is_dir());
                } else {
                    assert(children_of(t2[k])[j] == e);
                    assert(t2[e.id - 1] == n);
                }
            }
        } else {
            assert(wf_node_at(t, k));
            assert(t2[k] == t[k]);
            assert forall|j: int| 0 <= j < children_of(t2[k]).len() implies wf_edge(
                t2,
                k,
                #[trigger] children_of(t2[k])[j],
            ) by {
                let c = children_of(t[k])[j];
                assert(wf_edge(t, k, c));
                if c.id - 1 == pid - 1 {
                    assert(t2[c.id - 1] == d2);
                } else {
                    assert(t2[c.id - 1] == t[c.id - 1]);
                }
            }
        }
    }
}

/// Hanging a hard-link edge (to a file or symlink already placed)
/// under a directory keeps the arena well-formed: such a target is not
/// a directory, so no forward-pointing obligation arises.
proof fn lemma_wf_add_edge(t: Seq<NodeM>, pid: u64, name: Seq<u8>, tid: u64)
    requires
        wf_tree(t),
        1 <= pid && pid <= t.len(),
        t[pid - 1].is_dir(),
        1 <= tid && tid <= t.len(),
        t[tid - 1].is_linkable(),
    ensures
        wf_tree(t.update(pid - 1, add_child(t[pid - 1], ChildM { name, id: tid }))),
{
    let e = ChildM { name, id: tid };
    let d2 = add_child(t[pid - 1], e);
    let t2 = t.update(pid - 1, d2);
    assert(children_of(d2) == children_of(t[pid - 1]).push(e));
    assert forall|k: int| 0 <= k < t2.len() implies wf_node_at(t2, k) by {
        assert(wf_node_at(t, k));
        if k == pid - 1 {
            assert forall|j: int| 0 <= j < children_of(t2[k]).len() implies wf_edge(
                t2,
                k,
                #[trigger] children_of(t2[k])[j],
            ) by {
                if j < children_of(t[k]).len() {
                    let c = children_of(t[k])[j];
                    assert(wf_edge(t, k, c));
                    assert(children_of(t2[k])[j] == c);
                    assert(t2[c.id - 1].is_link() == t[c.id - 1].is_link());
                    assert(t2[c.id - 1].is_dir() == t[c.id - 1].is_dir());
                } else {
                    assert(children_of(t2[k])[j] == e);
                    assert(t2[tid - 1].is_link() == t[tid - 1].is_link());
                    assert(t2[tid - 1].is_dir() == t[tid - 1].is_dir());
                    assert(!t[tid - 1].is_dir());
                }
            }
        } else {
            assert(t2[k] == t[k]);
            assert forall|j: int| 0 <= j < children_of(t2[k]).len() implies wf_edge(
                t2,
                k,
                #[trigger] children_of(t2[k])[j],
            ) by {
                let c = children_of(t[k])[j];
                assert(wf_edge(t, k, c));
                if c.id - 1 == pid - 1 {
                    assert(t2[c.id - 1] == d2);
                } else {
                    assert(t2[c.id - 1] == t[c.id - 1]);
                }
            }
        }
    }
}

/// Record one dropped entry.
fn push_warning(warns: &mut Vec<Warning>, kind: WarnKind, path: &Vec<u8>)
    ensures
        view_warns(final(warns)@) == view_warns(old(warns)@).push(WarnM { kind, path: path@ }),
{
    let ghost pre = view_warns(warns@);
    let w = Warning { kind, path: crate::node::clone_bytes(path) };
    warns.push(w);
    proof {
        assert(view_warns(warns@) =~~= pre.push(WarnM { kind, path: path@ }));
    }
}

/// Append `node` to the arena and hang its edge under the directory
/// with id `pid`; the executable image of `spec_place`.
fn place_node(nodes: &mut Vec<Node>, pid: u64, node: Node, edge_name: Vec<u8>)
    requires
        wf_tree(view_nodes(old(nodes)@)),
        1 <= pid && pid <= old(nodes)@.len(),
        view_nodes(old(nodes)@)[pid - 1].is_dir(),
        node@.spec_id() == old(nodes)@.len() + 1,
        !node@.is_link(),
        node@.is_dir() ==> children_of(node@) == Seq::<ChildM>::empty(),
        old(nodes)@.len() + 1 < u64::MAX,
    ensures
        view_nodes(final(nodes)@) == spec_place(
            view_nodes(old(nodes)@),
            pid,
            edge_name@,
            node@,
        ),
        wf_tree(view_nodes(final(nodes)@)),
{
    let ghost t0 = view_nodes(nodes@);
    let ghost nm = node@;
    let ghost ename = edge_name@;
    let ln: usize = nodes.len();
    let id_new: u64 = ln as u64 + 1;
    let pidx: usize = (pid - 1) as usize;
    nodes.push(node);
    let ghost s1 = nodes@;
    proof {
        assert(view_nodes(s1) =~= t0.push(nm));
    }
    let mut d = nodes.remove(pidx);
    proof {
        assert(d@ == t0[pid - 1]);
    }
    let edge = ChildRef { name: edge_name, id: id_new };
    match &mut d {
        Node::Directory { children, .. } => {
            let ghost cs0 = children@;
            let ghost em = edge@;
            children.push(edge);
            proof {
                assert(children@.map_values(|x: ChildRef| x@) =~= cs0.map_values(
                    |x: ChildRef| x@,
                ).push(em));
            }
        },
        _ => {},
    }
    proof {
        assert(d@ == add_child(t0[pid - 1], ChildM { name: ename, id: id_new }));
    }
    nodes.insert(pidx, d);
    proof {
        assert(nodes@ =~= s1.update(pidx as int, d));
        lemma_view_nodes_update(s1, pidx as int, d);
        assert(view_nodes(s1).update(pidx as int, d@) =~= spec_place(t0, pid, ename, nm));
        lemma_wf_place(t0, pid, ename, nm);
    }
}

/// Raise the link count of the node with id `tid` by one (saturating).
fn bump_nlink_at(nodes: &mut Vec<Node>, tid: u64)
    requires
        wf_tree(view_nodes(old(nodes)@)),
        1 <= tid && tid <= old(nodes)@.len(),
    ensures
        view_nodes(final(nodes)@) == view_nodes(old(nodes)@).update(
            tid - 1,
            with_bumped_nlink(view_nodes(old(nodes)@)[tid - 1]),
        ),
        wf_tree(view_nodes(final(nodes)@)),
{
    let ghost t0 = view_nodes(nodes@);
    let ln: usize = nodes.len();
    assert(tid <= ln as u64);
    let tidx: usize = (tid - 1) as usize;
    let mut d = nodes.remove(tidx);
    proof {
        assert(d@ == t0[tid - 1]);
    }
    match &mut d {
        Node::File { nlink, .. } => {
            if *nlink < u32::MAX {
                *nlink = *nlink + 1;
            }
        },
        Node::Symlink { nlink, .. } => {
            if *nlink < u32::MAX {
                *nlink = *nlink + 1;
            }
        },
        _ => {},
    }
    proof {
        assert(d@ == with_bumped_nlink(t0[tid - 1]));
    }
    nodes.insert(tidx, d);
    proof {
        let ghost s0 = old(nodes)@;
        assert(nodes@ =~= s0.update(tidx as int, d));
        lemma_view_nodes_update(s0, tidx as int, d);
        assert(children_of(d@) == children_of(t0[tid - 1]));
        assert(wf_node_at(t0, tid - 1));
        lemma_wf_update_same_shape(t0, tid - 1, d@);
    }
}

/// Process one archive entry; the executable image of
/// `spec_apply_entry`.
fn apply_entry(
    cfg: &BuildConfig,
    nodes: &mut Vec<Node>,
    pending: &mut Vec<PendingLink>,
    warns: &mut Vec<Warning>,
    e: &EntryMeta,
    ordinal: u64,
)
    requires
        wf_tree(view_nodes(old(nodes)@)),
        old(nodes)@.len() + 1 < usize::MAX,
    ensures
        ({
            let st1 = spec_apply_entry(
                *cfg,
                BuildStM {
                    nodes: view_nodes(old(nodes)@),
                    pending: view_pending(old(pending)@),
                    warns: view_warns(old(warns)@),
                },
                e@,
                ordinal,
            );
            &&& view_nodes(final(nodes)@) == st1.nodes
            &&& view_pending(final(pending)@) == st1.pending
            &&& view_warns(final(warns)@) == st1.warns
        }),
        wf_tree(view_nodes(final(nodes)@)),
        final(nodes)@.len() <= old(nodes)@.len() + 1,
{
    let ghost t0 = view_nodes(nodes@);
    let uid = resolve_owner(cfg.force_uid, cfg.numeric_owner, e.uname_uid, e.uid);
    let gid = resolve_owner(cfg.force_gid, cfg.numeric_owner, e.gname_gid, e.gid);
    let is_dir_kind = match e.kind {
        EntryKind::Directory => true,
        _ => false,
    };
    let perm = resolve_perm(cfg.force_mode, is_dir_kind, e.mode);
    let ln: usize = nodes.len();
    let id_new: u64 = ln as u64 + 1;
    match Node::try_from_entry(e, id_new, ordinal, uid, gid, perm) {
        Err(err) => {
            let kind = match err {
                EntryError::MissingName => WarnKind::MissingName,
                EntryError::MissingLinkTarget => WarnKind::MissingLinkTarget,
            };
            push_warning(warns, kind, &e.path);
        },
        Ok(None) => {
            push_warning(warns, WarnKind::UnsupportedEntry, &e.path);
        },
        Ok(Some(node)) => {
            match node {
                Node::Link { name, path, target } => {
                    let ghost pre = view_pending(pending@);
                    let ghost pm = PendingM { path: path@, name: name@, target: target@ };
                    pending.push(PendingLink { path, name, target });
                    proof {
                        assert(view_pending(pending@) =~= pre.push(pm));
                    }
                },
                node => {
                    let ghost nm = node@;
                    let canon = canonicalize_entry_path(e.path.as_slice());
                    let comps = split_components(canon.as_slice());
                    proof {
                        assert(comps.deep_view().len() > 0);
                        assert(comps.deep_view().take(comps.deep_view().len() - 1)
                            =~= comps.deep_view().drop_last());
                    }
                    let upto: usize = comps.len() - 1;
                    match walk_nodes(nodes, &comps, upto) {
                        Some(pid) => {
                            proof {
                                lemma_walk_in_range(
                                    t0,
                                    1,
                                    comps.deep_view().take(upto as int),
                                    0,
                                    pid,
                                );
                            }
                            let lnn: usize = nodes.len();
                            assert(pid <= lnn as u64);
                            let pidx: usize = (pid - 1) as usize;
                            let is_dir = match &nodes[pidx] {
                                Node::Directory { .. } => true,
                                _ => false,
                            };
                            proof {
                                assert(t0[pid - 1] == nodes@[pid - 1]@);
                            }
                            if is_dir {
                                let edge_name = crate::node::clone_bytes(node.name());
                                place_node(nodes, pid, node, edge_name);
                            } else {
                                push_warning(warns, WarnKind::OrphanedEntry, &e.path);
                            }
                        },
                        None => {
                            push_warning(warns, WarnKind::OrphanedEntry, &e.path);
                        },
                    }
                },
            }
        },
    }
}

/// Resolve one queued hard link; the executable image of
/// `spec_resolve_link`.
fn resolve_one(nodes: &mut Vec<Node>, warns: &mut Vec<Warning>, p: &PendingLink)
    requires
        wf_tree(view_nodes(old(nodes)@)),
    ensures
        ({
            let st1 = spec_resolve_link(
                LinkStM {
                    nodes: view_nodes(old(nodes)@),
                    warns: view_warns(old(warns)@),
                },
                p@,
            );
            &&& view_nodes(final(nodes)@) == st1.nodes
            &&& view_warns(final(warns)@) == st1.warns
        }),
        wf_tree(view_nodes(final(nodes)@)),
{
    let ghost t0 = view_nodes(nodes@);
    let tcanon = canonicalize_entry_path(p.target.as_slice());
    let tcomps = split_components(tcanon.as_slice());
    proof {
        assert(tcomps.deep_view().take(tcomps.deep_view().len() as int) =~= tcomps.deep_view());
    }
    match walk_nodes(nodes, &tcomps, tcomps.len()) {
        Some(tid) => {
            proof {
                lemma_walk_in_range(t0, 1, tcomps.deep_view(), 0, tid);
            }
            let ln: usize = nodes.len();
            assert(tid <= ln as u64);
            let tidx: usize = (tid - 1) as usize;
            let linkable = match &nodes[tidx] {
                Node::File { .. } => true,
                Node::Symlink { .. } => true,
                _ => false,
            };
            proof {
                assert(t0[tid - 1] == nodes@[tid - 1]@);
            }
            if linkable {
                let pcanon = canonicalize_entry_path(p.path.as_slice());
                let pcomps = split_components(pcanon.as_slice());
                let pcut: usize = if pcomps.len() > 0 {
                    pcomps.len() - 1
                } else {
                    0
                };
                let parent = walk_nodes(nodes, &pcomps, pcut);
                bump_nlink_at(nodes, tid);
                let ghost t1 = view_nodes(nodes@);
                match parent {
                    Some(pid) => {
                        proof {
                            lemma_walk_in_range(
                                t0,
                                1,
                                pcomps.deep_view().take(pcut as int),
                                0,
                                pid,
                            );
                        }
                        let lnn: usize = nodes.len();
                        assert(pid <= lnn as u64);
                        let pidx: usize = (pid - 1) as usize;
                        let is_dir = match &nodes[pidx] {
                            Node::Directory { .. } => true,
                            _ => false,
                        };
                        proof {
                            assert(t1[pid - 1] == nodes@[pid - 1]@);
                            assert(t1[tid - 1] == with_bumped_nlink(t0[tid - 1]));
                            assert(t1[tid - 1].is_linkable());
                        }
                        if is_dir {
                            let edge_name = crate::node::clone_bytes(&p.name);
                            add_edge_at(nodes, pid, edge_name, tid);
                        } else {
                            push_warning(warns, WarnKind::LinkParentMissing, &p.path);
                        }
                    },
                    None => {
                        push_warning(warns, WarnKind::LinkParentMissing, &p.path);
                    },
                }
            } else {
                push_warning(warns, WarnKind::LinkTargetMissing, &p.path);
            }
        },
        None => {
            push_warning(warns, WarnKind::LinkTargetMissing, &p.path);
        },
    }
}

/// Builds the inode tree from the archive's entries, under the mount
/// options it was created with.
pub struct TreeBuilder {
    pub config: BuildConfig,
}

impl TreeBuilder {
    /// A builder applying the given mount options.
    pub fn new(config: BuildConfig) -> (b: TreeBuilder)
        ensures
            b.config == config,
    {
        TreeBuilder { config }
    }

    /// Consume the archive's entries, in stream order, and return the
    /// tree together with the warnings for everything that was
    /// dropped: the tree is exactly `spec_build` of the entries, and
    /// it is well-formed.
    pub fn build(&self, entries: &Vec<EntryMeta>) -> (r: (Tree, Vec<Warning>))
        requires
            entries@.len() + 1 < usize::MAX,
        ensures
            ({
                let res = spec_build(self.config, views_of_entries(entries@));
                &&& r.0@ == res.nodes
                &&& view_warns(r.1@) == res.warns
                &&& r.0.wf()
            }),
    {
        let ghost ev = views_of_entries(entries@);
        let rname: Vec<u8> = Vec::new();
        let rpath: Vec<u8> = Vec::new();
        let rchildren: Vec<ChildRef> = Vec::new();
        proof {
            assert(rchildren@.map_values(|c: ChildRef| c@) =~= Seq::<ChildM>::empty());
            assert(rname@ =~= Seq::<u8>::empty());
            assert(rpath@ =~= Seq::<u8>::empty());
        }
        let root = Node::Directory {
            id: 1,
            name: rname,
            path: rpath,
            perm: 0o555,
            mtime: self.config.root_mtime,
            uid: self.config.root_uid,
            gid: self.config.root_gid,
            children: rchildren,
        };
        proof {
            assert(root@ == spec_root(self.config));
        }
        let mut nodes: Vec<Node> = Vec::new();
        nodes.push(root);
        let mut pending: Vec<PendingLink> = Vec::new();
        let mut warns: Vec<Warning> = Vec::new();
        proof {
            assert(view_nodes(nodes@) =~= seq![spec_root(self.config)]);
            assert(view_pending(pending@) =~= Seq::<PendingM>::empty());
            assert(view_warns(warns@) =~= Seq::<WarnM>::empty());
            assert(BuildStM {
                nodes: view_nodes(nodes@),
                pending: view_pending(pending@),
                warns: view_warns(warns@),
            } == st_init(self.config));
        }
        let ghost target = spec_build_entries(self.config, ev, 0, st_init(self.config));
        let n_entries: usize = entries.len();
        let mut i: usize = 0;
        while i < n_entries
            invariant
                n_entries == entries@.len(),
                n_entries + 1 < usize::MAX,
                ev == views_of_entries(entries@),
                target == spec_build_entries(self.config, ev, 0, st_init(self.config)),
                i <= n_entries,
                wf_tree(view_nodes(nodes@)),
                nodes@.len() <= 1 + i,
                spec_build_entries(
                    self.config,
                    ev,
                    i as int,
                    BuildStM {
                        nodes: view_nodes(nodes@),
                        pending: view_pending(pending@),
                        warns: view_warns(warns@),
                    },
                ) == target,
            decreases n_entries - i,
        {
            let ghost st_cur = BuildStM {
                nodes: view_nodes(nodes@),
                pending: view_pending(pending@),
                warns: view_warns(warns@),
            };
            apply_entry(&self.config, &mut nodes, &mut pending, &mut warns, &entries[i], i as u64);
            proof {
                assert(entries@[i as int]@ == ev[i as int]);
                assert(BuildStM {
                    nodes: view_nodes(nodes@),
                    pending: view_pending(pending@),
                    warns: view_warns(warns@),
                } == spec_apply_entry(self.config, st_cur, ev[i as int], i as u64));
            }
            i = i + 1;
        }
        proof {
            assert(ev.len() == n_entries);
            assert(BuildStM {
                nodes: view_nodes(nodes@),
                pending: view_pending(pending@),
                warns: view_warns(warns@),
            } == target);
        }
        let ghost lst_target = spec_resolve_links(
            LinkStM { nodes: target.nodes, warns: target.warns },
            target.pending,
            0,
        );
        let n_links: usize = pending.len();
        let mut j: usize = 0;
        while j < n_links
            invariant
                n_links == pending@.len(),
                view_pending(pending@) == target.pending,
                j <= n_links,
                wf_tree(view_nodes(nodes@)),
                spec_resolve_links(
                    LinkStM { nodes: view_nodes(nodes@), warns: view_warns(warns@) },
                    target.pending,
                    j as int,
                ) == lst_target,
            decreases n_links - j,
        {
            let ghost lst_cur = LinkStM { nodes: view_nodes(nodes@), warns: view_warns(warns@) };
            resolve_one(&mut nodes, &mut warns, &pending[j]);
            proof {
                assert(pending@[j as int]@ == target.pending[j as int]);
                assert(LinkStM { nodes: view_nodes(nodes@), warns: view_warns(warns@) }
                    == spec_resolve_link(lst_cur, target.pending[j as int]));
            }
            j = j + 1;
        }
        proof {
            assert(target.pending.len() == n_links);
        }
        (Tree { nodes }, warns)
    }
}

/// Hang a hard-link edge named `name`, leading to the node with id
/// `tid`, under the directory with id `pid`.
fn add_edge_at(nodes: &mut Vec<Node>, pid: u64, name: Vec<u8>, tid: u64)
    requires
        wf_tree(view_nodes(old(nodes)@)),
        1 <= pid && pid <= old(nodes)@.len(),
        view_nodes(old(nodes)@)[pid - 1].is_dir(),
        1 <= tid && tid <= old(nodes)@.len(),
        view_nodes(old(nodes)@)[tid - 1].is_linkable(),
    ensures
        view_nodes(final(nodes)@) == view_nodes(old(nodes)@).update(
            pid - 1,
            add_child(view_nodes(old(nodes)@)[pid - 1], ChildM { name: name@, id: tid }),
        ),
        wf_tree(view_nodes(final(nodes)@)),
{
    let ghost t0 = view_nodes(nodes@);
    let ghost ename = name@;
    let ln: usize = nodes.len();
    assert(pid <= ln as u64);
    let pidx: usize = (pid - 1) as usize;
    let mut d = nodes.remove(pidx);
    proof {
        assert(d@ == t0[pid - 1]);
    }
    let edge = ChildRef { name, id: tid };
    match &mut d {
        Node::Directory { children, .. } => {
            let ghost cs0 = children@;
            let ghost em = edge@;
            children.push(edge);
            proof {
                assert(children@.map_values(|x: ChildRef| x@) =~= cs0.map_values(
                    |x: ChildRef| x@,
                ).push(em));
            }
        },
        _ => {},
    }
    proof {
        assert(d@ == add_child(t0[pid - 1], ChildM { name: ename, id: tid }));
    }
    nodes.insert(pidx, d);
    proof {
        let ghost s0 = old(nodes)@;
        assert(nodes@ =~= s0.update(pidx as int, d));
        lemma_view_nodes_update(s0, pidx as int, d);
        lemma_wf_add_edge(t0, pid, ename, tid);
    }
}

} // verus!
