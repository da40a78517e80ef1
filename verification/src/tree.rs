//! The tree model: nodes of a backed-up directory, and the check that
//! everything a tree references resolves in the index.

use vstd::prelude::*;

use crate::blob::BlobType;
use crate::id::Id;
use crate::idmap::IdMap;
use crate::indexfile::IndexEntry;
use crate::time::Time;

verus! {

/// The kinds of nodes a tree holds.
#[derive(Clone, Copy, Debug, PartialEq, Eq, Structural)]
pub enum NodeType {
    File,
    Dir,
    Symlink,
    Device,
    Chardev,
    Fifo,
    Socket,
}

/// The POSIX-flavoured metadata a node carries.
#[derive(Clone, Copy, Debug, PartialEq, Eq, Structural)]
pub struct NodeMeta {
    pub mtime: Option<Time>,
    pub ctime: Option<Time>,
    pub atime: Option<Time>,
    pub uid: u32,
    pub gid: u32,
    pub mode: u32,
    pub inode: u64,
    pub device_id: u64,
    pub size: u64,
}

impl NodeMeta {
    /// Metadata with everything unset or zero.
    pub fn empty() -> (r: NodeMeta)
        ensures
            r == (NodeMeta {
                mtime: None,
                ctime: None,
                atime: None,
                uid: 0,
                gid: 0,
                mode: 0,
                inode: 0,
                device_id: 0,
                size: 0,
            }),
    {
        NodeMeta {
            mtime: None,
            ctime: None,
            atime: None,
            uid: 0,
            gid: 0,
            mode: 0,
            inode: 0,
            device_id: 0,
            size: 0,
        }
    }
}

/// One entry of a tree: a name, a kind, its metadata, and the kind's
/// payload.
pub struct Node {
    pub name: String,
    pub node_type: NodeType,
    pub meta: NodeMeta,
    /// A file's ordered data blob ids, whose plaintexts concatenate to
    /// the file's bytes.
    pub content: Option<Vec<Id>>,
    /// A directory's subtree id.
    pub subtree: Option<Id>,
}

/// Whether a source file may reuse its parent-snapshot node without
/// rereading: the parent holds a file of the same size and mtime, and,
/// unless the respective flag waives them, the same ctime and inode.
pub open spec fn spec_reuse(src: NodeMeta, parent: Node, ignore_ctime: bool, ignore_inode: bool) -> bool {
    &&& parent.node_type is File
    &&& parent.meta.size == src.size
    &&& parent.meta.mtime == src.mtime
    &&& (ignore_ctime || parent.meta.ctime == src.ctime)
    &&& (ignore_inode || parent.meta.inode == src.inode)
}

/// Decide parent reuse for one file, per the configured flags.
pub fn reuse_parent(src: &NodeMeta, parent: &Node, ignore_ctime: bool, ignore_inode: bool) -> (r:
    bool)
    ensures
        r == spec_reuse(*src, *parent, ignore_ctime, ignore_inode),
{
    let is_file = matches!(parent.node_type, NodeType::File);
    let mtime_eq = match (parent.meta.mtime, src.mtime) {
        (None, None) => true,
        (Some(a), Some(b)) => a == b,
        _ => false,
    };
    let ctime_eq = match (parent.meta.ctime, src.ctime) {
        (None, None) => true,
        (Some(a), Some(b)) => a == b,
        _ => false,
    };
    is_file && parent.meta.size == src.size && mtime_eq && (ignore_ctime || ctime_eq) && (
    ignore_inode || parent.meta.inode == src.inode)
}

/// A serialized directory: its nodes in name order.
pub struct Tree {
    pub nodes: Vec<Node>,
}

/// A node is resolvable: a file carries content ids that are non-null
/// and catalogued as data blobs; a directory carries a non-null subtree
/// id; other kinds carry no references.
pub open spec fn spec_node_ok(n: Node, m: Map<Seq<u8>, IndexEntry>) -> bool {
    match n.node_type {
        NodeType::File => match n.content {
            Option::Some(ids) => forall|i: int|
                0 <= i < ids@.len() ==> (#[trigger] ids@[i])@ != Id::spec_null()
                    && m.contains_key(ids@[i]@) && m[ids@[i]@].tpe is Data,
            Option::None => false,
        },
        NodeType::Dir => match n.subtree {
            Option::Some(s) => s@ != Id::spec_null(),
            Option::None => false,
        },
        _ => true,
    }
}

/// Every node of a tree is resolvable.
pub open spec fn spec_tree_ok(t: Tree, m: Map<Seq<u8>, IndexEntry>) -> bool {
    forall|i: int| 0 <= i < t.nodes@.len() ==> spec_node_ok(#[trigger] t.nodes@[i], m)
}

/// Check one node against the index.
fn check_node(n: &Node, index: &IdMap<IndexEntry>) -> (r: bool)
    requires
        index.wf(),
    ensures
        r == spec_node_ok(*n, index.as_map()),
{
    let null = Id::default();
    match n.node_type {
        NodeType::File => {
            match &n.content {
                Some(ids) => {
                    let mut i: usize = 0;
                    while i < ids.len()
                        invariant
                            index.wf(),
                            null@ == Id::spec_null(),
                            n.content == Option::<Vec<Id>>::Some(*ids),
                            n.node_type is File,
                            i <= ids@.len(),
                            forall|j: int|
                                0 <= j < i ==> (#[trigger] ids@[j])@ != Id::spec_null()
                                    && index.as_map().contains_key(ids@[j]@)
                                    && index.as_map()[ids@[j]@].tpe is Data,
                        decreases ids@.len() - i,
                    {
                        if ids[i].same(&null) {
                            proof {
                                assert(!spec_node_ok(*n, index.as_map()));
                            }
                            return false;
                        }
                        match index.get(&ids[i]) {
                            Some(e) => {
                                if !matches!(e.tpe, BlobType::Data) {
                                    proof {
                                        assert(!spec_node_ok(*n, index.as_map()));
                                    }
                                    return false;
                                }
                            },
                            None => {
                                proof {
                                    assert(!spec_node_ok(*n, index.as_map()));
                                }
                                return false;
                            },
                        }
                        i += 1;
                    }
                    true
                },
                None => false,
            }
        },
        NodeType::Dir => {
            match &n.subtree {
                Some(s) => !s.same(&null),
                None => false,
            }
        },
        _ => true,
    }
}

/// Check every node of one tree: each file's content ids and each
/// directory's subtree id must resolve.
pub fn check_tree_nodes(t: &Tree, index: &IdMap<IndexEntry>) -> (r: bool)
    requires
        index.wf(),
    ensures
        r == spec_tree_ok(*t, index.as_map()),
{
    let mut i: usize = 0;
    while i < t.nodes.len()
        invariant
            index.wf(),
            i <= t.nodes@.len(),
            forall|j: int| 0 <= j < i ==> spec_node_ok(#[trigger] t.nodes@[j], index.as_map()),
        decreases t.nodes@.len() - i,
    {
        if !check_node(&t.nodes[i], index) {
            return false;
        }
        i += 1;
    }
    true
}

/// Check every tree reachable from the snapshots: with the trees of all
/// snapshots gathered, this is exactly the reachability check — every
/// referenced blob id resolves in the index union.
pub fn check_trees(trees: &Vec<Tree>, index: &IdMap<IndexEntry>) -> (r: bool)
    requires
        index.wf(),
    ensures
        r == forall|i: int| 0 <= i < trees@.len() ==> spec_tree_ok(#[trigger] trees@[i], index.as_map()),
{
    let mut i: usize = 0;
    while i < trees.len()
        invariant
            index.wf(),
            i <= trees@.len(),
            forall|j: int| 0 <= j < i ==> spec_tree_ok(#[trigger] trees@[j], index.as_map()),
        decreases trees@.len() - i,
    {
        if !check_tree_nodes(&trees[i], index) {
            return false;
        }
        i += 1;
    }
    true
}

} // verus!
