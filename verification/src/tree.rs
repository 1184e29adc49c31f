//! Directory trees, and the disk as a flat map from paths to what is there.
//!
//! Everything in this module is a model: it gives the contracts and laws of the other modules
//! something to speak about.
use vstd::prelude::*;

use crate::io::Spot;

verus! {

/// A file, a directory with all that is in it, or something that is neither.
pub enum Node {
    File(Seq<u8>),
    Dir(Map<Seq<u8>, Node>),
    Other,
}

/// What there is at one path, without what is below it.
pub enum Leaf {
    File(Seq<u8>),
    Dir,
    Other,
}

/// What there is at every path that exists.
pub type Disk = Map<Spot, Leaf>;

/// The top of a tree, alone.
pub open spec fn top(node: Node) -> Leaf {
    match node {
        Node::File(bytes) => Leaf::File(bytes),
        Node::Dir(_) => Leaf::Dir,
        Node::Other => Leaf::Other,
    }
}

/// What a tree has at a path below its top, if anything.
pub open spec fn at(node: Node, path: Seq<Seq<u8>>) -> Option<Leaf>
    decreases path.len(),
{
    if path.len() == 0 {
        Some(top(node))
    } else {
        match node {
            Node::Dir(entries) => {
                if entries.dom().contains(path[0]) {
                    at(entries[path[0]], path.skip(1))
                } else {
                    None
                }
            },
            _ => None,
        }
    }
}

/// Every directory of the tree has finitely many entries.
pub open spec fn finite_tree(node: Node) -> bool
    decreases node,
{
    match node {
        Node::Dir(entries) => entries.dom().finite() && forall|name: Seq<u8>|
            #[trigger] entries.dom().contains(name) ==> finite_tree(entries[name]),
        _ => true,
    }
}

/// The tree is made of files and directories only.
pub open spec fn plain_tree(node: Node) -> bool
    decreases node,
{
    match node {
        Node::Dir(entries) => entries.dom().finite() && forall|name: Seq<u8>|
            #[trigger] entries.dom().contains(name) ==> plain_tree(entries[name]),
        Node::File(_) => true,
        Node::Other => false,
    }
}

/// The path `spot` followed by `path`.
pub open spec fn below(spot: Spot, path: Seq<Seq<u8>>) -> Spot {
    (spot.0, spot.1 + path)
}

/// The path of `name` in the directory `spot`.
pub open spec fn child(spot: Spot, name: Seq<u8>) -> Spot {
    (spot.0, spot.1.push(name))
}

/// `spot` is `root` or lies below it.
pub open spec fn within(root: Spot, spot: Spot) -> bool {
    root.0 == spot.0 && root.1.is_prefix_of(spot.1)
}

/// Neither of two paths leads through the other.
pub open spec fn apart(one: Spot, other: Spot) -> bool {
    !within(one, other) && !within(other, one)
}

/// The way from `root` to `spot`, which lies within it.
pub open spec fn way(root: Spot, spot: Spot) -> Seq<Seq<u8>> {
    spot.1.skip(root.1.len() as int)
}

/// What there is at `spot`, if anything.
pub open spec fn found(disk: Disk, spot: Spot) -> Option<Leaf> {
    if disk.dom().contains(spot) {
        Some(disk[spot])
    } else {
        None
    }
}

/// At `spot` the disk holds exactly the tree `node`: nothing of it is missing, and nothing else
/// is there.
pub open spec fn holds(disk: Disk, spot: Spot, node: Node) -> bool {
    forall|path: Seq<Seq<u8>>| #[trigger] found(disk, below(spot, path)) == at(node, path)
}

/// The names in the directory `spot`.
pub open spec fn children(disk: Disk, spot: Spot) -> Set<Seq<u8>> {
    Set::new(|name: Seq<u8>| disk.dom().contains(child(spot, name)))
}

/// The disk once `spot`, and every path that leads to it, is a directory.
pub open spec fn with_dirs(disk: Disk, spot: Spot) -> Disk {
    Map::new(
        |s: Spot| disk.dom().contains(s) || within(s, spot),
        |s: Spot| if within(s, spot) { Leaf::Dir } else { disk[s] },
    )
}

/// The disk once `spot` and all that is below it is gone.
pub open spec fn without(disk: Disk, spot: Spot) -> Disk {
    Map::new(|s: Spot| disk.dom().contains(s) && !within(spot, s), |s: Spot| disk[s])
}

/// The disk once the tree `node` has been copied to `spot`: what the tree has replaces what was
/// there, and everything else stays as it was.
pub open spec fn grafted(disk: Disk, spot: Spot, node: Node) -> Disk {
    Map::new(
        |s: Spot| disk.dom().contains(s) || (within(spot, s) && at(node, way(spot, s)) is Some),
        |s: Spot|
            if within(spot, s) && at(node, way(spot, s)) is Some {
                at(node, way(spot, s))->0
            } else {
                disk[s]
            },
    )
}

} // verus!
