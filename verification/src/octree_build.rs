use vstd::prelude::*;

use crate::octree_cut::{cut, lemma_octree_read_with_limit, reach};
use crate::octree::{
    height, leaf_tree, lemma_octree_round_trip, max_height_prefix, parse_node, serialized, serialized_prefix,
    well_formed, OctreeFormatError, OctreeNode, OctreeNodeType, OctreeTree,
};

verus! {

/// `classify` can have answered `node_type` for the octant reached from the
/// root by `path` (each step an octant index 0..8).
pub open spec fn classified<F: Fn(&[u8]) -> OctreeNodeType>(
    classify: F,
    path: Seq<u8>,
    node_type: OctreeNodeType,
) -> bool {
    exists|s: &[u8]| #![trigger classify.ensures((s,), node_type)] s@ == path && classify.ensures((s,), node_type)
}

/// `t` is what subdividing the node at `path`, `depth` levels below the
/// root, makes of it: below `max_depth` it gets eight children, child `i`
/// classified at `path + [i]`, and each child crossing the boundary is
/// subdivided in turn; at `max_depth` it stays without children.
pub open spec fn grown<F: Fn(&[u8]) -> OctreeNodeType>(
    t: OctreeTree,
    classify: F,
    path: Seq<u8>,
    depth: int,
    max_depth: int,
) -> bool
    decreases t,
{
    if depth >= max_depth {
        t.children is None
    } else {
        match t.children {
            None => false,
            Some(cs) => cs.len() == 8 && forall|i: int|
                0 <= i < 8 ==> {
                    &&& classified(classify, path.push(i as u8), (#[trigger] cs[i]).node_type)
                    &&& if cs[i].node_type == OctreeNodeType::PARTIAL {
                        grown(cs[i], classify, path.push(i as u8), depth + 1, max_depth)
                    } else {
                        cs[i].children is None
                    }
                },
        }
    }
}

impl OctreeNode {
    /// The children of the node at `path`, `depth` levels below the root:
    /// none at `max_depth` or deeper; otherwise the eight octants, each
    /// classified by `classify` and subdivided in turn where it crosses the
    /// boundary.
    fn subdivide_node<F: Fn(&[u8]) -> OctreeNodeType>(
        classify: &F,
        path: &mut Vec<u8>,
        depth: u32,
        max_depth: u32,
    ) -> (node: OctreeNode)
        requires
            forall|s: &[u8]| #[trigger] classify.requires((s,)),
        ensures
            final(path)@ == old(path)@,
            node.node_type == OctreeNodeType::PARTIAL,
            grown(node@, *classify, old(path)@, depth as int, max_depth as int),
        decreases max_depth - depth,
    {
        if depth >= max_depth {
            return OctreeNode::new(OctreeNodeType::PARTIAL);
        }
        let ghost start = path@;
        let mut children: Vec<Box<OctreeNode>> = Vec::new();
        let mut i: u8 = 0;
        while i < 8
            invariant
                0 <= i <= 8,
                depth < max_depth,
                path@ == start,
                children@.len() == i,
                forall|s: &[u8]| #[trigger] classify.requires((s,)),
                forall|j: int|
                    0 <= j < i ==> {
                        &&& classified(*classify, start.push(j as u8), (#[trigger] children@[j]).node_type)
                        &&& if children@[j].node_type == OctreeNodeType::PARTIAL {
                            grown(octree_view_of(*children@[j]), *classify, start.push(j as u8), depth + 1, max_depth as int)
                        } else {
                            children@[j].children is None
                        }
                    },
            decreases 8 - i,
        {
            path.push(i);
            let node_type = classify(path.as_slice());
            assert(path@ == start.push(i));
            let child = match node_type {
                OctreeNodeType::PARTIAL => OctreeNode::subdivide_node(classify, path, depth + 1, max_depth),
                _ => OctreeNode::new(node_type),
            };
            path.pop();
            assert(path@ =~= start);
            children.push(Box::new(child));
            i += 1;
        }
        let node = OctreeNode { node_type: OctreeNodeType::PARTIAL, children: Some(children) };
        proof {
            let cs = node@.children.unwrap();
            assert forall|j: int| 0 <= j < 8 implies cs[j] == octree_view_of(*children@[j]) by {}
        }
        node
    }

    /// Builds the octree of a solid down to `max_depth` levels: the root
    /// crosses the boundary, and every octant is classified by `classify`,
    /// given the octant indices that lead to it from the root, and
    /// subdivided in turn where it crosses the boundary.
    pub fn generate_octree<F: Fn(&[u8]) -> OctreeNodeType>(classify: &F, max_depth: u32) -> (root: OctreeNode)
        requires
            forall|s: &[u8]| #[trigger] classify.requires((s,)),
        ensures
            root.node_type == OctreeNodeType::PARTIAL,
            grown(root@, *classify, Seq::empty(), 0, max_depth as int),
    {
        let mut path: Vec<u8> = Vec::new();
        OctreeNode::subdivide_node(classify, &mut path, 0, max_depth)
    }
}

/// A tree of the shape generation makes: a node with children crosses the
/// boundary and has eight of them; any node may have none.
pub open spec fn shaped(t: OctreeTree) -> bool
    decreases t,
{
    match t.children {
        None => true,
        Some(cs) => t.node_type == OctreeNodeType::PARTIAL && cs.len() == 8 && forall|i: int|
            0 <= i < cs.len() ==> shaped(#[trigger] cs[i]),
    }
}

/// The tree that the bytes of `t` stand for: a node that crosses the
/// boundary but has no children is stored as inside.
pub open spec fn stored_octree(t: OctreeTree) -> OctreeTree
    decreases t,
{
    match t.children {
        None => if t.node_type == OctreeNodeType::PARTIAL {
            leaf_tree(OctreeNodeType::IN)
        } else {
            t
        },
        Some(cs) => OctreeTree {
            node_type: t.node_type,
            children: Some(
                Seq::new(
                    cs.len(),
                    |i: int|
                        if 0 <= i < cs.len() {
                            stored_octree(cs[i])
                        } else {
                            leaf_tree(OctreeNodeType::OUT)
                        },
                ),
            ),
        },
    }
}

proof fn lemma_prefix_of_stored(cs: Seq<OctreeTree>, ds: Seq<OctreeTree>, k: int)
    requires
        0 <= k <= cs.len(),
        ds.len() == cs.len(),
        forall|i: int| 0 <= i < k ==> serialized(#[trigger] ds[i]) == serialized(cs[i]),
        forall|i: int| 0 <= i < k ==> height(#[trigger] ds[i]) == height(cs[i]),
    ensures
        serialized_prefix(ds, k) == serialized_prefix(cs, k),
        max_height_prefix(ds, k) == max_height_prefix(cs, k),
    decreases k,
{
    if k > 0 {
        lemma_prefix_of_stored(cs, ds, k - 1);
    }
}

proof fn lemma_height_bound_prefix(cs: Seq<OctreeTree>, k: int, b: nat)
    requires
        0 <= k <= cs.len(),
        forall|i: int| 0 <= i < k ==> height(#[trigger] cs[i]) <= b,
    ensures
        max_height_prefix(cs, k) <= b,
    decreases k,
{
    if k > 0 {
        lemma_height_bound_prefix(cs, k - 1, b);
    }
}

/// Storing a shaped tree keeps its bytes and its height, and gives a
/// well-formed tree.
proof fn lemma_stored_octree(t: OctreeTree)
    requires
        shaped(t),
    ensures
        well_formed(stored_octree(t)),
        serialized(stored_octree(t)) == serialized(t),
        height(stored_octree(t)) == height(t),
    decreases t,
{
    match t.children {
        None => {},
        Some(cs) => {
            let st = stored_octree(t);
            let ds = st.children.unwrap();
            assert forall|i: int| 0 <= i < cs.len() implies {
                &&& well_formed(#[trigger] ds[i])
                &&& serialized(ds[i]) == serialized(cs[i])
                &&& height(ds[i]) == height(cs[i])
            } by {
                assert(decreases_to!(t => t.children));
                assert(decreases_to!(t.children => cs));
                assert(decreases_to!(cs => cs[i]));
                lemma_stored_octree(cs[i]);
            }
            lemma_prefix_of_stored(cs, ds, cs.len() as int);
        },
    }
}

/// A node grown `depth` levels below the root is shaped and reaches at most
/// `max_depth - depth` levels further down.
proof fn lemma_grown_shape<F: Fn(&[u8]) -> OctreeNodeType>(
    t: OctreeTree,
    classify: F,
    path: Seq<u8>,
    depth: int,
    max_depth: int,
)
    requires
        grown(t, classify, path, depth, max_depth),
        t.node_type == OctreeNodeType::PARTIAL,
        depth <= max_depth,
    ensures
        shaped(t),
        height(t) <= max_depth - depth,
    decreases t,
{
    if depth < max_depth {
        let cs = t.children.unwrap();
        assert forall|i: int| 0 <= i < cs.len() implies shaped(#[trigger] cs[i]) && height(cs[i]) <= (max_depth
            - depth - 1) as nat by {
            assert(decreases_to!(t => t.children));
            assert(decreases_to!(t.children => cs));
            assert(decreases_to!(cs => cs[i]));
            if cs[i].node_type == OctreeNodeType::PARTIAL {
                lemma_grown_shape(cs[i], classify, path.push(i as u8), depth + 1, max_depth);
            }
        }
        lemma_height_bound_prefix(cs, cs.len() as int, (max_depth - depth - 1) as nat);
    }
}

/// Saving an octree generated with limit `max_depth` and reading it back
/// with any depth limit `read_depth`, higher, equal or lower, whatever
/// follows its bytes: the stored tree (every node left crossing the boundary
/// without children read as inside) cut at `read_depth`, the deepest level
/// reached, and the position just after its bytes. Where `read_depth` is at
/// least the tree's height, that is the whole stored tree, its height, and
/// all its bytes read.
pub proof fn lemma_generated_octree_read_back<F: Fn(&[u8]) -> OctreeNodeType>(
    t: OctreeTree,
    classify: F,
    max_depth: int,
    read_depth: int,
    rest: Seq<u8>,
)
    requires
        grown(t, classify, Seq::empty(), 0, max_depth),
        t.node_type == OctreeNodeType::PARTIAL,
        0 <= max_depth,
    ensures
        parse_node(serialized(t) + rest, 0, 0, read_depth) == Ok::<(OctreeTree, int, int), OctreeFormatError>(
            (
                cut(stored_octree(t), 0, read_depth),
                reach(stored_octree(t), 0, read_depth),
                serialized(t).len() as int,
            ),
        ),
        height(t) <= read_depth ==> parse_node(serialized(t) + rest, 0, 0, read_depth) == Ok::<
            (OctreeTree, int, int),
            OctreeFormatError,
        >((stored_octree(t), height(t) as int, serialized(t).len() as int)),
{
    lemma_grown_shape(t, classify, Seq::empty(), 0, max_depth);
    lemma_stored_octree(t);
    lemma_octree_read_with_limit(stored_octree(t), rest, read_depth);
    if height(t) <= read_depth {
        lemma_octree_round_trip(stored_octree(t), rest, read_depth);
    }
}

pub open spec fn octree_view_of(n: OctreeNode) -> OctreeTree {
    n@
}

} // verus!
