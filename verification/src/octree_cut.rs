use vstd::prelude::*;

use crate::octree::{
    height, leaf_tree, lemma_max_height_bound, lemma_prefix_of_prefix, lemma_serialized_nonempty, max_height_prefix,
    max_int, parse_children, parse_node, serialized, serialized_prefix, skip_children, well_formed,
    OctreeFormatError, OctreeNodeType, OctreeTree, OPEN_BYTE,
};

verus! {

/// The tree `t`, lying `depth` levels below the root, as it reads with
/// depth limit `max_depth`: a subdivided node at or below the limit becomes
/// an inside leaf.
pub open spec fn cut(t: OctreeTree, depth: int, max_depth: int) -> OctreeTree
    decreases t,
{
    match t.children {
        None => t,
        Some(cs) => if depth >= max_depth {
            leaf_tree(OctreeNodeType::IN)
        } else {
            OctreeTree {
                node_type: t.node_type,
                children: Some(
                    Seq::new(
                        cs.len(),
                        |i: int|
                            if 0 <= i < cs.len() {
                                cut(cs[i], depth + 1, max_depth)
                            } else {
                                leaf_tree(OctreeNodeType::OUT)
                            },
                    ),
                ),
            }
        },
    }
}

/// The deepest level that reading `t`, lying `depth` levels below the root,
/// with depth limit `max_depth` reaches.
pub open spec fn reach(t: OctreeTree, depth: int, max_depth: int) -> int
    decreases t, 0int,
{
    match t.children {
        None => depth,
        Some(cs) => if depth >= max_depth {
            depth
        } else {
            reach_prefix(cs, cs.len() as int, depth, max_depth)
        },
    }
}

/// The deepest level reached by reading the first `k` children `cs` of a
/// node `depth` levels below the root (the node's own level for none).
pub open spec fn reach_prefix(cs: Seq<OctreeTree>, k: int, depth: int, max_depth: int) -> int
    decreases cs, k,
{
    if 0 < k <= cs.len() {
        max_int(reach_prefix(cs, k - 1, depth, max_depth), reach(cs[k - 1], depth + 1, max_depth))
    } else {
        depth
    }
}

/// Where the bytes of child `k` of the subdivided node `t`, written at `pos`,
/// begin.
pub open spec fn child_start(pos: int, t: OctreeTree, k: int) -> int {
    pos + 1 + serialized_prefix(t.children.unwrap(), k).len()
}

/// The bytes of child `k` of a subdivided node stand right after those of
/// the children before it.
proof fn lemma_child_bytes(bytes: Seq<u8>, pos: int, t: OctreeTree, k: int)
    requires
        well_formed(t),
        t.node_type == OctreeNodeType::PARTIAL,
        0 <= pos,
        pos + serialized(t).len() <= bytes.len(),
        bytes.subrange(pos, pos + serialized(t).len()) == serialized(t),
        0 <= k < 8,
    ensures
        ({
            let cs = t.children.unwrap();
            let p = child_start(pos, t, k);
            &&& bytes.subrange(p, p + serialized(cs[k]).len()) == serialized(cs[k])
            &&& child_start(pos, t, k + 1) == p + serialized(cs[k]).len()
            &&& p < p + serialized(cs[k]).len() <= pos + serialized(t).len()
            &&& bytes[pos] == OPEN_BYTE
        }),
{
    let cs = t.children.unwrap();
    let all = serialized_prefix(cs, 8);
    let c = cs[k];
    let p = child_start(pos, t, k);
    assert(serialized(t) == seq![OPEN_BYTE] + all);
    assert(bytes[pos] == bytes.subrange(pos, pos + serialized(t).len())[0]);
    lemma_prefix_of_prefix(cs, k, 8);
    lemma_prefix_of_prefix(cs, k + 1, 8);
    lemma_serialized_nonempty(c);
    let lo = serialized_prefix(cs, k).len() as int;
    let hi = serialized_prefix(cs, k + 1).len() as int;
    assert(serialized_prefix(cs, k + 1) == serialized_prefix(cs, k) + serialized(c));
    assert(all.subrange(lo, hi) =~= serialized(c)) by {
        assert(all.subrange(0, hi) == serialized_prefix(cs, k + 1));
        assert(all.subrange(lo, hi) =~= all.subrange(0, hi).subrange(lo, hi));
        assert(serialized_prefix(cs, k + 1).subrange(lo, hi) =~= serialized(c));
    }
    assert(bytes.subrange(p, p + serialized(c).len()) =~= serialized(c)) by {
        assert forall|j: int| 0 <= j < serialized(c).len() implies bytes.subrange(p, p + serialized(c).len())[j]
            == serialized(c)[j] by {
            assert(bytes[p + j] == bytes.subrange(pos, pos + serialized(t).len())[1 + lo + j]);
            assert(serialized(t)[1 + lo + j] == all[lo + j]);
            assert(all[lo + j] == all.subrange(lo, hi)[j]);
        }
    }
}

/// Passing over the children of a subdivided node from child `k` on ends
/// just after the node's bytes.
proof fn lemma_skip_children_serialized(bytes: Seq<u8>, pos: int, t: OctreeTree, k: int)
    requires
        well_formed(t),
        t.node_type == OctreeNodeType::PARTIAL,
        0 <= pos,
        pos + serialized(t).len() <= bytes.len(),
        bytes.subrange(pos, pos + serialized(t).len()) == serialized(t),
        0 <= k <= 8,
    ensures
        skip_children(bytes, child_start(pos, t, k), k) == Ok::<int, OctreeFormatError>(pos + serialized(t).len()),
    decreases t, 9 - k,
{
    let cs = t.children.unwrap();
    assert(serialized(t) == seq![OPEN_BYTE] + serialized_prefix(cs, 8));
    if k < 8 {
        lemma_child_bytes(bytes, pos, t, k);
        let c = cs[k];
        let p = child_start(pos, t, k);
        assert(bytes[p] == serialized(c)[0]) by {
            assert(bytes[p] == bytes.subrange(p, p + serialized(c).len())[0]);
        }
        assert(decreases_to!(t => c)) by {
            assert(decreases_to!(t => t.children));
            assert(decreases_to!(t.children => cs));
            assert(decreases_to!(cs => cs[k]));
        }
        if c.node_type == OctreeNodeType::PARTIAL {
            lemma_skip_children_serialized(bytes, p, c, 0);
        }
        lemma_skip_children_serialized(bytes, pos, t, k + 1);
    }
}

/// Reading a well-formed tree at any position, `depth` levels below the
/// root, with depth limit `max_depth`: the cut tree, the level reached, and
/// the position after its bytes.
proof fn lemma_parse_cut_at(bytes: Seq<u8>, pos: int, t: OctreeTree, depth: int, max_depth: int)
    requires
        well_formed(t),
        0 <= pos,
        pos + serialized(t).len() <= bytes.len(),
        bytes.subrange(pos, pos + serialized(t).len()) == serialized(t),
        0 <= depth,
    ensures
        parse_node(bytes, pos, depth, max_depth) == Ok::<(OctreeTree, int, int), OctreeFormatError>(
            (cut(t, depth, max_depth), reach(t, depth, max_depth), pos + serialized(t).len()),
        ),
    decreases t, 10int,
{
    assert(bytes[pos] == bytes.subrange(pos, pos + serialized(t).len())[0]);
    if t.node_type == OctreeNodeType::PARTIAL {
        let cs = t.children.unwrap();
        assert(serialized(t) == seq![OPEN_BYTE] + serialized_prefix(cs, 8));
        if depth >= max_depth {
            lemma_skip_children_serialized(bytes, pos, t, 0);
        } else {
            lemma_parse_children_cut(bytes, pos, t, depth, max_depth, 0);
            let cuts = cut(t, depth, max_depth).children.unwrap();
            assert(cuts.take(0) =~= Seq::<OctreeTree>::empty());
            assert(cuts.take(8) =~= cuts);
        }
    }
}

proof fn lemma_parse_children_cut(bytes: Seq<u8>, pos: int, t: OctreeTree, depth: int, max_depth: int, k: int)
    requires
        well_formed(t),
        t.node_type == OctreeNodeType::PARTIAL,
        0 <= pos,
        pos + serialized(t).len() <= bytes.len(),
        bytes.subrange(pos, pos + serialized(t).len()) == serialized(t),
        0 <= depth < max_depth,
        0 <= k <= 8,
    ensures
        ({
            let cs = t.children.unwrap();
            let cuts = cut(t, depth, max_depth).children.unwrap();
            parse_children(
                bytes,
                child_start(pos, t, k),
                depth,
                max_depth,
                k,
                cuts.take(k),
                reach_prefix(cs, k, depth, max_depth),
            ) == Ok::<(Seq<OctreeTree>, int, int), OctreeFormatError>(
                (cuts, reach_prefix(cs, 8, depth, max_depth), pos + serialized(t).len()),
            )
        }),
    decreases t, 9 - k,
{
    let cs = t.children.unwrap();
    let cuts = cut(t, depth, max_depth).children.unwrap();
    assert(serialized(t) == seq![OPEN_BYTE] + serialized_prefix(cs, 8));
    if k == 8 {
        assert(cuts.take(8) =~= cuts);
    } else {
        lemma_child_bytes(bytes, pos, t, k);
        let c = cs[k];
        let p = child_start(pos, t, k);
        assert(decreases_to!(t => c)) by {
            assert(decreases_to!(t => t.children));
            assert(decreases_to!(t.children => cs));
            assert(decreases_to!(cs => cs[k]));
        }
        assert(well_formed(c));
        lemma_parse_cut_at(bytes, p, c, depth + 1, max_depth);
        lemma_parse_children_cut(bytes, pos, t, depth, max_depth, k + 1);
        assert(cuts.take(k).push(cuts[k]) =~= cuts.take(k + 1));
        assert(cuts[k] == cut(c, depth + 1, max_depth));
    }
}

/// Reading the bytes of a well-formed tree with any depth limit, whatever
/// follows them, gives the tree cut at the limit (a subdivided node at the
/// limit reads as inside), the deepest level reached, and the position just
/// after the tree's bytes.
pub proof fn lemma_octree_read_with_limit(t: OctreeTree, rest: Seq<u8>, max_depth: int)
    requires
        well_formed(t),
    ensures
        parse_node(serialized(t) + rest, 0, 0, max_depth) == Ok::<(OctreeTree, int, int), OctreeFormatError>(
            (cut(t, 0, max_depth), reach(t, 0, max_depth), serialized(t).len() as int),
        ),
{
    let bytes = serialized(t) + rest;
    assert(bytes.subrange(0, serialized(t).len() as int) =~= serialized(t));
    lemma_parse_cut_at(bytes, 0, t, 0, max_depth);
}

} // verus!
