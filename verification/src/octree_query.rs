use vstd::prelude::*;

use crate::octree::{OctreeNode, OctreeNodeType, OctreeTree};
use crate::octree_build::{shaped, stored_octree};

verus! {

/// The cells that draw the solid of `t`, whose root is reached by `path`:
/// the paths of its leaves that are not outside, depth first, children in
/// index order. An outside node contributes nothing, even with children.
pub open spec fn filled_cells(t: OctreeTree, path: Seq<u8>) -> Seq<Seq<u8>>
    decreases t, 0int,
{
    if t.node_type == OctreeNodeType::OUT {
        Seq::empty()
    } else {
        match t.children {
            None => seq![path],
            Some(cs) => filled_cells_prefix(cs, path, cs.len() as int),
        }
    }
}

/// The cells of the first `k` children `cs` of the node at `path`.
pub open spec fn filled_cells_prefix(cs: Seq<OctreeTree>, path: Seq<u8>, k: int) -> Seq<Seq<u8>>
    decreases cs, k,
{
    if 0 < k <= cs.len() {
        filled_cells_prefix(cs, path, k - 1) + filled_cells(cs[k - 1], path.push((k - 1) as u8))
    } else {
        Seq::empty()
    }
}

/// `meets` can have answered `b` for the cell reached from the root by
/// `path` (each step an octant index): whether the query box meets it.
pub open spec fn met<F: Fn(&[u8]) -> bool>(meets: F, path: Seq<u8>, b: bool) -> bool {
    exists|s: &[u8]| #![trigger meets.ensures((s,), b)] s@ == path && meets.ensures((s,), b)
}

/// `r` is how a query box lies against the tree `t`, whose root is the cell
/// at `path`, for answers `meets` can give: outside when the box misses the
/// cell; the node's own type at a node without children; otherwise the
/// merge of the children's types, taken in index order and cut short by the
/// first child the box lies across (see `box_type_in_children`).
pub open spec fn box_type_in<F: Fn(&[u8]) -> bool>(
    t: OctreeTree,
    meets: F,
    path: Seq<u8>,
    r: OctreeNodeType,
) -> bool
    decreases t, 0int,
{
    ||| met(meets, path, false) && r == OctreeNodeType::OUT
    ||| met(meets, path, true) && match t.children {
        None => r == t.node_type,
        Some(cs) => box_type_in_children(cs, meets, path, 0, false, false, r),
    }
}

/// `r` is what the children `cs` of the node at `path` give from child `i`
/// on, where the children before `i` gave inside (`has_in`) or outside
/// (`has_out`): crossing as soon as a child is crossed; once all are taken,
/// crossing when both inside and outside were seen, inside when only
/// inside, outside otherwise.
pub open spec fn box_type_in_children<F: Fn(&[u8]) -> bool>(
    cs: Seq<OctreeTree>,
    meets: F,
    path: Seq<u8>,
    i: int,
    has_in: bool,
    has_out: bool,
    r: OctreeNodeType,
) -> bool
    decreases cs, cs.len() - i,
{
    if 0 <= i < cs.len() {
        ||| box_type_in(cs[i], meets, path.push(i as u8), OctreeNodeType::PARTIAL) && r == OctreeNodeType::PARTIAL
        ||| box_type_in(cs[i], meets, path.push(i as u8), OctreeNodeType::IN) && box_type_in_children(
            cs,
            meets,
            path,
            i + 1,
            true,
            has_out,
            r,
        )
        ||| box_type_in(cs[i], meets, path.push(i as u8), OctreeNodeType::OUT) && box_type_in_children(
            cs,
            meets,
            path,
            i + 1,
            has_in,
            true,
            r,
        )
    } else {
        r == if has_in && has_out {
            OctreeNodeType::PARTIAL
        } else if has_in {
            OctreeNodeType::IN
        } else {
            OctreeNodeType::OUT
        }
    }
}

impl OctreeNode {
    /// How a query box lies against the solid this stored tree holds, for a
    /// node whose cell is reached from the root by `path`; `meets` tells
    /// whether the box meets the cell at a path (see `box_type_in`).
    pub fn node_type_at<F: Fn(&[u8]) -> bool>(&self, meets: &F, path: &mut Vec<u8>) -> (res: OctreeNodeType)
        requires
            forall|s: &[u8]| #[trigger] meets.requires((s,)),
        ensures
            final(path)@ == old(path)@,
            box_type_in(self@, *meets, old(path)@, res),
        decreases self,
    {
        let ghost start = path@;
        let hit = meets(path.as_slice());
        if !hit {
            return OctreeNodeType::OUT;
        }
        match &self.children {
            None => self.node_type,
            Some(children) => {
                let ghost cs = self@.children.unwrap();
                assert(self@.children == Some(cs));
                let mut has_in = false;
                let mut has_out = false;
                let mut i: usize = 0;
                while i < children.len()
                    invariant
                        0 <= i <= children.len(),
                        self.children == Some(*children),
                        cs == self@.children.unwrap(),
                        self@.children == Some(cs),
                        cs.len() == children@.len(),
                        forall|j: int| 0 <= j < cs.len() ==> cs[j] == #[trigger] (*children@[j])@,
                        path@ == start,
                        start == old(path)@,
                        met(*meets, start, true),
                        forall|s: &[u8]| #[trigger] meets.requires((s,)),
                        forall|r: OctreeNodeType|
                            box_type_in_children(cs, *meets, start, i as int, has_in, has_out, r)
                                ==> #[trigger] box_type_in_children(cs, *meets, start, 0, false, false, r),
                    decreases children.len() - i,
                {
                    assert(decreases_to!(*self => *children@[i as int])) by {
                        assert(decreases_to!(*self => self.children));
                        assert(decreases_to!(self.children => self.children->0));
                        assert(decreases_to!(self.children->0 => self.children->0@));
                        assert(decreases_to!(self.children->0@ => self.children->0@[i as int]));
                    }
                    path.push(#[verifier::truncate] (i as u8));
                    let child_type = children[i].node_type_at(meets, path);
                    path.pop();
                    assert(path@ =~= start);
                    let ghost ci = child_type;
                    assert(box_type_in(cs[i as int], *meets, start.push(#[verifier::truncate] (i as u8)), ci));
                    match child_type {
                        OctreeNodeType::PARTIAL => {
                            assert(box_type_in_children(cs, *meets, start, i as int, has_in, has_out, OctreeNodeType::PARTIAL));
                            assert(box_type_in_children(cs, *meets, start, 0, false, false, OctreeNodeType::PARTIAL));
                            assert(box_type_in(self@, *meets, start, OctreeNodeType::PARTIAL));
                            return OctreeNodeType::PARTIAL;
                        },
                        OctreeNodeType::IN => {
                            assert forall|r: OctreeNodeType|
                                box_type_in_children(cs, *meets, start, i + 1, true, has_out, r)
                                    implies #[trigger] box_type_in_children(cs, *meets, start, 0, false, false, r) by {
                                assert(box_type_in_children(cs, *meets, start, i as int, has_in, has_out, r));
                            }
                            has_in = true;
                        },
                        OctreeNodeType::OUT => {
                            assert forall|r: OctreeNodeType|
                                box_type_in_children(cs, *meets, start, i + 1, has_in, true, r)
                                    implies #[trigger] box_type_in_children(cs, *meets, start, 0, false, false, r) by {
                                assert(box_type_in_children(cs, *meets, start, i as int, has_in, has_out, r));
                            }
                            has_out = true;
                        },
                    }
                    i += 1;
                }
                let res = if has_in && has_out {
                    OctreeNodeType::PARTIAL
                } else if has_in {
                    OctreeNodeType::IN
                } else {
                    OctreeNodeType::OUT
                };
                assert(box_type_in_children(cs, *meets, start, i as int, has_in, has_out, res));
                assert(box_type_in_children(cs, *meets, start, 0, false, false, res));
                assert(box_type_in(self@, *meets, start, res));
                res
            },
        }
    }

    /// Appends the cells that draw this node's solid (see `filled_cells`),
    /// for a node reached from the root by `path`.
    pub fn collect_filled_cells(&self, path: &mut Vec<u8>, cells: &mut Vec<Vec<u8>>)
        ensures
            final(path)@ == old(path)@,
            final(cells).deep_view() == old(cells).deep_view() + filled_cells(self@, old(path)@),
        decreases self,
    {
        match self.node_type {
            OctreeNodeType::OUT => {
                assert(cells.deep_view() =~= old(cells).deep_view() + filled_cells(self@, old(path)@));
                return;
            },
            _ => {},
        }
        match &self.children {
            None => {
                let cell = path.clone();
                assert(cell@ =~= path@);
                assert(cell.deep_view() =~= path@);
                cells.push(cell);
                assert(cells.deep_view() =~= old(cells).deep_view() + filled_cells(self@, old(path)@));
            },
            Some(children) => {
                let ghost cs = self@.children.unwrap();
                let ghost start = path@;
                let ghost before = cells.deep_view();
                let mut i: usize = 0;
                while i < children.len()
                    invariant
                        0 <= i <= children.len(),
                        self.children == Some(*children),
                        cs == self@.children.unwrap(),
                        cs.len() == children@.len(),
                        forall|j: int| 0 <= j < cs.len() ==> cs[j] == #[trigger] (*children@[j])@,
                        path@ == start,
                        cells.deep_view() == before + filled_cells_prefix(cs, start, i as int),
                    decreases children.len() - i,
                {
                    assert(decreases_to!(*self => *children@[i as int])) by {
                        assert(decreases_to!(*self => self.children));
                        assert(decreases_to!(self.children => self.children->0));
                        assert(decreases_to!(self.children->0 => self.children->0@));
                        assert(decreases_to!(self.children->0@ => self.children->0@[i as int]));
                    }
                    path.push(#[verifier::truncate] (i as u8));
                    children[i].collect_filled_cells(path, cells);
                    path.pop();
                    assert(path@ =~= start);
                    i += 1;
                    assert(cells.deep_view() =~= before + filled_cells_prefix(cs, start, i as int));
                }
            },
        }
    }
}

proof fn lemma_cells_prefix_of_stored(cs: Seq<OctreeTree>, ds: Seq<OctreeTree>, path: Seq<u8>, k: int)
    requires
        0 <= k <= cs.len(),
        ds.len() == cs.len(),
        forall|i: int|
            0 <= i < k ==> filled_cells(#[trigger] ds[i], path.push(i as u8)) == filled_cells(cs[i], path.push(i as u8)),
    ensures
        filled_cells_prefix(ds, path, k) == filled_cells_prefix(cs, path, k),
    decreases k,
{
    if k > 0 {
        lemma_cells_prefix_of_stored(cs, ds, path, k - 1);
        assert(filled_cells(ds[k - 1], path.push((k - 1) as u8)) == filled_cells(cs[k - 1], path.push((k - 1) as u8)));
    }
}

/// A saved octree read back draws the same cells as the octree that was
/// saved: nodes crossing the boundary at the depth limit are drawn either
/// way, and are read back as inside.
pub proof fn lemma_stored_octree_same_cells(t: OctreeTree, path: Seq<u8>)
    requires
        shaped(t),
    ensures
        filled_cells(stored_octree(t), path) == filled_cells(t, path),
    decreases t,
{
    match t.children {
        None => {},
        Some(cs) => {
            let ds = stored_octree(t).children.unwrap();
            assert forall|i: int| 0 <= i < cs.len() implies filled_cells(#[trigger] ds[i], path.push(i as u8))
                == filled_cells(cs[i], path.push(i as u8)) by {
                assert(decreases_to!(t => t.children));
                assert(decreases_to!(t.children => cs));
                assert(decreases_to!(cs => cs[i]));
                lemma_stored_octree_same_cells(cs[i], path.push(i as u8));
            }
            lemma_cells_prefix_of_stored(cs, ds, path, cs.len() as int);
        },
    }
}

} // verus!
