use vstd::prelude::*;

use crate::csg::{CSGPrimitives, TransformBits};
use crate::csg_format::word_bytes;
use crate::csg_tree::{CSGNode, PrimitiveMesh};
use crate::octree::BooleanOperator;

verus! {

/// One slot of the array in which the GPU walks a CSG tree as a binary heap:
/// the children of the slot at `i` stand at `2 i + 1` and `2 i + 2`. A
/// boolean node has type 1 and its operator's number as id; a leaf has type
/// 2 (cube), 3 (sphere), 4 (cylinder) or 5 (cone) and its mesh's list number
/// as id.
#[derive(Debug, Clone, Copy, PartialEq, Eq, Structural)]
pub struct GPUHeapNode {
    pub _type: u32,
    pub _id: u32,
}

/// The heap type of a boolean node.
pub const BOOLEAN_NODE_TYPE: u32 = 1;

/// The heap type of a leaf of kind `p`.
pub open spec fn primitive_node_type(p: CSGPrimitives) -> u32 {
    match p {
        CSGPrimitives::Cube => 2,
        CSGPrimitives::Sphere => 3,
        CSGPrimitives::Cylinder => 4,
        CSGPrimitives::Cone => 5,
        CSGPrimitives::Generic => 0,
    }
}

/// The number of an operator: 0 union, 1 intersection, 2 difference.
pub open spec fn operator_number(op: BooleanOperator) -> u32 {
    match op {
        BooleanOperator::UNION => 0,
        BooleanOperator::INTERSECTION => 1,
        BooleanOperator::DIFFERENCE => 2,
    }
}

/// Whether the tree `n`, laid out from slot `index`, fits a heap of `len`
/// slots: every slot it writes is below `len`, every child slot number fits
/// in 32 bits, and no leaf is of the generic kind. Transform nodes take no
/// slot: their subtree is laid out in their place.
pub open spec fn heap_fits(n: CSGNode, index: int, len: int) -> bool
    decreases n,
{
    match n {
        CSGNode::Boolean { left, right, .. } => {
            &&& 0 <= index < len
            &&& 2 * index + 2 <= u32::MAX
            &&& heap_fits(*left, 2 * index + 1, len)
            &&& heap_fits(*right, 2 * index + 2, len)
        },
        CSGNode::Transform { node, .. } => heap_fits(*node, index, len),
        CSGNode::Primitive { primitive, .. } => 0 <= index < len && primitive != CSGPrimitives::Generic,
    }
}

/// The heap after laying out `n` from slot `index`: a boolean node writes
/// its slot and lays out its left subtree from `2 index + 1`, then its right
/// subtree from `2 index + 2`; a transform node lays out its subtree at its
/// own slot; a leaf writes its slot.
pub open spec fn heap_after(heap: Seq<GPUHeapNode>, n: CSGNode, index: int) -> Seq<GPUHeapNode>
    decreases n,
{
    match n {
        CSGNode::Boolean { left, right, operator } => heap_after(
            heap_after(
                heap.update(index, GPUHeapNode { _type: BOOLEAN_NODE_TYPE, _id: operator_number(operator) }),
                *left,
                2 * index + 1,
            ),
            *right,
            2 * index + 2,
        ),
        CSGNode::Transform { node, .. } => heap_after(heap, *node, index),
        CSGNode::Primitive { primitive, object } => heap.update(
            index,
            GPUHeapNode { _type: primitive_node_type(primitive), _id: object.list_id },
        ),
    }
}

/// Laying out a tree that fits keeps the length of the heap.
pub proof fn lemma_heap_after_len(heap: Seq<GPUHeapNode>, n: CSGNode, index: int)
    requires
        heap_fits(n, index, heap.len() as int),
    ensures
        heap_after(heap, n, index).len() == heap.len(),
    decreases n,
{
    match n {
        CSGNode::Boolean { left, right, operator } => {
            let h0 = heap.update(index, GPUHeapNode { _type: BOOLEAN_NODE_TYPE, _id: operator_number(operator) });
            lemma_heap_after_len(h0, *left, 2 * index + 1);
            lemma_heap_after_len(heap_after(h0, *left, 2 * index + 1), *right, 2 * index + 2);
        },
        CSGNode::Transform { node, .. } => {
            lemma_heap_after_len(heap, *node, index);
        },
        CSGNode::Primitive { .. } => {},
    }
}

/// Laying out a tree from slot `index` leaves the slots before it as they
/// were.
proof fn lemma_heap_after_below(heap: Seq<GPUHeapNode>, n: CSGNode, index: int, k: int)
    requires
        heap_fits(n, index, heap.len() as int),
        0 <= k < index,
    ensures
        heap_after(heap, n, index)[k] == heap[k],
    decreases n,
{
    match n {
        CSGNode::Boolean { left, right, operator } => {
            let h0 = heap.update(index, GPUHeapNode { _type: BOOLEAN_NODE_TYPE, _id: operator_number(operator) });
            lemma_heap_after_below(h0, *left, 2 * index + 1, k);
            lemma_heap_after_len(h0, *left, 2 * index + 1);
            lemma_heap_after_below(heap_after(h0, *left, 2 * index + 1), *right, 2 * index + 2, k);
        },
        CSGNode::Transform { node, .. } => {
            lemma_heap_after_below(heap, *node, index, k);
        },
        CSGNode::Primitive { .. } => {},
    }
}

/// The leaf of kind `primitive` over the mesh `object`.
pub open spec fn leaf_node(primitive: CSGPrimitives, object: PrimitiveMesh) -> CSGNode {
    CSGNode::Primitive { primitive, object: Box::new(object) }
}

/// The boolean node that combines `left` and `right` by `operator`.
pub open spec fn boolean_node(left: CSGNode, right: CSGNode, operator: BooleanOperator) -> CSGNode {
    CSGNode::Boolean { left: Box::new(left), right: Box::new(right), operator }
}

/// The slot a leaf is laid out in holds the GPU type of its kind (2 for a
/// cube, 3 for a sphere, 4 for a cylinder, 5 for a cone) and its mesh's list
/// number; every other slot keeps what it held.
pub proof fn lemma_leaf_slot(heap: Seq<GPUHeapNode>, primitive: CSGPrimitives, object: PrimitiveMesh, index: int)
    requires
        heap_fits(leaf_node(primitive, object), index, heap.len() as int),
    ensures
        heap_after(heap, leaf_node(primitive, object), index)[index]._type == (match primitive {
            CSGPrimitives::Cube => 2u32,
            CSGPrimitives::Sphere => 3u32,
            CSGPrimitives::Cylinder => 4u32,
            _ => 5u32,
        }),
        heap_after(heap, leaf_node(primitive, object), index)[index]._id == object.list_id,
        forall|k: int|
            0 <= k < heap.len() && k != index ==> #[trigger] heap_after(heap, leaf_node(primitive, object), index)[k]
                == heap[k],
{
}

/// The slot a boolean node is laid out in holds type 1 and its operator's
/// number (0 for a union, 1 for an intersection, 2 for a difference); the
/// subtrees do not write over it.
pub proof fn lemma_boolean_slot(
    heap: Seq<GPUHeapNode>,
    left: CSGNode,
    right: CSGNode,
    operator: BooleanOperator,
    index: int,
)
    requires
        heap_fits(boolean_node(left, right, operator), index, heap.len() as int),
    ensures
        heap_after(heap, boolean_node(left, right, operator), index)[index]._type == 1u32,
        heap_after(heap, boolean_node(left, right, operator), index)[index]._id == (match operator {
            BooleanOperator::UNION => 0u32,
            BooleanOperator::INTERSECTION => 1u32,
            BooleanOperator::DIFFERENCE => 2u32,
        }),
{
    let h0 = heap.update(index, GPUHeapNode { _type: BOOLEAN_NODE_TYPE, _id: operator_number(operator) });
    lemma_heap_after_below(h0, left, 2 * index + 1, index);
    lemma_heap_after_len(h0, left, 2 * index + 1);
    lemma_heap_after_below(heap_after(h0, left, 2 * index + 1), right, 2 * index + 2, index);
}

/// A transform node takes no slot: laying it out is laying out its subtree
/// in its place.
pub proof fn lemma_transform_slot(heap: Seq<GPUHeapNode>, node: CSGNode, transform: TransformBits, index: int)
    ensures
        heap_after(heap, (CSGNode::Transform { node: Box::new(node), transform }), index) == heap_after(
            heap,
            node,
            index,
        ),
{
}

impl CSGNode {
    /// Writes the tree into `heap` as a binary heap from slot `index`
    /// (see `heap_after`).
    pub fn get_boolean_heap(&self, heap: &mut Vec<GPUHeapNode>, index: u32)
        requires
            heap_fits(*self, index as int, old(heap)@.len() as int),
        ensures
            final(heap)@ == heap_after(old(heap)@, *self, index as int),
        decreases self,
    {
        match self {
            CSGNode::Primitive { primitive, object } => {
                let node_type: u32 = match primitive {
                    CSGPrimitives::Cube => 2,
                    CSGPrimitives::Sphere => 3,
                    CSGPrimitives::Cylinder => 4,
                    CSGPrimitives::Cone => 5,
                    CSGPrimitives::Generic => 0,
                };
                heap.set(index as usize, GPUHeapNode { _type: node_type, _id: object.list_id });
            },
            CSGNode::Boolean { left, right, operator } => {
                let id: u32 = match operator {
                    BooleanOperator::UNION => 0,
                    BooleanOperator::INTERSECTION => 1,
                    BooleanOperator::DIFFERENCE => 2,
                };
                heap.set(index as usize, GPUHeapNode { _type: BOOLEAN_NODE_TYPE, _id: id });
                let ghost h0 = heap@;
                (&**left).get_boolean_heap(heap, index * 2 + 1);
                proof {
                    lemma_heap_after_len(h0, **left, 2 * index + 1);
                }
                (&**right).get_boolean_heap(heap, index * 2 + 2);
            },
            CSGNode::Transform { node, .. } => {
                (&**node).get_boolean_heap(heap, index);
            },
        }
    }
}

/// The little-endian bytes of a 32-bit word.
pub open spec fn word_le_bytes(w: u32) -> Seq<u8> {
    seq![w as u8, (w >> 8u32) as u8, (w >> 16u32) as u8, (w >> 24u32) as u8]
}

/// The in-memory bytes of the pair of words `[a, b]`: `bytemuck::bytes_of`
/// on the array, copied out. The contract claims what holds on every
/// machine: eight bytes, the two words one after the other, both in the
/// machine's byte order, which is little-endian or big-endian.
#[verifier::external_body]
fn bytes_of_word_pair(a: u32, b: u32) -> (bytes: Vec<u8>)
    ensures
        bytes@ == word_le_bytes(a) + word_le_bytes(b) || bytes@ == word_bytes(a) + word_bytes(b),
{
    bytemuck::bytes_of(&[a, b]).to_vec()
}

impl GPUHeapNode {
    /// The slot as the GPU reads it: its type, then its id, each a 32-bit
    /// word in the machine's byte order.
    pub fn to_bytes(&self) -> (bytes: Vec<u8>)
        ensures
            bytes@.len() == 8,
            bytes@ == word_le_bytes(self._type) + word_le_bytes(self._id) || bytes@ == word_bytes(self._type)
                + word_bytes(self._id),
    {
        bytes_of_word_pair(self._type, self._id)
    }
}

} // verus!
