use vstd::prelude::*;

use crate::csg::{
    lemma_transform_at, parse_primitive, primitive_byte, transform_at, transform_bytes, CSGPrimitives,
    TransformBits,
};
use crate::csg_format::{
    lemma_word_at, operator_byte, parse_operator, push_word, read_word, word_at, word_bytes,
    CsgFormatError, DIGIT_0, DIGIT_1, DIGIT_2, DIGIT_3,
};
use crate::octree::BooleanOperator;

verus! {

/// The number of subdivisions a round primitive gets when it is read back
/// from bytes, which do not hold it.
pub const DEFAULT_SUBDIVISIONS: u32 = 50;

/// The list number of a mesh that has not been given a place in the GPU's
/// primitive lists.
pub const UNPLACED_LIST_ID: u32 = 0xffff_ffff;

/// What a CSG tree reads of the mesh at one of its leaves: its radius and
/// height (bit patterns of single-precision numbers; zero where the kind has
/// none), how finely it is subdivided, and its place in the GPU's primitive
/// lists.
#[derive(Debug, Clone, Copy, PartialEq, Eq, Structural)]
pub struct PrimitiveMesh {
    pub radius: u32,
    pub height: u32,
    pub subdivisions: u32,
    pub list_id: u32,
}

/// A mesh with the given dimensions that has no place in the GPU lists yet.
pub open spec fn fresh_mesh(radius: u32, height: u32, subdivisions: u32) -> PrimitiveMesh {
    PrimitiveMesh { radius, height, subdivisions, list_id: UNPLACED_LIST_ID }
}

impl PrimitiveMesh {
    /// A mesh with the given dimensions that has no place in the GPU lists
    /// yet.
    pub fn new(radius: u32, height: u32, subdivisions: u32) -> (m: Self)
        ensures
            m == fresh_mesh(radius, height, subdivisions),
    {
        PrimitiveMesh { radius, height, subdivisions, list_id: UNPLACED_LIST_ID }
    }
}

/// A mesh that a CSG leaf can own and copy.
pub trait MeshObject: Sized {
    /// A boxed copy of this mesh.
    fn clone_box(&self) -> (res: Box<Self>)
        ensures
            *res == *self,
    ;
}

impl MeshObject for PrimitiveMesh {
    fn clone_box(&self) -> (res: Box<Self>) {
        Box::new(*self)
    }
}

/// A constructive solid geometry tree: boolean combinations of placed
/// primitive solids.
#[derive(Debug)]
pub enum CSGNode {
    Boolean { left: Box<CSGNode>, right: Box<CSGNode>, operator: BooleanOperator },
    Transform { node: Box<CSGNode>, transform: TransformBits },
    Primitive { primitive: CSGPrimitives, object: Box<PrimitiveMesh> },
}

/// Whether the byte format can hold the tree: no leaf is of the generic kind.
pub open spec fn serializable(n: CSGNode) -> bool
    decreases n,
{
    match n {
        CSGNode::Boolean { left, right, .. } => serializable(*left) && serializable(*right),
        CSGNode::Transform { node, .. } => serializable(*node),
        CSGNode::Primitive { primitive, .. } => primitive != CSGPrimitives::Generic,
    }
}

/// The bytes after a leaf's kind: nothing for a cube, the radius for a
/// sphere, the radius and the height for a cylinder or a cone.
pub open spec fn mesh_bytes(p: CSGPrimitives, m: PrimitiveMesh) -> Seq<u8> {
    match p {
        CSGPrimitives::Sphere => word_bytes(m.radius),
        CSGPrimitives::Cylinder => word_bytes(m.radius) + word_bytes(m.height),
        CSGPrimitives::Cone => word_bytes(m.radius) + word_bytes(m.height),
        _ => Seq::empty(),
    }
}

/// The bytes of a tree: a boolean node is `0`, its operator's digit, then
/// its left and right subtrees; a transform node is `1`, the 36 bytes of its
/// placement, then its subtree; a leaf is `2`, the digit of its kind, then
/// its dimensions.
pub open spec fn node_bytes(n: CSGNode) -> Seq<u8>
    decreases n,
{
    match n {
        CSGNode::Boolean { left, right, operator } => seq![DIGIT_0, operator_byte(operator)] + node_bytes(*left)
            + node_bytes(*right),
        CSGNode::Transform { node, transform } => seq![DIGIT_1] + transform_bytes(transform) + node_bytes(*node),
        CSGNode::Primitive { primitive, object } => seq![DIGIT_2, primitive_byte(primitive)] + mesh_bytes(
            primitive,
            *object,
        ),
    }
}

/// The mesh a leaf of kind `p` gets when read back: a fresh cube; a fresh
/// sphere of the stored radius; a fresh cylinder or cone of the stored
/// radius and height; round kinds get the default subdivisions.
pub open spec fn stored_mesh(p: CSGPrimitives, m: PrimitiveMesh) -> PrimitiveMesh {
    match p {
        CSGPrimitives::Cube => fresh_mesh(0, 0, 0),
        CSGPrimitives::Sphere => fresh_mesh(m.radius, 0, DEFAULT_SUBDIVISIONS),
        CSGPrimitives::Cylinder => fresh_mesh(m.radius, m.height, DEFAULT_SUBDIVISIONS),
        CSGPrimitives::Cone => fresh_mesh(m.radius, m.height, DEFAULT_SUBDIVISIONS),
        CSGPrimitives::Generic => m,
    }
}

/// The tree that reading back the bytes of `n` gives: the same shape,
/// operators and placements, with each leaf's mesh as `stored_mesh` makes it.
pub open spec fn stored_tree(n: CSGNode) -> CSGNode
    decreases n,
{
    match n {
        CSGNode::Boolean { left, right, operator } => CSGNode::Boolean {
            left: Box::new(stored_tree(*left)),
            right: Box::new(stored_tree(*right)),
            operator,
        },
        CSGNode::Transform { node, transform } => CSGNode::Transform {
            node: Box::new(stored_tree(*node)),
            transform,
        },
        CSGNode::Primitive { primitive, object } => CSGNode::Primitive {
            primitive,
            object: Box::new(stored_mesh(primitive, *object)),
        },
    }
}

/// Reading the dimensions of a leaf of kind `p` at `pos`: the mesh and the
/// position after its bytes.
pub open spec fn parse_mesh(bytes: Seq<u8>, pos: int, p: CSGPrimitives) -> Result<
    (PrimitiveMesh, int),
    CsgFormatError,
> {
    match p {
        CSGPrimitives::Cube => Ok((fresh_mesh(0, 0, 0), pos)),
        CSGPrimitives::Sphere => if 0 <= pos && pos + 4 <= bytes.len() {
            Ok((fresh_mesh(word_at(bytes, pos), 0, DEFAULT_SUBDIVISIONS), pos + 4))
        } else {
            Err(CsgFormatError::UnexpectedEnd)
        },
        CSGPrimitives::Cylinder | CSGPrimitives::Cone => if 0 <= pos && pos + 8 <= bytes.len() {
            Ok((fresh_mesh(word_at(bytes, pos), word_at(bytes, pos + 4), DEFAULT_SUBDIVISIONS), pos + 8))
        } else {
            Err(CsgFormatError::UnexpectedEnd)
        },
        CSGPrimitives::Generic => Err(CsgFormatError::InvalidByte),
    }
}

/// Reading one tree at `pos`: the tree and the position after its bytes.
pub open spec fn parse_csg_node(bytes: Seq<u8>, pos: int) -> Result<(CSGNode, int), CsgFormatError>
    decreases bytes.len() - pos,
{
    if pos < 0 || pos >= bytes.len() {
        Err(CsgFormatError::UnexpectedEnd)
    } else if bytes[pos] == DIGIT_0 {
        match parse_operator(bytes, pos + 1) {
            Err(x) => Err(x),
            Ok((operator, _)) => match parse_csg_node(bytes, pos + 2) {
                Err(x) => Err(x),
                Ok((left, p)) => if pos < p <= bytes.len() {
                    match parse_csg_node(bytes, p) {
                        Err(x) => Err(x),
                        Ok((right, e)) => Ok(
                            (CSGNode::Boolean { left: Box::new(left), right: Box::new(right), operator }, e),
                        ),
                    }
                } else {
                    Err(CsgFormatError::UnexpectedEnd)
                },
            },
        }
    } else if bytes[pos] == DIGIT_1 {
        if pos + 37 > bytes.len() {
            Err(CsgFormatError::UnexpectedEnd)
        } else {
            match parse_csg_node(bytes, pos + 37) {
                Err(x) => Err(x),
                Ok((node, e)) => Ok(
                    (CSGNode::Transform { node: Box::new(node), transform: transform_at(bytes, pos + 1) }, e),
                ),
            }
        }
    } else if bytes[pos] == DIGIT_2 {
        match parse_primitive(bytes, pos + 1) {
            Err(x) => Err(x),
            Ok((primitive, _)) => match parse_mesh(bytes, pos + 2, primitive) {
                Err(x) => Err(x),
                Ok((m, e)) => Ok((CSGNode::Primitive { primitive, object: Box::new(m) }, e)),
            },
        }
    } else {
        Err(CsgFormatError::InvalidByte)
    }
}

impl CSGNode {
    /// A copy of the tree.
    pub fn clone(&self) -> (res: Self)
        ensures
            res == *self,
        decreases self,
    {
        match self {
            CSGNode::Boolean { left, right, operator } => CSGNode::Boolean {
                left: Box::new((&**left).clone()),
                right: Box::new((&**right).clone()),
                operator: *operator,
            },
            CSGNode::Transform { node, transform } => CSGNode::Transform {
                node: Box::new((&**node).clone()),
                transform: *transform,
            },
            CSGNode::Primitive { primitive, object } => CSGNode::Primitive {
                primitive: *primitive,
                object: (&**object).clone_box(),
            },
        }
    }

    /// Appends the bytes of the tree.
    pub fn serialize(&self, writer: &mut Vec<u8>)
        requires
            serializable(*self),
        ensures
            final(writer)@ == old(writer)@ + node_bytes(*self),
        decreases self,
    {
        match self {
            CSGNode::Boolean { left, right, operator } => {
                writer.push(DIGIT_0);
                operator.serialize(writer);
                (&**left).serialize(writer);
                (&**right).serialize(writer);
                assert(writer@ =~= old(writer)@ + node_bytes(*self));
            },
            CSGNode::Transform { node, transform } => {
                writer.push(DIGIT_1);
                transform.serialize(writer);
                (&**node).serialize(writer);
                assert(writer@ =~= old(writer)@ + node_bytes(*self));
            },
            CSGNode::Primitive { primitive, object } => {
                writer.push(DIGIT_2);
                primitive.serialize(writer);
                match primitive {
                    CSGPrimitives::Sphere => {
                        push_word(writer, object.radius);
                    },
                    CSGPrimitives::Cylinder | CSGPrimitives::Cone => {
                        push_word(writer, object.radius);
                        push_word(writer, object.height);
                    },
                    _ => {},
                }
                assert(writer@ =~= old(writer)@ + node_bytes(*self));
            },
        }
    }

    /// Reads one tree at `pos` (see `parse_csg_node`); gives it and the
    /// position after its bytes, or the reason the bytes hold no tree there.
    pub(crate) fn read_node(bytes: &[u8], pos: usize) -> (res: Result<(CSGNode, usize), CsgFormatError>)
        requires
            pos <= bytes@.len(),
        ensures
            match res {
                Ok((n, e)) => parse_csg_node(bytes@, pos as int) == Ok::<(CSGNode, int), CsgFormatError>((n, e as int))
                    && pos < e <= bytes@.len(),
                Err(x) => parse_csg_node(bytes@, pos as int) == Err::<(CSGNode, int), CsgFormatError>(x),
            },
        decreases bytes@.len() - pos,
    {
        let len = bytes.len();
        if pos >= len {
            return Err(CsgFormatError::UnexpectedEnd);
        }
        let tag = bytes[pos];
        if tag == DIGIT_0 {
            let (operator, _) = BooleanOperator::deserialize(bytes, pos + 1)?;
            let (left, p) = CSGNode::read_node(bytes, pos + 2)?;
            let (right, e) = CSGNode::read_node(bytes, p)?;
            Ok((CSGNode::Boolean { left: Box::new(left), right: Box::new(right), operator }, e))
        } else if tag == DIGIT_1 {
            let transform = TransformBits::deserialize(bytes, pos + 1)?;
            let (node, e) = CSGNode::read_node(bytes, pos + 37)?;
            Ok((CSGNode::Transform { node: Box::new(node), transform }, e))
        } else if tag == DIGIT_2 {
            let (primitive, _) = CSGPrimitives::read(bytes, pos + 1)?;
            let q = pos + 2;
            let object = match primitive {
                CSGPrimitives::Cube => {
                    return Ok((CSGNode::Primitive { primitive, object: Box::new(PrimitiveMesh::new(0, 0, 0)) }, q));
                },
                CSGPrimitives::Sphere => {
                    if len - q < 4 {
                        return Err(CsgFormatError::UnexpectedEnd);
                    }
                    let radius = read_word(bytes, q);
                    return Ok((
                        CSGNode::Primitive {
                            primitive,
                            object: Box::new(PrimitiveMesh::new(radius, 0, DEFAULT_SUBDIVISIONS)),
                        },
                        q + 4,
                    ));
                },
                CSGPrimitives::Cylinder | CSGPrimitives::Cone => {
                    if len - q < 8 {
                        return Err(CsgFormatError::UnexpectedEnd);
                    }
                    let radius = read_word(bytes, q);
                    let height = read_word(bytes, q + 4);
                    PrimitiveMesh::new(radius, height, DEFAULT_SUBDIVISIONS)
                },
                CSGPrimitives::Generic => {
                    return Err(CsgFormatError::InvalidByte);
                },
            };
            Ok((CSGNode::Primitive { primitive, object: Box::new(object) }, q + 8))
        } else {
            Err(CsgFormatError::InvalidByte)
        }
    }
}

/// Reading a tree fails only because the bytes end or hold a byte that is
/// not a digit of the format.
pub(crate) proof fn lemma_parse_errors(bytes: Seq<u8>, pos: int)
    ensures
        parse_csg_node(bytes, pos) != Err::<(CSGNode, int), CsgFormatError>(CsgFormatError::RootNotTransform),
    decreases bytes.len() - pos,
{
    if 0 <= pos < bytes.len() {
        if bytes[pos] == DIGIT_0 && pos + 2 < bytes.len() {
            lemma_parse_errors(bytes, pos + 2);
            match parse_csg_node(bytes, pos + 2) {
                Ok((_, p)) => if pos < p <= bytes.len() {
                    lemma_parse_errors(bytes, p);
                },
                Err(_) => {},
            }
        } else if bytes[pos] == DIGIT_1 {
            if pos + 37 <= bytes.len() {
                lemma_parse_errors(bytes, pos + 37);
            }
        }
    }
}

impl CSGNode {
    /// Reads one tree at `pos`; gives it and the position after its bytes,
    /// or `UnexpectedEnd` where the bytes end before the tree is complete.
    /// Every tag, operator and primitive kind read must be one of its digits.
    pub fn deserialize(bytes: &[u8], pos: usize) -> (res: Result<(CSGNode, usize), CsgFormatError>)
        requires
            pos <= bytes@.len(),
            parse_csg_node(bytes@, pos as int) != Err::<(CSGNode, int), CsgFormatError>(CsgFormatError::InvalidByte),
        ensures
            match res {
                Ok((n, e)) => parse_csg_node(bytes@, pos as int) == Ok::<(CSGNode, int), CsgFormatError>((n, e as int))
                    && pos < e <= bytes@.len(),
                Err(x) => parse_csg_node(bytes@, pos as int) == Err::<(CSGNode, int), CsgFormatError>(x)
                    && x == CsgFormatError::UnexpectedEnd,
            },
    {
        proof {
            lemma_parse_errors(bytes@, pos as int);
        }
        CSGNode::read_node(bytes, pos)
    }
}

proof fn lemma_node_bytes_nonempty(n: CSGNode)
    ensures
        node_bytes(n).len() >= 2,
{
}

proof fn lemma_boolean_bytes(bytes: Seq<u8>, pos: int, left: CSGNode, right: CSGNode, operator: BooleanOperator)
    requires
        0 <= pos,
        pos + node_bytes(CSGNode::Boolean { left: Box::new(left), right: Box::new(right), operator }).len() <= bytes.len(),
        bytes.subrange(
            pos,
            pos + node_bytes(CSGNode::Boolean { left: Box::new(left), right: Box::new(right), operator }).len(),
        ) == node_bytes(CSGNode::Boolean { left: Box::new(left), right: Box::new(right), operator }),
    ensures
        bytes[pos] == DIGIT_0,
        bytes[pos + 1] == operator_byte(operator),
        bytes.subrange(pos + 2, pos + 2 + node_bytes(left).len()) == node_bytes(left),
        bytes.subrange(
            pos + 2 + node_bytes(left).len(),
            pos + 2 + node_bytes(left).len() + node_bytes(right).len(),
        ) == node_bytes(right),
        node_bytes(CSGNode::Boolean { left: Box::new(left), right: Box::new(right), operator }).len() == 2
            + node_bytes(left).len() + node_bytes(right).len(),
{
    let nb = node_bytes(CSGNode::Boolean { left: Box::new(left), right: Box::new(right), operator });
    let lb = node_bytes(left);
    let rb = node_bytes(right);
    let ll = lb.len() as int;
    assert(bytes[pos] == nb[0]);
    assert(bytes[pos + 1] == nb[1]);
    assert(bytes.subrange(pos + 2, pos + 2 + ll) =~= nb.subrange(2, 2 + ll));
    assert(nb.subrange(2, 2 + ll) =~= lb);
    assert(bytes.subrange(pos + 2 + ll, pos + 2 + ll + rb.len()) =~= nb.subrange(2 + ll, nb.len() as int));
    assert(nb.subrange(2 + ll, nb.len() as int) =~= rb);
}

proof fn lemma_transform_node_bytes(bytes: Seq<u8>, pos: int, node: CSGNode, transform: TransformBits)
    requires
        0 <= pos,
        pos + node_bytes(CSGNode::Transform { node: Box::new(node), transform }).len() <= bytes.len(),
        bytes.subrange(pos, pos + node_bytes(CSGNode::Transform { node: Box::new(node), transform }).len())
            == node_bytes(CSGNode::Transform { node: Box::new(node), transform }),
    ensures
        bytes[pos] == DIGIT_1,
        transform_at(bytes, pos + 1) == transform,
        bytes.subrange(pos + 37, pos + 37 + node_bytes(node).len()) == node_bytes(node),
        node_bytes(CSGNode::Transform { node: Box::new(node), transform }).len() == 37 + node_bytes(node).len(),
{
    let nb = node_bytes(CSGNode::Transform { node: Box::new(node), transform });
    let tb = transform_bytes(transform);
    let cb = node_bytes(node);
    assert(tb.len() == 36);
    assert(bytes[pos] == nb[0]);
    assert(bytes.subrange(pos + 1, pos + 37) =~= nb.subrange(1, 37));
    assert(nb.subrange(1, 37) =~= tb);
    lemma_transform_at(bytes, pos + 1, transform);
    assert(bytes.subrange(pos + 37, pos + 37 + cb.len()) =~= nb.subrange(37, nb.len() as int));
    assert(nb.subrange(37, nb.len() as int) =~= cb);
}

#[verifier::spinoff_prover]
proof fn lemma_primitive_bytes(bytes: Seq<u8>, pos: int, primitive: CSGPrimitives, m: PrimitiveMesh)
    requires
        primitive != CSGPrimitives::Generic,
        0 <= pos,
        pos + node_bytes(CSGNode::Primitive { primitive, object: Box::new(m) }).len() <= bytes.len(),
        bytes.subrange(pos, pos + node_bytes(CSGNode::Primitive { primitive, object: Box::new(m) }).len())
            == node_bytes(CSGNode::Primitive { primitive, object: Box::new(m) }),
    ensures
        parse_csg_node(bytes, pos) == Ok::<(CSGNode, int), CsgFormatError>(
            (
                CSGNode::Primitive { primitive, object: Box::new(stored_mesh(primitive, m)) },
                pos + node_bytes(CSGNode::Primitive { primitive, object: Box::new(m) }).len(),
            ),
        ),
{
    let nb = node_bytes(CSGNode::Primitive { primitive, object: Box::new(m) });
    assert(bytes[pos] == nb[0]);
    assert(bytes[pos + 1] == nb[1]);
    assert(parse_primitive(bytes, pos + 1) == Ok::<(CSGPrimitives, int), CsgFormatError>((primitive, pos + 2)));
    match primitive {
        CSGPrimitives::Sphere => {
            assert(bytes.subrange(pos + 2, pos + 6) =~= nb.subrange(2, 6));
            assert(nb.subrange(2, 6) =~= word_bytes(m.radius));
            lemma_word_at(bytes, pos + 2, m.radius);
        },
        CSGPrimitives::Cylinder | CSGPrimitives::Cone => {
            assert(bytes.subrange(pos + 2, pos + 6) =~= nb.subrange(2, 6));
            assert(nb.subrange(2, 6) =~= word_bytes(m.radius));
            assert(bytes.subrange(pos + 6, pos + 10) =~= nb.subrange(6, 10));
            assert(nb.subrange(6, 10) =~= word_bytes(m.height));
            lemma_word_at(bytes, pos + 2, m.radius);
            lemma_word_at(bytes, pos + 6, m.height);
        },
        _ => {},
    }
}

proof fn lemma_parse_boolean_step(
    bytes: Seq<u8>,
    pos: int,
    operator: BooleanOperator,
    left: CSGNode,
    p: int,
    right: CSGNode,
    e: int,
)
    requires
        0 <= pos < bytes.len(),
        bytes[pos] == DIGIT_0,
        parse_operator(bytes, pos + 1) == Ok::<(BooleanOperator, int), CsgFormatError>((operator, pos + 2)),
        parse_csg_node(bytes, pos + 2) == Ok::<(CSGNode, int), CsgFormatError>((left, p)),
        pos < p <= bytes.len(),
        parse_csg_node(bytes, p) == Ok::<(CSGNode, int), CsgFormatError>((right, e)),
    ensures
        parse_csg_node(bytes, pos) == Ok::<(CSGNode, int), CsgFormatError>(
            (CSGNode::Boolean { left: Box::new(left), right: Box::new(right), operator }, e),
        ),
{
}

proof fn lemma_parse_transform_step(bytes: Seq<u8>, pos: int, node: CSGNode, e: int)
    requires
        0 <= pos,
        pos + 37 <= bytes.len(),
        bytes[pos] == DIGIT_1,
        parse_csg_node(bytes, pos + 37) == Ok::<(CSGNode, int), CsgFormatError>((node, e)),
    ensures
        parse_csg_node(bytes, pos) == Ok::<(CSGNode, int), CsgFormatError>(
            (CSGNode::Transform { node: Box::new(node), transform: transform_at(bytes, pos + 1) }, e),
        ),
{
}

#[verifier::spinoff_prover]
proof fn lemma_parse_node_bytes(bytes: Seq<u8>, pos: int, n: CSGNode)
    requires
        serializable(n),
        0 <= pos,
        pos + node_bytes(n).len() <= bytes.len(),
        bytes.subrange(pos, pos + node_bytes(n).len()) == node_bytes(n),
    ensures
        parse_csg_node(bytes, pos) == Ok::<(CSGNode, int), CsgFormatError>(
            (stored_tree(n), pos + node_bytes(n).len()),
        ),
    decreases n,
{
    match n {
        CSGNode::Boolean { left, right, operator } => {
            lemma_boolean_bytes(bytes, pos, *left, *right, operator);
            assert(parse_operator(bytes, pos + 1) == Ok::<(BooleanOperator, int), CsgFormatError>((operator, pos + 2)));
            lemma_parse_node_bytes(bytes, pos + 2, *left);
            lemma_node_bytes_nonempty(*left);
            let p = pos + 2 + node_bytes(*left).len();
            lemma_parse_node_bytes(bytes, p, *right);
            lemma_parse_boolean_step(
                bytes,
                pos,
                operator,
                stored_tree(*left),
                p,
                stored_tree(*right),
                p + node_bytes(*right).len(),
            );
        },
        CSGNode::Transform { node, transform } => {
            lemma_transform_node_bytes(bytes, pos, *node, transform);
            lemma_node_bytes_nonempty(*node);
            lemma_parse_node_bytes(bytes, pos + 37, *node);
            lemma_parse_transform_step(bytes, pos, stored_tree(*node), pos + 37 + node_bytes(*node).len());
        },
        CSGNode::Primitive { primitive, object } => {
            lemma_primitive_bytes(bytes, pos, primitive, *object);
        },
    }
}

/// Reading back the bytes of a tree that the format can hold, whatever
/// follows them, gives the same tree with each leaf's mesh as the bytes
/// store it (`stored_tree`), and stops just after its bytes.
pub proof fn lemma_csg_round_trip(n: CSGNode, rest: Seq<u8>)
    requires
        serializable(n),
    ensures
        parse_csg_node(node_bytes(n) + rest, 0) == Ok::<(CSGNode, int), CsgFormatError>(
            (stored_tree(n), node_bytes(n).len() as int),
        ),
{
    let bytes = node_bytes(n) + rest;
    assert(bytes.subrange(0, node_bytes(n).len() as int) =~= node_bytes(n));
    lemma_parse_node_bytes(bytes, 0, n);
}

/// A tree read back from bytes is again one the format can hold, and
/// writing it out gives the same bytes: saving what was loaded changes
/// nothing.
pub proof fn lemma_stored_tree_same_bytes(n: CSGNode)
    requires
        serializable(n),
    ensures
        serializable(stored_tree(n)),
        node_bytes(stored_tree(n)) == node_bytes(n),
    decreases n,
{
    match n {
        CSGNode::Boolean { left, right, .. } => {
            lemma_stored_tree_same_bytes(*left);
            lemma_stored_tree_same_bytes(*right);
        },
        CSGNode::Transform { node, .. } => {
            lemma_stored_tree_same_bytes(*node);
        },
        CSGNode::Primitive { .. } => {},
    }
}

/// The leaves of a tree, left to right: each leaf's kind and mesh.
pub open spec fn tree_leaves(n: CSGNode) -> Seq<(CSGPrimitives, PrimitiveMesh)>
    decreases n,
{
    match n {
        CSGNode::Boolean { left, right, .. } => tree_leaves(*left) + tree_leaves(*right),
        CSGNode::Transform { node, .. } => tree_leaves(*node),
        CSGNode::Primitive { primitive, object } => seq![(primitive, *object)],
    }
}

impl CSGNode {
    /// Whether the byte format can hold the tree (no leaf of the generic
    /// kind).
    pub fn is_serializable(&self) -> (b: bool)
        ensures
            b == serializable(*self),
        decreases self,
    {
        match self {
            CSGNode::Boolean { left, right, .. } => (&**left).is_serializable() && (&**right).is_serializable(),
            CSGNode::Transform { node, .. } => (&**node).is_serializable(),
            CSGNode::Primitive { primitive, .. } => match primitive {
                CSGPrimitives::Generic => false,
                _ => true,
            },
        }
    }

    /// Appends the leaves of the tree, left to right, to `leaves`.
    pub fn collect_leaves(&self, leaves: &mut Vec<(CSGPrimitives, PrimitiveMesh)>)
        ensures
            final(leaves)@ == old(leaves)@ + tree_leaves(*self),
        decreases self,
    {
        match self {
            CSGNode::Boolean { left, right, .. } => {
                (&**left).collect_leaves(leaves);
                (&**right).collect_leaves(leaves);
                assert(leaves@ =~= old(leaves)@ + tree_leaves(*self));
            },
            CSGNode::Transform { node, .. } => {
                (&**node).collect_leaves(leaves);
            },
            CSGNode::Primitive { primitive, object } => {
                leaves.push((*primitive, **object));
                assert(leaves@ =~= old(leaves)@ + tree_leaves(*self));
            },
        }
    }
}

/// The bytes of a leaf: `2`, then `0` for a cube, `1` for a sphere followed
/// by its big-endian radius, `2` for a cylinder or `3` for a cone followed
/// by the big-endian radius and then the big-endian height.
pub proof fn lemma_leaf_bytes(primitive: CSGPrimitives, m: PrimitiveMesh)
    requires
        primitive != CSGPrimitives::Generic,
    ensures
        node_bytes(CSGNode::Primitive { primitive, object: Box::new(m) }) == match primitive {
            CSGPrimitives::Cube => seq![DIGIT_2, DIGIT_0],
            CSGPrimitives::Sphere => seq![DIGIT_2, DIGIT_1] + word_bytes(m.radius),
            CSGPrimitives::Cylinder => seq![DIGIT_2, DIGIT_2] + word_bytes(m.radius) + word_bytes(m.height),
            _ => seq![DIGIT_2, DIGIT_3] + word_bytes(m.radius) + word_bytes(m.height),
        },
{
    let nb = node_bytes(CSGNode::Primitive { primitive, object: Box::new(m) });
    match primitive {
        CSGPrimitives::Cube => assert(nb =~= seq![DIGIT_2, DIGIT_0]),
        CSGPrimitives::Sphere => assert(nb =~= seq![DIGIT_2, DIGIT_1] + word_bytes(m.radius)),
        CSGPrimitives::Cylinder => assert(nb =~= seq![DIGIT_2, DIGIT_2] + word_bytes(m.radius) + word_bytes(m.height)),
        _ => assert(nb =~= seq![DIGIT_2, DIGIT_3] + word_bytes(m.radius) + word_bytes(m.height)),
    }
}

/// The bytes of a boolean node: `0`, then `0` for a union, `1` for an
/// intersection or `2` for a difference, then the left and the right
/// subtree; those of a transform node: `1`, the 36 bytes of its placement,
/// then its subtree.
pub proof fn lemma_inner_node_bytes(left: CSGNode, right: CSGNode, operator: BooleanOperator, transform: TransformBits)
    ensures
        node_bytes(CSGNode::Boolean { left: Box::new(left), right: Box::new(right), operator }) == seq![
            DIGIT_0,
            match operator {
                BooleanOperator::UNION => DIGIT_0,
                BooleanOperator::INTERSECTION => DIGIT_1,
                BooleanOperator::DIFFERENCE => DIGIT_2,
            },
        ] + node_bytes(left) + node_bytes(right),
        node_bytes(CSGNode::Transform { node: Box::new(left), transform }) == seq![DIGIT_1] + transform_bytes(
            transform,
        ) + node_bytes(left),
{
}

/// Reading bytes that start with a leaf, whatever follows: `2 0` is a cube;
/// `2 1` and a big-endian word is a sphere of that radius; `2 2` (a
/// cylinder) or `2 3` (a cone) and two big-endian words have the first word
/// as radius and the second as height. The mesh is new to the GPU lists,
/// round kinds get the default subdivisions, and reading stops after the
/// leaf.
pub proof fn lemma_read_leaf(kind: u8, radius: u32, height: u32, rest: Seq<u8>)
    requires
        kind == DIGIT_0 || kind == DIGIT_1 || kind == DIGIT_2 || kind == DIGIT_3,
    ensures
        kind == DIGIT_0 ==> parse_csg_node(seq![DIGIT_2, kind] + rest, 0) == Ok::<(CSGNode, int), CsgFormatError>(
            (
                CSGNode::Primitive {
                    primitive: CSGPrimitives::Cube,
                    object: Box::new(PrimitiveMesh { radius: 0, height: 0, subdivisions: 0, list_id: UNPLACED_LIST_ID }),
                },
                2,
            ),
        ),
        kind == DIGIT_1 ==> parse_csg_node(seq![DIGIT_2, kind] + word_bytes(radius) + rest, 0) == Ok::<
            (CSGNode, int),
            CsgFormatError,
        >(
            (
                CSGNode::Primitive {
                    primitive: CSGPrimitives::Sphere,
                    object: Box::new(
                        PrimitiveMesh {
                            radius,
                            height: 0,
                            subdivisions: DEFAULT_SUBDIVISIONS,
                            list_id: UNPLACED_LIST_ID,
                        },
                    ),
                },
                6,
            ),
        ),
        kind == DIGIT_2 || kind == DIGIT_3 ==> parse_csg_node(
            seq![DIGIT_2, kind] + word_bytes(radius) + word_bytes(height) + rest,
            0,
        ) == Ok::<(CSGNode, int), CsgFormatError>(
            (
                CSGNode::Primitive {
                    primitive: if kind == DIGIT_2 {
                        CSGPrimitives::Cylinder
                    } else {
                        CSGPrimitives::Cone
                    },
                    object: Box::new(
                        PrimitiveMesh { radius, height, subdivisions: DEFAULT_SUBDIVISIONS, list_id: UNPLACED_LIST_ID },
                    ),
                },
                10,
            ),
        ),
{
    if kind == DIGIT_0 {
        let bytes = seq![DIGIT_2, kind] + rest;
        assert(bytes[0] == DIGIT_2 && bytes[1] == kind);
    } else if kind == DIGIT_1 {
        let bytes = seq![DIGIT_2, kind] + word_bytes(radius) + rest;
        assert(bytes[0] == DIGIT_2 && bytes[1] == kind);
        assert(bytes.subrange(2, 6) =~= word_bytes(radius));
        lemma_word_at(bytes, 2, radius);
    } else {
        let bytes = seq![DIGIT_2, kind] + word_bytes(radius) + word_bytes(height) + rest;
        assert(bytes[0] == DIGIT_2 && bytes[1] == kind);
        assert(bytes.subrange(2, 6) =~= word_bytes(radius));
        assert(bytes.subrange(6, 10) =~= word_bytes(height));
        lemma_word_at(bytes, 2, radius);
        lemma_word_at(bytes, 6, height);
    }
}

} // verus!
