use vstd::prelude::*;

use crate::csg::{identity_transform, CSGPrimitives, TransformBits};
use crate::csg_format::{operator_byte, operator_label, CsgFormatError, DIGIT_0, DIGIT_1};
use crate::csg_tree::{
    fresh_mesh, lemma_csg_round_trip, lemma_parse_errors, node_bytes, parse_csg_node, serializable, stored_tree, CSGNode,
    PrimitiveMesh,
};
use crate::ids::{is_random_uuid, new_object_id};
use crate::octree::BooleanOperator;

verus! {

/// A solid built by constructive solid geometry: a named tree of boolean
/// operations on primitives, placed in the scene by `transform`.
#[derive(Debug)]
pub struct CSGObject {
    pub id: u128,
    pub name: String,
    pub transform: TransformBits,
    pub root: CSGNode,
}

/// The tree under which an object is stored: its own placement over its
/// tree.
pub open spec fn object_tree(o: CSGObject) -> CSGNode {
    CSGNode::Transform { node: Box::new(o.root), transform: o.transform }
}

/// A leaf of the given kind over the given mesh.
pub open spec fn leaf(primitive: CSGPrimitives, m: PrimitiveMesh) -> CSGNode {
    CSGNode::Primitive { primitive, object: Box::new(m) }
}

/// The name of the object that combines `left` and `right` by `op`: the two
/// names with the operator's name between them, separated by spaces.
pub open spec fn combined_name(left: Seq<char>, op: BooleanOperator, right: Seq<char>) -> Seq<char> {
    left + " "@ + operator_label(op) + " "@ + right
}

/// The name of the object that combines `left` and `right` by `operator`
/// (see `combined_name`).
pub fn combine_names(left: &String, operator: BooleanOperator, right: &String) -> (name: String)
    ensures
        name@ == combined_name(left@, operator, right@),
{
    let mut name = left.clone();
    name.append(" ");
    let label = operator.to_string();
    name.append(label.as_str());
    name.append(" ");
    name.append(right.as_str());
    name
}

/// Why the bytes of an object are refused: a tag, operator or primitive
/// kind that is not one of its digits (`InvalidByte`), or a tree whose root
/// is not a transform node (`RootNotTransform`); `None` for bytes that read
/// as an object or merely end too soon.
pub open spec fn object_rejection(bytes: Seq<u8>) -> Option<CsgFormatError> {
    match parse_csg_node(bytes, 0) {
        Err(CsgFormatError::InvalidByte) => Some(CsgFormatError::InvalidByte),
        Ok((CSGNode::Transform { .. }, _)) => None,
        Ok(_) => Some(CsgFormatError::RootNotTransform),
        Err(_) => None,
    }
}

impl CSGObject {
    fn new(name: String, root: CSGNode) -> (o: Self)
        ensures
            o.name == name,
            o.root == root,
            o.transform == identity_transform(),
            is_random_uuid(o.id),
    {
        CSGObject { id: new_object_id(), name, transform: TransformBits::new(), root }
    }

    /// A unit cube, not moved.
    pub fn new_cube(name: String) -> (o: Self)
        ensures
            o.name == name,
            o.root == leaf(CSGPrimitives::Cube, fresh_mesh(0, 0, 0)),
            o.transform == identity_transform(),
            is_random_uuid(o.id),
    {
        let root = CSGNode::Primitive { primitive: CSGPrimitives::Cube, object: Box::new(PrimitiveMesh::new(0, 0, 0)) };
        CSGObject::new(name, root)
    }

    /// A sphere of the given radius (the bits of a single-precision number),
    /// not moved.
    pub fn new_sphere(name: String, radius: u32, subdivisions: u32) -> (o: Self)
        ensures
            o.name == name,
            o.root == leaf(CSGPrimitives::Sphere, fresh_mesh(radius, 0, subdivisions)),
            o.transform == identity_transform(),
            is_random_uuid(o.id),
    {
        let root = CSGNode::Primitive {
            primitive: CSGPrimitives::Sphere,
            object: Box::new(PrimitiveMesh::new(radius, 0, subdivisions)),
        };
        CSGObject::new(name, root)
    }

    /// A cylinder of the given radius and height (bits of single-precision
    /// numbers), not moved.
    pub fn new_cylinder(name: String, radius: u32, height: u32, subdivisions: u32) -> (o: Self)
        ensures
            o.name == name,
            o.root == leaf(CSGPrimitives::Cylinder, fresh_mesh(radius, height, subdivisions)),
            o.transform == identity_transform(),
            is_random_uuid(o.id),
    {
        let root = CSGNode::Primitive {
            primitive: CSGPrimitives::Cylinder,
            object: Box::new(PrimitiveMesh::new(radius, height, subdivisions)),
        };
        CSGObject::new(name, root)
    }

    /// A cone of the given radius and height (bits of single-precision
    /// numbers), not moved.
    pub fn new_cone(name: String, radius: u32, height: u32, subdivisions: u32) -> (o: Self)
        ensures
            o.name == name,
            o.root == leaf(CSGPrimitives::Cone, fresh_mesh(radius, height, subdivisions)),
            o.transform == identity_transform(),
            is_random_uuid(o.id),
    {
        let root = CSGNode::Primitive {
            primitive: CSGPrimitives::Cone,
            object: Box::new(PrimitiveMesh::new(radius, height, subdivisions)),
        };
        CSGObject::new(name, root)
    }

    /// Combines this object with `right` by `operator`: the new tree applies
    /// the operator to the two trees, each under its object's placement; the
    /// object takes the combined name and is no longer moved itself.
    pub fn boolean(&mut self, right: &CSGObject, operator: BooleanOperator)
        ensures
            final(self).root == (CSGNode::Boolean {
                left: Box::new(object_tree(*old(self))),
                right: Box::new(object_tree(*right)),
                operator,
            }),
            final(self).name@ == combined_name(old(self).name@, operator, right.name@),
            final(self).transform == identity_transform(),
            final(self).id == old(self).id,
    {
        let left_transform_node = CSGNode::Transform { node: Box::new(self.root.clone()), transform: self.transform };
        let right_transform_node = CSGNode::Transform { node: Box::new(right.root.clone()), transform: right.transform };
        self.root = CSGNode::Boolean {
            left: Box::new(left_transform_node),
            right: Box::new(right_transform_node),
            operator,
        };
        let name = combine_names(&self.name, operator, &right.name);
        self.name = name;
        self.transform = TransformBits::new();
    }

    /// A copy of the object under a fresh identifier, named after it with
    /// " Copy" appended: same tree, same placement.
    pub fn copy(&self) -> (c: Self)
        ensures
            c.name@ == self.name@ + " Copy"@,
            c.root == self.root,
            c.transform == self.transform,
            is_random_uuid(c.id),
    {
        let mut name = self.name.clone();
        name.append(" Copy");
        CSGObject { id: new_object_id(), name, transform: self.transform, root: self.root.clone() }
    }

    /// Appends the bytes of the object: its tree under a transform node that
    /// holds its placement.
    pub fn serialize(&self, writer: &mut Vec<u8>)
        requires
            serializable(self.root),
        ensures
            final(writer)@ == old(writer)@ + node_bytes(object_tree(*self)),
    {
        writer.push(DIGIT_1);
        self.transform.serialize(writer);
        self.root.serialize(writer);
        assert(writer@ =~= old(writer)@ + node_bytes(object_tree(*self)));
    }

    /// Reads an object from the start of `bytes` under the given name: the
    /// bytes hold a tree whose root is a transform node, which gives the
    /// object's placement and tree. The object gets a fresh identifier. Fails
    /// with `UnexpectedEnd` where the bytes end before the tree is complete.
    /// The bytes must be ones the format takes with a transform node at the
    /// root (`rejection` tells).
    pub fn deserialize(name: String, bytes: &[u8]) -> (res: Result<CSGObject, CsgFormatError>)
        requires
            object_rejection(bytes@) is None,
        ensures
            match parse_csg_node(bytes@, 0) {
                Err(x) => res == Err::<CSGObject, CsgFormatError>(x) && x == CsgFormatError::UnexpectedEnd,
                Ok((CSGNode::Transform { node, transform }, _)) => res is Ok && res->Ok_0.name == name
                    && res->Ok_0.root == *node && res->Ok_0.transform == transform && is_random_uuid(
                    res->Ok_0.id,
                ),
                Ok(_) => false,
            },
    {
        proof {
            lemma_parse_errors(bytes@, 0);
        }
        let (root, _) = CSGNode::read_node(bytes, 0)?;
        match root {
            CSGNode::Transform { node, transform } => {
                let mut object = CSGObject::new(name, *node);
                object.transform = transform;
                Ok(object)
            },
            _ => Err(CsgFormatError::RootNotTransform),
        }
    }

    /// Why the bytes are not ones `deserialize` takes, if they are not (see
    /// `object_rejection`).
    pub fn rejection(bytes: &[u8]) -> (r: Option<CsgFormatError>)
        ensures
            r == object_rejection(bytes@),
    {
        match CSGNode::read_node(bytes, 0) {
            Err(CsgFormatError::InvalidByte) => Some(CsgFormatError::InvalidByte),
            Ok((CSGNode::Transform { .. }, _)) => None,
            Ok(_) => Some(CsgFormatError::RootNotTransform),
            Err(_) => None,
        }
    }
}

/// Reading back the bytes of an object whose tree the format can hold,
/// whatever follows them, gives a transform node with the object's
/// placement over its tree as the bytes store it (`stored_tree`), and stops
/// just after the object's bytes.
pub proof fn lemma_object_round_trip(o: CSGObject, rest: Seq<u8>)
    requires
        serializable(o.root),
    ensures
        parse_csg_node(node_bytes(object_tree(o)) + rest, 0) == Ok::<(CSGNode, int), CsgFormatError>(
            (
                CSGNode::Transform { node: Box::new(stored_tree(o.root)), transform: o.transform },
                node_bytes(object_tree(o)).len() as int,
            ),
        ),
{
    lemma_csg_round_trip(object_tree(o), rest);
}

/// Combining two objects whose trees the format can hold gives a tree the
/// format can hold, and its bytes are the operator's, then the bytes of the
/// two operands as stored objects.
pub proof fn lemma_boolean_serializable(left: CSGObject, right: CSGObject, operator: BooleanOperator)
    requires
        serializable(left.root),
        serializable(right.root),
    ensures
        serializable(
            CSGNode::Boolean {
                left: Box::new(object_tree(left)),
                right: Box::new(object_tree(right)),
                operator,
            },
        ),
        node_bytes(
            CSGNode::Boolean {
                left: Box::new(object_tree(left)),
                right: Box::new(object_tree(right)),
                operator,
            },
        ) == seq![DIGIT_0, operator_byte(operator)] + node_bytes(object_tree(left)) + node_bytes(
            object_tree(right),
        ),
{
    assert(serializable(object_tree(left)));
    assert(serializable(object_tree(right)));
}

} // verus!
