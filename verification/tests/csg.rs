use geomodel::csg::{CSGPrimitives, RotationBits, TransformBits, Vec3Bits};
use geomodel::csg_format::CsgFormatError;
use geomodel::csg_gpu::GPUHeapNode;
use geomodel::csg_object::CSGObject;
use geomodel::csg_tree::{CSGNode, MeshObject, PrimitiveMesh, DEFAULT_SUBDIVISIONS, UNPLACED_LIST_ID};
use geomodel::octree::BooleanOperator;

const TWO: u32 = 0x4000_0000;
const THREE: u32 = 0x4040_0000;

fn identity_bytes() -> Vec<u8> {
    let mut v = vec![0u8; 24];
    for _ in 0..3 {
        v.extend_from_slice(&[0x3f, 0x80, 0x00, 0x00]);
    }
    v
}

fn is_random_uuid(id: u128) -> bool {
    let u = uuid::Uuid::from_u128(id);
    u.get_version_num() == 4 && u.get_variant() == uuid::Variant::RFC4122
}

#[test]
fn primitive_digits_round_trip() {
    let kinds = [CSGPrimitives::Cube, CSGPrimitives::Sphere, CSGPrimitives::Cylinder, CSGPrimitives::Cone];
    let mut bytes = Vec::new();
    for k in kinds.iter() {
        k.serialize(&mut bytes);
    }
    assert_eq!(bytes, b"0123".to_vec());
    for (i, k) in kinds.iter().enumerate() {
        assert_eq!(CSGPrimitives::deserialize(&bytes, i), Ok((*k, i + 1)));
    }
    assert_eq!(CSGPrimitives::deserialize(b"0", 1), Err(CsgFormatError::UnexpectedEnd));
}

#[test]
fn operator_digits_and_names() {
    let mut bytes = Vec::new();
    BooleanOperator::UNION.serialize(&mut bytes);
    BooleanOperator::INTERSECTION.serialize(&mut bytes);
    BooleanOperator::DIFFERENCE.serialize(&mut bytes);
    assert_eq!(bytes, b"012".to_vec());
    assert_eq!(BooleanOperator::deserialize(&bytes, 2), Ok((BooleanOperator::DIFFERENCE, 3)));
    assert_eq!(BooleanOperator::deserialize(b"3", 0), Err(CsgFormatError::InvalidByte));
    assert_eq!(BooleanOperator::UNION.to_string(), "Union");
    assert_eq!(BooleanOperator::INTERSECTION.to_string(), "Intersection");
    assert_eq!(BooleanOperator::DIFFERENCE.to_string(), "Difference");
}

#[test]
fn transform_bytes_are_big_endian_words() {
    let mut bytes = Vec::new();
    TransformBits::new().serialize(&mut bytes);
    assert_eq!(bytes, identity_bytes());

    let t = TransformBits {
        translation: Vec3Bits { x: 0x0102_0304, y: 5, z: 6 },
        rotation: RotationBits { yaw: 7, pitch: 8, roll: 9 },
        scale: Vec3Bits { x: 10, y: 11, z: 0xa0b0_c0d0 },
    };
    let mut bytes = vec![0xee];
    t.serialize(&mut bytes);
    assert_eq!(bytes.len(), 37);
    assert_eq!(&bytes[1..5], &[1, 2, 3, 4]);
    assert_eq!(&bytes[33..37], &[0xa0, 0xb0, 0xc0, 0xd0]);
    assert_eq!(TransformBits::deserialize(&bytes, 1), Ok(t));
    assert_eq!(TransformBits::deserialize(&bytes, 2), Err(CsgFormatError::UnexpectedEnd));
    assert_eq!(TransformBits::deserialize(&bytes[..36], 1), Err(CsgFormatError::UnexpectedEnd));
    assert_eq!(TransformBits::deserialize(&bytes, 100), Err(CsgFormatError::UnexpectedEnd));
}

#[test]
fn cube_object_bytes() {
    let cube = CSGObject::new_cube(String::from("Box"));
    assert!(is_random_uuid(cube.id));
    let mut bytes = Vec::new();
    cube.serialize(&mut bytes);
    let mut expected = vec![b'1'];
    expected.extend(identity_bytes());
    expected.extend_from_slice(b"20");
    assert_eq!(bytes, expected);
}

#[test]
fn sphere_object_round_trip() {
    let sphere = CSGObject::new_sphere(String::from("Ball"), TWO, 12);
    let mut bytes = Vec::new();
    sphere.serialize(&mut bytes);
    assert_eq!(&bytes[37..], &[b'2', b'1', 0x40, 0, 0, 0]);

    let back = CSGObject::deserialize(String::from("Loaded"), &bytes).unwrap();
    assert_eq!(back.name, "Loaded");
    assert_eq!(back.transform, TransformBits::new());
    assert!(is_random_uuid(back.id));
    match back.root {
        CSGNode::Primitive { primitive, object } => {
            assert_eq!(primitive, CSGPrimitives::Sphere);
            assert_eq!(
                *object,
                PrimitiveMesh { radius: TWO, height: 0, subdivisions: DEFAULT_SUBDIVISIONS, list_id: UNPLACED_LIST_ID }
            );
        },
        _ => panic!("expected a leaf"),
    }
}

#[test]
fn cylinder_and_cone_store_radius_and_height() {
    let mut c = CSGObject::new_cylinder(String::from("C"), TWO, THREE, 8);
    let cone = CSGObject::new_cone(String::from("K"), THREE, TWO, 8);
    c.boolean(&cone, BooleanOperator::DIFFERENCE);
    assert_eq!(c.name, "C Difference K");
    let mut bytes = Vec::new();
    c.serialize(&mut bytes);
    let (tree, end) = CSGNode::deserialize(&bytes, 0).unwrap();
    assert_eq!(end, bytes.len());
    let mut again = Vec::new();
    tree.serialize(&mut again);
    assert_eq!(again, bytes);
}

#[test]
fn boolean_combines_placed_trees() {
    let mut left = CSGObject::new_cube(String::from("A"));
    left.transform.translation.x = 0x3f80_0000;
    let right = CSGObject::new_sphere(String::from("B"), TWO, 10);
    let id = left.id;
    left.boolean(&right, BooleanOperator::UNION);
    assert_eq!(left.name, "A Union B");
    assert_eq!(left.id, id);
    assert_eq!(left.transform, TransformBits::new());
    match &left.root {
        CSGNode::Boolean { left: l, right: r, operator } => {
            assert_eq!(*operator, BooleanOperator::UNION);
            match &**l {
                CSGNode::Transform { node, transform } => {
                    assert_eq!(transform.translation.x, 0x3f80_0000);
                    assert!(matches!(**node, CSGNode::Primitive { primitive: CSGPrimitives::Cube, .. }));
                },
                _ => panic!("left operand must be placed"),
            }
            match &**r {
                CSGNode::Transform { node, transform } => {
                    assert_eq!(*transform, TransformBits::new());
                    assert!(matches!(**node, CSGNode::Primitive { primitive: CSGPrimitives::Sphere, .. }));
                },
                _ => panic!("right operand must be placed"),
            }
        },
        _ => panic!("expected a boolean node"),
    }
}

#[test]
fn malformed_bytes_are_refused() {
    assert_eq!(CSGObject::deserialize(String::new(), &[]).err(), Some(CsgFormatError::UnexpectedEnd));
    assert_eq!(CSGObject::rejection(&[]), None);
    assert_eq!(CSGObject::rejection(b"9"), Some(CsgFormatError::InvalidByte));
    assert_eq!(CSGObject::rejection(b"20"), Some(CsgFormatError::RootNotTransform));
    assert_eq!(CSGObject::rejection(b"0920"), Some(CsgFormatError::InvalidByte));
    assert_eq!(CSGObject::rejection(b"24"), Some(CsgFormatError::InvalidByte));
    assert_eq!(CSGObject::rejection(b"1000"), None);
    let mut good = Vec::new();
    CSGObject::new_cube(String::from("Box")).serialize(&mut good);
    assert_eq!(CSGObject::rejection(&good), None);
    good.push(b'9');
    assert_eq!(CSGObject::rejection(&good), None);
    assert_eq!(CSGNode::deserialize(&[b'2', b'1', 0, 0], 0).err(), Some(CsgFormatError::UnexpectedEnd));
    assert_eq!(CSGNode::deserialize(b"1000", 0).err(), Some(CsgFormatError::UnexpectedEnd));
    assert_eq!(CSGNode::deserialize(b"0020", 0).err(), Some(CsgFormatError::UnexpectedEnd));
}

#[test]
fn boolean_heap_layout() {
    let mut a = CSGObject::new_cube(String::from("A"));
    let mut b = CSGObject::new_sphere(String::from("B"), TWO, 4);
    if let CSGNode::Primitive { object, .. } = &mut a.root {
        object.list_id = 7;
    }
    if let CSGNode::Primitive { object, .. } = &mut b.root {
        object.list_id = 9;
    }
    a.boolean(&b, BooleanOperator::INTERSECTION);
    let empty = GPUHeapNode { _type: 0, _id: 0 };
    let mut heap = vec![empty; 4];
    a.root.get_boolean_heap(&mut heap, 0);
    assert_eq!(heap[0], GPUHeapNode { _type: 1, _id: 1 });
    assert_eq!(heap[1], GPUHeapNode { _type: 2, _id: 7 });
    assert_eq!(heap[2], GPUHeapNode { _type: 3, _id: 9 });
    assert_eq!(heap[3], empty);
}

#[test]
fn heap_node_bytes() {
    let node = GPUHeapNode { _type: 5, _id: 0x0102_0304 };
    let mut expected = 5u32.to_ne_bytes().to_vec();
    expected.extend_from_slice(&0x0102_0304u32.to_ne_bytes());
    assert_eq!(node.to_bytes(), expected);
}

#[test]
fn tree_and_mesh_copies() {
    let mut a = CSGObject::new_cone(String::from("A"), TWO, THREE, 6);
    let b = CSGObject::new_cube(String::from("B"));
    a.boolean(&b, BooleanOperator::UNION);
    let copy = a.root.clone();
    let mut x = Vec::new();
    let mut y = Vec::new();
    a.root.serialize(&mut x);
    copy.serialize(&mut y);
    assert_eq!(x, y);
    let m = PrimitiveMesh::new(TWO, THREE, 6);
    assert_eq!(*m.clone_box(), m);
}

#[test]
fn combined_names() {
    use_names();
}

fn use_names() {
    let name = geomodel::csg_object::combine_names(&String::from("Ball"), BooleanOperator::INTERSECTION, &String::from(""));
    assert_eq!(name, "Ball Intersection ");
}

#[test]
fn object_copy_keeps_tree_and_placement() {
    let mut a = CSGObject::new_sphere(String::from("Ball"), TWO, 8);
    a.transform.translation = Vec3Bits { x: THREE, y: 0, z: TWO };
    let c = a.copy();
    assert_eq!(c.name, "Ball Copy");
    assert_ne!(c.id, a.id);
    assert!(is_random_uuid(c.id));
    assert_eq!(c.transform, a.transform);
    let mut x = Vec::new();
    let mut y = Vec::new();
    a.serialize(&mut x);
    c.serialize(&mut y);
    assert_eq!(x, y);
}
