use geomodel::octree::{combine_node_types, BooleanOperator, OctreeFormatError, OctreeNode, OctreeNodeType};
use geomodel::octree::OctreeNodeType::{IN, OUT, PARTIAL};

fn node_of(bytes: &[u8], max_depth: u32) -> (OctreeNode, u32, usize) {
    OctreeNode::deserialize(bytes, 0, 0, max_depth).unwrap()
}

fn bytes_of(node: &OctreeNode) -> Vec<u8> {
    let mut out = Vec::new();
    node.serialize(&mut out);
    out
}

#[test]
fn leaves_are_single_letters() {
    assert_eq!(bytes_of(&OctreeNode::new(OctreeNodeType::IN)), b"B".to_vec());
    assert_eq!(bytes_of(&OctreeNode::new(OctreeNodeType::OUT)), b"W".to_vec());
    assert_eq!(bytes_of(&OctreeNode::new(OctreeNodeType::PARTIAL)), b"B".to_vec());
    assert!(OctreeNode::new(OctreeNodeType::IN).is_leaf());
}

#[test]
fn subdivided_node_round_trip() {
    let text = b"(BW(BBBBWWWWBWBWB";
    let (node, arrived, end) = node_of(text, 5);
    assert_eq!(end, text.len());
    assert_eq!(arrived, 2);
    assert_eq!(node.node_type, OctreeNodeType::PARTIAL);
    let children = node.children.as_ref().unwrap();
    assert_eq!(children.len(), 8);
    assert_eq!(children[0].node_type, OctreeNodeType::IN);
    assert_eq!(children[1].node_type, OctreeNodeType::OUT);
    assert_eq!(children[2].node_type, OctreeNodeType::PARTIAL);
    assert_eq!(bytes_of(&node), text.to_vec());
    let copy = node.clone();
    assert_eq!(bytes_of(&copy), text.to_vec());
}

#[test]
fn depth_limit_reads_subdivided_node_as_inside() {
    let text = b"(BW(BBBBWWWWBWBWB";
    let (node, arrived, end) = node_of(text, 0);
    assert_eq!(end, text.len());
    assert_eq!(arrived, 0);
    assert_eq!(node.node_type, OctreeNodeType::IN);
    assert!(node.is_leaf());

    let (node, arrived, _) = node_of(text, 1);
    assert_eq!(arrived, 1);
    let children = node.children.as_ref().unwrap();
    assert_eq!(children[2].node_type, OctreeNodeType::IN);
    assert!(children[2].is_leaf());
}

#[test]
fn limited_read_ignores_following_bytes() {
    let text = b"(BW(BBBBWWWWBWBWBXYZ";
    let (node, arrived, end) = node_of(text, 1);
    assert_eq!(end, 17);
    assert_eq!(arrived, 1);
    assert_eq!(bytes_of(&node), b"(BWBBWBWB".to_vec());
    let (whole, arrived, end) = node_of(text, 2);
    assert_eq!((arrived, end), (2, 17));
    assert_eq!(bytes_of(&whole), text[..17].to_vec());
}

#[test]
fn truncated_children_leave_node_without_children() {
    let (node, arrived, end) = node_of(b"(BW", 4);
    assert_eq!(node.node_type, OctreeNodeType::PARTIAL);
    assert!(node.is_leaf());
    assert_eq!(arrived, 1);
    assert_eq!(end, 3);
}

#[test]
fn malformed_octree_bytes() {
    assert_eq!(OctreeNode::deserialize(b"", 0, 0, 3).err(), Some(OctreeFormatError::UnexpectedEnd));
    assert!(OctreeNode::has_invalid_byte(b"X", 0, 0, 3));
    assert!(OctreeNode::has_invalid_byte(b"(BX", 0, 0, 3));
    assert!(OctreeNode::has_invalid_byte(b"(BBZ", 0, 0, 0));
    assert!(OctreeNode::has_invalid_byte(b"(BBZ", 0, 0, 3));
    assert!(!OctreeNode::has_invalid_byte(b"(BW", 0, 0, 3));
    assert!(!OctreeNode::has_invalid_byte(b"BZ", 0, 0, 3));
    assert!(!OctreeNode::has_invalid_byte(b"", 0, 0, 3));
    assert_eq!(OctreeNode::deserialize(b"(BB", 0, 0, 0).err(), Some(OctreeFormatError::UnexpectedEnd));
    assert_eq!(OctreeNode::deserialize_skip_node(b"BBBBWWWW", 0), Ok(8));
    assert_eq!(OctreeNode::deserialize_skip_node(b"(BBBBWWWWBBBBBBB", 0), Ok(16));
    assert_eq!(OctreeNode::deserialize_skip_node(b"BBW", 0), Err(OctreeFormatError::UnexpectedEnd));
}

#[test]
fn boolean_node_types() {
    assert_eq!(combine_node_types(BooleanOperator::UNION, IN, OUT), IN);
    assert_eq!(combine_node_types(BooleanOperator::UNION, OUT, OUT), OUT);
    assert_eq!(combine_node_types(BooleanOperator::UNION, PARTIAL, OUT), PARTIAL);
    assert_eq!(combine_node_types(BooleanOperator::INTERSECTION, IN, PARTIAL), PARTIAL);
    assert_eq!(combine_node_types(BooleanOperator::INTERSECTION, PARTIAL, OUT), OUT);
    assert_eq!(combine_node_types(BooleanOperator::INTERSECTION, IN, IN), IN);
    assert_eq!(combine_node_types(BooleanOperator::DIFFERENCE, IN, OUT), IN);
    assert_eq!(combine_node_types(BooleanOperator::DIFFERENCE, PARTIAL, IN), OUT);
    assert_eq!(combine_node_types(BooleanOperator::DIFFERENCE, IN, PARTIAL), PARTIAL);
    assert_eq!(combine_node_types(BooleanOperator::DIFFERENCE, OUT, PARTIAL), OUT);
}

#[test]
fn boolean_laws_on_every_type() {
    let all = [IN, OUT, PARTIAL];
    let complement = |t: OctreeNodeType| match t {
        IN => OUT,
        OUT => IN,
        PARTIAL => PARTIAL,
    };
    for &a in all.iter() {
        assert_eq!(combine_node_types(BooleanOperator::UNION, a, OUT), a);
        assert_eq!(combine_node_types(BooleanOperator::INTERSECTION, a, IN), a);
        assert_eq!(combine_node_types(BooleanOperator::DIFFERENCE, a, OUT), a);
        assert_eq!(combine_node_types(BooleanOperator::DIFFERENCE, a, IN), OUT);
        assert_eq!(combine_node_types(BooleanOperator::UNION, a, a), a);
        assert_eq!(combine_node_types(BooleanOperator::INTERSECTION, a, a), a);
        for &b in all.iter() {
            assert_eq!(combine_node_types(BooleanOperator::UNION, a, b), combine_node_types(BooleanOperator::UNION, b, a));
            assert_eq!(
                combine_node_types(BooleanOperator::INTERSECTION, a, b),
                combine_node_types(BooleanOperator::INTERSECTION, b, a)
            );
            assert_eq!(
                combine_node_types(BooleanOperator::DIFFERENCE, a, b),
                combine_node_types(BooleanOperator::INTERSECTION, a, complement(b))
            );
        }
    }
}

#[test]
fn box_against_stored_tree() {
    let (tree, _, _) = node_of(b"(BW(BBBBWWWWBWBWB", 5);
    let everywhere = |_: &[u8]| true;
    let nowhere = |_: &[u8]| false;
    assert_eq!(tree.node_type_at(&everywhere, &mut Vec::new()), PARTIAL);
    assert_eq!(tree.node_type_at(&nowhere, &mut Vec::new()), OUT);
    let first_octant = |path: &[u8]| path.iter().all(|&o| o == 0);
    assert_eq!(tree.node_type_at(&first_octant, &mut Vec::new()), PARTIAL);

    let (full, _, _) = node_of(b"(BBBBBBBB", 5);
    assert_eq!(full.node_type_at(&everywhere, &mut Vec::new()), IN);
    let root_only = |path: &[u8]| path.is_empty();
    assert_eq!(full.node_type_at(&root_only, &mut Vec::new()), OUT);
    let mut path = vec![3, 1];
    assert_eq!(full.node_type_at(&everywhere, &mut path), IN);
    assert_eq!(path, vec![3, 1]);

    let (leaf, _, _) = node_of(b"W", 5);
    assert_eq!(leaf.node_type_at(&everywhere, &mut Vec::new()), OUT);
    let (leaf, _, _) = node_of(b"B", 5);
    assert_eq!(leaf.node_type_at(&everywhere, &mut Vec::new()), IN);
}
