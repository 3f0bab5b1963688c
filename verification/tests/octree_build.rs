use geomodel::octree::{OctreeNode, OctreeNodeType};

fn inside_first_octant(path: &[u8]) -> OctreeNodeType {
    // The solid fills octant 0 of octant 0: the octants on that path cross
    // its boundary above depth 2, the one at depth 2 is inside, every other
    // octant is outside.
    if path.iter().any(|&o| o != 0) {
        OctreeNodeType::OUT
    } else if path.len() >= 2 {
        OctreeNodeType::IN
    } else {
        OctreeNodeType::PARTIAL
    }
}

fn cells_of(node: &OctreeNode) -> Vec<Vec<u8>> {
    let mut path = Vec::new();
    let mut cells = Vec::new();
    node.collect_filled_cells(&mut path, &mut cells);
    assert!(path.is_empty());
    cells
}

#[test]
fn generation_subdivides_crossing_octants() {
    let root = OctreeNode::generate_octree(&inside_first_octant, 5);
    assert_eq!(root.node_type, OctreeNodeType::PARTIAL);
    let children = root.children.as_ref().unwrap();
    assert_eq!(children.len(), 8);
    assert_eq!(children[0].node_type, OctreeNodeType::PARTIAL);
    let grandchildren = children[0].children.as_ref().unwrap();
    assert_eq!(grandchildren[0].node_type, OctreeNodeType::IN);
    assert!(grandchildren[0].is_leaf());
    for c in children.iter().skip(1).chain(grandchildren.iter().skip(1)) {
        assert_eq!(c.node_type, OctreeNodeType::OUT);
        assert!(c.is_leaf());
    }
    let mut bytes = Vec::new();
    root.serialize(&mut bytes);
    assert_eq!(bytes, b"((BWWWWWWWWWWWWWW".to_vec());
    assert_eq!(cells_of(&root), vec![vec![0, 0]]);
}

#[test]
fn generation_stops_at_depth_limit() {
    let always_crossing = |_: &[u8]| OctreeNodeType::PARTIAL;
    let root = OctreeNode::generate_octree(&always_crossing, 2);
    let children = root.children.as_ref().unwrap();
    for c in children.iter() {
        assert_eq!(c.node_type, OctreeNodeType::PARTIAL);
        let grandchildren = c.children.as_ref().unwrap();
        assert_eq!(grandchildren.len(), 8);
        for g in grandchildren.iter() {
            assert_eq!(g.node_type, OctreeNodeType::PARTIAL);
            assert!(g.is_leaf());
        }
    }
    assert_eq!(cells_of(&root).len(), 64);

    let mut bytes = Vec::new();
    root.serialize(&mut bytes);
    assert_eq!(bytes.len(), 1 + 8 * 9);
    let (back, arrived, end) = OctreeNode::deserialize(&bytes, 0, 0, 2).unwrap();
    assert_eq!(arrived, 2);
    assert_eq!(end, bytes.len());
    assert_eq!(cells_of(&back), cells_of(&root));
    let grand = &back.children.as_ref().unwrap()[3].children.as_ref().unwrap()[5];
    assert_eq!(grand.node_type, OctreeNodeType::IN);

    let flat = OctreeNode::generate_octree(&always_crossing, 0);
    assert!(flat.is_leaf());
    assert_eq!(cells_of(&flat), vec![Vec::<u8>::new()]);
}

#[test]
fn filled_cells_in_depth_first_order() {
    let root = OctreeNode::generate_octree(&|p: &[u8]| {
        if p == [1] || p == [2, 7] {
            OctreeNodeType::IN
        } else if p == [2] {
            OctreeNodeType::PARTIAL
        } else {
            OctreeNodeType::OUT
        }
    }, 4);
    assert_eq!(cells_of(&root), vec![vec![1], vec![2, 7]]);
}

#[test]
fn generated_octree_reads_back_with_deeper_limits() {
    let root = OctreeNode::generate_octree(&inside_first_octant, 5);
    let mut bytes = Vec::new();
    root.serialize(&mut bytes);
    for limit in [2u32, 3, 5, 9] {
        let (node, arrived, end) = OctreeNode::deserialize(&bytes, 0, 0, limit).unwrap();
        assert_eq!(arrived, 2);
        assert_eq!(end, bytes.len());
        let mut again = Vec::new();
        node.serialize(&mut again);
        assert_eq!(again, bytes);
        assert_eq!(cells_of(&node), cells_of(&root));
    }
    let (cut, arrived, end) = OctreeNode::deserialize(&bytes, 0, 0, 1).unwrap();
    assert_eq!((arrived, end), (1, bytes.len()));
    let mut shallow = Vec::new();
    cut.serialize(&mut shallow);
    assert_eq!(shallow, b"(BWWWWWWW".to_vec());
}
