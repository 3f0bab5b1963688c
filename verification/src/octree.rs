use vstd::prelude::*;

verus! {

/// Classification of an axis-aligned box against a solid: completely inside,
/// completely outside, or crossing its boundary.
#[allow(non_camel_case_types)]
#[derive(Debug, Clone, Copy, PartialEq, Eq, Structural)]
pub enum OctreeNodeType {
    IN,
    OUT,
    PARTIAL,
}

/// A node of an octree. A subdivided node owns its eight octants, ordered by
/// the bits of their index (bit 0: x, bit 1: y, bit 2: z).
#[derive(Debug)]
pub struct OctreeNode {
    pub node_type: OctreeNodeType,
    pub children: Option<Vec<Box<OctreeNode>>>,
}

/// The mathematical shape of an octree: a node type and, for a subdivided
/// node, the sequence of its children.
pub struct OctreeTree {
    pub node_type: OctreeNodeType,
    pub children: Option<Seq<OctreeTree>>,
}

/// Why a byte string is not an octree in the `(`/`B`/`W` format.
#[derive(Debug, Clone, Copy, PartialEq, Eq, Structural)]
pub enum OctreeFormatError {
    /// The bytes ended before a node could be read.
    UnexpectedEnd,
    /// A byte other than `(`, `B` or `W` stands where a node begins: bytes
    /// that the readers do not take (see `OctreeNode::has_invalid_byte`).
    InvalidByte,
}

pub open spec fn leaf_tree(node_type: OctreeNodeType) -> OctreeTree {
    OctreeTree { node_type, children: None }
}

pub open spec fn octree_view(n: OctreeNode) -> OctreeTree
    decreases n,
{
    match n.children {
        None => OctreeTree { node_type: n.node_type, children: None },
        Some(cs) => OctreeTree {
            node_type: n.node_type,
            children: Some(
                Seq::new(
                    cs@.len(),
                    |i: int|
                        if 0 <= i < cs@.len() {
                            octree_view(*cs@[i])
                        } else {
                            leaf_tree(OctreeNodeType::OUT)
                        },
                ),
            ),
        },
    }
}

impl View for OctreeNode {
    type V = OctreeTree;

    open spec fn view(&self) -> OctreeTree {
        octree_view(*self)
    }
}

/// `(`: a subdivided node, followed by its children.
pub const OPEN_BYTE: u8 = 40;

/// `B`: a node that is inside the solid.
pub const BLACK_BYTE: u8 = 66;

/// `W`: a node that is outside the solid.
pub const WHITE_BYTE: u8 = 87;

/// The bytes that stand for a tree: `(` followed by the children for a
/// subdivided node, `B` for a node that is inside (or a subdivided node
/// whose children are missing), `W` for a node that is outside.
pub open spec fn serialized(t: OctreeTree) -> Seq<u8>
    decreases t, 0int,
{
    match t.node_type {
        OctreeNodeType::PARTIAL => match t.children {
            Some(cs) => seq![OPEN_BYTE] + serialized_prefix(cs, cs.len() as int),
            None => seq![BLACK_BYTE],
        },
        OctreeNodeType::IN => seq![BLACK_BYTE],
        OctreeNodeType::OUT => seq![WHITE_BYTE],
    }
}

/// The bytes of the first `k` trees of `cs`, one after the other.
pub open spec fn serialized_prefix(cs: Seq<OctreeTree>, k: int) -> Seq<u8>
    decreases cs, k,
{
    if 0 < k <= cs.len() {
        serialized_prefix(cs, k - 1) + serialized(cs[k - 1])
    } else {
        Seq::empty()
    }
}

/// A tree as the octree builders make it: every subdivided node has exactly
/// eight children, and no other node has any.
pub open spec fn well_formed(t: OctreeTree) -> bool
    decreases t,
{
    match t.node_type {
        OctreeNodeType::PARTIAL => match t.children {
            Some(cs) => cs.len() == 8 && forall|i: int| 0 <= i < cs.len() ==> well_formed(#[trigger] cs[i]),
            None => false,
        },
        _ => t.children is None,
    }
}

/// The number of levels below the root.
pub open spec fn height(t: OctreeTree) -> nat
    decreases t, 0int,
{
    match t.children {
        Some(cs) => 1 + max_height_prefix(cs, cs.len() as int),
        None => 0,
    }
}

/// The largest height among the first `k` trees of `cs` (0 for none).
pub open spec fn max_height_prefix(cs: Seq<OctreeTree>, k: int) -> nat
    decreases cs, k,
{
    if 0 < k <= cs.len() {
        let h = height(cs[k - 1]);
        let rest = max_height_prefix(cs, k - 1);
        if h > rest { h } else { rest }
    } else {
        0
    }
}

pub open spec fn max_int(a: int, b: int) -> int {
    if a > b { a } else { b }
}

/// Reading one node at `pos`, for a node that lies `depth` levels below the
/// root, with subdivision cut off at `max_depth`: the tree, the deepest level
/// reached, and the position after the node.
pub open spec fn parse_node(bytes: Seq<u8>, pos: int, depth: int, max_depth: int) -> Result<
    (OctreeTree, int, int),
    OctreeFormatError,
>
    decreases bytes.len() - pos, 0int,
{
    if pos < 0 || pos >= bytes.len() {
        Err(OctreeFormatError::UnexpectedEnd)
    } else if bytes[pos] == OPEN_BYTE {
        if depth >= max_depth {
            match skip_children(bytes, pos + 1, 0) {
                Ok(e) => Ok((leaf_tree(OctreeNodeType::IN), depth, e)),
                Err(x) => Err(x),
            }
        } else {
            match parse_children(bytes, pos + 1, depth, max_depth, 0, Seq::empty(), depth) {
                Ok((cs, arrived, e)) => Ok(
                    (
                        OctreeTree {
                            node_type: OctreeNodeType::PARTIAL,
                            children: if cs.len() == 8 {
                                Some(cs)
                            } else {
                                None
                            },
                        },
                        arrived,
                        e,
                    ),
                ),
                Err(x) => Err(x),
            }
        }
    } else if bytes[pos] == BLACK_BYTE {
        Ok((leaf_tree(OctreeNodeType::IN), depth, pos + 1))
    } else if bytes[pos] == WHITE_BYTE {
        Ok((leaf_tree(OctreeNodeType::OUT), depth, pos + 1))
    } else {
        Err(OctreeFormatError::InvalidByte)
    }
}

/// Reading the children of a subdivided node from child `k` on, with the
/// children `acc` read so far and the deepest level `arrived` reached so far.
/// Running out of bytes ends the children early: the node is then left
/// without children.
pub open spec fn parse_children(
    bytes: Seq<u8>,
    pos: int,
    depth: int,
    max_depth: int,
    k: int,
    acc: Seq<OctreeTree>,
    arrived: int,
) -> Result<(Seq<OctreeTree>, int, int), OctreeFormatError>
    decreases bytes.len() - pos, 9 - k,
{
    if k >= 8 || k < 0 || pos > bytes.len() {
        Ok((acc, arrived, pos))
    } else {
        match parse_node(bytes, pos, depth + 1, max_depth) {
            Ok((c, a, e)) => if pos < e <= bytes.len() {
                parse_children(bytes, e, depth, max_depth, k + 1, acc.push(c), max_int(arrived, a))
            } else {
                Ok((acc, arrived, pos))
            },
            Err(OctreeFormatError::UnexpectedEnd) => Ok((acc, arrived, bytes.len() as int)),
            Err(OctreeFormatError::InvalidByte) => Err(OctreeFormatError::InvalidByte),
        }
    }
}

/// Passing over the remaining `8 - k` children of a node without building
/// them: the position after them.
pub open spec fn skip_children(bytes: Seq<u8>, pos: int, k: int) -> Result<int, OctreeFormatError>
    decreases bytes.len() - pos, 8 - k,
{
    if k >= 8 || k < 0 {
        Ok(pos)
    } else if pos < 0 || pos >= bytes.len() {
        Err(OctreeFormatError::UnexpectedEnd)
    } else if bytes[pos] == OPEN_BYTE {
        match skip_children(bytes, pos + 1, 0) {
            Ok(e) => if pos < e <= bytes.len() {
                skip_children(bytes, e, k + 1)
            } else {
                Ok(e)
            },
            Err(x) => Err(x),
        }
    } else if bytes[pos] == BLACK_BYTE || bytes[pos] == WHITE_BYTE {
        skip_children(bytes, pos + 1, k + 1)
    } else {
        Err(OctreeFormatError::InvalidByte)
    }
}


pub(crate) proof fn lemma_serialized_nonempty(t: OctreeTree)
    ensures
        serialized(t).len() >= 1,
{
}

pub(crate) proof fn lemma_prefix_of_prefix(cs: Seq<OctreeTree>, k: int, n: int)
    requires
        0 <= k <= n <= cs.len(),
    ensures
        serialized_prefix(cs, k).len() <= serialized_prefix(cs, n).len(),
        serialized_prefix(cs, n).subrange(0, serialized_prefix(cs, k).len() as int) == serialized_prefix(cs, k),
    decreases n - k,
{
    if k < n {
        lemma_prefix_of_prefix(cs, k, n - 1);
        let a = serialized_prefix(cs, n - 1);
        let b = serialized(cs[n - 1]);
        assert((a + b).subrange(0, serialized_prefix(cs, k).len() as int) =~= a.subrange(
            0,
            serialized_prefix(cs, k).len() as int,
        ));
    } else {
        assert(serialized_prefix(cs, n).subrange(0, serialized_prefix(cs, n).len() as int) =~= serialized_prefix(cs, n));
    }
}

pub(crate) proof fn lemma_max_height_bound(cs: Seq<OctreeTree>, k: int, n: int)
    requires
        0 <= k < n <= cs.len(),
    ensures
        height(cs[k]) <= max_height_prefix(cs, n),
    decreases n,
{
    if k < n - 1 {
        lemma_max_height_bound(cs, k, n - 1);
    }
}

/// Reading back the bytes of a well-formed tree at any position, with room
/// for all its levels, gives the tree, its deepest level and the position
/// after its bytes.
proof fn lemma_parse_serialized_at(bytes: Seq<u8>, pos: int, t: OctreeTree, depth: int, max_depth: int)
    requires
        well_formed(t),
        0 <= pos,
        pos + serialized(t).len() <= bytes.len(),
        bytes.subrange(pos, pos + serialized(t).len()) == serialized(t),
        0 <= depth,
        depth + height(t) <= max_depth,
    ensures
        parse_node(bytes, pos, depth, max_depth) == Ok::<(OctreeTree, int, int), OctreeFormatError>(
            (t, depth + height(t), pos + serialized(t).len()),
        ),
    decreases t, 10int,
{
    assert(bytes[pos] == bytes.subrange(pos, pos + serialized(t).len())[0]);
    match t.node_type {
        OctreeNodeType::PARTIAL => {
            let cs = t.children.unwrap();
            lemma_parse_children_serialized(bytes, pos, t, depth, max_depth, 0);
            assert(cs.take(0) =~= Seq::<OctreeTree>::empty());
            assert(cs.take(8) =~= cs);
        },
        _ => {},
    }
}

proof fn lemma_parse_children_serialized(
    bytes: Seq<u8>,
    pos: int,
    t: OctreeTree,
    depth: int,
    max_depth: int,
    k: int,
)
    requires
        well_formed(t),
        t.node_type == OctreeNodeType::PARTIAL,
        0 <= pos,
        pos + serialized(t).len() <= bytes.len(),
        bytes.subrange(pos, pos + serialized(t).len()) == serialized(t),
        0 <= depth,
        depth + height(t) <= max_depth,
        0 <= k <= 8,
    ensures
        ({
            let cs = t.children.unwrap();
            let p = pos + 1 + serialized_prefix(cs, k).len();
            let arrived = if k == 0 {
                depth
            } else {
                depth + 1 + max_height_prefix(cs, k)
            };
            parse_children(bytes, p, depth, max_depth, k, cs.take(k), arrived) == Ok::<
                (Seq<OctreeTree>, int, int),
                OctreeFormatError,
            >((cs, depth + height(t), pos + serialized(t).len()))
        }),
    decreases t, 9 - k,
{
    let cs = t.children.unwrap();
    let all = serialized_prefix(cs, 8);
    let p = pos + 1 + serialized_prefix(cs, k).len();
    let arrived = if k == 0 {
        depth
    } else {
        depth + 1 + max_height_prefix(cs, k)
    };
    assert(serialized(t) == seq![OPEN_BYTE] + all);
    lemma_prefix_of_prefix(cs, k, 8);
    if k == 8 {
        assert(cs.take(8) =~= cs);
    } else {
        let c = cs[k];
        lemma_prefix_of_prefix(cs, k + 1, 8);
        lemma_serialized_nonempty(c);
        lemma_max_height_bound(cs, k, 8);
        let lo = serialized_prefix(cs, k).len() as int;
        let hi = serialized_prefix(cs, k + 1).len() as int;
        assert(serialized_prefix(cs, k + 1) == serialized_prefix(cs, k) + serialized(c));
        assert(all.subrange(lo, hi) =~= serialized(c)) by {
            assert(all.subrange(0, hi) == serialized_prefix(cs, k + 1));
            assert(all.subrange(lo, hi) =~= all.subrange(0, hi).subrange(lo, hi));
            assert(serialized_prefix(cs, k + 1).subrange(lo, hi) =~= serialized(c));
        }
        assert(bytes.subrange(p, p + serialized(c).len()) =~= serialized(c)) by {
            assert(bytes.subrange(pos, pos + serialized(t).len()) == serialized(t));
            assert forall|j: int| 0 <= j < serialized(c).len() implies bytes.subrange(p, p + serialized(c).len())[j]
                == serialized(c)[j] by {
                assert(bytes[p + j] == bytes.subrange(pos, pos + serialized(t).len())[1 + lo + j]);
                assert(serialized(t)[1 + lo + j] == all[lo + j]);
                assert(all[lo + j] == all.subrange(lo, hi)[j]);
            }
        }
        lemma_parse_serialized_at(bytes, p, c, depth + 1, max_depth);
        lemma_parse_children_serialized(bytes, pos, t, depth, max_depth, k + 1);
        assert(cs.take(k).push(c) =~= cs.take(k + 1));
        assert(max_int(arrived, depth + 1 + height(c)) == depth + 1 + max_height_prefix(cs, k + 1));
    }
}

/// The letters of the format: a leaf inside the solid is stored as `B`, one
/// outside as `W`, a crossing node without children as `B`; reading `B`
/// gives an inside leaf and `W` an outside leaf at the level where they
/// stand, and `(` at or below the depth limit gives an inside leaf.
pub proof fn lemma_octree_letters(rest: Seq<u8>, depth: int, max_depth: int)
    ensures
        serialized(leaf_tree(OctreeNodeType::IN)) == seq![66u8],
        serialized(leaf_tree(OctreeNodeType::OUT)) == seq![87u8],
        serialized(leaf_tree(OctreeNodeType::PARTIAL)) == seq![66u8],
        parse_node(seq![66u8] + rest, 0, depth, max_depth) == Ok::<(OctreeTree, int, int), OctreeFormatError>(
            (leaf_tree(OctreeNodeType::IN), depth, 1),
        ),
        parse_node(seq![87u8] + rest, 0, depth, max_depth) == Ok::<(OctreeTree, int, int), OctreeFormatError>(
            (leaf_tree(OctreeNodeType::OUT), depth, 1),
        ),
        depth >= max_depth ==> parse_node(seq![40u8] + rest, 0, depth, max_depth) is Ok ==> parse_node(
            seq![40u8] + rest,
            0,
            depth,
            max_depth,
        )->Ok_0.0 == leaf_tree(OctreeNodeType::IN),
{
    assert((seq![66u8] + rest)[0] == 66u8);
    assert((seq![87u8] + rest)[0] == 87u8);
    assert((seq![40u8] + rest)[0] == 40u8);
}

/// Reading back the bytes that `serialize` writes for a well-formed tree,
/// with a depth limit that leaves room for all its levels, gives back the
/// same tree, its height as the deepest level reached, and the position just
/// after its bytes, whatever follows them.
pub proof fn lemma_octree_round_trip(t: OctreeTree, rest: Seq<u8>, max_depth: int)
    requires
        well_formed(t),
        height(t) <= max_depth,
    ensures
        parse_node(serialized(t) + rest, 0, 0, max_depth) == Ok::<(OctreeTree, int, int), OctreeFormatError>(
            (t, height(t) as int, serialized(t).len() as int),
        ),
{
    let bytes = serialized(t) + rest;
    assert(bytes.subrange(0, serialized(t).len() as int) =~= serialized(t));
    lemma_parse_serialized_at(bytes, 0, t, 0, max_depth);
}

impl OctreeNode {
    /// A node without children.
    pub fn new(node_type: OctreeNodeType) -> (node: Self)
        ensures
            node@ == leaf_tree(node_type),
    {
        OctreeNode { node_type, children: None }
    }

    pub fn is_leaf(&self) -> (b: bool)
        ensures
            b == (self.children is None),
            b == (self@.children is None),
    {
        self.children.is_none()
    }

    /// Passes over the eight children of a node that starts before `pos`
    /// without building them; gives the position after them, or the reason
    /// the bytes are not such children.
    fn skip_node(bytes: &[u8], pos: usize) -> (res: Result<usize, OctreeFormatError>)
        requires
            pos <= bytes@.len(),
        ensures
            match res {
                Ok(e) => skip_children(bytes@, pos as int, 0) == Ok::<int, OctreeFormatError>(e as int) && pos <= e <= bytes@.len(),
                Err(x) => skip_children(bytes@, pos as int, 0) == Err::<int, OctreeFormatError>(x),
            },
        decreases bytes@.len() - pos,
    {
        let mut cur = pos;
        let mut k: usize = 0;
        while k < 8
            invariant
                pos <= cur <= bytes@.len(),
                0 <= k <= 8,
                skip_children(bytes@, pos as int, 0) == skip_children(bytes@, cur as int, k as int),
            decreases 8 - k,
        {
            if cur >= bytes.len() {
                return Err(OctreeFormatError::UnexpectedEnd);
            }
            let b = bytes[cur];
            if b == OPEN_BYTE {
                let e = Self::skip_node(bytes, cur + 1)?;
                cur = e;
            } else if b == BLACK_BYTE || b == WHITE_BYTE {
                cur = cur + 1;
            } else {
                return Err(OctreeFormatError::InvalidByte);
            }
            k += 1;
        }
        Ok(cur)
    }

    /// Reads one node at `pos` of a node `depth` levels below the root (see
    /// `parse_node`), or gives the reason the bytes hold no such node.
    fn read_node(bytes: &[u8], pos: usize, depth: u32, max_depth: u32) -> (res: Result<
        (OctreeNode, u32, usize),
        OctreeFormatError,
    >)
        requires
            pos <= bytes@.len(),
        ensures
            match res {
                Ok((n, a, e)) => parse_node(bytes@, pos as int, depth as int, max_depth as int) == Ok::<
                    (OctreeTree, int, int),
                    OctreeFormatError,
                >((n@, a as int, e as int)) && pos < e <= bytes@.len(),
                Err(x) => parse_node(bytes@, pos as int, depth as int, max_depth as int) == Err::<
                    (OctreeTree, int, int),
                    OctreeFormatError,
                >(x),
            },
        decreases bytes@.len() - pos,
    {
        if pos >= bytes.len() {
            return Err(OctreeFormatError::UnexpectedEnd);
        }
        let b = bytes[pos];
        if b == OPEN_BYTE {
            if depth >= max_depth {
                let e = Self::skip_node(bytes, pos + 1)?;
                return Ok((OctreeNode::new(OctreeNodeType::IN), depth, e));
            }
            let mut children: Vec<Box<OctreeNode>> = Vec::new();
            let mut arrived = depth;
            let mut cur = pos + 1;
            let mut k: usize = 0;
            let mut stopped = false;
            let ghost total = parse_children(bytes@, pos + 1, depth as int, max_depth as int, 0, Seq::empty(), depth as int);
            assert(Seq::new(0nat, |j: int| octree_view(*children@[j])) =~= Seq::<OctreeTree>::empty());
            while k < 8 && !stopped
                invariant
                    pos < cur <= bytes@.len(),
                    bytes@[pos as int] == OPEN_BYTE,
                    0 <= k <= 8,
                    depth < max_depth,
                    depth <= arrived,
                    children@.len() == k,
                    total == parse_children(bytes@, pos + 1, depth as int, max_depth as int, 0, Seq::empty(), depth as int),
                    !stopped ==> total == parse_children(
                        bytes@,
                        cur as int,
                        depth as int,
                        max_depth as int,
                        k as int,
                        Seq::new(k as nat, |j: int| octree_view(*children@[j])),
                        arrived as int,
                    ),
                    stopped ==> total == Ok::<(Seq<OctreeTree>, int, int), OctreeFormatError>(
                        (Seq::new(k as nat, |j: int| octree_view(*children@[j])), arrived as int, cur as int),
                    ),
                decreases 8 - k + (if stopped { 0int } else { 1int }),
            {
                let ghost acc = Seq::new(k as nat, |j: int| octree_view(*children@[j]));
                match Self::read_node(bytes, cur, depth + 1, max_depth) {
                    Ok((child, a, e)) => {
                        let ghost cv = child@;
                        children.push(Box::new(child));
                        if a > arrived {
                            arrived = a;
                        }
                        cur = e;
                        k += 1;
                        assert(Seq::new(k as nat, |j: int| octree_view(*children@[j])) =~= acc.push(cv));
                    },
                    Err(OctreeFormatError::UnexpectedEnd) => {
                        cur = bytes.len();
                        stopped = true;
                    },
                    Err(OctreeFormatError::InvalidByte) => {
                        return Err(OctreeFormatError::InvalidByte);
                    },
                }
            }
            let ghost cs = Seq::new(k as nat, |j: int| octree_view(*children@[j]));
            let node = if children.len() == 8 {
                OctreeNode { node_type: OctreeNodeType::PARTIAL, children: Some(children) }
            } else {
                OctreeNode { node_type: OctreeNodeType::PARTIAL, children: None }
            };
            assert(node@.children is Some ==> node@.children.unwrap() =~= cs);
            Ok((node, arrived, cur))
        } else if b == BLACK_BYTE {
            Ok((OctreeNode::new(OctreeNodeType::IN), depth, pos + 1))
        } else if b == WHITE_BYTE {
            Ok((OctreeNode::new(OctreeNodeType::OUT), depth, pos + 1))
        } else {
            Err(OctreeFormatError::InvalidByte)
        }
    }

    /// Passes over the eight children of a node that starts before `pos`
    /// without building them; gives the position after them, or
    /// `UnexpectedEnd` where the bytes end first. The bytes passed over must
    /// hold only `(`, `B` and `W` where a node begins.
    pub fn deserialize_skip_node(bytes: &[u8], pos: usize) -> (res: Result<usize, OctreeFormatError>)
        requires
            pos <= bytes@.len(),
            skip_children(bytes@, pos as int, 0) != Err::<int, OctreeFormatError>(OctreeFormatError::InvalidByte),
        ensures
            match res {
                Ok(e) => skip_children(bytes@, pos as int, 0) == Ok::<int, OctreeFormatError>(e as int) && pos <= e <= bytes@.len(),
                Err(x) => skip_children(bytes@, pos as int, 0) == Err::<int, OctreeFormatError>(x)
                    && x == OctreeFormatError::UnexpectedEnd,
            },
    {
        Self::skip_node(bytes, pos)
    }

    /// Reads one node at `pos` of a node `depth` levels below the root; a
    /// subdivided node at `max_depth` or deeper is read as an inside leaf and
    /// its children are passed over. Gives the node, the deepest level
    /// reached and the position after the node, or `UnexpectedEnd` where the
    /// bytes end before the node's first byte or while passing over children.
    /// The bytes read must hold only `(`, `B` and `W` where a node begins
    /// (`has_invalid_byte` tells).
    pub fn deserialize(bytes: &[u8], pos: usize, depth: u32, max_depth: u32) -> (res: Result<
        (OctreeNode, u32, usize),
        OctreeFormatError,
    >)
        requires
            pos <= bytes@.len(),
            parse_node(bytes@, pos as int, depth as int, max_depth as int) != Err::<
                (OctreeTree, int, int),
                OctreeFormatError,
            >(OctreeFormatError::InvalidByte),
        ensures
            match res {
                Ok((n, a, e)) => parse_node(bytes@, pos as int, depth as int, max_depth as int) == Ok::<
                    (OctreeTree, int, int),
                    OctreeFormatError,
                >((n@, a as int, e as int)) && pos < e <= bytes@.len(),
                Err(x) => parse_node(bytes@, pos as int, depth as int, max_depth as int) == Err::<
                    (OctreeTree, int, int),
                    OctreeFormatError,
                >(x) && x == OctreeFormatError::UnexpectedEnd,
            },
    {
        Self::read_node(bytes, pos, depth, max_depth)
    }

    /// Whether reading a node at `pos` meets a byte other than `(`, `B` or
    /// `W` where a node begins: bytes that `deserialize` does not take.
    pub fn has_invalid_byte(bytes: &[u8], pos: usize, depth: u32, max_depth: u32) -> (b: bool)
        requires
            pos <= bytes@.len(),
        ensures
            b == (parse_node(bytes@, pos as int, depth as int, max_depth as int) == Err::<
                (OctreeTree, int, int),
                OctreeFormatError,
            >(OctreeFormatError::InvalidByte)),
    {
        match Self::read_node(bytes, pos, depth, max_depth) {
            Err(OctreeFormatError::InvalidByte) => true,
            _ => false,
        }
    }

    /// Appends the bytes of this tree to `writer`.
    pub fn serialize(&self, writer: &mut Vec<u8>)
        ensures
            final(writer)@ == old(writer)@ + serialized(self@),
        decreases self,
    {
        match self.node_type {
            OctreeNodeType::PARTIAL => {
                match &self.children {
                    Some(children) => {
                        let ghost cs = self@.children.unwrap();
                        writer.push(OPEN_BYTE);
                        let ghost start = writer@;
                        let mut i: usize = 0;
                        while i < children.len()
                            invariant
                                0 <= i <= children.len(),
                                self.children == Some(*children),
                                cs == self@.children.unwrap(),
                                cs.len() == children@.len(),
                                forall|j: int| 0 <= j < cs.len() ==> cs[j] == octree_view(*#[trigger] children@[j]),
                                writer@ == start + serialized_prefix(cs, i as int),
                            decreases children.len() - i,
                        {
                            assert(decreases_to!(*self => *children@[i as int]));
                            children[i].serialize(writer);
                            i += 1;
                        }
                        assert(start == old(writer)@ + seq![OPEN_BYTE]);
                        assert(writer@ == old(writer)@ + (seq![OPEN_BYTE] + serialized_prefix(cs, cs.len() as int)));
                    },
                    None => {
                        writer.push(BLACK_BYTE);
                    },
                }
            },
            OctreeNodeType::IN => {
                writer.push(BLACK_BYTE);
            },
            OctreeNodeType::OUT => {
                writer.push(WHITE_BYTE);
            },
        }
    }
}


impl Clone for OctreeNode {
    fn clone(&self) -> (res: Self)
        ensures
            res@ == self@,
        decreases self,
    {
        match &self.children {
            None => OctreeNode { node_type: self.node_type, children: None },
            Some(children) => {
                let mut copies: Vec<Box<OctreeNode>> = Vec::new();
                let mut i: usize = 0;
                while i < children.len()
                    invariant
                        0 <= i <= children.len(),
                        self.children == Some(*children),
                        copies@.len() == i,
                        forall|j: int| 0 <= j < i ==> octree_view(*#[trigger] copies@[j]) == octree_view(*children@[j]),
                    decreases children.len() - i,
                {
                    assert(decreases_to!(*self => *children@[i as int])) by {
                        assert(decreases_to!(*self => self.children));
                        assert(decreases_to!(self.children => self.children->0));
                        assert(decreases_to!(self.children->0 => self.children->0@));
                        assert(decreases_to!(self.children->0@ => self.children->0@[i as int]));
                    }
                    let c = (&*children[i]).clone();
                    copies.push(Box::new(c));
                    i += 1;
                }
                let res = OctreeNode { node_type: self.node_type, children: Some(copies) };
                assert(res@.children.unwrap() =~= self@.children.unwrap());
                res
            },
        }
    }
}

/// The boolean operations between solids.
#[allow(non_camel_case_types)]
#[derive(Debug, Clone, Copy, PartialEq, Eq, Structural)]
pub enum BooleanOperator {
    UNION,
    INTERSECTION,
    DIFFERENCE,
}

/// How a box lies against the result of `operator`, from how it lies against
/// each operand: inside a union when inside either operand, outside when
/// outside both; inside an intersection when inside both, outside when
/// outside either; inside a difference when inside the left and outside the
/// right, outside when inside the right or outside the left; crossing the
/// boundary otherwise.
pub open spec fn combined_node_type(
    operator: BooleanOperator,
    left: OctreeNodeType,
    right: OctreeNodeType,
) -> OctreeNodeType {
    match operator {
        BooleanOperator::UNION => if left == OctreeNodeType::IN || right == OctreeNodeType::IN {
            OctreeNodeType::IN
        } else if left == OctreeNodeType::OUT && right == OctreeNodeType::OUT {
            OctreeNodeType::OUT
        } else {
            OctreeNodeType::PARTIAL
        },
        BooleanOperator::INTERSECTION => if left == OctreeNodeType::IN && right == OctreeNodeType::IN {
            OctreeNodeType::IN
        } else if left == OctreeNodeType::OUT || right == OctreeNodeType::OUT {
            OctreeNodeType::OUT
        } else {
            OctreeNodeType::PARTIAL
        },
        BooleanOperator::DIFFERENCE => if left == OctreeNodeType::IN && right == OctreeNodeType::OUT {
            OctreeNodeType::IN
        } else if right == OctreeNodeType::IN || left == OctreeNodeType::OUT {
            OctreeNodeType::OUT
        } else {
            OctreeNodeType::PARTIAL
        },
    }
}

/// The node type of a box against a boolean solid, given its node types
/// against the two operands.
pub fn combine_node_types(operator: BooleanOperator, left: OctreeNodeType, right: OctreeNodeType) -> (res:
    OctreeNodeType)
    ensures
        res == combined_node_type(operator, left, right),
{
    match operator {
        BooleanOperator::UNION => {
            match (left, right) {
                (OctreeNodeType::IN, _) | (_, OctreeNodeType::IN) => OctreeNodeType::IN,
                (OctreeNodeType::OUT, OctreeNodeType::OUT) => OctreeNodeType::OUT,
                _ => OctreeNodeType::PARTIAL,
            }
        },
        BooleanOperator::INTERSECTION => {
            match (left, right) {
                (OctreeNodeType::IN, OctreeNodeType::IN) => OctreeNodeType::IN,
                (OctreeNodeType::OUT, _) | (_, OctreeNodeType::OUT) => OctreeNodeType::OUT,
                _ => OctreeNodeType::PARTIAL,
            }
        },
        BooleanOperator::DIFFERENCE => {
            match (left, right) {
                (OctreeNodeType::IN, OctreeNodeType::OUT) => OctreeNodeType::IN,
                (_, OctreeNodeType::IN) | (OctreeNodeType::OUT, _) => OctreeNodeType::OUT,
                _ => OctreeNodeType::PARTIAL,
            }
        },
    }
}

/// Swaps inside and outside.
pub open spec fn complement(t: OctreeNodeType) -> OctreeNodeType {
    match t {
        OctreeNodeType::IN => OctreeNodeType::OUT,
        OctreeNodeType::OUT => OctreeNodeType::IN,
        OctreeNodeType::PARTIAL => OctreeNodeType::PARTIAL,
    }
}

/// Union and intersection do not depend on the order of their operands.
pub proof fn lemma_union_intersection_commute(left: OctreeNodeType, right: OctreeNodeType)
    ensures
        combined_node_type(BooleanOperator::UNION, left, right) == combined_node_type(
            BooleanOperator::UNION,
            right,
            left,
        ),
        combined_node_type(BooleanOperator::INTERSECTION, left, right) == combined_node_type(
            BooleanOperator::INTERSECTION,
            right,
            left,
        ),
{
}

/// An operand that is empty where the box is leaves a union and a
/// difference as the other operand is; one that is full there leaves an
/// intersection as the other operand is, and a difference empty. An
/// operation of a solid with itself gives the solid back, except a
/// difference.
pub proof fn lemma_boolean_identities(t: OctreeNodeType)
    ensures
        combined_node_type(BooleanOperator::UNION, t, OctreeNodeType::OUT) == t,
        combined_node_type(BooleanOperator::INTERSECTION, t, OctreeNodeType::IN) == t,
        combined_node_type(BooleanOperator::DIFFERENCE, t, OctreeNodeType::OUT) == t,
        combined_node_type(BooleanOperator::DIFFERENCE, t, OctreeNodeType::IN) == OctreeNodeType::OUT,
        combined_node_type(BooleanOperator::UNION, t, t) == t,
        combined_node_type(BooleanOperator::INTERSECTION, t, t) == t,
{
}

/// A difference is the intersection with the complement of the right
/// operand, and the complement of a union is the intersection of the
/// complements.
pub proof fn lemma_difference_is_intersection_with_complement(left: OctreeNodeType, right: OctreeNodeType)
    ensures
        combined_node_type(BooleanOperator::DIFFERENCE, left, right) == combined_node_type(
            BooleanOperator::INTERSECTION,
            left,
            complement(right),
        ),
        complement(combined_node_type(BooleanOperator::UNION, left, right)) == combined_node_type(
            BooleanOperator::INTERSECTION,
            complement(left),
            complement(right),
        ),
{
}

} // verus!
