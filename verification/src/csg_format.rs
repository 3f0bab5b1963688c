use vstd::prelude::*;

use crate::octree::BooleanOperator;

verus! {

/// The ASCII digit `0`.
pub const DIGIT_0: u8 = 48;

/// The ASCII digit `1`.
pub const DIGIT_1: u8 = 49;

/// The ASCII digit `2`.
pub const DIGIT_2: u8 = 50;

/// The ASCII digit `3`.
pub const DIGIT_3: u8 = 51;

/// Why a byte string is not a CSG tree in the digit-tagged format.
#[derive(Debug, Clone, Copy, PartialEq, Eq, Structural)]
pub enum CsgFormatError {
    /// The bytes ended before a node was complete.
    UnexpectedEnd,
    /// A tag, an operator or a primitive kind is not one of its digits: bytes
    /// that the tree readers do not take (see `CSGObject::rejection`).
    InvalidByte,
    /// A whole object's tree does not start with a transform node: bytes
    /// that the object reader does not take.
    RootNotTransform,
}

/// The big-endian bytes of a 32-bit word.
pub open spec fn word_bytes(w: u32) -> Seq<u8> {
    seq![(w >> 24u32) as u8, (w >> 16u32) as u8, (w >> 8u32) as u8, w as u8]
}

/// The 32-bit word whose big-endian bytes are `b0 b1 b2 b3`.
pub open spec fn word_from(b0: u8, b1: u8, b2: u8, b3: u8) -> u32 {
    ((b0 as u32) << 24u32) | ((b1 as u32) << 16u32) | ((b2 as u32) << 8u32) | (b3 as u32)
}

/// The big-endian word stored at `pos`.
pub open spec fn word_at(bytes: Seq<u8>, pos: int) -> u32 {
    word_from(bytes[pos], bytes[pos + 1], bytes[pos + 2], bytes[pos + 3])
}

/// Reading back the bytes of a word gives the word.
pub proof fn lemma_word_round_trip(w: u32)
    ensures
        word_from((w >> 24u32) as u8, (w >> 16u32) as u8, (w >> 8u32) as u8, w as u8) == w,
{
    assert(((((w >> 24u32) as u8) as u32) << 24u32) | ((((w >> 16u32) as u8) as u32) << 16u32) | ((((
    w >> 8u32) as u8) as u32) << 8u32) | ((w as u8) as u32) == w) by (bit_vector);
}

/// The bytes of a word are big-endian: the first is the most significant,
/// so that the word is their value in base 256, first byte first.
pub proof fn lemma_word_bytes_big_endian(w: u32)
    ensures
        word_bytes(w).len() == 4,
        word_bytes(w)[0] * 0x100_0000 + word_bytes(w)[1] * 0x1_0000 + word_bytes(w)[2] * 0x100 + word_bytes(w)[3] == w,
{
    let b0 = (w >> 24u32) as u8;
    let b1 = (w >> 16u32) as u8;
    let b2 = (w >> 8u32) as u8;
    let b3 = w as u8;
    assert(b0 as u32 * 0x100_0000u32 + b1 as u32 * 0x1_0000u32 + b2 as u32 * 0x100u32 + b3 as u32 == w) by (bit_vector)
        requires
            b0 == (w >> 24u32) as u8,
            b1 == (w >> 16u32) as u8,
            b2 == (w >> 8u32) as u8,
            b3 == w as u8,
    ;
}

/// Where the bytes of `w` stand at `pos`, the word read there is `w`.
pub proof fn lemma_word_at(bytes: Seq<u8>, pos: int, w: u32)
    requires
        0 <= pos,
        pos + 4 <= bytes.len(),
        bytes.subrange(pos, pos + 4) == word_bytes(w),
    ensures
        word_at(bytes, pos) == w,
{
    assert(bytes[pos] == bytes.subrange(pos, pos + 4)[0]);
    assert(bytes[pos + 1] == bytes.subrange(pos, pos + 4)[1]);
    assert(bytes[pos + 2] == bytes.subrange(pos, pos + 4)[2]);
    assert(bytes[pos + 3] == bytes.subrange(pos, pos + 4)[3]);
    lemma_word_round_trip(w);
}

/// Appends the big-endian bytes of `w`.
pub fn push_word(writer: &mut Vec<u8>, w: u32)
    ensures
        final(writer)@ == old(writer)@ + word_bytes(w),
{
    writer.push((w >> 24u32) as u8);
    writer.push((w >> 16u32) as u8);
    writer.push((w >> 8u32) as u8);
    writer.push(w as u8);
    assert(writer@ =~= old(writer)@ + word_bytes(w));
}

/// Reads the big-endian word at `pos`.
pub fn read_word(bytes: &[u8], pos: usize) -> (w: u32)
    requires
        pos + 4 <= bytes@.len(),
    ensures
        w == word_at(bytes@, pos as int),
{
    ((bytes[pos] as u32) << 24u32) | ((bytes[pos + 1] as u32) << 16u32) | ((bytes[pos + 2] as u32)
        << 8u32) | (bytes[pos + 3] as u32)
}

/// The digit that stands for an operator in the format: `0` for union, `1`
/// for intersection, `2` for difference.
pub open spec fn operator_byte(op: BooleanOperator) -> u8 {
    match op {
        BooleanOperator::UNION => DIGIT_0,
        BooleanOperator::INTERSECTION => DIGIT_1,
        BooleanOperator::DIFFERENCE => DIGIT_2,
    }
}

/// The operator a byte stands for, if any.
pub open spec fn operator_of_byte(b: u8) -> Option<BooleanOperator> {
    if b == DIGIT_0 {
        Some(BooleanOperator::UNION)
    } else if b == DIGIT_1 {
        Some(BooleanOperator::INTERSECTION)
    } else if b == DIGIT_2 {
        Some(BooleanOperator::DIFFERENCE)
    } else {
        None
    }
}

/// Reading one operator at `pos`: the operator and the position after it.
pub open spec fn parse_operator(bytes: Seq<u8>, pos: int) -> Result<(BooleanOperator, int), CsgFormatError> {
    if pos < 0 || pos >= bytes.len() {
        Err(CsgFormatError::UnexpectedEnd)
    } else {
        match operator_of_byte(bytes[pos]) {
            Some(op) => Ok((op, pos + 1)),
            None => Err(CsgFormatError::InvalidByte),
        }
    }
}

/// Reading an operator: `0` is a union, `1` an intersection, `2` a
/// difference, any other byte is refused; reading stops after the digit.
pub proof fn lemma_read_operator(bytes: Seq<u8>, pos: int)
    requires
        0 <= pos < bytes.len(),
    ensures
        bytes[pos] == 48 ==> parse_operator(bytes, pos) == Ok::<(BooleanOperator, int), CsgFormatError>(
            (BooleanOperator::UNION, pos + 1),
        ),
        bytes[pos] == 49 ==> parse_operator(bytes, pos) == Ok::<(BooleanOperator, int), CsgFormatError>(
            (BooleanOperator::INTERSECTION, pos + 1),
        ),
        bytes[pos] == 50 ==> parse_operator(bytes, pos) == Ok::<(BooleanOperator, int), CsgFormatError>(
            (BooleanOperator::DIFFERENCE, pos + 1),
        ),
        !(48 <= bytes[pos] <= 50) ==> parse_operator(bytes, pos) == Err::<(BooleanOperator, int), CsgFormatError>(
            CsgFormatError::InvalidByte,
        ),
{
}

/// The name under which an operator is shown.
pub open spec fn operator_label(op: BooleanOperator) -> Seq<char> {
    match op {
        BooleanOperator::UNION => "Union"@,
        BooleanOperator::INTERSECTION => "Intersection"@,
        BooleanOperator::DIFFERENCE => "Difference"@,
    }
}

impl BooleanOperator {
    /// Appends the digit of this operator.
    pub fn serialize(&self, writer: &mut Vec<u8>)
        ensures
            final(writer)@ == old(writer)@.push(operator_byte(*self)),
    {
        match self {
            BooleanOperator::UNION => writer.push(DIGIT_0),
            BooleanOperator::INTERSECTION => writer.push(DIGIT_1),
            BooleanOperator::DIFFERENCE => writer.push(DIGIT_2),
        }
    }

    /// Reads one operator at `pos`; gives it and the position after it.
    pub fn deserialize(bytes: &[u8], pos: usize) -> (res: Result<(BooleanOperator, usize), CsgFormatError>)
        ensures
            match res {
                Ok((op, e)) => parse_operator(bytes@, pos as int) == Ok::<(BooleanOperator, int), CsgFormatError>((op, e as int)),
                Err(x) => parse_operator(bytes@, pos as int) == Err::<(BooleanOperator, int), CsgFormatError>(x),
            },
    {
        if pos >= bytes.len() {
            return Err(CsgFormatError::UnexpectedEnd);
        }
        let b = bytes[pos];
        if b == DIGIT_0 {
            Ok((BooleanOperator::UNION, pos + 1))
        } else if b == DIGIT_1 {
            Ok((BooleanOperator::INTERSECTION, pos + 1))
        } else if b == DIGIT_2 {
            Ok((BooleanOperator::DIFFERENCE, pos + 1))
        } else {
            Err(CsgFormatError::InvalidByte)
        }
    }

    /// The name under which the operator is shown: `Union`, `Intersection`
    /// or `Difference`.
    pub fn to_string(&self) -> (s: String)
        ensures
            s@ == operator_label(*self),
    {
        match self {
            BooleanOperator::UNION => String::from_str("Union"),
            BooleanOperator::INTERSECTION => String::from_str("Intersection"),
            BooleanOperator::DIFFERENCE => String::from_str("Difference"),
        }
    }
}

} // verus!
