use vstd::prelude::*;

use crate::csg_format::{
    lemma_word_at, push_word, read_word, word_at, word_bytes, CsgFormatError, DIGIT_0, DIGIT_1, DIGIT_2, DIGIT_3,
};

verus! {

/// The kinds of primitive solid a CSG tree has at its leaves. `Generic`
/// stands for a mesh of no known kind, which the byte format cannot hold.
#[derive(Debug, Clone, Copy, PartialEq, Eq, Structural)]
pub enum CSGPrimitives {
    Cube,
    Sphere,
    Cylinder,
    Cone,
    Generic,
}

/// The digit that stands for a primitive kind: `0` cube, `1` sphere, `2`
/// cylinder, `3` cone.
pub open spec fn primitive_byte(p: CSGPrimitives) -> u8 {
    match p {
        CSGPrimitives::Cube => DIGIT_0,
        CSGPrimitives::Sphere => DIGIT_1,
        CSGPrimitives::Cylinder => DIGIT_2,
        CSGPrimitives::Cone => DIGIT_3,
        CSGPrimitives::Generic => 0,
    }
}

/// Reading one primitive kind at `pos`: the kind and the position after it.
pub open spec fn parse_primitive(bytes: Seq<u8>, pos: int) -> Result<(CSGPrimitives, int), CsgFormatError> {
    if pos < 0 || pos >= bytes.len() {
        Err(CsgFormatError::UnexpectedEnd)
    } else if bytes[pos] == DIGIT_0 {
        Ok((CSGPrimitives::Cube, pos + 1))
    } else if bytes[pos] == DIGIT_1 {
        Ok((CSGPrimitives::Sphere, pos + 1))
    } else if bytes[pos] == DIGIT_2 {
        Ok((CSGPrimitives::Cylinder, pos + 1))
    } else if bytes[pos] == DIGIT_3 {
        Ok((CSGPrimitives::Cone, pos + 1))
    } else {
        Err(CsgFormatError::InvalidByte)
    }
}

impl CSGPrimitives {
    /// Appends the digit of this kind.
    pub fn serialize(&self, writer: &mut Vec<u8>)
        requires
            *self != CSGPrimitives::Generic,
        ensures
            final(writer)@ == old(writer)@.push(primitive_byte(*self)),
    {
        match self {
            CSGPrimitives::Cube => writer.push(DIGIT_0),
            CSGPrimitives::Sphere => writer.push(DIGIT_1),
            CSGPrimitives::Cylinder => writer.push(DIGIT_2),
            CSGPrimitives::Cone => writer.push(DIGIT_3),
            CSGPrimitives::Generic => {},
        }
    }

    /// Reads one primitive kind at `pos` (see `parse_primitive`); gives it and
    /// the position after it, or the reason there is none.
    pub(crate) fn read(bytes: &[u8], pos: usize) -> (res: Result<(CSGPrimitives, usize), CsgFormatError>)
        ensures
            match res {
                Ok((p, e)) => parse_primitive(bytes@, pos as int) == Ok::<(CSGPrimitives, int), CsgFormatError>((p, e as int)),
                Err(x) => parse_primitive(bytes@, pos as int) == Err::<(CSGPrimitives, int), CsgFormatError>(x),
            },
    {
        if pos >= bytes.len() {
            return Err(CsgFormatError::UnexpectedEnd);
        }
        let b = bytes[pos];
        if b == DIGIT_0 {
            Ok((CSGPrimitives::Cube, pos + 1))
        } else if b == DIGIT_1 {
            Ok((CSGPrimitives::Sphere, pos + 1))
        } else if b == DIGIT_2 {
            Ok((CSGPrimitives::Cylinder, pos + 1))
        } else if b == DIGIT_3 {
            Ok((CSGPrimitives::Cone, pos + 1))
        } else {
            Err(CsgFormatError::InvalidByte)
        }
    }
}

impl CSGPrimitives {
    /// Reads one primitive kind at `pos`; gives it and the position after it,
    /// or `UnexpectedEnd` where the bytes end first. The byte there, if any,
    /// must be one of the four digits.
    pub fn deserialize(bytes: &[u8], pos: usize) -> (res: Result<(CSGPrimitives, usize), CsgFormatError>)
        requires
            parse_primitive(bytes@, pos as int) != Err::<(CSGPrimitives, int), CsgFormatError>(
                CsgFormatError::InvalidByte,
            ),
        ensures
            match res {
                Ok((p, e)) => parse_primitive(bytes@, pos as int) == Ok::<(CSGPrimitives, int), CsgFormatError>((p, e as int)),
                Err(x) => parse_primitive(bytes@, pos as int) == Err::<(CSGPrimitives, int), CsgFormatError>(x)
                    && x == CsgFormatError::UnexpectedEnd,
            },
    {
        CSGPrimitives::read(bytes, pos)
    }
}

/// A placement in space, each component held as the bit pattern of its
/// single-precision number: translation x, y, z; rotation yaw, pitch, roll;
/// scale x, y, z.
#[derive(Debug, Clone, Copy, PartialEq, Eq, Structural)]
pub struct TransformBits {
    pub translation: Vec3Bits,
    pub rotation: RotationBits,
    pub scale: Vec3Bits,
}

/// Three coordinates, each the bit pattern of a single-precision number.
#[derive(Debug, Clone, Copy, PartialEq, Eq, Structural)]
pub struct Vec3Bits {
    pub x: u32,
    pub y: u32,
    pub z: u32,
}

/// Three angles in degrees, each the bit pattern of a single-precision
/// number.
#[derive(Debug, Clone, Copy, PartialEq, Eq, Structural)]
pub struct RotationBits {
    pub yaw: u32,
    pub pitch: u32,
    pub roll: u32,
}

/// The bit pattern of the single-precision number 1.
pub const ONE_BITS: u32 = 0x3f80_0000;

/// The placement that changes nothing: no translation, no rotation, unit
/// scale.
pub open spec fn identity_transform() -> TransformBits {
    TransformBits {
        translation: Vec3Bits { x: 0, y: 0, z: 0 },
        rotation: RotationBits { yaw: 0, pitch: 0, roll: 0 },
        scale: Vec3Bits { x: ONE_BITS, y: ONE_BITS, z: ONE_BITS },
    }
}

/// The 36 bytes of a placement: its nine words, big-endian, in field order.
pub open spec fn transform_bytes(t: TransformBits) -> Seq<u8> {
    word_bytes(t.translation.x) + word_bytes(t.translation.y) + word_bytes(t.translation.z)
        + word_bytes(t.rotation.yaw) + word_bytes(t.rotation.pitch) + word_bytes(t.rotation.roll)
        + word_bytes(t.scale.x) + word_bytes(t.scale.y) + word_bytes(t.scale.z)
}

/// The placement whose 36 bytes start at `pos`.
pub open spec fn transform_at(bytes: Seq<u8>, pos: int) -> TransformBits {
    TransformBits {
        translation: Vec3Bits { x: word_at(bytes, pos), y: word_at(bytes, pos + 4), z: word_at(bytes, pos + 8) },
        rotation: RotationBits {
            yaw: word_at(bytes, pos + 12),
            pitch: word_at(bytes, pos + 16),
            roll: word_at(bytes, pos + 20),
        },
        scale: Vec3Bits { x: word_at(bytes, pos + 24), y: word_at(bytes, pos + 28), z: word_at(bytes, pos + 32) },
    }
}

impl TransformBits {
    /// The placement that changes nothing.
    pub fn new() -> (t: Self)
        ensures
            t == identity_transform(),
    {
        TransformBits {
            translation: Vec3Bits { x: 0, y: 0, z: 0 },
            rotation: RotationBits { yaw: 0, pitch: 0, roll: 0 },
            scale: Vec3Bits { x: ONE_BITS, y: ONE_BITS, z: ONE_BITS },
        }
    }

    /// Appends the 36 bytes of this placement.
    pub fn serialize(&self, writer: &mut Vec<u8>)
        ensures
            final(writer)@ == old(writer)@ + transform_bytes(*self),
    {
        push_word(writer, self.translation.x);
        push_word(writer, self.translation.y);
        push_word(writer, self.translation.z);
        push_word(writer, self.rotation.yaw);
        push_word(writer, self.rotation.pitch);
        push_word(writer, self.rotation.roll);
        push_word(writer, self.scale.x);
        push_word(writer, self.scale.y);
        push_word(writer, self.scale.z);
        assert(writer@ =~= old(writer)@ + transform_bytes(*self));
    }

    /// Reads the placement whose 36 bytes start at `pos`; fails with
    /// `UnexpectedEnd` where fewer than 36 bytes are left there.
    pub fn deserialize(bytes: &[u8], pos: usize) -> (res: Result<Self, CsgFormatError>)
        ensures
            pos + 36 <= bytes@.len() ==> res == Ok::<Self, CsgFormatError>(transform_at(bytes@, pos as int)),
            pos + 36 > bytes@.len() ==> res == Err::<Self, CsgFormatError>(CsgFormatError::UnexpectedEnd),
    {
        let n = bytes.len();
        if pos > n || n - pos < 36 {
            return Err(CsgFormatError::UnexpectedEnd);
        }
        Ok(TransformBits {
            translation: Vec3Bits { x: read_word(bytes, pos), y: read_word(bytes, pos + 4), z: read_word(bytes, pos + 8) },
            rotation: RotationBits {
                yaw: read_word(bytes, pos + 12),
                pitch: read_word(bytes, pos + 16),
                roll: read_word(bytes, pos + 20),
            },
            scale: Vec3Bits {
                x: read_word(bytes, pos + 24),
                y: read_word(bytes, pos + 28),
                z: read_word(bytes, pos + 32),
            },
        })
    }
}

/// The 36 bytes of a placement hold, four big-endian bytes each and in this
/// order: the translation's x, y and z, the yaw, the pitch and the roll, and
/// the scale's x, y and z.
pub proof fn lemma_transform_layout(t: TransformBits)
    ensures
        transform_bytes(t).len() == 36,
        transform_bytes(t).subrange(0, 4) == word_bytes(t.translation.x),
        transform_bytes(t).subrange(4, 8) == word_bytes(t.translation.y),
        transform_bytes(t).subrange(8, 12) == word_bytes(t.translation.z),
        transform_bytes(t).subrange(12, 16) == word_bytes(t.rotation.yaw),
        transform_bytes(t).subrange(16, 20) == word_bytes(t.rotation.pitch),
        transform_bytes(t).subrange(20, 24) == word_bytes(t.rotation.roll),
        transform_bytes(t).subrange(24, 28) == word_bytes(t.scale.x),
        transform_bytes(t).subrange(28, 32) == word_bytes(t.scale.y),
        transform_bytes(t).subrange(32, 36) == word_bytes(t.scale.z),
{
    let b = transform_bytes(t);
    assert(b.subrange(0, 4) =~= word_bytes(t.translation.x));
    assert(b.subrange(4, 8) =~= word_bytes(t.translation.y));
    assert(b.subrange(8, 12) =~= word_bytes(t.translation.z));
    assert(b.subrange(12, 16) =~= word_bytes(t.rotation.yaw));
    assert(b.subrange(16, 20) =~= word_bytes(t.rotation.pitch));
    assert(b.subrange(20, 24) =~= word_bytes(t.rotation.roll));
    assert(b.subrange(24, 28) =~= word_bytes(t.scale.x));
    assert(b.subrange(28, 32) =~= word_bytes(t.scale.y));
    assert(b.subrange(32, 36) =~= word_bytes(t.scale.z));
}

/// Where the 36 bytes of `t` stand at `pos`, the placement read there is `t`.
pub proof fn lemma_transform_at(bytes: Seq<u8>, pos: int, t: TransformBits)
    requires
        0 <= pos,
        pos + 36 <= bytes.len(),
        bytes.subrange(pos, pos + 36) == transform_bytes(t),
    ensures
        transform_at(bytes, pos) == t,
{
    let s = bytes.subrange(pos, pos + 36);
    assert(bytes.subrange(pos + 0, pos + 4) =~= s.subrange(0, 4));
    assert(s.subrange(0, 4) =~= word_bytes(t.translation.x));
    lemma_word_at(bytes, pos, t.translation.x);
    assert(bytes.subrange(pos + 4, pos + 8) =~= s.subrange(4, 8));
    assert(s.subrange(4, 8) =~= word_bytes(t.translation.y));
    lemma_word_at(bytes, pos + 4, t.translation.y);
    assert(bytes.subrange(pos + 8, pos + 12) =~= s.subrange(8, 12));
    assert(s.subrange(8, 12) =~= word_bytes(t.translation.z));
    lemma_word_at(bytes, pos + 8, t.translation.z);
    assert(bytes.subrange(pos + 12, pos + 16) =~= s.subrange(12, 16));
    assert(s.subrange(12, 16) =~= word_bytes(t.rotation.yaw));
    lemma_word_at(bytes, pos + 12, t.rotation.yaw);
    assert(bytes.subrange(pos + 16, pos + 20) =~= s.subrange(16, 20));
    assert(s.subrange(16, 20) =~= word_bytes(t.rotation.pitch));
    lemma_word_at(bytes, pos + 16, t.rotation.pitch);
    assert(bytes.subrange(pos + 20, pos + 24) =~= s.subrange(20, 24));
    assert(s.subrange(20, 24) =~= word_bytes(t.rotation.roll));
    lemma_word_at(bytes, pos + 20, t.rotation.roll);
    assert(bytes.subrange(pos + 24, pos + 28) =~= s.subrange(24, 28));
    assert(s.subrange(24, 28) =~= word_bytes(t.scale.x));
    lemma_word_at(bytes, pos + 24, t.scale.x);
    assert(bytes.subrange(pos + 28, pos + 32) =~= s.subrange(28, 32));
    assert(s.subrange(28, 32) =~= word_bytes(t.scale.y));
    lemma_word_at(bytes, pos + 28, t.scale.y);
    assert(bytes.subrange(pos + 32, pos + 36) =~= s.subrange(32, 36));
    assert(s.subrange(32, 36) =~= word_bytes(t.scale.z));
    lemma_word_at(bytes, pos + 32, t.scale.z);
}

} // verus!
