//! Protobuf wire types: the low three bits of a field's tag.
use vstd::prelude::*;

verus! {

/// How a field's value is laid out; the number of each is its encoded value.
#[derive(Clone, Copy, Debug, PartialEq, Eq, Structural)]
pub enum WireType {
    Varint,
    SixtyFourBit,
    LengthDelimited,
    StartGroup,
    EndGroup,
    ThirtyTwoBit,
}

/// Why a wire type was refused.
#[derive(Clone, Copy, Debug, PartialEq, Eq, Structural)]
pub enum WireTypeError {
    /// The value is not the number of a wire type.
    InvalidValue(u32),
    /// A field came with another wire type than its declaration's.
    Mismatch { actual: WireType, expected: WireType },
}

/// The number of a wire type.
pub open spec fn spec_wire_value(w: WireType) -> nat {
    match w {
        WireType::Varint => 0,
        WireType::SixtyFourBit => 1,
        WireType::LengthDelimited => 2,
        WireType::StartGroup => 3,
        WireType::EndGroup => 4,
        WireType::ThirtyTwoBit => 5,
    }
}

/// The wire type whose number is `v`.
pub open spec fn spec_wire_type(v: nat) -> Option<WireType> {
    if v == 0 {
        Some(WireType::Varint)
    } else if v == 1 {
        Some(WireType::SixtyFourBit)
    } else if v == 2 {
        Some(WireType::LengthDelimited)
    } else if v == 3 {
        Some(WireType::StartGroup)
    } else if v == 4 {
        Some(WireType::EndGroup)
    } else if v == 5 {
        Some(WireType::ThirtyTwoBit)
    } else {
        None
    }
}

/// The tag bits that hold the wire type.
pub const WIRE_TYPE_MASK: u32 = 7;

/// The number of tag bits that hold the wire type.
pub const WIRE_TYPE_BITS: u32 = 3;

impl WireType {
    /// The encoded value of the wire type.
    pub fn value(self) -> (r: u8)
        ensures
            r == spec_wire_value(self),
    {
        match self {
            WireType::Varint => 0,
            WireType::SixtyFourBit => 1,
            WireType::LengthDelimited => 2,
            WireType::StartGroup => 3,
            WireType::EndGroup => 4,
            WireType::ThirtyTwoBit => 5,
        }
    }

    fn try_from(value: u8) -> (r: Option<WireType>)
        ensures
            r == spec_wire_type(value as nat),
    {
        match value {
            0 => Some(WireType::Varint),
            1 => Some(WireType::SixtyFourBit),
            2 => Some(WireType::LengthDelimited),
            3 => Some(WireType::StartGroup),
            4 => Some(WireType::EndGroup),
            5 => Some(WireType::ThirtyTwoBit),
            _ => None,
        }
    }

    /// The wire type whose number is `value`.
    pub fn try_from_u32(value: u32) -> (r: Result<WireType, WireTypeError>)
        ensures
            match spec_wire_type(value as nat) {
                Some(w) => r == Ok::<WireType, WireTypeError>(w),
                None => r == Err::<WireType, WireTypeError>(WireTypeError::InvalidValue(value)),
            },
    {
        if value > 5 {
            return Err(WireTypeError::InvalidValue(value));
        }
        match Self::try_from(value as u8) {
            Some(w) => Ok(w),
            None => Err(WireTypeError::InvalidValue(value)),
        }
    }

    /// Splits a field's tag into its wire type (the low 3 bits) and its field
    /// number (the rest).
    pub fn try_from_tag(tag: u32) -> (r: Result<(WireType, u32), WireTypeError>)
        ensures
            match spec_wire_type((tag % 8) as nat) {
                Some(w) => r == Ok::<(WireType, u32), WireTypeError>((w, tag / 8)),
                None => r == Err::<(WireType, u32), WireTypeError>(
                    WireTypeError::InvalidValue(tag % 8),
                ),
            },
    {
        let value = (tag & WIRE_TYPE_MASK) as u8;
        let field = tag >> WIRE_TYPE_BITS;
        assert((tag & 7) == tag % 8) by (bit_vector);
        assert(tag >> 3u32 == tag / 8) by (bit_vector);
        match Self::try_from(value) {
            Some(wire_type) => Ok((wire_type, field)),
            None => Err(WireTypeError::InvalidValue(value as u32)),
        }
    }
}

/// Refuses a field whose wire type is not the expected one.
pub fn check_wire_type(expected: WireType, actual: WireType) -> (r: Result<(), WireTypeError>)
    ensures
        r == (if expected == actual {
            Ok::<(), WireTypeError>(())
        } else {
            Err::<(), WireTypeError>(WireTypeError::Mismatch { actual, expected })
        }),
{
    if expected != actual {
        return Err(WireTypeError::Mismatch { actual, expected });
    }
    Ok(())
}

/// A wire type's number reads back as that wire type, and a tag made of a
/// field number and a wire type splits back into them.
pub proof fn lemma_wire_type_roundtrip(w: WireType, field: u32)
    requires
        field < 0x2000_0000,
    ensures
        spec_wire_type(spec_wire_value(w)) == Some(w),
        (field * 8 + spec_wire_value(w)) % 8 == spec_wire_value(w),
        (field * 8 + spec_wire_value(w)) / 8 == field,
{
}

} // verus!
