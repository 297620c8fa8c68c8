//! Primitive numeric kinds and cardinality bounds for variable-length
//! containers.

use vstd::prelude::*;

verus! {

/// Code of the `()` primitive.
pub const UNIT_CODE: u8 = 0x00;
/// Code of the byte primitive.
pub const BYTE_CODE: u8 = 0x40;

/// Codes of the unsigned number kinds. The low five bits carry the
/// byte width below 32 bytes; wider kinds carry a sixteen-byte factor
/// under bit five.
pub const U8_CODE: u8 = 0x01;
pub const U16_CODE: u8 = 0x02;
pub const U24_CODE: u8 = 0x03;
pub const U32_CODE: u8 = 0x04;
pub const U64_CODE: u8 = 0x08;
pub const U128_CODE: u8 = 0x10;
pub const U256_CODE: u8 = 0x20;
pub const U512_CODE: u8 = 0x22;
pub const U1024_CODE: u8 = 0x26;

/// Codes of the signed number kinds, under class bit six.
pub const I8_CODE: u8 = 0x41;
pub const I16_CODE: u8 = 0x42;
pub const I24_CODE: u8 = 0x43;
pub const I32_CODE: u8 = 0x44;
pub const I64_CODE: u8 = 0x48;
pub const I128_CODE: u8 = 0x50;
pub const I256_CODE: u8 = 0x60;
pub const I512_CODE: u8 = 0x62;
pub const I1024_CODE: u8 = 0x66;

/// Codes of the float kinds, under both class bits; `F16B_CODE` is the
/// distinguished bfloat slot.
pub const F16B_CODE: u8 = 0xC0;
pub const F16_CODE: u8 = 0xC2;
pub const F32_CODE: u8 = 0xC4;
pub const F64_CODE: u8 = 0xC8;
pub const F80_CODE: u8 = 0xCA;
pub const F128_CODE: u8 = 0xD0;
pub const F256_CODE: u8 = 0xE0;

/// A primitive numeric kind, identified by a one-byte code that packs the
/// number's class (unsigned, signed, non-zero, float) with its byte width.
/// Two distinguished codes stand apart: `0x00` is the unit type and `0x40`
/// is a raw byte.
#[derive(Clone, Copy, PartialEq, Eq, Structural, Debug)]
pub struct Primitive {
    pub code: u8,
}

impl Primitive {
    /// Wraps a raw code byte.
    pub fn from_code(code: u8) -> (r: Primitive)
        ensures
            r.code == code,
    {
        Primitive { code }
    }

    /// The raw code byte.
    pub fn into_code(self) -> (r: u8)
        ensures
            r == self.code,
    {
        self.code
    }

    /// The unit type `()`.
    pub fn unit() -> (r: Primitive)
        ensures
            r.code == UNIT_CODE,
    {
        Primitive { code: UNIT_CODE }
    }

    /// A raw byte.
    pub fn byte() -> (r: Primitive)
        ensures
            r.code == BYTE_CODE,
    {
        Primitive { code: BYTE_CODE }
    }
}

/// A closed interval `[min, max]` bounding the element count of a
/// variable-length container.
#[derive(Clone, Copy, PartialEq, Eq, Structural, Debug)]
pub struct Sizing {
    pub min: u64,
    pub max: u64,
}

impl Sizing {
    /// Exactly one element.
    pub fn one() -> (r: Sizing)
        ensures
            r.min == 1 && r.max == 1,
    {
        Sizing { min: 1, max: 1 }
    }

    /// An arbitrary closed interval.
    pub fn new(min: u64, max: u64) -> (r: Sizing)
        ensures
            r.min == min && r.max == max,
    {
        Sizing { min, max }
    }

    /// Exactly `len` elements.
    pub fn fixed(len: u64) -> (r: Sizing)
        ensures
            r.min == len && r.max == len,
    {
        Sizing { min: len, max: len }
    }

    /// Whether the interval admits a single length only.
    pub fn is_fixed(&self) -> (r: bool)
        ensures
            r == (self.min == self.max),
    {
        self.min == self.max
    }

    /// Whether `len` lies inside the interval.
    pub fn check(&self, len: usize) -> (r: bool)
        ensures
            r == (self.min <= len && len <= self.max),
    {
        let len64 = len as u64;
        len64 >= self.min && len64 <= self.max
    }
}

} // verus!
