//! Single-precision numbers, carried by their bits.

use vstd::prelude::*;

verus! {

/// An IEEE-754 single-precision number, held as its bit pattern. The library
/// stores and compares such numbers; arithmetic on them is its callers'.
#[derive(Clone, Copy, Debug)]
pub struct Single {
    pub bits: u32,
}

pub const ZERO_BITS: u32 = 0;

pub const ONE_BITS: u32 = 0x3f80_0000;

pub const TWO_BITS: u32 = 0x4000_0000;

pub const THIRTY_TWO_BITS: u32 = 0x4200_0000;

/// Whether the bits are those of a number rather than a NaN: without the
/// sign bit they are at most the bits of infinity.
pub open spec fn is_number(bits: u32) -> bool {
    bits % 0x8000_0000 <= 0x7f80_0000
}

/// Whether the bits are those of zero, of either sign.
pub open spec fn is_zero(bits: u32) -> bool {
    bits % 0x8000_0000 == 0
}

/// Equality of the numbers: a NaN equals nothing, the two zeros are equal,
/// and otherwise one number has one bit pattern.
pub open spec fn same_number(a: Single, b: Single) -> bool {
    &&& is_number(a.bits)
    &&& is_number(b.bits)
    &&& a.bits == b.bits || (is_zero(a.bits) && is_zero(b.bits))
}

impl Single {
    pub fn from_bits(bits: u32) -> (r: Single)
        ensures
            r.bits == bits,
    {
        Single { bits }
    }

    pub fn to_bits(self) -> (r: u32)
        ensures
            r == self.bits,
    {
        self.bits
    }

    pub fn same(self, other: Single) -> (r: bool)
        ensures
            r == same_number(self, other),
    {
        let (a, b) = (self.bits % 0x8000_0000, other.bits % 0x8000_0000);
        a <= 0x7f80_0000 && b <= 0x7f80_0000 && (self.bits == other.bits || (a == 0 && b == 0))
    }
}

impl PartialEq for Single {
    fn eq(&self, other: &Single) -> (r: bool) {
        self.same(*other)
    }
}

impl vstd::std_specs::cmp::PartialEqSpecImpl for Single {
    open spec fn obeys_eq_spec() -> bool {
        true
    }

    open spec fn eq_spec(&self, other: &Single) -> bool {
        same_number(*self, *other)
    }
}

} // verus!
