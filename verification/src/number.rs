//! Double-precision numbers, held as the bits of their IEEE 754 form.

use vstd::prelude::*;

verus! {

/// Where the sign bit stands.
pub const SIGN: u64 = 0x8000_0000_0000_0000;

/// The magnitude bits of an infinity; every larger magnitude is a NaN.
pub const INFINITE: u64 = 0x7ff0_0000_0000_0000;

/// The bits of one.
pub const ONE: u64 = 0x3ff0_0000_0000_0000;

/// A double-precision number.
#[derive(Clone, Copy, Debug)]
pub struct Number {
    bits: u64,
}

impl Number {
    /// The bits of the number's IEEE 754 form.
    pub closed spec fn spec_bits(self) -> u64 {
        self.bits
    }

    /// Whether the number is not a number at all.
    pub open spec fn spec_is_nan(self) -> bool {
        self.spec_bits() % SIGN > INFINITE
    }

    /// Whether the number is zero, of either sign.
    pub open spec fn spec_is_zero(self) -> bool {
        self.spec_bits() % SIGN == 0
    }

    /// Numeric equality: a NaN equals nothing, and the zeros are equal.
    pub open spec fn equals(self, other: Number) -> bool {
        &&& !self.spec_is_nan()
        &&& !other.spec_is_nan()
        &&& self == other || self.spec_is_zero() && other.spec_is_zero()
    }

    /// The number with the given bits.
    pub fn from_bits(bits: u64) -> (number: Self)
        ensures
            number.spec_bits() == bits,
    {
        Number { bits }
    }

    /// The bits of the number.
    pub fn to_bits(&self) -> (bits: u64)
        ensures
            bits == self.spec_bits(),
    {
        self.bits
    }

    /// Whether the number is not a number at all.
    pub fn is_nan(&self) -> (nan: bool)
        ensures
            nan == self.spec_is_nan(),
    {
        self.bits % SIGN > INFINITE
    }

    /// Whether the number is zero, of either sign.
    pub fn is_zero(&self) -> (zero: bool)
        ensures
            zero == self.spec_is_zero(),
    {
        self.bits % SIGN == 0
    }

    /// Whether the two numbers are numerically equal.
    pub fn same(&self, other: &Number) -> (same: bool)
        ensures
            same == self.equals(*other),
    {
        !self.is_nan() && !other.is_nan() && (self.bits == other.bits || self.is_zero()
            && other.is_zero())
    }

    /// One for true, zero for false.
    pub closed spec fn of_bool(b: bool) -> Number {
        Number {
            bits: if b {
                ONE
            } else {
                0
            },
        }
    }

    /// Zero and one are numbers, and zero is zero.
    pub proof fn of_bool_is_a_number()
        ensures
            Number::of_bool(false).spec_is_zero(),
            !Number::of_bool(false).spec_is_nan(),
            !Number::of_bool(true).spec_is_zero(),
            !Number::of_bool(true).spec_is_nan(),
    {
    }

    /// The bits of one and of zero.
    pub proof fn of_bool_bits(b: bool)
        ensures
            Number::of_bool(b).spec_bits() == if b {
                0x3ff0_0000_0000_0000u64
            } else {
                0u64
            },
    {
    }

    /// One for true, zero for false.
    pub fn from_bool(b: bool) -> (number: Self)
        ensures
            number == Number::of_bool(b),
            number.spec_bits() == if b {
                ONE
            } else {
                0u64
            },
    {
        Number {
            bits: if b {
                ONE
            } else {
                0
            },
        }
    }
}

impl PartialEq for Number {
    fn eq(&self, other: &Number) -> (same: bool) {
        self.same(other)
    }
}

impl vstd::std_specs::cmp::PartialEqSpecImpl for Number {
    open spec fn obeys_eq_spec() -> bool {
        true
    }

    open spec fn eq_spec(&self, other: &Number) -> bool {
        self.equals(*other)
    }
}

/// Numbers with the same bits are the same number.
pub proof fn same_bits_same_number(a: Number, b: Number)
    requires
        a.spec_bits() == b.spec_bits(),
    ensures
        a == b,
{
}

} // verus!
