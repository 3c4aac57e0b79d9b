use vstd::prelude::*;

verus! {

/// One more than the largest magnitude field of a double: the sign bit.
pub const SIGN_BIT: u64 = 0x8000_0000_0000_0000;

/// The bit pattern of positive infinity; every larger magnitude is a NaN.
pub const INFINITY_BITS: u64 = 0x7FF0_0000_0000_0000;

/// A molecule length, held as the bit pattern of an IEEE 754 double.
#[derive(Clone, Copy, Debug, PartialEq, Eq, Structural)]
pub struct Length {
    pub bits: u64,
}

/// The magnitude of a double: its bits without the sign.
pub open spec fn magnitude(bits: u64) -> int {
    (bits as int) % (SIGN_BIT as int)
}

pub open spec fn is_negative(bits: u64) -> bool {
    bits >= SIGN_BIT
}

pub open spec fn is_nan(bits: u64) -> bool {
    magnitude(bits) > INFINITY_BITS as int
}

/// An integer that orders the non-NaN doubles as their values do
/// (both zeros map to 0).
pub open spec fn order_key(bits: u64) -> int {
    if is_negative(bits) {
        -magnitude(bits)
    } else {
        magnitude(bits)
    }
}

/// `a >= b` on doubles: false where either is NaN.
pub open spec fn at_least(a: u64, b: u64) -> bool {
    !is_nan(a) && !is_nan(b) && order_key(a) >= order_key(b)
}

/// A double strictly greater than zero.
pub open spec fn is_positive(bits: u64) -> bool {
    !is_nan(bits) && order_key(bits) > 0
}

impl Length {
    /// The length zero (positive zero).
    pub fn zero() -> (r: Length)
        ensures
            r.bits == 0,
    {
        Length { bits: 0 }
    }

    pub fn from_bits(bits: u64) -> (r: Length)
        ensures
            r.bits == bits,
    {
        Length { bits }
    }

    fn magnitude_of(bits: u64) -> (r: u64)
        ensures
            r as int == magnitude(bits),
    {
        if bits >= SIGN_BIT {
            bits - SIGN_BIT
        } else {
            bits
        }
    }

    /// Whether this length is a NaN.
    pub fn is_nan(&self) -> (r: bool)
        ensures
            r == is_nan(self.bits),
    {
        Self::magnitude_of(self.bits) > INFINITY_BITS
    }

    /// Whether this length is at least `min`, as `>=` compares doubles.
    pub fn at_least(&self, min: &Length) -> (r: bool)
        ensures
            r == at_least(self.bits, min.bits),
    {
        let a = Self::magnitude_of(self.bits);
        let b = Self::magnitude_of(min.bits);
        if a > INFINITY_BITS || b > INFINITY_BITS {
            return false;
        }
        let a_neg = self.bits >= SIGN_BIT;
        let b_neg = min.bits >= SIGN_BIT;
        if a_neg && b_neg {
            a <= b
        } else if a_neg {
            a == 0 && b == 0
        } else if b_neg {
            true
        } else {
            a >= b
        }
    }
}

} // verus!
