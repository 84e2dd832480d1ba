//! Double-precision numbers held by their IEEE 754 bit patterns.
//!
//! Classification and ordering are decided directly on the bit pattern.
//! Rounded arithmetic is delegated to `rustc_apfloat`, a software
//! implementation: what such an operation returns has a name here and no
//! definition, so contracts that speak of it say which operations were done
//! on which operands, in which order.

use rustc_apfloat::ieee::Double;
use rustc_apfloat::Float;
use rustc_apfloat::Round;
use vstd::prelude::*;

verus! {

/// Bit pattern of `+0.0`.
pub const ZERO_BITS: u64 = 0;

/// Bit pattern of `1.0`.
pub const ONE_BITS: u64 = 0x3ff0_0000_0000_0000;

/// Bit pattern of `-1.0`.
pub const NEG_ONE_BITS: u64 = 0xbff0_0000_0000_0000;

/// Bit pattern of positive infinity, the largest magnitude that is not a NaN.
pub const INFINITY_BITS: u64 = 0x7ff0_0000_0000_0000;

/// The sign bit.
pub const SIGN_BIT: u64 = 0x8000_0000_0000_0000;

/// Bit pattern of `1e-6`, the distance under which a value snaps to an integer.
pub const TOLERANCE_BITS: u64 = 0x3eb0_c6f7_a0b5_ed8d;

/// The pattern with the sign bit cleared.
pub open spec fn magnitude(bits: u64) -> int {
    if bits >= SIGN_BIT {
        bits - SIGN_BIT
    } else {
        bits as int
    }
}

/// Whether the sign bit is set.
pub open spec fn sign_set(bits: u64) -> bool {
    bits >= SIGN_BIT
}

/// Whether the pattern encodes a NaN.
pub open spec fn bits_nan(bits: u64) -> bool {
    magnitude(bits) > INFINITY_BITS
}

/// Whether the pattern encodes `+0.0` or `-0.0`.
pub open spec fn bits_zero(bits: u64) -> bool {
    magnitude(bits) == 0
}

/// Position of a non-NaN pattern on the number line: patterns of one sign are
/// ordered as their magnitudes are, and both zeros share position 0.
pub open spec fn order_key(bits: u64) -> int {
    if sign_set(bits) {
        -magnitude(bits)
    } else {
        magnitude(bits)
    }
}

/// IEEE 754 `<`: false as soon as either side is a NaN.
pub open spec fn bits_lt(a: u64, b: u64) -> bool {
    !bits_nan(a) && !bits_nan(b) && order_key(a) < order_key(b)
}

/// Whether the value lies strictly within `1e-6` of zero.
pub open spec fn bits_tiny(bits: u64) -> bool {
    magnitude(bits) < TOLERANCE_BITS
}

/// The sum of two doubles, rounded to nearest, ties to even.
pub uninterp spec fn ieee_add(a: u64, b: u64) -> u64;

/// The difference of two doubles, rounded to nearest, ties to even.
pub uninterp spec fn ieee_sub(a: u64, b: u64) -> u64;

/// The product of two doubles, rounded to nearest, ties to even.
pub uninterp spec fn ieee_mul(a: u64, b: u64) -> u64;

/// The quotient of two doubles, rounded to nearest, ties to even.
pub uninterp spec fn ieee_div(a: u64, b: u64) -> u64;

/// The nearest integral double, ties away from zero.
pub uninterp spec fn ieee_round(a: u64) -> u64;

/// The double nearest to an integer.
pub uninterp spec fn ieee_from_int(i: int) -> u64;

/// Calls `rustc_apfloat`'s `Float::add_r` on two doubles rebuilt from their
/// bit patterns, rounding to nearest-even. The result's pattern is named
/// `ieee_add`; nothing else is claimed of it.
#[verifier::external_body]
fn add_bits(a: u64, b: u64) -> (r: u64)
    ensures
        r == ieee_add(a, b),
{
    let x = Double::from_bits(u128::from(a));
    let y = Double::from_bits(u128::from(b));
    x.add_r(y, Round::NearestTiesToEven).value.to_bits() as u64
}

/// Calls `rustc_apfloat`'s `Float::sub_r` on two doubles rebuilt from their
/// bit patterns, rounding to nearest-even. The result's pattern is named
/// `ieee_sub`; nothing else is claimed of it.
#[verifier::external_body]
fn sub_bits(a: u64, b: u64) -> (r: u64)
    ensures
        r == ieee_sub(a, b),
{
    let x = Double::from_bits(u128::from(a));
    let y = Double::from_bits(u128::from(b));
    x.sub_r(y, Round::NearestTiesToEven).value.to_bits() as u64
}

/// Calls `rustc_apfloat`'s `Float::mul_r` on two doubles rebuilt from their
/// bit patterns, rounding to nearest-even. The result's pattern is named
/// `ieee_mul`; nothing else is claimed of it.
#[verifier::external_body]
fn mul_bits(a: u64, b: u64) -> (r: u64)
    ensures
        r == ieee_mul(a, b),
{
    let x = Double::from_bits(u128::from(a));
    let y = Double::from_bits(u128::from(b));
    x.mul_r(y, Round::NearestTiesToEven).value.to_bits() as u64
}

/// Calls `rustc_apfloat`'s `Float::div_r` on two doubles rebuilt from their
/// bit patterns, rounding to nearest-even. Division by zero does not fail
/// there: it yields an infinity or a NaN. The result's pattern is named
/// `ieee_div`; nothing else is claimed of it.
#[verifier::external_body]
fn div_bits(a: u64, b: u64) -> (r: u64)
    ensures
        r == ieee_div(a, b),
{
    let x = Double::from_bits(u128::from(a));
    let y = Double::from_bits(u128::from(b));
    x.div_r(y, Round::NearestTiesToEven).value.to_bits() as u64
}

/// Calls `rustc_apfloat`'s `Float::round_to_integral` with ties away from
/// zero. The result's pattern is named `ieee_round`; nothing else is claimed
/// of it.
#[verifier::external_body]
fn round_bits(a: u64) -> (r: u64)
    ensures
        r == ieee_round(a),
{
    let x = Double::from_bits(u128::from(a));
    x.round_to_integral(Round::NearestTiesToAway).value.to_bits() as u64
}

/// Calls `rustc_apfloat`'s `Float::from_i128`, which converts an integer to
/// the nearest double. The result's pattern is named `ieee_from_int`; nothing
/// else is claimed of it.
#[verifier::external_body]
fn int_bits(i: i32) -> (r: u64)
    ensures
        r == ieee_from_int(i as int),
{
    Double::from_i128(i128::from(i)).value.to_bits() as u64
}

/// A double-precision number, identified with its bit pattern.
#[derive(Clone, Copy, Debug)]
pub struct Scalar {
    pub bits: u64,
}

impl Scalar {
    /// The number with the given bit pattern.
    pub fn from_bits(bits: u64) -> (r: Scalar)
        ensures
            r.bits == bits,
    {
        Scalar { bits }
    }

    /// The bit pattern of the number.
    pub fn to_bits(self) -> (r: u64)
        ensures
            r == self.bits,
    {
        self.bits
    }

    /// Positive zero.
    pub fn zero() -> (r: Scalar)
        ensures
            r == Scalar::spec_zero(),
    {
        Scalar { bits: ZERO_BITS }
    }

    /// One.
    pub fn one() -> (r: Scalar)
        ensures
            r == Scalar::spec_one(),
    {
        Scalar { bits: ONE_BITS }
    }

    /// Minus one.
    pub fn neg_one() -> (r: Scalar)
        ensures
            r == Scalar::spec_neg_one(),
    {
        Scalar { bits: NEG_ONE_BITS }
    }

    /// The double nearest to an integer.
    pub fn from_i32(i: i32) -> (r: Scalar)
        ensures
            r == Scalar::spec_from_int(i as int),
    {
        Scalar { bits: int_bits(i) }
    }

    /// Positive zero.
    pub open spec fn spec_zero() -> Scalar {
        Scalar { bits: ZERO_BITS }
    }

    /// One.
    pub open spec fn spec_one() -> Scalar {
        Scalar { bits: ONE_BITS }
    }

    /// Minus one.
    pub open spec fn spec_neg_one() -> Scalar {
        Scalar { bits: NEG_ONE_BITS }
    }

    /// The double nearest to an integer.
    pub open spec fn spec_from_int(i: int) -> Scalar {
        Scalar { bits: ieee_from_int(i) }
    }

    /// The rounded sum.
    pub open spec fn spec_add(self, rhs: Scalar) -> Scalar {
        Scalar { bits: ieee_add(self.bits, rhs.bits) }
    }

    /// The rounded difference.
    pub open spec fn spec_sub(self, rhs: Scalar) -> Scalar {
        Scalar { bits: ieee_sub(self.bits, rhs.bits) }
    }

    /// The rounded product.
    pub open spec fn spec_mul(self, rhs: Scalar) -> Scalar {
        Scalar { bits: ieee_mul(self.bits, rhs.bits) }
    }

    /// The rounded quotient.
    pub open spec fn spec_div(self, rhs: Scalar) -> Scalar {
        Scalar { bits: ieee_div(self.bits, rhs.bits) }
    }

    /// The nearest integral value, halves rounded away from zero.
    pub open spec fn spec_round(self) -> Scalar {
        Scalar { bits: ieee_round(self.bits) }
    }

    /// `self + rhs`.
    pub fn add(self, rhs: Scalar) -> (r: Scalar)
        ensures
            r == self.spec_add(rhs),
    {
        Scalar { bits: add_bits(self.bits, rhs.bits) }
    }

    /// `self - rhs`.
    pub fn sub(self, rhs: Scalar) -> (r: Scalar)
        ensures
            r == self.spec_sub(rhs),
    {
        Scalar { bits: sub_bits(self.bits, rhs.bits) }
    }

    /// `self * rhs`.
    pub fn mul(self, rhs: Scalar) -> (r: Scalar)
        ensures
            r == self.spec_mul(rhs),
    {
        Scalar { bits: mul_bits(self.bits, rhs.bits) }
    }

    /// `self / rhs`; a zero divisor gives an infinity or a NaN.
    pub fn div(self, rhs: Scalar) -> (r: Scalar)
        ensures
            r == self.spec_div(rhs),
    {
        Scalar { bits: div_bits(self.bits, rhs.bits) }
    }

    /// The nearest integral value, halves rounded away from zero.
    pub fn round(self) -> (r: Scalar)
        ensures
            r == self.spec_round(),
    {
        Scalar { bits: round_bits(self.bits) }
    }

    /// Whether the number is a NaN.
    pub open spec fn spec_is_nan(self) -> bool {
        bits_nan(self.bits)
    }

    /// Whether the number compares equal to zero, which both zeros do.
    pub open spec fn spec_is_zero(self) -> bool {
        bits_zero(self.bits)
    }

    /// IEEE 754 `<`.
    pub open spec fn spec_lt(self, rhs: Scalar) -> bool {
        bits_lt(self.bits, rhs.bits)
    }

    /// Whether the value is strictly greater than zero.
    pub open spec fn spec_is_positive(self) -> bool {
        0 < self.bits <= INFINITY_BITS
    }

    /// Whether the value lies strictly within `1e-6` of zero.
    pub open spec fn spec_is_tiny(self) -> bool {
        bits_tiny(self.bits)
    }

    /// The value snapped to the nearest integer when it lies strictly within
    /// `1e-6` of it, with a zero result always positive.
    pub open spec fn spec_corrected(self) -> Scalar {
        let nearest = self.spec_round();
        let snapped = if self.spec_sub(nearest).spec_is_tiny() {
            nearest
        } else {
            self
        };
        if snapped.spec_is_zero() {
            Scalar::spec_zero()
        } else {
            snapped
        }
    }

    /// The bit pattern with the sign bit cleared.
    fn magnitude_bits(self) -> (r: u64)
        ensures
            r == magnitude(self.bits),
    {
        if self.bits >= SIGN_BIT {
            self.bits - SIGN_BIT
        } else {
            self.bits
        }
    }

    /// Whether the number is a NaN.
    pub fn is_nan(self) -> (r: bool)
        ensures
            r == self.spec_is_nan(),
    {
        self.magnitude_bits() > INFINITY_BITS
    }

    /// Whether the number compares equal to zero, which both zeros do.
    pub fn is_zero(self) -> (r: bool)
        ensures
            r == self.spec_is_zero(),
    {
        self.magnitude_bits() == 0
    }

    /// Whether the number is strictly greater than zero.
    pub fn is_positive(self) -> (r: bool)
        ensures
            r == self.spec_is_positive(),
            r == Scalar::spec_zero().spec_lt(self),
    {
        0 < self.bits && self.bits <= INFINITY_BITS
    }

    /// IEEE 754 `<`.
    pub fn lt(self, rhs: Scalar) -> (r: bool)
        ensures
            r == self.spec_lt(rhs),
    {
        if self.is_nan() || rhs.is_nan() {
            return false;
        }
        let a: u64 = self.magnitude_bits();
        let b: u64 = rhs.magnitude_bits();
        let a_neg: bool = self.bits >= SIGN_BIT;
        let b_neg: bool = rhs.bits >= SIGN_BIT;
        if a_neg && b_neg {
            b < a
        } else if a_neg {
            a > 0 || b > 0
        } else if b_neg {
            false
        } else {
            a < b
        }
    }

    /// Whether the number lies strictly within `1e-6` of zero.
    pub fn is_tiny(self) -> (r: bool)
        ensures
            r == self.spec_is_tiny(),
    {
        self.magnitude_bits() < TOLERANCE_BITS
    }

    /// Snaps the value to the nearest integer when it lies strictly within
    /// `1e-6` of it, and turns a negative zero into a positive one.
    pub fn corrected(self) -> (r: Scalar)
        ensures
            r == self.spec_corrected(),
    {
        let nearest = self.round();
        let snapped = if self.sub(nearest).is_tiny() {
            nearest
        } else {
            self
        };
        if snapped.is_zero() {
            Scalar::zero()
        } else {
            snapped
        }
    }
}

} // verus!
