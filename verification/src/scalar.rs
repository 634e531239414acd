//! Single-precision numbers by their bit patterns.
//!
//! A [`Scalar`] holds the 32 bits of an IEEE 754 binary32 number. Its view is
//! the number that those bits stand for, and every decision the library makes
//! about a scalar (ordering, zero test, conversion to a byte) is stated over
//! that view.

use vstd::arithmetic::mul::*;
use vstd::arithmetic::power2::*;
use vstd::prelude::*;

verus! {

/// The sign bit of a pattern.
pub const SIGN_BIT: u32 = 0x8000_0000;

/// The pattern of positive infinity; larger magnitudes are not numbers.
pub const INFINITY_BITS: u32 = 0x7f80_0000;

/// The number of distinct fractions, 2^23.
pub const FRACTION_SPAN: u32 = 0x80_0000;

/// The pattern of the largest finite number.
pub const MAX_BITS: u32 = 0x7f7f_ffff;

/// The number a bit pattern stands for.
///
/// Every finite binary32 number is a whole multiple of 2^-149, the smallest
/// positive one, so a finite value is held exactly as that multiple.
pub enum Value {
    /// Not a number.
    Nan,
    /// Negative infinity.
    NegInfinity,
    /// The number `n · 2^-149`.
    Finite(int),
    /// Positive infinity.
    Infinity,
}

impl Value {
    /// Strictly less, as IEEE 754 orders numbers: nothing is below or above a
    /// NaN, the infinities bound every finite number.
    pub open spec fn lt(self, other: Value) -> bool {
        match (self, other) {
            (Value::Nan, _) => false,
            (_, Value::Nan) => false,
            (_, Value::NegInfinity) => false,
            (Value::NegInfinity, _) => true,
            (Value::Infinity, _) => false,
            (_, Value::Infinity) => true,
            (Value::Finite(a), Value::Finite(b)) => a < b,
        }
    }

    /// Whether the value is above zero.
    pub open spec fn is_positive(self) -> bool {
        Value::Finite(0).lt(self)
    }

    /// The integer part of a finite value: the value rounded toward zero.
    pub open spec fn truncated(self) -> int {
        match self {
            Value::Finite(n) => if n >= 0 {
                n / (pow2(149) as int)
            } else {
                -((-n) / (pow2(149) as int))
            },
            _ => 0,
        }
    }

    /// The value as a byte. The integer part of a finite value is wrapped
    /// into `0..=255`, not clamped: 256 gives 0 and -1 gives 255. Positive
    /// infinity gives 255; negative infinity and NaN give 0.
    pub open spec fn byte(self) -> u8 {
        match self {
            Value::Finite(_) => (self.truncated() % 256) as u8,
            Value::Infinity => 255,
            _ => 0,
        }
    }
}

/// A binary32 number, held by its bits.
#[derive(Clone, Copy, Debug)]
pub struct Scalar {
    pub bits: u32,
}

impl View for Scalar {
    type V = Value;

    open spec fn view(&self) -> Value {
        if self.magnitude() > INFINITY_BITS {
            Value::Nan
        } else if self.magnitude() == INFINITY_BITS {
            if self.negative() {
                Value::NegInfinity
            } else {
                Value::Infinity
            }
        } else if self.negative() {
            Value::Finite(-(self.size() as int))
        } else {
            Value::Finite(self.size() as int)
        }
    }
}

impl Scalar {
    /// Whether the sign bit is set.
    pub open spec fn negative(self) -> bool {
        self.bits >= SIGN_BIT
    }

    /// The bits without the sign.
    pub open spec fn magnitude(self) -> nat {
        if self.bits >= SIGN_BIT {
            (self.bits - SIGN_BIT) as nat
        } else {
            self.bits as nat
        }
    }

    /// The biased exponent, 0 to 255.
    pub open spec fn exponent(self) -> nat {
        self.magnitude() / (FRACTION_SPAN as nat)
    }

    /// The 23 fraction bits.
    pub open spec fn fraction(self) -> nat {
        self.magnitude() % (FRACTION_SPAN as nat)
    }

    /// The fraction with its hidden leading bit, which subnormals lack.
    pub open spec fn significand(self) -> nat {
        if self.exponent() == 0 {
            self.fraction()
        } else {
            FRACTION_SPAN as nat + self.fraction()
        }
    }

    /// The power of two by which the significand is scaled, counted from 2^-149.
    pub open spec fn scale(self) -> nat {
        if self.exponent() == 0 {
            0
        } else {
            (self.exponent() - 1) as nat
        }
    }

    /// The absolute value in units of 2^-149.
    pub open spec fn size(self) -> nat {
        self.significand() * pow2(self.scale())
    }

    /// The scalar with the given bits.
    pub fn from_bits(bits: u32) -> (r: Scalar)
        ensures
            r.bits == bits,
    {
        Scalar { bits }
    }

    /// The bits of the scalar.
    pub fn to_bits(self) -> (r: u32)
        ensures
            r == self.bits,
    {
        self.bits
    }

    fn magnitude_bits(self) -> (r: u32)
        ensures
            r == self.magnitude(),
            r < SIGN_BIT,
    {
        if self.bits >= SIGN_BIT {
            self.bits - SIGN_BIT
        } else {
            self.bits
        }
    }

    /// The magnitude with the sign applied: an integer that orders numbers as
    /// their values do.
    fn rank(self) -> (r: i64)
        ensures
            r == (if self.negative() {
                -(self.magnitude() as int)
            } else {
                self.magnitude() as int
            }),
    {
        if self.bits >= SIGN_BIT {
            -((self.bits - SIGN_BIT) as i64)
        } else {
            self.bits as i64
        }
    }

    /// Positive zero.
    pub fn zero() -> (r: Scalar)
        ensures
            r.bits == 0,
            r@ == Value::Finite(0),
    {
        let r = Scalar { bits: 0 };
        proof {
            lemma_size_zero(r);
        }
        r
    }

    /// The largest finite number.
    pub fn max() -> (r: Scalar)
        ensures
            r.bits == MAX_BITS,
    {
        Scalar { bits: MAX_BITS }
    }

    /// Whether the scalar is not a number.
    pub fn is_nan(self) -> (r: bool)
        ensures
            r == (self@ is Nan),
    {
        self.magnitude_bits() > INFINITY_BITS
    }

    /// Whether the scalar is zero, of either sign.
    pub fn is_zero(self) -> (r: bool)
        ensures
            r == (self@ == Value::Finite(0)),
    {
        proof {
            lemma_size_zero(self);
        }
        self.magnitude_bits() == 0
    }

    /// Whether the scalar is above zero.
    pub fn is_positive(self) -> (r: bool)
        ensures
            r == self@.is_positive(),
    {
        proof {
            lemma_size_zero(self);
        }
        0 < self.bits && self.bits <= INFINITY_BITS
    }

    /// `self < other` as IEEE 754 compares: false whenever either is a NaN,
    /// and the two zeros are equal.
    pub fn lt(self, other: Scalar) -> (r: bool)
        ensures
            r == self@.lt(other@),
    {
        if self.is_nan() || other.is_nan() {
            false
        } else {
            proof {
                lemma_size_zero(self);
                lemma_size_zero(other);
                lemma_size_ordered(self, other);
                lemma_size_ordered(other, self);
            }
            self.rank() < other.rank()
        }
    }

    /// `self > other` as IEEE 754 compares.
    pub fn gt(self, other: Scalar) -> (r: bool)
        ensures
            r == other@.lt(self@),
    {
        other.lt(self)
    }
}

/// Only the two zero patterns have size zero.
pub proof fn lemma_size_zero(a: Scalar)
    ensures
        a.size() == 0 <==> a.magnitude() == 0,
{
    lemma_pow2_pos(a.scale());
    let s = a.significand() as int;
    let p = pow2(a.scale()) as int;
    assert(s * p == 0 <==> s == 0) by (nonlinear_arith)
        requires
            p > 0,
            s >= 0,
    ;
}

/// A larger magnitude stands for a larger absolute value, and equal
/// magnitudes for the same one.
pub proof fn lemma_size_ordered(a: Scalar, b: Scalar)
    ensures
        a.magnitude() < b.magnitude() ==> a.size() < b.size(),
        a.magnitude() == b.magnitude() ==> a.size() == b.size(),
{
    if a.magnitude() < b.magnitude() {
        let sa = a.significand() as int;
        let sb = b.significand() as int;
        let pa = pow2(a.scale()) as int;
        let pb = pow2(b.scale()) as int;
        lemma_pow2_pos(a.scale());
        lemma_pow2_pos(b.scale());
        if a.exponent() == b.exponent() {
            assert(sa < sb);
            lemma_mul_strict_inequality(sa, sb, pa);
        } else {
            assert(a.exponent() < b.exponent());
            // Within one exponent the significand stays under 2^24, which is
            // where the next exponent starts.
            let base = FRACTION_SPAN as int;
            assert(sa * pa < base * pb) by {
                if a.exponent() == 0 {
                    assert(pa == 1) by {
                        lemma2_to64();
                    }
                    assert(sa * pa < base * pb) by (nonlinear_arith)
                        requires
                            sa < base,
                            base > 0,
                            pa == 1,
                            pb >= 1,
                    ;
                } else {
                    let up = pow2(a.exponent()) as int;
                    lemma_pow2_unfold(a.exponent());
                    assert(up == 2 * pa);
                    if a.exponent() < b.scale() {
                        lemma_pow2_strictly_increases(a.exponent(), b.scale());
                    }
                    assert(up <= pb);
                    assert(sa * pa < base * pb) by (nonlinear_arith)
                        requires
                            sa < 2 * base,
                            up == 2 * pa,
                            up <= pb,
                            pa > 0,
                            base > 0,
                    ;
                }
            }
            assert(base * pb <= sb * pb) by (nonlinear_arith)
                requires
                    base <= sb,
                    pb > 0,
            ;
        }
    }
}

} // verus!
