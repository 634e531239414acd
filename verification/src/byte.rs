//! Conversion of a scalar to a byte, for a colour channel.

use crate::scalar::{lemma_size_zero, Scalar, FRACTION_SPAN, SIGN_BIT};
use vstd::arithmetic::div_mod::*;
use vstd::arithmetic::mul::*;
use vstd::arithmetic::power2::*;
use vstd::bits::*;
use vstd::prelude::*;

verus! {

/// The biased exponent of one: numbers with a smaller exponent are below one.
pub const EXPONENT_OF_ONE: u32 = 127;

/// The biased exponent from which the significand is a whole number.
pub const EXPONENT_OF_WHOLE: u32 = 150;

impl Scalar {
    /// The scalar as a byte: its integer part, wrapped into `0..=255`.
    ///
    /// Values in `[0, 256)` give their integer part. Values outside that range
    /// wrap and are not clamped. Positive infinity gives 255; negative
    /// infinity and NaN give 0.
    pub fn to_byte(self) -> (r: u8)
        ensures
            r == self@.byte(),
    {
        let negative: bool = self.bits >= SIGN_BIT;
        let magnitude: u32 = if negative {
            self.bits - SIGN_BIT
        } else {
            self.bits
        };
        let exponent: u32 = magnitude / FRACTION_SPAN;
        let fraction: u32 = magnitude % FRACTION_SPAN;
        if exponent == 255 {
            if fraction == 0 && !negative {
                255
            } else {
                0
            }
        } else if exponent < EXPONENT_OF_ONE {
            proof {
                lemma_integer_part_small(self);
            }
            0
        } else {
            let significand: u32 = FRACTION_SPAN + fraction;
            let low: u32 = if exponent <= EXPONENT_OF_WHOLE {
                let down: u32 = EXPONENT_OF_WHOLE - exponent;
                proof {
                    lemma_integer_part_shifted_down(self);
                    lemma_u32_shr_is_div(significand, down);
                }
                (significand >> down) % 256
            } else if exponent < EXPONENT_OF_WHOLE + 8 {
                let up: u32 = exponent - EXPONENT_OF_WHOLE;
                proof {
                    lemma_integer_part_shifted_up(self);
                    lemma2_to64();
                    if up < 7 {
                        lemma_pow2_strictly_increases(up as nat, 7);
                    }
                    assert(significand * pow2(up as nat) <= u32::MAX) by (nonlinear_arith)
                        requires
                            significand < 0x100_0000,
                            pow2(up as nat) <= 0x80,
                    ;
                    lemma_u32_shl_is_mul(significand, up);
                }
                (significand << up) % 256
            } else {
                proof {
                    lemma_integer_part_shifted_up(self);
                    lemma_whole_bytes(
                        significand as nat,
                        (exponent - EXPONENT_OF_WHOLE) as nat,
                    );
                }
                0
            };
            proof {
                lemma_size_zero(self);
            }
            if negative && low != 0 {
                (256 - low) as u8
            } else {
                low as u8
            }
        }
    }
}

/// Below one the integer part is zero.
proof fn lemma_integer_part_small(a: Scalar)
    requires
        a.exponent() < EXPONENT_OF_ONE,
    ensures
        a.size() / pow2(149) == 0,
{
    let s = a.significand() as int;
    let p = pow2(a.scale()) as int;
    let top = pow2(125) as int;
    lemma_pow2_pos(a.scale());
    if a.scale() < 125 {
        lemma_pow2_strictly_increases(a.scale(), 125);
    }
    lemma2_to64();
    lemma_pow2_adds(24, 125);
    assert(s * p < 0x100_0000 * top) by (nonlinear_arith)
        requires
            0 <= s < 0x100_0000,
            0 < p <= top,
    ;
    lemma_basic_div(s * p, pow2(149) as int);
}

/// From one up to 2^24 the integer part is the significand shifted down.
proof fn lemma_integer_part_shifted_down(a: Scalar)
    requires
        EXPONENT_OF_ONE <= a.exponent() <= EXPONENT_OF_WHOLE,
    ensures
        a.size() / pow2(149) == a.significand() / pow2((EXPONENT_OF_WHOLE - a.exponent()) as nat),
{
    let s = a.significand() as int;
    let down = (EXPONENT_OF_WHOLE - a.exponent()) as nat;
    let p = pow2(a.scale()) as int;
    let q = pow2(down) as int;
    lemma_pow2_pos(a.scale());
    lemma_pow2_pos(down);
    lemma_pow2_adds(a.scale(), down);
    assert(pow2(149) == p * q);
    lemma_div_multiples_vanish_quotient(p, s, q);
    lemma_mul_is_commutative(s, p);
}

/// From 2^24 on the integer part is the significand shifted up.
proof fn lemma_integer_part_shifted_up(a: Scalar)
    requires
        EXPONENT_OF_WHOLE < a.exponent(),
    ensures
        a.size() / pow2(149) == a.significand() * pow2((a.exponent() - EXPONENT_OF_WHOLE) as nat),
{
    let s = a.significand() as int;
    let up = (a.exponent() - EXPONENT_OF_WHOLE) as nat;
    let unit = pow2(149) as int;
    let q = pow2(up) as int;
    lemma_pow2_pos(149);
    lemma_pow2_pos(up);
    lemma_pow2_adds(up, 149);
    assert(pow2(a.scale()) == q * unit);
    lemma_mul_is_associative(s, q, unit);
    lemma_mul_nonnegative(s, q);
    lemma_div_by_multiple(s * q, unit);
}

/// A number shifted up by eight places or more is a whole number of 256s.
proof fn lemma_whole_bytes(significand: nat, up: nat)
    requires
        up >= 8,
    ensures
        (significand * pow2(up)) % 256 == 0,
{
    let rest = pow2((up - 8) as nat) as int;
    lemma2_to64();
    lemma_pow2_adds((up - 8) as nat, 8);
    assert(pow2(up) == rest * 256);
    lemma_mul_is_associative(significand as int, rest, 256);
    lemma_mod_multiples_basic(significand * rest, 256);
}

} // verus!
