//! The truncating integer-to-float converter: a 32-bit signed integer goes
//! in, the IEEE-754 single-precision bit pattern of its value rounded
//! toward zero comes out. Integer shifts, compares and adds only — no
//! floating-point instruction and no conversion intrinsic.

use crate::model::float_bits_rz;
use crate::model::magnitude;
use crate::model::mantissa_word;
use crate::model::sign_word;
use crate::model::lemma_mantissa_word_bounds;
use crate::model::lemma_msb_unique;
use crate::model::lemma_pow2_le;
use vstd::arithmetic::div_mod::*;
use vstd::arithmetic::mul::*;
use vstd::arithmetic::power2::*;
use vstd::bits::*;
use vstd::prelude::*;

verus! {

/// Dividing the magnitude normalized to bit 31 down by 8 bits lands on the
/// same word as scaling the magnitude to bit 23 directly: both quotients
/// equal `m * 2^31 / 2^(e + 8)`.
proof fn lemma_mantissa_shift(m: nat, e: nat)
    requires
        e <= 31,
    ensures
        m * pow2((31 - e) as nat) / pow2(8) == m * pow2(23) / pow2(e),
{
    lemma_pow2_pos(e);
    lemma_pow2_pos(8);
    lemma_pow2_pos((31 - e) as nat);
    assert(m * pow2((31 - e) as nat) / pow2(8) == m * pow2(31) / pow2(e + 8)) by {
        assert(m * pow2(31) == (m * pow2((31 - e) as nat)) * pow2(e)) by {
            lemma_pow2_adds((31 - e) as nat, e);
            lemma_mul_is_associative(m as int, pow2((31 - e) as nat) as int, pow2(e) as int);
        }
        lemma_div_by_multiple((m * pow2((31 - e) as nat)) as int, pow2(e) as int);
        lemma_div_denominator(m * pow2(31) as int, pow2(e) as int, pow2(8) as int);
        lemma_pow2_adds(e, 8);
    }
    assert(m * pow2(23) / pow2(e) == m * pow2(31) / pow2(e + 8)) by {
        assert(m * pow2(31) == (m * pow2(23)) * pow2(8)) by {
            lemma_pow2_adds(23, 8);
            lemma_mul_is_associative(m as int, pow2(23) as int, pow2(8) as int);
        }
        lemma_div_by_multiple((m * pow2(23)) as int, pow2(8) as int);
        lemma_div_denominator(m * pow2(31) as int, pow2(8) as int, pow2(e) as int);
        lemma_pow2_adds(8, e);
    }
}

/// Encode `a` as the IEEE-754 single-precision bit pattern of its value
/// rounded toward zero.
///
/// The magnitude is normalized by a fixed ladder of conditional shifts
/// (16, 8, 4, 2, 1), so the routine runs in a constant number of integer
/// operations for every input. Bits below the 23-bit mantissa are
/// discarded, never rounded. The two's-complement negation wraps at
/// `i32::MIN`, yielding the magnitude `2^31` exactly.
pub fn int32_to_float_rz(a: i32) -> (r: u32)
    ensures
        r == float_bits_rz(a),
{
    if a == 0 {
        return 0u32;
    }
    let mut i: u32 = #[verifier::truncate] (a as u32);
    let mut shift: u32 = 0;
    // take absolute value of the integer
    if a < 0 {
        proof {
            assert(a < 0 ==> a as u32 == a + 0x100000000) by (bit_vector);
        }
        i = 0u32.wrapping_sub(i);
    }
    let ghost m: nat = magnitude(a);
    proof {
        lemma2_to64();
        assert(i == m);
        assert(1 <= m <= 0x80000000);
        assert(i as nat == m * pow2(0));
    }
    // normalize the magnitude so its most significant set bit is bit 31
    if !(i > 0x0000ffff) {
        proof {
            lemma2_to64();
            lemma_u32_shl_is_mul(i, 16);
            lemma_pow2_adds(shift as nat, 16);
            lemma_mul_is_associative(m as int, pow2(shift as nat) as int, pow2(16) as int);
        }
        i <<= 16u32;
        shift += 16;
    }
    proof {
        assert(i > 0x0000ffff);
        assert(i as nat == m * pow2(shift as nat));
    }
    if !(i > 0x00ffffff) {
        proof {
            lemma2_to64();
            lemma_u32_shl_is_mul(i, 8);
            lemma_pow2_adds(shift as nat, 8);
            lemma_mul_is_associative(m as int, pow2(shift as nat) as int, pow2(8) as int);
        }
        i <<= 8u32;
        shift += 8;
    }
    proof {
        assert(i > 0x00ffffff);
        assert(i as nat == m * pow2(shift as nat));
    }
    if !(i > 0x0fffffff) {
        proof {
            lemma2_to64();
            lemma_u32_shl_is_mul(i, 4);
            lemma_pow2_adds(shift as nat, 4);
            lemma_mul_is_associative(m as int, pow2(shift as nat) as int, pow2(4) as int);
        }
        i <<= 4u32;
        shift += 4;
    }
    proof {
        assert(i > 0x0fffffff);
        assert(i as nat == m * pow2(shift as nat));
    }
    if !(i > 0x3fffffff) {
        proof {
            lemma2_to64();
            lemma_u32_shl_is_mul(i, 2);
            lemma_pow2_adds(shift as nat, 2);
            lemma_mul_is_associative(m as int, pow2(shift as nat) as int, pow2(2) as int);
        }
        i <<= 2u32;
        shift += 2;
    }
    proof {
        assert(i > 0x3fffffff);
        assert(i as nat == m * pow2(shift as nat));
    }
    if !(i > 0x7fffffff) {
        proof {
            lemma2_to64();
            lemma_u32_shl_is_mul(i, 1);
            lemma_pow2_adds(shift as nat, 1);
            lemma_mul_is_associative(m as int, pow2(shift as nat) as int, pow2(1) as int);
        }
        i <<= 1u32;
        shift += 1;
    }
    proof {
        assert(i > 0x7fffffff);
        assert(i as nat == m * pow2(shift as nat));
    }
    // the shift count now determines the magnitude's leading bit position
    proof {
        lemma2_to64();
        lemma_pow2_pos(shift as nat);
        lemma_mul_inequality(1, m as int, pow2(shift as nat) as int);
        if shift >= 32 {
            lemma_pow2_le(32, shift as nat);
            lemma_pow2_adds(31, 1);
            assert(false);
        }
    }
    let ghost e: nat = (31 - shift) as nat;
    proof {
        lemma2_to64();
        lemma_pow2_pos(shift as nat);
        assert(pow2(e) <= m) by {
            if m < pow2(e) {
                lemma_mul_strict_inequality(m as int, pow2(e) as int, pow2(shift as nat) as int);
                lemma_pow2_adds(e, shift as nat);
                assert(false);
            }
        }
        assert(m < pow2(e + 1)) by {
            if m >= pow2(e + 1) {
                lemma_mul_inequality(pow2(e + 1) as int, m as int, pow2(shift as nat) as int);
                lemma_pow2_adds(e + 1, shift as nat);
                lemma_pow2_adds(31, 1);
                assert(false);
            }
        }
        lemma_msb_unique(m, e);
    }
    // form the mantissa with its explicit integer bit at position 23
    proof {
        lemma_u32_shr_is_div(i, 8);
        lemma_mantissa_shift(m, e);
    }
    i >>= 8u32;
    proof {
        lemma2_to64();
        lemma_mantissa_word_bounds(a);
        assert(i as nat == mantissa_word(a));
        assert(0x800000 <= i < 0x1000000);
    }
    // add in the biased exponent, accounting for the mantissa's integer bit
    proof {
        lemma2_to64();
        lemma_u32_shl_is_mul((127 + 31 - 1 - shift) as u32, 23);
    }
    i += (127 + 31 - 1 - shift) << 23u32;
    proof {
        assert(i as nat == mantissa_word(a) + (e + 126) * pow2(23));
        assert(i < 0x80000000);
    }
    // add in the sign bit
    if a < 0 {
        proof {
            assert(i < 0x80000000 ==> (i | 0x80000000) == i + 0x80000000) by (bit_vector);
        }
        i |= 0x80000000u32;
    }
    proof {
        lemma2_to64();
        assert(i as nat == sign_word(a) + (e + 127) * pow2(23) + (mantissa_word(a) - pow2(23)));
    }
    i
}

} // verus!
