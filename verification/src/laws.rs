//! Laws of the encoding, stated over the model and proved once and for
//! all: sign correctness, exactness below the mantissa width, determinism,
//! and the behaviour of the exponent field across magnitudes.

use crate::model::exp_field_of;
use crate::model::float_bits_rz;
use crate::model::frac_field_of;
use crate::model::lemma_float_bits_rz_fields;
use crate::model::lemma_mantissa_word_bounds;
use crate::model::lemma_msb_bounds;
use crate::model::lemma_pow2_le;
use crate::model::magnitude;
use crate::model::mantissa_word;
use crate::model::msb;
use crate::model::sign_of;
use vstd::arithmetic::div_mod::*;
use vstd::arithmetic::mul::*;
use vstd::arithmetic::power2::*;
use vstd::prelude::*;

verus! {

/// Sign correctness: for every nonzero input, bit 31 of the encoding is
/// set exactly when the input is negative.
pub proof fn lemma_sign_bit(a: i32)
    requires
        a != 0,
    ensures
        sign_of(float_bits_rz(a)) == 1 <==> a < 0,
        sign_of(float_bits_rz(a)) == 0 <==> a > 0,
{
    lemma_float_bits_rz_fields(a);
}

/// Round trip for small magnitudes: whenever `|a| < 2^24` the encoding
/// represents `a` exactly. For nonzero `a` the encoded magnitude, read as
/// `(2^23 + frac) * 2^(exp - 127)` and scaled by `2^23` to stay integral,
/// equals `|a| * 2^23`, and the sign bit matches; zero encodes as the
/// all-zero pattern.
pub proof fn lemma_round_trip_small(a: i32)
    requires
        -0x1000000 < a < 0x1000000,
    ensures
        a == 0 ==> float_bits_rz(a) == 0,
        a != 0 ==> 127 <= exp_field_of(float_bits_rz(a)) <= 150,
        a != 0 ==> (pow2(23) + frac_field_of(float_bits_rz(a))) * pow2(
            (exp_field_of(float_bits_rz(a)) - 127) as nat,
        ) == magnitude(a) * pow2(23),
        a != 0 ==> (sign_of(float_bits_rz(a)) == 1 <==> a < 0),
{
    if a != 0 {
        let m: nat = magnitude(a);
        let e: nat = msb(m);
        lemma_float_bits_rz_fields(a);
        lemma_mantissa_word_bounds(a);
        lemma2_to64();
        assert(e <= 23) by {
            lemma_msb_bounds(m);
            if e > 23 {
                lemma_pow2_le(24, e);
            }
        }
        lemma_pow2_pos(e);
        // below the mantissa width the truncating division is exact
        assert(mantissa_word(a) == m * pow2((23 - e) as nat)) by {
            assert(m * pow2(23) == (m * pow2((23 - e) as nat)) * pow2(e)) by {
                lemma_pow2_adds((23 - e) as nat, e);
                lemma_mul_is_associative(m as int, pow2((23 - e) as nat) as int, pow2(e) as int);
            }
            lemma_div_by_multiple((m * pow2((23 - e) as nat)) as int, pow2(e) as int);
        }
        assert((m * pow2((23 - e) as nat)) * pow2(e) == m * pow2(23)) by {
            lemma_pow2_adds((23 - e) as nat, e);
            lemma_mul_is_associative(m as int, pow2((23 - e) as nat) as int, pow2(e) as int);
        }
    }
}

/// Idempotence on re-encoding: the contract of the converter pins its
/// result to `float_bits_rz`, so any two results for the same input are
/// the same bit pattern.
pub proof fn lemma_deterministic(a1: i32, a2: i32, r1: u32, r2: u32)
    requires
        a1 == a2,
        r1 == float_bits_rz(a1),
        r2 == float_bits_rz(a2),
    ensures
        r1 == r2,
{
}

/// Monotonic magnitude exponent, equal widths: two positive inputs that
/// need the same number of significant bits get the same exponent field.
pub proof fn lemma_exp_equal_width(a1: i32, a2: i32)
    requires
        0 < a1,
        0 < a2,
        msb(a1 as nat) == msb(a2 as nat),
    ensures
        exp_field_of(float_bits_rz(a1)) == exp_field_of(float_bits_rz(a2)),
{
    lemma_float_bits_rz_fields(a1);
    lemma_float_bits_rz_fields(a2);
}

/// Monotonic magnitude exponent, power-of-two boundary: a positive input
/// that needs one more significant bit than another gets an exponent field
/// larger by exactly one.
pub proof fn lemma_exp_boundary(a1: i32, a2: i32)
    requires
        0 < a1,
        0 < a2,
        msb(a2 as nat) == msb(a1 as nat) + 1,
    ensures
        exp_field_of(float_bits_rz(a2)) == exp_field_of(float_bits_rz(a1)) + 1,
{
    lemma_float_bits_rz_fields(a1);
    lemma_float_bits_rz_fields(a2);
}

} // verus!
