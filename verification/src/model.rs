//! Mathematical model of the IEEE-754 single-precision encoding with
//! round-toward-zero semantics, together with the basic facts about it
//! that the implementation proof and the public laws rest on.

use vstd::arithmetic::div_mod::*;
use vstd::arithmetic::mul::*;
use vstd::arithmetic::power2::*;
use vstd::prelude::*;

verus! {

/// Position of the most significant set bit of `m`: for `m >= 1` it is the
/// unique `e` with `pow2(e) <= m < pow2(e + 1)`.
pub open spec fn msb(m: nat) -> nat
    decreases m,
{
    if m <= 1 {
        0
    } else {
        msb(m / 2) + 1
    }
}

/// Magnitude of `a` as a mathematical natural; `2^31` for `i32::MIN`.
pub open spec fn magnitude(a: i32) -> nat {
    if a < 0 {
        (-(a as int)) as nat
    } else {
        a as nat
    }
}

/// Contribution of the sign bit: `2^31` for negative inputs, `0` otherwise.
pub open spec fn sign_word(a: i32) -> nat {
    if a < 0 {
        pow2(31)
    } else {
        0
    }
}

/// Normalized magnitude of a nonzero input, scaled into `[2^23, 2^24)`:
/// the implicit leading 1 at bit 23 followed by the 23 mantissa bits.
/// The division truncates, which is exactly round-toward-zero.
pub open spec fn mantissa_word(a: i32) -> nat {
    magnitude(a) * pow2(23) / pow2(msb(magnitude(a)))
}

/// The IEEE-754 single-precision bit pattern that encodes `a` under
/// round-toward-zero: sign bit 31, biased exponent field `msb + 127` in
/// bits 30..23, and the truncated mantissa in bits 22..0 (the implicit
/// leading 1 dropped). Zero encodes as the all-zero pattern.
pub open spec fn float_bits_rz(a: i32) -> u32 {
    if a == 0 {
        0u32
    } else {
        let e = msb(magnitude(a));
        (sign_word(a) + (e + 127) * pow2(23) + (mantissa_word(a) - pow2(23))) as u32
    }
}

/// Sign bit of an encoded pattern.
pub open spec fn sign_of(bits: u32) -> u32 {
    bits >> 31u32
}

/// Biased exponent field of an encoded pattern (bits 30..23).
pub open spec fn exp_field_of(bits: u32) -> u32 {
    (bits >> 23u32) & 0xffu32
}

/// Mantissa field of an encoded pattern (bits 22..0).
pub open spec fn frac_field_of(bits: u32) -> u32 {
    bits & 0x7fffffu32
}

/// `pow2` is monotone.
pub proof fn lemma_pow2_le(e1: nat, e2: nat)
    requires
        e1 <= e2,
    ensures
        pow2(e1) <= pow2(e2),
{
    if e1 < e2 {
        lemma_pow2_strictly_increases(e1, e2);
    }
}

/// `msb` is what its name says: `m` lies between `2^msb(m)` and `2^(msb(m)+1)`.
pub proof fn lemma_msb_bounds(m: nat)
    requires
        m >= 1,
    ensures
        pow2(msb(m)) <= m < pow2(msb(m) + 1),
    decreases m,
{
    lemma2_to64();
    if m <= 1 {
    } else {
        let e: nat = msb(m / 2);
        lemma_msb_bounds(m / 2);
        lemma_pow2_unfold(e + 1);
        lemma_pow2_unfold(e + 2);
    }
}

/// The dyadic interval containing `m` determines `msb(m)`.
pub proof fn lemma_msb_unique(m: nat, e: nat)
    requires
        pow2(e) <= m,
        m < pow2(e + 1),
    ensures
        msb(m) == e,
{
    lemma_pow2_pos(e);
    lemma_msb_bounds(m);
    if msb(m) < e {
        lemma_pow2_le(msb(m) + 1, e);
    } else if msb(m) > e {
        lemma_pow2_le(e + 1, msb(m));
    }
}

/// For any nonzero 32-bit input the exponent stays in the 8-bit field and
/// the normalized mantissa word carries the implicit bit at position 23.
pub proof fn lemma_mantissa_word_bounds(a: i32)
    requires
        a != 0,
    ensures
        msb(magnitude(a)) <= 31,
        pow2(23) <= mantissa_word(a) < pow2(24),
{
    let m: nat = magnitude(a);
    let e: nat = msb(m);
    lemma2_to64();
    lemma_msb_bounds(m);
    if e > 31 {
        lemma_pow2_le(32, e);
        assert(pow2(32) == 0x100000000) by {
            lemma_pow2_adds(31, 1);
        }
    }
    lemma_pow2_pos(e);
    lemma_pow2_adds(e, 23);
    lemma_pow2_adds(e, 24);
    // Lower bound: m >= pow2(e), so m * pow2(23) >= pow2(e + 23),
    // and dividing by pow2(e) leaves at least pow2(23).
    lemma_mul_inequality(pow2(e) as int, m as int, pow2(23) as int);
    lemma_div_is_ordered(pow2(e + 23) as int, (m * pow2(23)) as int, pow2(e) as int);
    lemma_pow2_subtracts(e, e + 23);
    // Upper bound: m < pow2(e + 1), so m * pow2(23) < pow2(e) * pow2(24),
    // and the truncating quotient stays below pow2(24).
    lemma_pow2_unfold(e + 1);
    lemma_mul_strict_inequality(m as int, pow2(e + 1) as int, pow2(23) as int);
    assert(pow2(e + 1) * pow2(23) == pow2(e) * pow2(24)) by {
        lemma_pow2_adds(e + 1, 23);
        lemma_pow2_adds(e, 24);
    }
    lemma_multiply_divide_lt((m * pow2(23)) as int, pow2(e) as int, pow2(24) as int);
}

/// Unpacking a pattern assembled from bounded sign, exponent and mantissa
/// parts recovers exactly those parts.
proof fn lemma_unpack(bits: u32, s: u32, ebits: u32, f: u32)
    by (bit_vector)
    requires
        s == 0 || s == 0x80000000u32,
        127 <= ebits <= 158,
        f < 0x800000u32,
        bits == s + ebits * 0x800000 + f,
    ensures
        bits >> 31u32 == (if s == 0 { 0u32 } else { 1u32 }),
        (bits >> 23u32) & 0xffu32 == ebits,
        bits & 0x7fffffu32 == f,
{
}

/// The three fields of the encoding of a nonzero input, read back from the
/// assembled pattern: the sign bit reflects the input's sign, the exponent
/// field is `msb + 127`, and the mantissa field is the truncated normalized
/// magnitude without its leading bit.
pub proof fn lemma_float_bits_rz_fields(a: i32)
    requires
        a != 0,
    ensures
        sign_of(float_bits_rz(a)) == (if a < 0 { 1u32 } else { 0u32 }),
        exp_field_of(float_bits_rz(a)) == msb(magnitude(a)) + 127,
        frac_field_of(float_bits_rz(a)) == mantissa_word(a) - pow2(23),
{
    let e: nat = msb(magnitude(a));
    lemma_mantissa_word_bounds(a);
    lemma2_to64();
    let s: u32 = if a < 0 { 0x80000000u32 } else { 0u32 };
    let ebits: u32 = ((e + 127) as u32);
    let f: u32 = ((mantissa_word(a) - pow2(23)) as u32);
    assert(sign_word(a) + (e + 127) * pow2(23) + (mantissa_word(a) - pow2(23)) < 0x100000000) by {
        lemma_mul_inequality((e + 127) as int, 158, pow2(23) as int);
    }
    lemma_unpack(float_bits_rz(a), s, ebits, f);
}

} // verus!
