use float_rz::convert::int32_to_float_rz;

#[test]
fn zero_gives_all_zero_pattern() {
    assert_eq!(int32_to_float_rz(0), 0x0000_0000);
}

#[test]
fn sign_bit_reflects_sign() {
    for a in [1, 2, 7, 500, 16_777_219, i32::MAX] {
        assert_eq!(int32_to_float_rz(a) >> 31, 0, "positive {a}");
        assert_eq!(int32_to_float_rz(-a) >> 31, 1, "negative {}", -a);
    }
    assert_eq!(int32_to_float_rz(i32::MIN) >> 31, 1);
}

#[test]
fn small_magnitudes_round_trip_exactly() {
    let samples = [
        1,
        2,
        3,
        7,
        8,
        255,
        256,
        4095,
        65_535,
        65_536,
        499,
        8_388_607,
        8_388_608,
        16_777_215,
    ];
    for a in samples {
        assert_eq!(
            int32_to_float_rz(a),
            (a as f32).to_bits(),
            "positive {a}"
        );
        assert_eq!(
            int32_to_float_rz(-a),
            ((-a) as f32).to_bits(),
            "negative {}",
            -a
        );
    }
}

#[test]
fn driver_range_matches_native_conversion() {
    // Over the bounded range the original driver walks, every value is far
    // below the mantissa width, so truncation and round-to-nearest agree.
    for a in 0..500 {
        assert_eq!(int32_to_float_rz(a), (a as f32).to_bits(), "{a}");
    }
}

#[test]
fn exact_patterns_for_small_values() {
    assert_eq!(int32_to_float_rz(1), 0x3f80_0000); // 1.0
    assert_eq!(int32_to_float_rz(2), 0x4000_0000); // 2.0
    assert_eq!(int32_to_float_rz(-1), 0xbf80_0000); // -1.0
    assert_eq!(int32_to_float_rz(3), 0x4040_0000); // 3.0
}

#[test]
fn large_magnitude_truncation_diverges_from_native() {
    // 2^24 + 3 needs 25 significant bits; the dropped bit is odd, so
    // round-to-nearest moves up while truncation stays below.
    let a = 16_777_219;
    let truncated = int32_to_float_rz(a);
    let native = (a as f32).to_bits();
    assert_ne!(truncated, native);
    assert_eq!(f32::from_bits(truncated), 16_777_218.0);
    assert_eq!(a as f32, 16_777_220.0);
}

#[test]
fn large_magnitude_truncation_can_agree_with_native() {
    // 2^24 + 1: the one dropped bit is exactly the rounding bit, so
    // round-to-nearest-even and truncation land on the same value.
    let a = 16_777_217;
    let truncated = int32_to_float_rz(a);
    assert_eq!(f32::from_bits(truncated), 16_777_216.0);
    assert_eq!(truncated, (a as f32).to_bits());
}

#[test]
fn minimum_value_encodes_its_full_magnitude() {
    let bits = int32_to_float_rz(i32::MIN);
    assert_eq!(bits, 0xcf00_0000);
    assert_eq!(bits >> 31, 1);
    let value = f32::from_bits(bits);
    assert!(value.is_finite());
    assert_eq!(value, -2_147_483_648.0);
}

#[test]
fn maximum_value_truncates_low_bits() {
    let bits = int32_to_float_rz(i32::MAX);
    assert_eq!(bits, 0x4eff_ffff);
    assert_eq!(f32::from_bits(bits), 2_147_483_520.0);
    assert_ne!(bits, (i32::MAX as f32).to_bits());
}

#[test]
fn re_encoding_is_idempotent() {
    for a in [0, 1, -1, 499, 16_777_219, i32::MIN, i32::MAX] {
        assert_eq!(int32_to_float_rz(a), int32_to_float_rz(a), "{a}");
    }
}

#[test]
fn same_bit_width_gives_same_exponent_field() {
    let exp_field = |bits: u32| (bits >> 23) & 0xff;
    // 4..=7 all need three significant bits.
    let e4 = exp_field(int32_to_float_rz(4));
    for a in 5..=7 {
        assert_eq!(exp_field(int32_to_float_rz(a)), e4, "{a}");
    }
    // 1024..=2047 all need eleven significant bits.
    let e1024 = exp_field(int32_to_float_rz(1024));
    for a in [1025, 1500, 2047] {
        assert_eq!(exp_field(int32_to_float_rz(a)), e1024, "{a}");
    }
}

#[test]
fn power_of_two_boundary_increments_exponent_field() {
    let exp_field = |bits: u32| (bits >> 23) & 0xff;
    for k in 1..31 {
        let below = (1i32 << k) - 1;
        let at = 1i32 << k;
        assert_eq!(
            exp_field(int32_to_float_rz(at)),
            exp_field(int32_to_float_rz(below)) + 1,
            "boundary 2^{k}"
        );
    }
}
