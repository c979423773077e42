use fractastic::scalar::Scalar;

fn scalar_of(value: f32) -> Scalar {
    Scalar { bits: value.to_bits() }
}

const SAMPLES: [f32; 24] = [
    0.0,
    -0.0,
    1.0,
    -1.0,
    0.5,
    0.999_999_94,
    1.5,
    2.0,
    254.5,
    255.0,
    255.9,
    256.0,
    -0.58,
    1.0e-45,
    1.0e-38,
    16_777_216.0,
    16_777_218.0,
    4.0e9,
    1.8e19,
    1.9e19,
    f32::MAX,
    f32::MIN,
    f32::INFINITY,
    f32::NEG_INFINITY,
];

#[test]
fn classification_agrees_with_the_numbers() {
    for value in SAMPLES.iter().copied().chain([f32::NAN, -f32::NAN]) {
        let s = scalar_of(value);
        assert_eq!(s.is_nan(), value.is_nan(), "nan of {value}");
        assert_eq!(s.is_finite(), value.is_finite(), "finite of {value}");
        assert_eq!(s.is_sign_negative(), value.is_sign_negative(), "sign of {value}");
        assert_eq!(s.is_ordinal(), value.is_finite() && value >= 0.0, "ordinal of {value}");
        assert_eq!(s.is_positive(), value.is_finite() && value > 0.0, "positive of {value}");
    }
}

#[test]
fn fields_of_known_patterns() {
    let one = scalar_of(1.0);
    assert_eq!(one.bits, 0x3F80_0000);
    assert_eq!(one.exponent_field(), 127);
    assert_eq!(one.fraction_field(), 0);
    let minus_three_quarters = scalar_of(-0.75);
    assert_eq!(minus_three_quarters.bits, 0xBF40_0000);
    assert_eq!(minus_three_quarters.exponent_field(), 126);
    assert_eq!(minus_three_quarters.fraction_field(), 0x40_0000);
    assert!(minus_three_quarters.is_sign_negative());
    let infinity = scalar_of(f32::INFINITY);
    assert_eq!(infinity.exponent_field(), 255);
    assert_eq!(infinity.fraction_field(), 0);
}

#[test]
fn index_is_the_saturating_truncation() {
    for value in SAMPLES.iter().copied().chain([f32::NAN]) {
        assert_eq!(scalar_of(value).to_index(), value as usize, "index of {value}");
    }
}

#[test]
fn channel_is_the_saturating_rounding() {
    for value in SAMPLES.iter().copied().chain([f32::NAN]) {
        assert_eq!(scalar_of(value).to_channel(), value.round() as u8, "channel of {value}");
    }
}

#[test]
fn rounding_respects_the_limit() {
    for value in SAMPLES.iter().copied().chain([f32::NAN]) {
        for limit in [0u64, 1, 255, 1000, 1 << 24, 1 << 40, u64::MAX] {
            let expected = (value.round() as u64).min(limit);
            assert_eq!(scalar_of(value).round_to(limit), expected, "{value} under {limit}");
        }
    }
}

#[test]
fn halves_round_away_from_zero() {
    assert_eq!(scalar_of(0.5).to_channel(), 1);
    assert_eq!(scalar_of(1.5).to_channel(), 2);
    assert_eq!(scalar_of(2.5).to_channel(), 3);
    assert_eq!(scalar_of(253.5).to_channel(), 254);
    assert_eq!(scalar_of(254.5).to_channel(), 255);
    assert_eq!(scalar_of(255.5).to_channel(), 255);
    assert_eq!(scalar_of(0.499_999_97).to_channel(), 0);
    assert_eq!(scalar_of(0.500_000_06).to_channel(), 1);
    assert_eq!(scalar_of(1.499_999_9).to_channel(), 1);
    assert_eq!(scalar_of(-0.5).to_channel(), 0);
    assert_eq!(scalar_of(-0.6).to_channel(), 0);
    assert_eq!(scalar_of(8_388_607.5).round_to(u64::MAX), 8_388_608);
}

#[test]
fn exact_roundings() {
    assert_eq!(scalar_of(31.886).to_channel(), 32);
    assert_eq!(scalar_of(243.48).to_channel(), 243);
    assert_eq!(scalar_of(128.0).to_channel(), 128);
    assert_eq!(scalar_of(199.99).to_channel(), 200);
    assert_eq!(scalar_of(3.141_592_7).to_channel(), 3);
    assert_eq!(scalar_of(1.0e30).round_to(u64::MAX), u64::MAX);
    assert_eq!(scalar_of(f32::NAN).round_to(u64::MAX), 0);
    assert_eq!(scalar_of(f32::INFINITY).round_to(1000), 1000);
    assert_eq!(scalar_of(f32::NEG_INFINITY).round_to(1000), 0);
}

#[test]
fn clamp_respects_the_limit() {
    for value in SAMPLES.iter().copied().chain([f32::NAN]) {
        for limit in [0u64, 1, 255, 1000, 1 << 24, 1 << 40, u64::MAX] {
            let expected = (value as u64).min(limit);
            assert_eq!(scalar_of(value).clamp_to(limit), expected, "{value} under {limit}");
        }
    }
}

#[test]
fn exact_truncations() {
    assert_eq!(scalar_of(3.141_592_7).to_index(), 3);
    assert_eq!(scalar_of(199.99).to_index(), 199);
    assert_eq!(scalar_of(1.0e4).to_index(), 10_000);
    assert_eq!(scalar_of(7.9).to_index(), 7);
    assert_eq!(scalar_of(16_777_216.0).to_index(), 16_777_216);
    assert_eq!(scalar_of(4_294_967_296.0).clamp_to(u64::MAX), 4_294_967_296);
    assert_eq!(scalar_of(1.0e30).clamp_to(u64::MAX), u64::MAX);
    assert_eq!(scalar_of(-3.0).clamp_to(u64::MAX), 0);
    assert_eq!(scalar_of(f32::NAN).clamp_to(u64::MAX), 0);
    assert_eq!(scalar_of(f32::INFINITY).to_index(), usize::MAX);
}

#[test]
fn truncation_agrees_across_the_patterns() {
    let mut bits: u32 = 0;
    loop {
        let value = f32::from_bits(bits);
        let s = Scalar { bits };
        assert_eq!(s.to_index(), value as usize, "index of pattern {bits:#x}");
        assert_eq!(s.to_channel(), value.round() as u8, "channel of pattern {bits:#x}");
        assert_eq!(s.clamp_to(u64::MAX), value as u64, "whole part of pattern {bits:#x}");
        assert_eq!(s.round_to(u64::MAX), value.round() as u64, "rounding of pattern {bits:#x}");
        assert_eq!(s.is_nan(), value.is_nan(), "nan of pattern {bits:#x}");
        match bits.checked_add(40_009) {
            Some(next) => bits = next,
            None => break,
        }
    }
}

#[test]
fn every_exponent_is_cut_correctly() {
    for exponent in 0u32..=255 {
        for fraction in [0u32, 1, 0x40_0000, 0x7F_FFFF] {
            for sign in [0u32, 0x8000_0000] {
                let bits = sign | (exponent << 23) | fraction;
                let value = f32::from_bits(bits);
                let s = Scalar { bits };
                assert_eq!(s.exponent_field(), exponent);
                assert_eq!(s.fraction_field(), fraction);
                assert_eq!(s.clamp_to(u64::MAX), value as u64, "pattern {bits:#x}");
                assert_eq!(s.round_to(u64::MAX), value.round() as u64, "pattern {bits:#x}");
                assert_eq!(s.to_channel(), value.round() as u8, "pattern {bits:#x}");
            }
        }
    }
}
