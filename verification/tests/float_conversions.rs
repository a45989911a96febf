use sample_bridge::float32::{
    from_f64, from_u32, from_u64, negated, same_number, tenth_of_level, INFINITY, SIGN_BIT,
};

fn next_random(state: &mut u64) -> u64 {
    *state ^= *state << 13;
    *state ^= *state >> 7;
    *state ^= *state << 17;
    *state
}

#[test]
fn small_integers_are_exact() {
    assert_eq!(from_u32(0), 0);
    assert_eq!(from_u32(1), 0x3F80_0000);
    assert_eq!(from_u32(2), 0x4000_0000);
    assert_eq!(from_u32(3), 0x4040_0000);
    assert_eq!(from_u32(16_777_215), 0x4B7F_FFFF);
    assert_eq!(from_u32(16_777_216), 0x4B80_0000);
}

#[test]
fn integer_ties_go_to_even() {
    // 2^24 + 1 lies halfway between 2^24 and 2^24 + 2.
    assert_eq!(from_u32(16_777_217), 0x4B80_0000);
    assert_eq!(from_u32(16_777_218), 0x4B80_0001);
    // 2^24 + 3 lies halfway between 2^24 + 2 and 2^24 + 4.
    assert_eq!(from_u32(16_777_219), 0x4B80_0002);
    assert_eq!(from_u32(u32::MAX), 0x4F80_0000);
    assert_eq!(from_u64(u64::MAX), 0x5F80_0000);
}

#[test]
fn u32_matches_the_machine() {
    let mut state: u64 = 0x9E37_79B9_7F4A_7C15;
    for _ in 0..200_000 {
        let v = next_random(&mut state) as u32;
        let shift = (next_random(&mut state) % 32) as u32;
        let v = v >> shift;
        assert_eq!(from_u32(v), (v as f32).to_bits(), "value {}", v);
    }
    for v in 0u32..70_000 {
        assert_eq!(from_u32(v), (v as f32).to_bits());
        let high = u32::MAX - v;
        assert_eq!(from_u32(high), (high as f32).to_bits());
        let mid = 16_777_216 - 35_000 + v;
        assert_eq!(from_u32(mid), (mid as f32).to_bits());
    }
}

#[test]
fn u64_matches_the_machine() {
    let mut state: u64 = 0x2545_F491_4F6C_DD1D;
    for _ in 0..200_000 {
        let v = next_random(&mut state);
        let shift = (next_random(&mut state) % 64) as u32;
        let v = v >> shift;
        assert_eq!(from_u64(v), (v as f32).to_bits(), "value {}", v);
    }
    for p in 24..64u32 {
        let base = 1u64 << p;
        let step = 1u64 << (p - 24);
        for m in 0..64u64 {
            for delta in [0u64, 1, step / 2, step - 1] {
                let v = base.wrapping_add(m * step).wrapping_add(delta);
                assert_eq!(from_u64(v), (v as f32).to_bits(), "value {}", v);
                let w = base.wrapping_sub(m * step).wrapping_sub(delta);
                assert_eq!(from_u64(w), (w as f32).to_bits(), "value {}", w);
            }
        }
    }
}

fn check_narrowing(wide: u64) {
    let expected = f64::from_bits(wide) as f32;
    let got = from_f64(wide);
    if expected.is_nan() {
        assert!(f32::from_bits(got).is_nan(), "pattern {:#x}", wide);
    } else {
        assert_eq!(got, expected.to_bits(), "pattern {:#x}", wide);
    }
}

#[test]
fn narrowing_of_chosen_values() {
    assert_eq!(from_f64(0.0f64.to_bits()), 0);
    assert_eq!(from_f64((-0.0f64).to_bits()), 0x8000_0000);
    assert_eq!(from_f64(1.0f64.to_bits()), 0x3F80_0000);
    assert_eq!(from_f64((-2.5f64).to_bits()), 0xC020_0000);
    assert_eq!(from_f64(0.1f64.to_bits()), 0.1f32.to_bits());
    assert_eq!(from_f64(f64::INFINITY.to_bits()), INFINITY);
    assert_eq!(from_f64(f64::NEG_INFINITY.to_bits()), SIGN_BIT | INFINITY);
    assert_eq!(INFINITY, f32::INFINITY.to_bits());
    assert_eq!(SIGN_BIT, (-0.0f32).to_bits());
    assert_eq!(from_f64(1.0e300f64.to_bits()), 0x7F80_0000);
    assert_eq!(from_f64((-1.0e300f64).to_bits()), 0xFF80_0000);
    assert_eq!(from_f64(1.0e-300f64.to_bits()), 0);
    assert_eq!(from_f64(f64::MIN_POSITIVE.to_bits()), 0);
    assert_eq!(from_f64(1), 0);
    // The largest finite binary32 value, and the midpoint above it.
    assert_eq!(from_f64((f32::MAX as f64).to_bits()), 0x7F7F_FFFF);
    assert_eq!(from_f64(0x47EF_FFFF_EFFF_FFFF), 0x7F7F_FFFF);
    assert_eq!(from_f64(0x47EF_FFFF_F000_0000), 0x7F80_0000);
    // Half of the smallest subnormal is a tie and goes to zero; anything
    // above it goes to the smallest subnormal.
    assert_eq!(from_f64(0x36A0_0000_0000_0000), 1);
    assert_eq!(from_f64(0x3690_0000_0000_0000), 0);
    assert_eq!(from_f64(0x3690_0000_0000_0001), 1);
    assert!(f32::from_bits(from_f64(f64::NAN.to_bits())).is_nan());
    assert!(f32::from_bits(from_f64(0x7FF0_0000_0000_0001)).is_nan());
    assert!(f32::from_bits(from_f64(0xFFF8_0000_0000_0000)).is_nan());
}

#[test]
fn narrowing_matches_the_machine() {
    let mut state: u64 = 0xD1B5_4A32_D192_ED03;
    for _ in 0..300_000 {
        check_narrowing(next_random(&mut state));
    }
    // Exponents around the binary32 range, with fractions near ties.
    for e in 0x360u64..0x482 {
        for f in [
            0u64,
            1,
            0x0000_0000_0FFF_FFFF,
            0x0000_0000_1000_0000,
            0x0000_0000_1000_0001,
            0x0000_0000_2FFF_FFFF,
            0x0000_0000_3000_0000,
            0x0000_0000_3000_0001,
            0x000F_FFFF_EFFF_FFFF,
            0x000F_FFFF_F000_0000,
            0x000F_FFFF_FFFF_FFFF,
            0x0008_0000_0000_0000,
            0x0007_FFFF_FFFF_FFFF,
        ] {
            check_narrowing((e << 52) | f);
            check_narrowing((1u64 << 63) | (e << 52) | f);
        }
    }
    for _ in 0..300_000 {
        let e = 0x360 + next_random(&mut state) % 0x130;
        let f = next_random(&mut state) & 0x000F_FFFF_FFFF_FFFF;
        let f = if next_random(&mut state) % 2 == 0 { f & !0x0FFF_FFFF } else { f };
        check_narrowing((e << 52) | f);
    }
}

#[test]
fn every_binary32_value_survives_widening_and_narrowing() {
    let mut state: u64 = 0x1234_5678_9ABC_DEF1;
    for _ in 0..300_000 {
        let bits = next_random(&mut state) as u32;
        let value = f32::from_bits(bits);
        if value.is_nan() {
            continue;
        }
        assert_eq!(from_f64((value as f64).to_bits()), bits);
    }
}

#[test]
fn negation_flips_the_sign_only() {
    assert_eq!(negated(0x3F80_0000), 0xBF80_0000);
    assert_eq!(negated(0xBF80_0000), 0x3F80_0000);
    assert_eq!(negated(0), 0x8000_0000);
    assert_eq!(f32::from_bits(negated(2.5f32.to_bits())), -2.5f32);
}

#[test]
fn number_equality_follows_the_float_rules() {
    let nan = f32::NAN.to_bits();
    assert!(same_number(0x3F80_0000, 0x3F80_0000));
    assert!(!same_number(0x3F80_0000, 0x3F80_0001));
    assert!(same_number(0, 0x8000_0000));
    assert!(!same_number(nan, nan));
    assert!(!same_number(nan, 0));
    assert!(same_number(0x7F80_0000, 0x7F80_0000));
    assert!(!same_number(0x7F80_0000, 0xFF80_0000));
    let mut state: u64 = 77;
    for _ in 0..100_000 {
        let a = next_random(&mut state) as u32;
        let b = if next_random(&mut state) % 3 == 0 { a } else { next_random(&mut state) as u32 };
        assert_eq!(same_number(a, b), f32::from_bits(a) == f32::from_bits(b));
    }
}

#[test]
fn tenth_of_chosen_levels() {
    assert_eq!(tenth_of_level(0), 0);
    assert_eq!(tenth_of_level(10), 0x3F80_0000);
    assert_eq!(tenth_of_level(-10), 0xBF80_0000);
    assert_eq!(tenth_of_level(1), 0.1f32.to_bits());
    assert_eq!(tenth_of_level(25), 2.5f32.to_bits());
    assert_eq!(tenth_of_level(i32::MAX), (i32::MAX as f32 / 10.0).to_bits());
    assert_eq!(tenth_of_level(i32::MIN), (i32::MIN as f32 / 10.0).to_bits());
}

#[test]
fn tenth_matches_the_machine() {
    for level in -200_000i32..200_000 {
        assert_eq!(tenth_of_level(level), (level as f32 / 10.0).to_bits(), "level {}", level);
    }
    let mut state: u64 = 0xABCD_EF01_2345_6789;
    for _ in 0..400_000 {
        let level = next_random(&mut state) as i32;
        let shift = (next_random(&mut state) % 32) as u32;
        let level = level >> shift;
        assert_eq!(tenth_of_level(level), (level as f32 / 10.0).to_bits(), "level {}", level);
    }
}

#[test]
fn narrowing_a_nan_keeps_sign_and_high_payload() {
    assert_eq!(from_f64(0x7FF8_0000_0000_0000), 0x7FC0_0000);
    assert_eq!(from_f64(0xFFF8_0000_0000_0000), 0xFFC0_0000);
    assert_eq!(from_f64(0xFFF0_0000_0000_0001), 0xFFC0_0000);
    assert_eq!(from_f64(0x7FF4_0000_0000_0000), 0x7FE0_0000);
    assert_eq!(from_f64(0x7FFF_FFFF_FFFF_FFFF), 0x7FFF_FFFF);
    assert_eq!(from_f64(0x7FF0_0000_2000_0000), 0x7FC0_0001);
}
