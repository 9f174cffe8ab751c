use timeline::binary32::{binary32_bits, binary32_of_difference};

fn reference(negative: bool, magnitude: u64) -> u32 {
    let value = magnitude as f32;
    if negative && magnitude != 0 {
        (-value).to_bits()
    } else {
        value.to_bits()
    }
}

#[test]
fn small_integers_are_exact() {
    for m in 0u64..5000 {
        assert_eq!(binary32_bits(false, m), (m as f32).to_bits());
        assert_eq!(binary32_bits(true, m), reference(true, m));
    }
    assert_eq!(binary32_bits(false, 1), 0x3F80_0000);
    assert_eq!(binary32_bits(true, 1), 0xBF80_0000);
    assert_eq!(binary32_bits(false, 2), 0x4000_0000);
    assert_eq!(binary32_bits(false, 16_777_215), (16_777_215u64 as f32).to_bits());
}

#[test]
fn zero_is_positive_zero() {
    assert_eq!(binary32_bits(false, 0), 0);
    assert_eq!(binary32_bits(true, 0), 0);
}

#[test]
fn ties_go_to_the_even_significand() {
    // 2^24 + 1 lies halfway between 2^24 and 2^24 + 2.
    assert_eq!(binary32_bits(false, 16_777_217), (16_777_216u64 as f32).to_bits());
    // 2^24 + 3 lies halfway between 2^24 + 2 and 2^24 + 4.
    assert_eq!(binary32_bits(false, 16_777_219), (16_777_220u64 as f32).to_bits());
    assert_eq!(binary32_bits(false, 16_777_217), 0x4B80_0000);
    assert_eq!(binary32_bits(false, 16_777_219), 0x4B80_0002);
}

#[test]
fn rounding_may_carry_into_the_exponent() {
    assert_eq!(binary32_bits(false, u64::MAX), (u64::MAX as f32).to_bits());
    assert_eq!(binary32_bits(false, u64::MAX), 0x5F80_0000);
    assert_eq!(binary32_bits(false, 33_554_431), 0x4C00_0000);
}

#[test]
fn agrees_with_the_machine_on_many_magnitudes() {
    let mut state: u64 = 0x9E37_79B9_7F4A_7C15;
    for _ in 0..200_000 {
        state ^= state << 13;
        state ^= state >> 7;
        state ^= state << 17;
        let shift = (state >> 58) as u32;
        let m = state >> shift;
        assert_eq!(binary32_bits(false, m), reference(false, m));
        assert_eq!(binary32_bits(true, m), reference(true, m));
    }
    for k in 0..64u32 {
        let p = 1u64 << k;
        for m in [p.wrapping_sub(1), p, p + 1, p + (p >> 1), p + (p >> 24), p + (p >> 25)] {
            assert_eq!(binary32_bits(false, m), reference(false, m));
        }
    }
}

#[test]
fn difference_is_taken_exactly() {
    assert_eq!(binary32_of_difference(5, 3), (2.0f32).to_bits());
    assert_eq!(binary32_of_difference(3, 5), (-2.0f32).to_bits());
    assert_eq!(binary32_of_difference(7, 7), 0);
    assert_eq!(
        binary32_of_difference(i64::MAX, i64::MIN),
        ((i64::MAX as i128 - i64::MIN as i128) as f32).to_bits()
    );
    assert_eq!(
        binary32_of_difference(i64::MIN, i64::MAX),
        ((i64::MIN as i128 - i64::MAX as i128) as f32).to_bits()
    );
    let origin: i64 = 1_700_000_000_000;
    for dt in [-86_400_000i64, -1, 0, 1, 999, 16_777_216, 16_777_217, 86_400_000, 604_800_000] {
        assert_eq!(binary32_of_difference(origin + dt, origin), (dt as f32).to_bits());
    }
}
