use lazy_expr::binary64::nearest_binary64_bits;

fn expected(n: i128) -> u64 {
    (n as f64).to_bits()
}

#[test]
fn zero_is_positive_zero() {
    assert_eq!(nearest_binary64_bits(0), 0);
}

#[test]
fn small_integers_are_exact() {
    assert_eq!(nearest_binary64_bits(1), 0x3FF0_0000_0000_0000);
    assert_eq!(nearest_binary64_bits(2), 0x4000_0000_0000_0000);
    assert_eq!(nearest_binary64_bits(3), 0x4008_0000_0000_0000);
    assert_eq!(nearest_binary64_bits(-1), 0xBFF0_0000_0000_0000);
    for n in -2000i128..2000 {
        assert_eq!(nearest_binary64_bits(n), expected(n));
        assert_eq!(f64::from_bits(nearest_binary64_bits(n)) as i128, n);
    }
}

#[test]
fn integers_up_to_53_bits_are_exact() {
    let limit: i128 = 1 << 53;
    for n in [limit - 1, limit, limit - 12345, -limit, -(limit - 1), 1 << 52, (1 << 52) + 1] {
        assert_eq!(nearest_binary64_bits(n), expected(n));
        assert_eq!(f64::from_bits(nearest_binary64_bits(n)) as i128, n);
    }
}

#[test]
fn the_first_inexact_integer_rounds_to_even() {
    // 2^53 + 1 lies halfway between 2^53 and 2^53 + 2.
    assert_eq!(nearest_binary64_bits((1 << 53) + 1), 0x4340_0000_0000_0000);
    assert_eq!(f64::from_bits(nearest_binary64_bits(9007199254740993)), 9007199254740992.0);
    // 2^53 + 3 lies halfway between 2^53 + 2 and 2^53 + 4.
    assert_eq!(nearest_binary64_bits((1 << 53) + 3), 0x4340_0000_0000_0002);
    assert_eq!(nearest_binary64_bits((1 << 53) + 2), 0x4340_0000_0000_0001);
}

#[test]
fn rounding_goes_to_the_nearer_neighbour() {
    let base: i128 = 1 << 60;
    // Neighbours are 256 apart here.
    assert_eq!(nearest_binary64_bits(base + 127), expected(base));
    assert_eq!(nearest_binary64_bits(base + 129), expected(base + 256));
    assert_eq!(nearest_binary64_bits(base + 128), expected(base));
    assert_eq!(nearest_binary64_bits(base + 256 + 128), expected(base + 512));
}

#[test]
fn a_carry_out_of_the_significand_raises_the_exponent() {
    let all_ones: i128 = (1 << 54) - 1;
    assert_eq!(nearest_binary64_bits(all_ones), 0x4350_0000_0000_0000);
    assert_eq!(nearest_binary64_bits(all_ones), expected(1 << 54));
    assert_eq!(nearest_binary64_bits(i128::MAX), expected(i128::MAX));
    assert_eq!(nearest_binary64_bits(i128::MAX), 0x47E0_0000_0000_0000);
}

#[test]
fn the_extremes_of_the_range() {
    assert_eq!(nearest_binary64_bits(i128::MIN), expected(i128::MIN));
    assert_eq!(nearest_binary64_bits(i128::MIN), 0xC7E0_0000_0000_0000);
    assert_eq!(nearest_binary64_bits(i128::MIN + 1), expected(i128::MIN + 1));
    assert_eq!(nearest_binary64_bits(i128::MAX - 1), expected(i128::MAX - 1));
}

#[test]
fn negation_only_sets_the_sign_bit() {
    for n in [1i128, 5, (1 << 53) + 1, (1 << 80) + 12345, i128::MAX] {
        assert_eq!(nearest_binary64_bits(-n), nearest_binary64_bits(n) | (1 << 63));
    }
}

#[test]
fn agrees_with_the_machine_on_a_sweep() {
    let mut state: u128 = 0x9E37_79B9_7F4A_7C15_F39C_C060_5CED_C834;
    for _ in 0..20000 {
        state = state.wrapping_mul(0x2545_F491_4F6C_DD1D_0000_0000_0000_0001).wrapping_add(0xB5);
        let width = (state >> 121) as u32;
        let n = (state as i128) >> width;
        assert_eq!(nearest_binary64_bits(n), expected(n), "n = {}", n);
    }
}

#[test]
fn agrees_with_the_machine_around_every_power_of_two() {
    for e in 0..127u32 {
        let p: i128 = 1 << e;
        for d in -3i128..=3 {
            let n = p + d;
            assert_eq!(nearest_binary64_bits(n), expected(n), "n = {}", n);
            assert_eq!(nearest_binary64_bits(-n), expected(-n), "n = {}", -n);
        }
        if e >= 54 {
            let half_unit: i128 = 1 << (e - 53);
            for k in [1i128, 3, 5] {
                for d in -1i128..=1 {
                    let n = p + k * half_unit + d;
                    assert_eq!(nearest_binary64_bits(n), expected(n), "n = {}", n);
                }
            }
        }
    }
}
