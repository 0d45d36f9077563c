use nja_swap::{apply_fee, sqrt, DexError, FEE_DEN, MINIMUM_LIQUIDITY};

fn is_root(n: u128, r: u128) -> bool {
    let below = match r.checked_mul(r) {
        Some(sq) => sq <= n,
        None => false,
    };
    let above = match (r + 1).checked_mul(r + 1) {
        Some(sq) => n < sq,
        None => true,
    };
    below && above
}

#[test]
fn constants_have_their_values() {
    assert_eq!(FEE_DEN, 10_000u128);
    assert_eq!(MINIMUM_LIQUIDITY, 1000u64);
}

#[test]
fn sqrt_of_zero_is_zero() {
    assert_eq!(sqrt(0), 0);
}

#[test]
fn sqrt_of_small_values() {
    let expected: [u128; 18] = [0, 1, 1, 1, 2, 2, 2, 2, 2, 3, 3, 3, 3, 3, 3, 3, 4, 4];
    for (n, r) in expected.iter().enumerate() {
        assert_eq!(sqrt(n as u128), *r, "sqrt({})", n);
    }
}

#[test]
fn sqrt_of_perfect_squares() {
    for r in [1u128, 2, 3, 10, 999, 1000, 1001, 65_535, 65_536, 4_294_967_295, 4_294_967_296] {
        assert_eq!(sqrt(r * r), r);
    }
}

#[test]
fn sqrt_rounds_down_next_to_a_perfect_square() {
    for r in [2u128, 3, 10, 1000, 1001, 65_536, 4_294_967_296, 18_446_744_073_709_551_615] {
        assert_eq!(sqrt(r * r - 1), r - 1);
        assert_eq!(sqrt(r * r + 1), r);
    }
}

#[test]
fn sqrt_of_the_largest_value() {
    assert_eq!(sqrt(u128::MAX), 18_446_744_073_709_551_615);
    assert_eq!(sqrt(u128::MAX - 1), 18_446_744_073_709_551_615);
}

#[test]
fn sqrt_of_the_largest_product_of_two_amounts() {
    let max = u64::MAX as u128;
    assert_eq!(sqrt(max * max), max);
}

#[test]
fn sqrt_is_the_greatest_root_on_samples() {
    let mut n: u128 = 1;
    for step in 0..127u32 {
        for delta in [0u128, 1, 2] {
            let v = n + delta * (step as u128);
            assert!(is_root(v, sqrt(v)), "sqrt({})", v);
        }
        n *= 2;
    }
}

#[test]
fn apply_fee_scales_the_input_by_what_the_fee_leaves() {
    assert_eq!(apply_fee(100, 30), Ok(997_000));
    assert_eq!(apply_fee(100, 0), Ok(1_000_000));
    assert_eq!(apply_fee(1, 9_999), Ok(1));
    assert_eq!(apply_fee(0, 30), Ok(0));
}

#[test]
fn apply_fee_of_the_whole_input_leaves_nothing() {
    assert_eq!(apply_fee(1, 10_000), Ok(0));
    assert_eq!(apply_fee(u64::MAX, 10_000), Ok(0));
}

#[test]
fn apply_fee_does_not_overflow_on_the_largest_input() {
    assert_eq!(apply_fee(u64::MAX, 0), Ok(184_467_440_737_095_516_150_000));
    assert_eq!(apply_fee(u64::MAX, 30), Ok(183_914_038_414_884_229_601_550));
}

#[test]
fn apply_fee_refuses_a_fee_above_the_whole() {
    assert_eq!(apply_fee(100, 10_001), Err(DexError::InvalidFee));
    assert_eq!(apply_fee(0, u64::MAX), Err(DexError::InvalidFee));
}
