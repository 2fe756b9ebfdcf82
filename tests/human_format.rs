use matchain_supply_apis::utils::u256_to_human;

#[test]
fn eighteen_decimals_trims_trailing_zeros() {
    assert_eq!(u256_to_human(1_234_500_000_000_000_000, 18), "1.2345");
}

#[test]
fn whole_token_has_no_point() {
    assert_eq!(u256_to_human(1_000_000_000_000_000_000, 18), "1");
}

#[test]
fn zero_is_zero() {
    assert_eq!(u256_to_human(0, 18), "0");
    assert_eq!(u256_to_human(0, 0), "0");
}

#[test]
fn no_decimals_is_the_plain_integer() {
    assert_eq!(u256_to_human(9_876_543_210, 0), "9876543210");
    assert_eq!(u256_to_human(u128::MAX, 0), "340282366920938463463374607431768211455");
}

#[test]
fn small_fraction_is_left_padded() {
    assert_eq!(u256_to_human(5, 18), "0.000000000000000005");
    assert_eq!(u256_to_human(1_050, 3), "1.05");
    assert_eq!(u256_to_human(100, 3), "0.1");
}

#[test]
fn large_amount_with_fraction() {
    assert_eq!(u256_to_human(1_000_000_000_500_000_000_000_000_000, 18), "1000000000.5");
}

#[test]
fn decimals_beyond_the_integer_range() {
    assert_eq!(u256_to_human(12, 40), "0.0000000000000000000000000000000000000012");
    assert_eq!(u256_to_human(u128::MAX, 38), "3.40282366920938463463374607431768211455");
    assert_eq!(u256_to_human(7, 255).len(), 2 + 255);
}
