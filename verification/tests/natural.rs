use trading_engine::natural::Natural;

fn n(x: u128) -> Natural {
    Natural::from_u128(x)
}

fn equal(a: &Natural, b: &Natural) -> bool {
    a.at_most(b) && b.at_most(a)
}

#[test]
fn sums_and_products_carry_over() {
    let top = n(u128::MAX);
    let more = top.plus(&n(1));
    assert!(!more.at_most(&top) && top.at_most(&more));
    assert!(equal(&more, &n(1 << 64).multiplied(&n(1 << 64))));
    assert!(equal(&n(u64::MAX as u128).times(u64::MAX), &n(u64::MAX as u128 * u64::MAX as u128)));
    assert!(n(0).is_zero() && n(7).times(0).is_zero() && !n(1).is_zero());
}

#[test]
fn differences_borrow() {
    let more = n(u128::MAX).plus(&n(1));
    assert!(equal(&more.minus(&n(1)), &n(u128::MAX)));
    assert!(more.minus(&more).is_zero());
    assert!(equal(&n(1 << 64).minus(&n(1)), &n(u64::MAX as u128)));
}

#[test]
fn quotients_round_to_the_nearest() {
    assert_eq!(n(5).nearest_up_to(&n(2), 10), 3);
    assert_eq!(n(4).nearest_up_to(&n(3), 10), 1);
    assert_eq!(n(0).nearest_up_to(&n(3), 10), 0);
    let big = n(u128::MAX).multiplied(&n(u128::MAX));
    assert_eq!(big.times(3).nearest_up_to(&big.times(2), 10), 2);
    assert_eq!(big.times(7).nearest_up_to(&big.times(5), 10), 1);
}

#[test]
fn roots_round_down() {
    for (x, r) in [(0u128, 0u128), (1, 1), (3, 1), (4, 2), (99, 9), (1_000_000_000_000, 1_000_000)] {
        assert_eq!(n(x).root_below(&n(1), 2_000_000), r);
    }
    assert_eq!(n(90).root_below(&n(10), 100), 3);
    assert_eq!(n(89).root_below(&n(10), 100), 2);
    let big = n(u64::MAX as u128).multiplied(&n(u64::MAX as u128));
    assert_eq!(big.root_below(&n(1), 1 << 100), u64::MAX as u128);
}
