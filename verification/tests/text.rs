use trading_engine::decimal::{divide_nearest, divide_toward_zero, unsigned, Decimal};
use trading_engine::text::{
    contains, eq_ignore_case, push_amount0, push_amount2, push_count, push_int, push_nat, push_signed_amount1,
    push_signed_int, push_two_digits, same, starts_with,
};

fn text(push: impl Fn(&mut String)) -> String {
    let mut s = String::from("=");
    push(&mut s);
    s
}

fn micros(m: i128) -> Decimal {
    Decimal { micros: m }
}

#[test]
fn numbers_are_written_in_decimal() {
    assert_eq!(text(|s| push_nat(s, u128::MAX)), format!("={}", u128::MAX));
    assert_eq!(text(|s| push_count(s, 0)), "=0");
    assert_eq!(text(|s| push_two_digits(s, 7)), "=07");
    assert_eq!(text(|s| push_two_digits(s, 123)), "=123");
    assert_eq!(text(|s| push_int(s, i128::MIN)), format!("={}", i128::MIN));
    assert_eq!(text(|s| push_signed_int(s, 0)), "=+0");
    assert_eq!(text(|s| push_signed_int(s, -1)), "=-1");
}

#[test]
fn amounts_round_halves_to_even() {
    for (m, whole, two, one) in [
        (500_000, 0.5, 0.5, 0.5),
        (1_500_000, 1.5, 1.5, 1.5),
        (2_125_000, 2.125, 2.125, 2.125),
        (-2_375_000, -2.375, -2.375, -2.375),
        (250_000, 0.25, 0.25, 0.25),
    ] {
        assert_eq!(text(|s| push_amount0(s, micros(m))), format!("={whole:.0}"));
        assert_eq!(text(|s| push_amount2(s, micros(m))), format!("={two:.2}"));
        assert_eq!(text(|s| push_signed_amount1(s, micros(m))), format!("={one:+.1}"));
    }
}

#[test]
fn texts_are_compared_by_character() {
    assert!(eq_ignore_case("NiFty", "nIfTY"));
    assert!(!eq_ignore_case("É", "é"), "only ASCII letters have a case");
    assert!(!eq_ignore_case("a", "ab"));
    assert!(contains("abc", "bc") && contains("abc", "") && !contains("abc", "cb") && !contains("b", "bc"));
    assert!(starts_with("₹20", "₹") && !starts_with("20₹", "₹") && !starts_with("", "₹"));
    assert!(same("x", "x") && !same("x", "X") && !same("x", "xx"));
}

#[test]
fn quotients_round_halves_away_from_zero() {
    assert_eq!(divide_nearest(5, 2), 3);
    assert_eq!(divide_nearest(-5, 2), -3);
    assert_eq!(divide_nearest(4, 3), 1);
    assert_eq!(divide_nearest(-4, 3), -1);
    assert_eq!(unsigned(i128::MIN), 1u128 << 127);
}

#[test]
fn whole_units_are_a_million_millionths() {
    assert_eq!(Decimal::whole(-3), micros(-3_000_000));
}

#[test]
fn quotients_can_be_cut_toward_zero() {
    assert_eq!(divide_toward_zero(7, 2), 3);
    assert_eq!(divide_toward_zero(-7, 2), -3);
    assert_eq!(divide_toward_zero(7, -2), -3);
    assert_eq!(divide_toward_zero(-7, -2), 3);
    assert_eq!(divide_toward_zero(i128::MAX, i128::MIN), 0);
}
