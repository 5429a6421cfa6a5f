use financial_indicators::fixed::{div_floor, SCALE};

#[test]
fn fixed_one_is_a_million_millionths() {
    assert_eq!(SCALE, 1_000_000);
}

#[test]
fn fixed_quotients_round_towards_negative_infinity() {
    assert_eq!(div_floor(7, 2), 3);
    assert_eq!(div_floor(6, 2), 3);
    assert_eq!(div_floor(-6, 2), -3);
    assert_eq!(div_floor(-7, 2), -4);
    assert_eq!(div_floor(-1, 3), -1);
    assert_eq!(div_floor(-3, 3), -1);
    assert_eq!(div_floor(-4, 3), -2);
    assert_eq!(div_floor(1, 3), 0);
    assert_eq!(div_floor(0, 5), 0);
    assert_eq!(div_floor(5, 1), 5);
    assert_eq!(div_floor(-5, 1), -5);
}

#[test]
fn fixed_quotients_of_extreme_dividends() {
    assert_eq!(div_floor(i128::MAX, 1), i128::MAX);
    assert_eq!(div_floor(i128::MIN, 1), i128::MIN);
    assert_eq!(div_floor(i128::MIN, 2), i128::MIN / 2);
    assert_eq!(div_floor(i128::MIN + 1, 2), i128::MIN / 2);
    assert_eq!(div_floor(i128::MAX, i128::MAX), 1);
    assert_eq!(div_floor(i128::MIN, i128::MAX), -2);
    assert_eq!(div_floor(-1, i128::MAX), -1);
}

#[test]
fn fixed_quotient_brackets_the_dividend() {
    for n in -50i128..50 {
        for d in 1i128..12 {
            let q = div_floor(n, d);
            assert!(q * d <= n && n < (q + 1) * d);
            assert_eq!(q, n.div_euclid(d));
        }
    }
}
