use financial_indicators::error::IndicatorError;
use financial_indicators::fixed::SCALE;
use financial_indicators::macd::{check_periods, row_count, signal_ready, MACD};

/// A price in whole units, the tick of these series.
fn ticks(price: f64) -> i64 {
    price.round() as i64
}

fn series(prices: &[f64]) -> Vec<i64> {
    prices.iter().map(|p| ticks(*p)).collect()
}

const ZERO: MACD = MACD { macd: 0, signal: 0, histogram: 0 };

#[test]
fn test_macd_empty() {
    let closes: Vec<i64> = vec![];
    let macd_values = MACD::new(&closes, 12, 26, 9).unwrap();
    assert!(macd_values.is_empty());
}

#[test]
fn test_macd_single_element() {
    let closes = series(&[100.0]);
    let macd_values = MACD::new(&closes, 12, 26, 9).unwrap();
    assert!(macd_values.is_empty());
}

#[test]
fn test_macd_constant_prices() {
    let closes = series(&[100.0, 100.0, 100.0, 100.0, 100.0, 100.0]);
    let macd_values = MACD::new(&closes, 12, 26, 9).unwrap();
    for macd in macd_values {
        assert_eq!(macd.macd, 0);
        assert_eq!(macd.signal, 0);
        assert_eq!(macd.histogram, 0);
    }
}

#[test]
fn macd_constant_prices_give_zero_rows() {
    for price in [100i64, 0, -7, 1, i64::MAX, i64::MIN] {
        let closes = vec![price; 40];
        let rows = MACD::new(&closes, 12, 26, 9).unwrap();
        assert_eq!(rows, vec![ZERO; 15]);
        let rows = MACD::new(&closes, 3, 2, 1).unwrap();
        assert_eq!(rows, vec![ZERO; 39]);
    }
}

#[test]
fn macd_zero_period_is_invalid_input() {
    let closes = series(&[1.0, 2.0, 3.0, 4.0]);
    assert_eq!(MACD::new(&closes, 0, 2, 2), Err(IndicatorError::InvalidInput));
    assert_eq!(MACD::new(&closes, 1, 0, 2), Err(IndicatorError::InvalidInput));
    assert_eq!(MACD::new(&closes, 1, 2, 0), Err(IndicatorError::InvalidInput));
    assert_eq!(MACD::new(&closes, 0, 0, 0), Err(IndicatorError::InvalidInput));
    // Also when there would be no rows anyway.
    assert_eq!(MACD::new(&[], 12, 26, 0), Err(IndicatorError::InvalidInput));
    assert_eq!(MACD::new(&closes, 0, 26, 9), Err(IndicatorError::InvalidInput));
}

#[test]
fn macd_check_periods_accepts_exactly_the_positive_periods() {
    assert_eq!(check_periods(12, 26, 9), Ok(()));
    assert_eq!(check_periods(1, 1, 1), Ok(()));
    assert_eq!(check_periods(usize::MAX, usize::MAX, usize::MAX), Ok(()));
    assert_eq!(check_periods(0, 26, 9), Err(IndicatorError::InvalidInput));
    assert_eq!(check_periods(12, 0, 9), Err(IndicatorError::InvalidInput));
    assert_eq!(check_periods(12, 26, 0), Err(IndicatorError::InvalidInput));
}

#[test]
fn macd_short_series_gives_no_rows() {
    let closes = series(&[1.0, 2.0, 3.0, 4.0, 5.0, 6.0, 7.0, 8.0, 9.0, 10.0]);
    assert_eq!(MACD::new(&closes, 12, 26, 9), Ok(vec![]));
    assert_eq!(MACD::new(&closes, 12, 11, 9), Ok(vec![]));
    assert_eq!(MACD::new(&closes, 12, usize::MAX, 9), Ok(vec![]));
    assert_eq!(MACD::new(&closes, 12, 10, 9).unwrap().len(), 1);
}

#[test]
fn macd_length_is_bars_minus_long_period_plus_one() {
    for n in 0..30usize {
        let closes: Vec<i64> = (0..n as i64).map(|i| 100 + (i * 7) % 11).collect();
        for long_period in 1..35usize {
            let rows = MACD::new(&closes, 3, long_period, 4).unwrap();
            let expected = if n >= long_period { n - long_period + 1 } else { 0 };
            assert_eq!(rows.len(), expected);
            assert_eq!(rows.len(), row_count(n, long_period));
        }
    }
    assert_eq!(row_count(5, 0), 0);
}

#[test]
fn macd_rising_prices_give_exact_rows() {
    let closes = series(&[1.0, 2.0, 3.0, 4.0]);
    // A period of 1 follows the prices; a period of 2 moves two thirds of
    // the way: 1, 1.666666, 2.555555, 3.518518.
    let rows = MACD::new(&closes, 1, 2, 2).unwrap();
    assert_eq!(
        rows,
        vec![
            MACD { macd: 333_334, signal: 0, histogram: 333_334 },
            MACD { macd: 444_445, signal: 407_408, histogram: 37_037 },
            MACD { macd: 481_482, signal: 456_790, histogram: 24_692 },
        ]
    );
}

#[test]
fn macd_moving_average_formula_is_exact() {
    // With a long period of 1 the long average is the price itself, so the
    // MACD line is the short average minus the price.
    let closes = series(&[10.0, 20.0, 14.0, 14.0, -6.0]);
    let rows = MACD::new(&closes, 3, 1, 1).unwrap();
    // Period 3 moves half of the way: 10, 15, 14.5, 14.25, 4.125.
    let average: Vec<i128> = vec![10_000_000, 15_000_000, 14_500_000, 14_250_000, 4_125_000];
    assert_eq!(rows.len(), 5);
    for (i, row) in rows.iter().enumerate() {
        assert_eq!(row.macd, average[i] - closes[i] as i128 * SCALE);
        // A signal period of 1 follows the MACD line.
        assert_eq!(row.signal, row.macd);
        assert_eq!(row.histogram, 0);
    }
}

#[test]
fn macd_moving_average_rounds_down_on_the_way_down() {
    // Period 2 moves two thirds of the way, rounded down: from 0 to -1 it
    // reaches -0.666667, not -0.666666.
    let closes = series(&[0.0, -1.0, -1.0]);
    let rows = MACD::new(&closes, 2, 1, 5).unwrap();
    assert_eq!(
        rows,
        vec![
            MACD { macd: 0, signal: 0, histogram: 0 },
            MACD { macd: 333_333, signal: 0, histogram: 333_333 },
            MACD { macd: 111_111, signal: 0, histogram: 111_111 },
        ]
    );
}

#[test]
fn macd_signal_stands_at_zero_until_it_is_ready() {
    let closes: Vec<i64> = vec![100, 104, 103, 110, 108, 115, 120, 118, 125, 130, 128, 135];
    let rows = MACD::new(&closes, 2, 3, 4).unwrap();
    assert_eq!(rows.len(), 10);
    for (j, row) in rows.iter().enumerate() {
        if j < 3 {
            assert_eq!(row.signal, 0);
            assert_eq!(row.histogram, row.macd);
            assert!(!signal_ready(j, 4));
        } else {
            assert!(signal_ready(j, 4));
        }
        assert_eq!(row.histogram, row.macd - row.signal);
    }
    // The signal line is the average of the whole MACD line, the rows
    // before it was ready included.
    let mut signal = rows[0].macd;
    for row in &rows[1..4] {
        signal += (2 * (row.macd - signal)).div_euclid(5);
    }
    assert_ne!(rows[3].macd, 0);
    assert_eq!(rows[3].signal, signal);
}

#[test]
fn macd_signal_is_ready_from_row_period_minus_one() {
    assert!(signal_ready(8, 9));
    assert!(!signal_ready(7, 9));
    assert!(signal_ready(0, 1));
    assert!(signal_ready(0, 0));
    assert!(!signal_ready(0, 2));
    assert!(signal_ready(usize::MAX, usize::MAX));
    assert!(!signal_ready(usize::MAX - 2, usize::MAX));
}

#[test]
fn macd_repeated_calls_agree() {
    let closes: Vec<i64> = vec![100, 104, 103, 110, 108, 115, 120, 118, 125, 130, 128, 135];
    let first = MACD::new(&closes, 2, 3, 4);
    let second = MACD::new(&closes, 2, 3, 4);
    assert!(first.is_ok());
    assert_eq!(first, second);
    assert_eq!(MACD::new(&closes, 0, 3, 4), MACD::new(&closes, 0, 3, 4));
}

#[test]
fn macd_extreme_prices_are_computed() {
    let closes: Vec<i64> = vec![i64::MAX, i64::MIN, i64::MAX, i64::MIN, i64::MAX];
    let rows = MACD::new(&closes, 1, 2, 1).unwrap();
    assert_eq!(rows.len(), 4);
    let top = i64::MAX as i128 * SCALE;
    let bottom = i64::MIN as i128 * SCALE;
    let second = top + (2 * (bottom - top)).div_euclid(3);
    assert_eq!(rows[0], MACD { macd: bottom - second, signal: bottom - second, histogram: 0 });
    for row in rows {
        assert_eq!(row.histogram, row.macd - row.signal);
    }
    let rows = MACD::new(&closes, usize::MAX, 1, usize::MAX).unwrap();
    assert_eq!(rows.len(), 5);
    // With a period this long, a fall over the whole width of `i64` moves
    // the average by two units of price.
    let moved = top - 2 * SCALE;
    assert_eq!(rows[1], MACD { macd: moved - bottom, signal: 0, histogram: moved - bottom });
}
