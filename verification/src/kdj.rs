//! The KDJ stochastic oscillator.
//!
//! For every bar that has enough history the raw stochastic value (RSV)
//! places the close inside the range spanned by the highest high and the
//! lowest low of a look-back window of `period` bars. The K line smooths the
//! RSV, the D line smooths K, and J is `3 * K - 2 * D`. K and D start at 50.
//!
//! Prices are `i64` in the caller's unit. K, D, J and the RSV are
//! fixed-point percentages with six decimal digits, so `50_000_000` is 50.
//!
//! Two window conventions are offered, see [`WindowConvention`].

use crate::error::IndicatorError;
use crate::fixed::div_floor;
use crate::fixed::floor_div;
use crate::fixed::lemma_floor_div_between;
use crate::fixed::lemma_floor_div_brackets;
use vstd::prelude::*;

verus! {

/// The value K and D start from: 50.
pub const SEED: i128 = 50_000_000;

/// The top of the percentage scale: 100.
pub const FULL: i128 = 100_000_000;

/// No RSV, K or D ever exceeds this magnitude, whatever the prices are.
pub const REACH: i128 = 1_844_674_407_370_955_161_600_000_000;

/// Which bars form the look-back window of a bar.
#[derive(Clone, Copy, Debug, PartialEq, Eq)]
pub enum WindowConvention {
    /// The window of bar `i` is the `period` bars before it, `i - period`
    /// up to but not including `i`. The first `period` bars produce no row.
    Exclusive,
    /// The window of bar `i` is the `period` bars ending with it. Every bar
    /// produces a row; the rows before the first full window repeat the
    /// starting values.
    Inclusive,
}

/// One row of the indicator: the K, D and J lines at one bar.
#[derive(Clone, Copy, Debug, PartialEq, Eq)]
pub struct KDJ {
    pub k: i128,
    pub d: i128,
    pub j: i128,
}

/// The mathematical content of a [`KDJ`] row.
pub struct KdjValue {
    pub k: int,
    pub d: int,
    pub j: int,
}

impl View for KDJ {
    type V = KdjValue;

    open spec fn view(&self) -> KdjValue {
        KdjValue { k: self.k as int, d: self.d as int, j: self.j as int }
    }
}

/// The rows of a vector, each as its mathematical content.
pub open spec fn rows_view(rows: Seq<KDJ>) -> Seq<KdjValue> {
    Seq::new(rows.len(), |t: int| rows[t]@)
}

/// A result with its rows replaced by their mathematical content.
pub open spec fn outcome_view(r: Result<Vec<KDJ>, IndicatorError>) -> Result<
    Seq<KdjValue>,
    IndicatorError,
> {
    match r {
        Ok(rows) => Ok(rows_view(rows@)),
        Err(e) => Err(e),
    }
}

/// The arguments describe a series: three columns of one length and a
/// period of at least one bar.
pub open spec fn valid_input(n_highs: nat, n_lows: nat, n_closes: nat, period: nat) -> bool {
    n_highs == n_lows && n_lows == n_closes && period >= 1
}

/// The bar that the first row belongs to.
pub open spec fn spec_first_bar(period: nat, convention: WindowConvention) -> nat {
    match convention {
        WindowConvention::Exclusive => period,
        WindowConvention::Inclusive => 0,
    }
}

/// The number of rows for a series of `n` bars.
pub open spec fn spec_row_count(n: nat, period: nat, convention: WindowConvention) -> nat {
    if n >= spec_first_bar(period, convention) {
        (n - spec_first_bar(period, convention)) as nat
    } else {
        0
    }
}

/// One past the last bar of the window of bar `i`.
pub open spec fn window_end(i: int, convention: WindowConvention) -> int {
    match convention {
        WindowConvention::Exclusive => i,
        WindowConvention::Inclusive => i + 1,
    }
}

/// Bar `i` has `period` bars of history under the convention.
pub open spec fn has_window(i: int, period: nat, convention: WindowConvention) -> bool {
    period >= 1 && window_end(i, convention) >= period
}

/// The first bar of the window of bar `i`.
pub open spec fn spec_window_start(i: int, period: nat, convention: WindowConvention) -> int {
    window_end(i, convention) - period
}

/// The largest of the `len` values of `xs` from index `start` on, for
/// `len >= 1`.
pub open spec fn highest(xs: Seq<i64>, start: int, len: int) -> int
    decreases len,
{
    if len <= 1 {
        xs[start] as int
    } else {
        let before = highest(xs, start, len - 1);
        let last = xs[start + len - 1] as int;
        if last > before {
            last
        } else {
            before
        }
    }
}

/// The smallest of the `len` values of `xs` from index `start` on, for
/// `len >= 1`.
pub open spec fn lowest(xs: Seq<i64>, start: int, len: int) -> int
    decreases len,
{
    if len <= 1 {
        xs[start] as int
    } else {
        let before = lowest(xs, start, len - 1);
        let last = xs[start + len - 1] as int;
        if last < before {
            last
        } else {
            before
        }
    }
}

/// The raw stochastic value: where `close` lies between `low` and `high`,
/// as a percentage rounded down; 50 when the range is flat.
pub open spec fn spec_rsv(close: int, low: int, high: int) -> int {
    if high == low {
        SEED as int
    } else {
        floor_div((close - low) * FULL, high - low)
    }
}

/// The raw stochastic value of bar `i`, which must have a window.
pub open spec fn rsv_at(
    highs: Seq<i64>,
    lows: Seq<i64>,
    closes: Seq<i64>,
    period: nat,
    convention: WindowConvention,
    i: int,
) -> int {
    let start = spec_window_start(i, period, convention);
    spec_rsv(
        closes[i] as int,
        lowest(lows, start, period as int),
        highest(highs, start, period as int),
    )
}

/// Two thirds of the previous value plus one third of the new one, rounded
/// down.
pub open spec fn spec_smooth(prev: int, x: int) -> int {
    (2 * prev + x) / 3
}

/// The K line after `n` rows.
pub open spec fn k_after(
    highs: Seq<i64>,
    lows: Seq<i64>,
    closes: Seq<i64>,
    period: nat,
    convention: WindowConvention,
    n: nat,
) -> int
    decreases n,
{
    if n == 0 {
        SEED as int
    } else {
        let prev = k_after(highs, lows, closes, period, convention, (n - 1) as nat);
        let i = spec_first_bar(period, convention) + n - 1;
        if has_window(i, period, convention) {
            spec_smooth(prev, rsv_at(highs, lows, closes, period, convention, i))
        } else {
            prev
        }
    }
}

/// The D line after `n` rows.
pub open spec fn d_after(
    highs: Seq<i64>,
    lows: Seq<i64>,
    closes: Seq<i64>,
    period: nat,
    convention: WindowConvention,
    n: nat,
) -> int
    decreases n,
{
    if n == 0 {
        SEED as int
    } else {
        let prev = d_after(highs, lows, closes, period, convention, (n - 1) as nat);
        let i = spec_first_bar(period, convention) + n - 1;
        if has_window(i, period, convention) {
            spec_smooth(prev, k_after(highs, lows, closes, period, convention, n))
        } else {
            prev
        }
    }
}

/// Row `t` of the indicator.
pub open spec fn row(
    highs: Seq<i64>,
    lows: Seq<i64>,
    closes: Seq<i64>,
    period: nat,
    convention: WindowConvention,
    t: int,
) -> KdjValue {
    let k = k_after(highs, lows, closes, period, convention, (t + 1) as nat);
    let d = d_after(highs, lows, closes, period, convention, (t + 1) as nat);
    KdjValue { k, d, j: 3 * k - 2 * d }
}

/// The indicator as a function of its arguments: the error for arguments
/// that describe no series, else one row for each bar from the first bar on.
pub open spec fn kdj(
    highs: Seq<i64>,
    lows: Seq<i64>,
    closes: Seq<i64>,
    period: nat,
    convention: WindowConvention,
) -> Result<Seq<KdjValue>, IndicatorError> {
    if !valid_input(highs.len(), lows.len(), closes.len(), period) {
        Err(IndicatorError::InvalidInput)
    } else {
        Ok(
            Seq::new(
                spec_row_count(highs.len(), period, convention),
                |t: int| row(highs, lows, closes, period, convention, t),
            ),
        )
    }
}

/// Every value of a window is bounded by the window's extremes, and each
/// extreme is one of the window's values.
pub proof fn lemma_extremes(xs: Seq<i64>, start: int, len: int)
    requires
        len >= 1,
    ensures
        forall|i: int|
            start <= i < start + len ==> lowest(xs, start, len) <= #[trigger] xs[i] && xs[i]
                <= highest(xs, start, len),
        exists|i: int| start <= i < start + len && #[trigger] xs[i] == highest(xs, start, len),
        exists|i: int| start <= i < start + len && #[trigger] xs[i] == lowest(xs, start, len),
    decreases len,
{
    if len > 1 {
        lemma_extremes(xs, start, len - 1);
        let hi = choose|i: int|
            start <= i < start + len - 1 && #[trigger] xs[i] == highest(xs, start, len - 1);
        let lo = choose|i: int|
            start <= i < start + len - 1 && #[trigger] xs[i] == lowest(xs, start, len - 1);
        let last = start + len - 1;
        assert(xs[hi] == highest(xs, start, len) || xs[last] == highest(xs, start, len));
        assert(xs[lo] == lowest(xs, start, len) || xs[last] == lowest(xs, start, len));
    } else {
        assert(xs[start] == highest(xs, start, len));
        assert(xs[start] == lowest(xs, start, len));
    }
}

/// The raw stochastic value never leaves the reach of the scale.
pub proof fn lemma_rsv_reach(close: i64, low: i64, high: i64)
    ensures
        -REACH <= spec_rsv(close as int, low as int, high as int) <= REACH,
{
    if high != low {
        let num = (close - low) * FULL;
        let den = high - low;
        if den > 0 {
            lemma_floor_div_between(num, den);
        } else {
            lemma_floor_div_between(-num, -den);
        }
    }
}

/// A close inside the range of its window has a raw stochastic value
/// between 0 and 100.
pub proof fn lemma_rsv_percentage(close: int, low: int, high: int)
    requires
        low <= close <= high,
    ensures
        0 <= spec_rsv(close, low, high) <= FULL,
{
    if high != low {
        let num = (close - low) * FULL;
        let den = high - low;
        let q = floor_div(num, den);
        lemma_floor_div_between(num, den);
        lemma_floor_div_brackets(num, den);
        assert(q <= FULL) by (nonlinear_arith)
            requires
                den > 0,
                q * den <= num,
                num <= den * FULL,
        ;
    }
}

/// Smoothing stays between the previous value and the new one.
pub proof fn lemma_smooth_between(prev: int, x: int, lo: int, hi: int)
    requires
        lo <= prev <= hi,
        lo <= x <= hi,
    ensures
        lo <= spec_smooth(prev, x) <= hi,
{
}

/// Two results that both meet the contract of [`KDJ::with_convention`] for
/// the same arguments are the same: both fail, or both succeed with equal
/// rows.
pub proof fn lemma_kdj_deterministic(
    highs: Seq<i64>,
    lows: Seq<i64>,
    closes: Seq<i64>,
    period: nat,
    convention: WindowConvention,
    first: Result<Vec<KDJ>, IndicatorError>,
    second: Result<Vec<KDJ>, IndicatorError>,
)
    requires
        outcome_view(first) == kdj(highs, lows, closes, period, convention),
        outcome_view(second) == kdj(highs, lows, closes, period, convention),
    ensures
        first is Ok <==> second is Ok,
        first is Ok ==> first->Ok_0@ == second->Ok_0@,
        first is Err ==> first->Err_0 == second->Err_0,
{
    if first is Ok {
        let a = first->Ok_0@;
        let b = second->Ok_0@;
        assert(rows_view(a) == rows_view(b));
        assert(a.len() == rows_view(a).len());
        assert(b.len() == rows_view(b).len());
        assert forall|t: int| 0 <= t < a.len() implies a[t] == b[t] by {
            assert(rows_view(a)[t] == rows_view(b)[t]);
        }
        assert(a =~= b);
    }
}

/// As long as the raw stochastic value of every bar that has a window is
/// between 0 and 100, so are K and D.
pub proof fn lemma_k_d_percentage(
    highs: Seq<i64>,
    lows: Seq<i64>,
    closes: Seq<i64>,
    period: nat,
    convention: WindowConvention,
    n: nat,
)
    requires
        forall|i: int|
            spec_first_bar(period, convention) <= i < spec_first_bar(period, convention) + n
                && has_window(i, period, convention) ==> 0 <= #[trigger] rsv_at(
                highs,
                lows,
                closes,
                period,
                convention,
                i,
            ) <= FULL,
    ensures
        0 <= k_after(highs, lows, closes, period, convention, n) <= FULL,
        0 <= d_after(highs, lows, closes, period, convention, n) <= FULL,
    decreases n,
{
    if n > 0 {
        lemma_k_d_percentage(highs, lows, closes, period, convention, (n - 1) as nat);
        let i = spec_first_bar(period, convention) + n - 1;
        if has_window(i, period, convention) {
            let raw = rsv_at(highs, lows, closes, period, convention, i);
            let k_prev = k_after(highs, lows, closes, period, convention, (n - 1) as nat);
            let d_prev = d_after(highs, lows, closes, period, convention, (n - 1) as nat);
            lemma_smooth_between(k_prev, raw, 0, FULL as int);
            lemma_smooth_between(d_prev, spec_smooth(k_prev, raw), 0, FULL as int);
        }
    }
}

/// Under the inclusive convention, a series in which every close lies
/// between the low and the high of its own bar keeps K and D between 0
/// and 100.
pub proof fn lemma_inclusive_percentage(
    highs: Seq<i64>,
    lows: Seq<i64>,
    closes: Seq<i64>,
    period: nat,
    n: nat,
)
    requires
        highs.len() == lows.len(),
        lows.len() == closes.len(),
        n <= closes.len(),
        forall|i: int| 0 <= i < closes.len() ==> lows[i] <= #[trigger] closes[i] <= highs[i],
    ensures
        0 <= k_after(highs, lows, closes, period, WindowConvention::Inclusive, n) <= FULL,
        0 <= d_after(highs, lows, closes, period, WindowConvention::Inclusive, n) <= FULL,
{
    let convention = WindowConvention::Inclusive;
    assert forall|i: int| 0 <= i < n && has_window(i, period, convention) implies 0
        <= #[trigger] rsv_at(highs, lows, closes, period, convention, i) <= FULL by {
        let start = spec_window_start(i, period, convention);
        lemma_extremes(lows, start, period as int);
        lemma_extremes(highs, start, period as int);
        assert(lowest(lows, start, period as int) <= lows[i]);
        assert(highs[i] <= highest(highs, start, period as int));
        assert(lows[i] <= closes[i] <= highs[i]);
        lemma_rsv_percentage(
            closes[i] as int,
            lowest(lows, start, period as int),
            highest(highs, start, period as int),
        );
    }
    lemma_k_d_percentage(highs, lows, closes, period, convention, n);
}

/// Under the exclusive convention, a series in which every close lies
/// between the lowest low and the highest high of the `period` bars before
/// it keeps K and D between 0 and 100.
pub proof fn lemma_exclusive_percentage(
    highs: Seq<i64>,
    lows: Seq<i64>,
    closes: Seq<i64>,
    period: nat,
    n: nat,
)
    requires
        forall|i: int|
            period <= i < period + n ==> lowest(lows, i - period, period as int)
                <= #[trigger] closes[i] <= highest(highs, i - period, period as int),
    ensures
        0 <= k_after(highs, lows, closes, period, WindowConvention::Exclusive, n) <= FULL,
        0 <= d_after(highs, lows, closes, period, WindowConvention::Exclusive, n) <= FULL,
{
    let convention = WindowConvention::Exclusive;
    assert forall|i: int| period <= i < period + n && has_window(i, period, convention) implies 0
        <= #[trigger] rsv_at(highs, lows, closes, period, convention, i) <= FULL by {
        assert(lowest(lows, i - period, period as int) <= closes[i]);
        lemma_rsv_percentage(
            closes[i] as int,
            lowest(lows, i - period, period as int),
            highest(highs, i - period, period as int),
        );
    }
    lemma_k_d_percentage(highs, lows, closes, period, convention, n);
}

/// Under the inclusive convention, the rows of the bars before bar
/// `period - 1` hold the starting values: K, D and J are 50.
pub proof fn lemma_inclusive_warm_up(
    highs: Seq<i64>,
    lows: Seq<i64>,
    closes: Seq<i64>,
    period: nat,
    t: int,
)
    requires
        0 <= t < period - 1,
    ensures
        row(highs, lows, closes, period, WindowConvention::Inclusive, t) == (KdjValue {
            k: SEED as int,
            d: SEED as int,
            j: SEED as int,
        }),
    decreases t,
{
    if t > 0 {
        lemma_inclusive_warm_up(highs, lows, closes, period, t - 1);
    }
    reveal_with_fuel(k_after, 2);
    reveal_with_fuel(d_after, 2);
}

/// A window in which every high and every low is the same price gives a
/// raw stochastic value of exactly 50, whatever the close is.
pub proof fn lemma_flat_window(
    highs: Seq<i64>,
    lows: Seq<i64>,
    closes: Seq<i64>,
    period: nat,
    convention: WindowConvention,
    i: int,
    price: i64,
)
    requires
        has_window(i, period, convention),
        forall|b: int|
            spec_window_start(i, period, convention) <= b < window_end(i, convention)
                ==> #[trigger] highs[b] == price,
        forall|b: int|
            spec_window_start(i, period, convention) <= b < window_end(i, convention)
                ==> #[trigger] lows[b] == price,
    ensures
        rsv_at(highs, lows, closes, period, convention, i) == SEED,
{
    let start = spec_window_start(i, period, convention);
    lemma_extremes(highs, start, period as int);
    lemma_extremes(lows, start, period as int);
}

/// Checks that the arguments describe a series.
pub fn check_series(n_highs: usize, n_lows: usize, n_closes: usize, period: usize) -> (r: Result<
    (),
    IndicatorError,
>)
    ensures
        r is Ok <==> valid_input(n_highs as nat, n_lows as nat, n_closes as nat, period as nat),
        r is Err ==> r == Err::<(), IndicatorError>(IndicatorError::InvalidInput),
{
    if n_highs != n_lows || n_lows != n_closes || period == 0 {
        Err(IndicatorError::InvalidInput)
    } else {
        Ok(())
    }
}

/// The bar that the first row belongs to.
pub fn first_bar(period: usize, convention: WindowConvention) -> (i: usize)
    ensures
        i == spec_first_bar(period as nat, convention),
{
    match convention {
        WindowConvention::Exclusive => period,
        WindowConvention::Inclusive => 0,
    }
}

/// The number of rows for a series of `n` bars.
pub fn row_count(n: usize, period: usize, convention: WindowConvention) -> (rows: usize)
    ensures
        rows == spec_row_count(n as nat, period as nat, convention),
{
    let first = first_bar(period, convention);
    if n >= first {
        n - first
    } else {
        0
    }
}

/// The first bar of the window of bar `i`, if the bar has `period` bars of
/// history.
pub fn window_start(i: usize, period: usize, convention: WindowConvention) -> (w: Option<usize>)
    ensures
        w is Some <==> has_window(i as int, period as nat, convention),
        w matches Some(start) ==> start == spec_window_start(i as int, period as nat, convention),
{
    if period == 0 {
        return None;
    }
    match convention {
        WindowConvention::Exclusive => if i >= period {
            Some(i - period)
        } else {
            None
        },
        WindowConvention::Inclusive => if i >= period - 1 {
            Some(i - (period - 1))
        } else {
            None
        },
    }
}

/// The largest of the `len` values of `xs` from index `start` on.
fn highest_in(xs: &[i64], start: usize, len: usize) -> (m: i64)
    requires
        len >= 1,
        start + len <= xs.len(),
    ensures
        m == highest(xs@, start as int, len as int),
{
    let mut m: i64 = xs[start];
    let mut seen: usize = 1;
    while seen < len
        invariant
            1 <= seen <= len,
            start + len <= xs.len(),
            m == highest(xs@, start as int, seen as int),
        decreases len - seen,
    {
        let x: i64 = xs[start + seen];
        if x > m {
            m = x;
        }
        seen = seen + 1;
    }
    m
}

/// The smallest of the `len` values of `xs` from index `start` on.
fn lowest_in(xs: &[i64], start: usize, len: usize) -> (m: i64)
    requires
        len >= 1,
        start + len <= xs.len(),
    ensures
        m == lowest(xs@, start as int, len as int),
{
    let mut m: i64 = xs[start];
    let mut seen: usize = 1;
    while seen < len
        invariant
            1 <= seen <= len,
            start + len <= xs.len(),
            m == lowest(xs@, start as int, seen as int),
        decreases len - seen,
    {
        let x: i64 = xs[start + seen];
        if x < m {
            m = x;
        }
        seen = seen + 1;
    }
    m
}

/// The raw stochastic value of one bar.
pub fn rsv(close: i64, low: i64, high: i64) -> (r: i128)
    ensures
        r == spec_rsv(close as int, low as int, high as int),
{
    if high == low {
        SEED
    } else {
        let num: i128 = (close as i128 - low as i128) * FULL;
        let den: i128 = high as i128 - low as i128;
        if den > 0 {
            div_floor(num, den)
        } else {
            div_floor(-num, -den)
        }
    }
}

/// Two thirds of the previous value plus one third of the new one, rounded
/// down.
fn smooth(prev: i128, x: i128) -> (r: i128)
    requires
        -REACH <= prev <= REACH,
        -REACH <= x <= REACH,
    ensures
        r == spec_smooth(prev as int, x as int),
        -REACH <= r <= REACH,
{
    div_floor(2 * prev + x, 3)
}

impl KDJ {
    /// Computes the indicator with the window of each bar made of the
    /// `period` bars before it.
    ///
    /// Fails if the three columns differ in length or `period` is zero.
    /// Otherwise there is one row for each bar from bar `period` on, so a
    /// series of at most `period` bars gives no rows.
    pub fn new(highs: &[i64], lows: &[i64], closes: &[i64], period: usize) -> (r: Result<
        Vec<KDJ>,
        IndicatorError,
    >)
        ensures
            outcome_view(r) == kdj(
                highs@,
                lows@,
                closes@,
                period as nat,
                WindowConvention::Exclusive,
            ),
            r is Err <==> highs.len() != lows.len() || lows.len() != closes.len() || period == 0,
            r matches Err(e) ==> e == IndicatorError::InvalidInput,
            r matches Ok(rows) ==> rows.len() == if highs.len() >= period {
                highs.len() - period
            } else {
                0
            },
    {
        Self::with_convention(highs, lows, closes, period, WindowConvention::Exclusive)
    }

    /// Computes the indicator under the given window convention.
    ///
    /// Fails if the three columns differ in length or `period` is zero.
    /// Otherwise there is one row for each bar from the convention's first
    /// bar on. A bar without `period` bars of history leaves K and D as
    /// they were.
    pub fn with_convention(
        highs: &[i64],
        lows: &[i64],
        closes: &[i64],
        period: usize,
        convention: WindowConvention,
    ) -> (r: Result<Vec<KDJ>, IndicatorError>)
        ensures
            outcome_view(r) == kdj(highs@, lows@, closes@, period as nat, convention),
            r is Err <==> highs.len() != lows.len() || lows.len() != closes.len() || period == 0,
            r matches Err(e) ==> e == IndicatorError::InvalidInput,
            r matches Ok(rows) ==> rows.len() == spec_row_count(
                highs.len() as nat,
                period as nat,
                convention,
            ),
    {
        if check_series(highs.len(), lows.len(), closes.len(), period).is_err() {
            return Err(IndicatorError::InvalidInput);
        }
        let n = highs.len();
        let first = first_bar(period, convention);
        let rows = row_count(n, period, convention);
        let mut out: Vec<KDJ> = Vec::with_capacity(rows);
        let mut k: i128 = SEED;
        let mut d: i128 = SEED;
        let mut t: usize = 0;
        while t < rows
            invariant
                t <= rows,
                period >= 1,
                n == highs.len(),
                n == lows.len(),
                n == closes.len(),
                first == spec_first_bar(period as nat, convention),
                rows == spec_row_count(n as nat, period as nat, convention),
                out.len() == t,
                k == k_after(highs@, lows@, closes@, period as nat, convention, t as nat),
                d == d_after(highs@, lows@, closes@, period as nat, convention, t as nat),
                -REACH <= k <= REACH,
                -REACH <= d <= REACH,
                forall|u: int|
                    0 <= u < t ==> (#[trigger] out@[u])@ == row(
                        highs@,
                        lows@,
                        closes@,
                        period as nat,
                        convention,
                        u,
                    ),
            decreases rows - t,
        {
            let i = first + t;
            match window_start(i, period, convention) {
                Some(start) => {
                    let high = highest_in(highs, start, period);
                    let low = lowest_in(lows, start, period);
                    let raw = rsv(closes[i], low, high);
                    proof {
                        lemma_rsv_reach(closes[i as int], low, high);
                    }
                    k = smooth(k, raw);
                    d = smooth(d, k);
                },
                None => {},
            }
            out.push(KDJ { k, d, j: 3 * k - 2 * d });
            t = t + 1;
        }
        assert(rows_view(out@) =~= Seq::new(
            spec_row_count(n as nat, period as nat, convention),
            |t: int| row(highs@, lows@, closes@, period as nat, convention, t),
        ));
        Ok(out)
    }
}

} // verus!
