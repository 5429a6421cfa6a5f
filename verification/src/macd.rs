//! The moving-average convergence/divergence indicator.
//!
//! The MACD line is the difference of a short and a long exponential moving
//! average (EMA) of the closing prices. The signal line is an EMA of the
//! MACD line, and the histogram is the MACD line minus the signal line.
//!
//! An EMA starts at the first value of its input and then moves towards
//! each further value by the fraction `2 / (period + 1)` of the distance.
//!
//! Prices are `i64` in the caller's unit. The indicator's values are
//! fixed-point with six decimal digits in that unit, so `1_000_000` is one
//! unit of price.

use crate::error::IndicatorError;
use crate::fixed::div_floor;
use crate::fixed::floor_div;
use crate::fixed::lemma_floor_div_between;
use crate::fixed::lemma_floor_div_brackets;
use crate::fixed::SCALE;
use vstd::prelude::*;

verus! {

/// No scaled price exceeds this magnitude.
pub(crate) const PRICE_REACH: i128 = 9_223_372_036_854_775_808_000_000;

/// The largest magnitude of a value that [`MACD::ema`] takes.
pub(crate) const EMA_LIMIT: i128 = 0x1000_0000_0000_0000_0000_0000_0000_0000;

/// One row of the indicator: the MACD line, the signal line and the
/// histogram at one bar.
#[derive(Clone, Copy, Debug, PartialEq, Eq)]
pub struct MACD {
    pub macd: i128,
    pub signal: i128,
    pub histogram: i128,
}

/// The mathematical content of a [`MACD`] row.
pub struct MacdValue {
    pub macd: int,
    pub signal: int,
    pub histogram: int,
}

impl View for MACD {
    type V = MacdValue;

    open spec fn view(&self) -> MacdValue {
        MacdValue {
            macd: self.macd as int,
            signal: self.signal as int,
            histogram: self.histogram as int,
        }
    }
}

/// The rows of a vector, each as its mathematical content.
pub open spec fn rows_view(rows: Seq<MACD>) -> Seq<MacdValue> {
    Seq::new(rows.len(), |j: int| rows[j]@)
}

/// A result with its rows replaced by their mathematical content.
pub open spec fn outcome_view(r: Result<Vec<MACD>, IndicatorError>) -> Result<
    Seq<MacdValue>,
    IndicatorError,
> {
    match r {
        Ok(rows) => Ok(rows_view(rows@)),
        Err(e) => Err(e),
    }
}

/// Machine integers as mathematical ones.
pub open spec fn ints(xs: Seq<i128>) -> Seq<int> {
    Seq::new(xs.len(), |i: int| xs[i] as int)
}

/// Every period is at least one bar.
pub open spec fn valid_periods(short_period: nat, long_period: nat, signal_period: nat) -> bool {
    short_period >= 1 && long_period >= 1 && signal_period >= 1
}

/// The closing prices in fixed point.
pub open spec fn scaled(closes: Seq<i64>) -> Seq<int> {
    Seq::new(closes.len(), |i: int| closes[i] * SCALE)
}

/// One step of an EMA: from `prev` towards `x` by `2 / (period + 1)` of
/// their distance, the move rounded down.
pub open spec fn ema_step(prev: int, x: int, period: nat) -> int {
    prev + floor_div(2 * (x - prev), period as int + 1)
}

/// The EMA of `xs` at index `i`.
pub open spec fn ema_at(xs: Seq<int>, period: nat, i: int) -> int
    decreases i,
{
    if i <= 0 {
        xs[0]
    } else {
        ema_step(ema_at(xs, period, i - 1), xs[i], period)
    }
}

/// The number of rows for `n` closing prices: one for each bar from bar
/// `long_period - 1` on.
pub open spec fn spec_row_count(n: nat, long_period: nat) -> nat {
    if long_period >= 1 && n >= long_period {
        (n - long_period + 1) as nat
    } else {
        0
    }
}

/// The MACD line: for each bar from bar `long_period - 1` on, the short EMA
/// minus the long EMA of the closing prices.
pub open spec fn macd_line(closes: Seq<i64>, short_period: nat, long_period: nat) -> Seq<int> {
    Seq::new(
        spec_row_count(closes.len(), long_period),
        |j: int|
            ema_at(scaled(closes), short_period, j + long_period - 1) - ema_at(
                scaled(closes),
                long_period,
                j + long_period - 1,
            ),
    )
}

/// Row `j` has `signal_period` values of the MACD line behind it.
pub open spec fn spec_signal_ready(j: int, signal_period: nat) -> bool {
    j >= signal_period - 1
}

/// Row `j` of the indicator. Until the signal line is ready it stands at 0.
pub open spec fn row(
    closes: Seq<i64>,
    short_period: nat,
    long_period: nat,
    signal_period: nat,
    j: int,
) -> MacdValue {
    let line = macd_line(closes, short_period, long_period);
    let signal = if spec_signal_ready(j, signal_period) {
        ema_at(line, signal_period, j)
    } else {
        0
    };
    MacdValue { macd: line[j], signal, histogram: line[j] - signal }
}

/// The indicator as a function of its arguments: the error for a zero
/// period, else one row for each bar from bar `long_period - 1` on, which is
/// no row at all for fewer than `long_period` prices.
pub open spec fn macd(
    closes: Seq<i64>,
    short_period: nat,
    long_period: nat,
    signal_period: nat,
) -> Result<Seq<MacdValue>, IndicatorError> {
    if !valid_periods(short_period, long_period, signal_period) {
        Err(IndicatorError::InvalidInput)
    } else {
        Ok(
            Seq::new(
                spec_row_count(closes.len(), long_period),
                |j: int| row(closes, short_period, long_period, signal_period, j),
            ),
        )
    }
}

/// A step of an EMA ends between the previous value and the new one.
pub proof fn lemma_ema_step_between(prev: int, x: int, period: nat, lo: int, hi: int)
    requires
        period >= 1,
        lo <= prev <= hi,
        lo <= x <= hi,
    ensures
        lo <= ema_step(prev, x, period) <= hi,
{
    let a = x - prev;
    let den = period as int + 1;
    let q = floor_div(2 * a, den);
    lemma_floor_div_brackets(2 * a, den);
    lemma_floor_div_between(2 * a, den);
    if a >= 0 {
        assert(q <= a) by (nonlinear_arith)
            requires
                q >= 0,
                den >= 2,
                q * den <= 2 * a,
        ;
    } else if q < 0 {
        assert((q + 1) * den <= 2 * (q + 1)) by (nonlinear_arith)
            requires
                q + 1 <= 0,
                den >= 2,
        ;
    }
}

/// An EMA stays within the range of the values it has seen.
pub proof fn lemma_ema_between(xs: Seq<int>, period: nat, i: int, lo: int, hi: int)
    requires
        period >= 1,
        0 <= i < xs.len(),
        forall|j: int| 0 <= j <= i ==> lo <= #[trigger] xs[j] <= hi,
    ensures
        lo <= ema_at(xs, period, i) <= hi,
    decreases i,
{
    if i > 0 {
        lemma_ema_between(xs, period, i - 1, lo, hi);
        lemma_ema_step_between(ema_at(xs, period, i - 1), xs[i], period, lo, hi);
    }
}

/// Two results that both meet the contract of [`MACD::new`] for the same
/// arguments are the same: both fail, or both succeed with equal rows.
pub proof fn lemma_macd_deterministic(
    closes: Seq<i64>,
    short_period: nat,
    long_period: nat,
    signal_period: nat,
    first: Result<Vec<MACD>, IndicatorError>,
    second: Result<Vec<MACD>, IndicatorError>,
)
    requires
        outcome_view(first) == macd(closes, short_period, long_period, signal_period),
        outcome_view(second) == macd(closes, short_period, long_period, signal_period),
    ensures
        first is Ok <==> second is Ok,
        first is Ok ==> first->Ok_0@ == second->Ok_0@,
        first is Err ==> first->Err_0 == second->Err_0,
{
    if first is Ok {
        let a = first->Ok_0@;
        let b = second->Ok_0@;
        assert(rows_view(a) == rows_view(b));
        assert(a.len() == rows_view(a).len());
        assert(b.len() == rows_view(b).len());
        assert forall|j: int| 0 <= j < a.len() implies a[j] == b[j] by {
            assert(rows_view(a)[j] == rows_view(b)[j]);
        }
        assert(a =~= b);
    }
}

/// The EMA of a series that never changes is that series.
pub proof fn lemma_ema_of_constant(xs: Seq<int>, period: nat, i: int, value: int)
    requires
        period >= 1,
        0 <= i < xs.len(),
        forall|j: int| 0 <= j < xs.len() ==> #[trigger] xs[j] == value,
    ensures
        ema_at(xs, period, i) == value,
{
    lemma_ema_between(xs, period, i, value, value);
}

/// For a closing price that never changes, the MACD line, the signal line
/// and the histogram are zero in every row.
pub proof fn lemma_constant_prices(
    closes: Seq<i64>,
    short_period: nat,
    long_period: nat,
    signal_period: nat,
    price: i64,
)
    requires
        valid_periods(short_period, long_period, signal_period),
        forall|i: int| 0 <= i < closes.len() ==> #[trigger] closes[i] == price,
    ensures
        forall|j: int|
            0 <= j < spec_row_count(closes.len(), long_period) ==> #[trigger] row(
                closes,
                short_period,
                long_period,
                signal_period,
                j,
            ) == (MacdValue { macd: 0, signal: 0, histogram: 0 }),
{
    let prices = scaled(closes);
    let line = macd_line(closes, short_period, long_period);
    assert forall|j: int| 0 <= j < line.len() implies #[trigger] line[j] == 0 by {
        let at = j + long_period - 1;
        lemma_ema_of_constant(prices, short_period, at, price * SCALE);
        lemma_ema_of_constant(prices, long_period, at, price * SCALE);
    }
    assert forall|j: int| 0 <= j < line.len() implies #[trigger] row(
        closes,
        short_period,
        long_period,
        signal_period,
        j,
    ) == (MacdValue { macd: 0, signal: 0, histogram: 0 }) by {
        lemma_ema_of_constant(line, signal_period, j, 0);
    }
}

/// Checks that every period is at least one bar.
pub fn check_periods(short_period: usize, long_period: usize, signal_period: usize) -> (r: Result<
    (),
    IndicatorError,
>)
    ensures
        r is Ok <==> valid_periods(short_period as nat, long_period as nat, signal_period as nat),
        r is Err ==> r == Err::<(), IndicatorError>(IndicatorError::InvalidInput),
{
    if short_period == 0 || long_period == 0 || signal_period == 0 {
        Err(IndicatorError::InvalidInput)
    } else {
        Ok(())
    }
}

/// The number of rows for `n` closing prices.
pub fn row_count(n: usize, long_period: usize) -> (rows: usize)
    ensures
        rows == spec_row_count(n as nat, long_period as nat),
{
    if long_period >= 1 && n >= long_period {
        n - long_period + 1
    } else {
        0
    }
}

/// Whether row `j` has `signal_period` values of the MACD line behind it.
pub fn signal_ready(j: usize, signal_period: usize) -> (ready: bool)
    ensures
        ready == spec_signal_ready(j as int, signal_period as nat),
{
    signal_period == 0 || j >= signal_period - 1
}

impl MACD {
    /// Computes the indicator for a series of closing prices.
    ///
    /// Fails if a period is zero. Otherwise there is one row for each bar
    /// from bar `long_period - 1` on, so fewer than `long_period` prices
    /// give no rows. The signal line stands at 0 in the first
    /// `signal_period - 1` rows.
    pub fn new(
        closes: &[i64],
        short_period: usize,
        long_period: usize,
        signal_period: usize,
    ) -> (r: Result<Vec<MACD>, IndicatorError>)
        ensures
            outcome_view(r) == macd(
                closes@,
                short_period as nat,
                long_period as nat,
                signal_period as nat,
            ),
            r is Err <==> short_period == 0 || long_period == 0 || signal_period == 0,
            r matches Err(e) ==> e == IndicatorError::InvalidInput,
            r matches Ok(rows) ==> rows.len() == if closes.len() >= long_period {
                closes.len() - long_period + 1
            } else {
                0
            },
    {
        if check_periods(short_period, long_period, signal_period).is_err() {
            return Err(IndicatorError::InvalidInput);
        }
        let n = closes.len();
        let rows = row_count(n, long_period);
        let mut out: Vec<MACD> = Vec::with_capacity(rows);
        if rows == 0 {
            assert(rows_view(out@) =~= Seq::new(
                spec_row_count(closes@.len(), long_period as nat),
                |j: int|
                    row(closes@, short_period as nat, long_period as nat, signal_period as nat, j),
            ));
            return Ok(out);
        }
        let ghost prices = scaled(closes@);
        let ghost line = macd_line(closes@, short_period as nat, long_period as nat);

        let mut fixed: Vec<i128> = Vec::with_capacity(n);
        let mut i: usize = 0;
        while i < n
            invariant
                i <= n,
                n == closes.len(),
                fixed.len() == i,
                forall|u: int| 0 <= u < i ==> #[trigger] fixed@[u] == closes@[u] * SCALE,
            decreases n - i,
        {
            fixed.push(closes[i] as i128 * SCALE);
            i = i + 1;
        }
        assert(ints(fixed@) =~= prices);
        let short_ema = Self::ema(fixed.as_slice(), short_period);
        let long_ema = Self::ema(fixed.as_slice(), long_period);

        let mut raw: Vec<i128> = Vec::with_capacity(rows);
        let mut j: usize = 0;
        while j < rows
            invariant
                j <= rows,
                short_period >= 1,
                long_period >= 1,
                n == closes.len(),
                rows == n - long_period + 1,
                prices == scaled(closes@),
                line == macd_line(closes@, short_period as nat, long_period as nat),
                short_ema.len() == n,
                long_ema.len() == n,
                forall|u: int|
                    0 <= u < n ==> #[trigger] short_ema@[u] == ema_at(
                        prices,
                        short_period as nat,
                        u,
                    ),
                forall|u: int|
                    0 <= u < n ==> #[trigger] long_ema@[u] == ema_at(prices, long_period as nat, u),
                raw.len() == j,
                forall|u: int| 0 <= u < j ==> #[trigger] raw@[u] == line[u],
                forall|u: int| 0 <= u < j ==> -2 * PRICE_REACH <= #[trigger] raw@[u] <= 2 * PRICE_REACH,
            decreases rows - j,
        {
            let at = j + (long_period - 1);
            proof {
                lemma_ema_between(
                    prices,
                    short_period as nat,
                    at as int,
                    -PRICE_REACH as int,
                    PRICE_REACH as int,
                );
                lemma_ema_between(
                    prices,
                    long_period as nat,
                    at as int,
                    -PRICE_REACH as int,
                    PRICE_REACH as int,
                );
            }
            raw.push(short_ema[at] - long_ema[at]);
            j = j + 1;
        }
        assert(ints(raw@) =~= line);
        let signal_ema = Self::ema(raw.as_slice(), signal_period);

        let mut j: usize = 0;
        while j < rows
            invariant
                j <= rows,
                signal_period >= 1,
                rows == spec_row_count(closes@.len(), long_period as nat),
                line == macd_line(closes@, short_period as nat, long_period as nat),
                raw.len() == rows,
                signal_ema.len() == rows,
                ints(raw@) == line,
                forall|u: int| 0 <= u < rows ==> -2 * PRICE_REACH <= #[trigger] raw@[u] <= 2 * PRICE_REACH,
                forall|u: int|
                    0 <= u < rows ==> #[trigger] signal_ema@[u] == ema_at(
                        line,
                        signal_period as nat,
                        u,
                    ),
                out.len() == j,
                forall|u: int|
                    0 <= u < j ==> (#[trigger] out@[u])@ == row(
                        closes@,
                        short_period as nat,
                        long_period as nat,
                        signal_period as nat,
                        u,
                    ),
            decreases rows - j,
        {
            let macd = raw[j];
            let signal = if signal_ready(j, signal_period) {
                signal_ema[j]
            } else {
                0
            };
            proof {
                assert(line[j as int] == raw@[j as int]);
                assert forall|u: int| 0 <= u <= j implies -2 * PRICE_REACH <= #[trigger] line[u] <= 2
                    * PRICE_REACH by {
                    assert(line[u] == raw@[u]);
                }
                lemma_ema_between(
                    line,
                    signal_period as nat,
                    j as int,
                    -2 * PRICE_REACH,
                    2 * PRICE_REACH,
                );
            }
            out.push(MACD { macd, signal, histogram: macd - signal });
            j = j + 1;
        }
        assert(rows_view(out@) =~= Seq::new(
            spec_row_count(closes@.len(), long_period as nat),
            |j: int| row(closes@, short_period as nat, long_period as nat, signal_period as nat, j),
        ));
        Ok(out)
    }

    /// The exponential moving average of `values`, one value for each
    /// input value.
    pub(crate) fn ema(values: &[i128], period: usize) -> (out: Vec<i128>)
        requires
            period >= 1,
            forall|i: int| 0 <= i < values.len() ==> -EMA_LIMIT <= #[trigger] values@[i] <= EMA_LIMIT,
        ensures
            out.len() == values.len(),
            forall|i: int|
                0 <= i < out.len() ==> #[trigger] out@[i] == ema_at(ints(values@), period as nat, i),
    {
        let n = values.len();
        let mut out: Vec<i128> = Vec::with_capacity(n);
        if n == 0 {
            return out;
        }
        let ghost xs = ints(values@);
        let den: i128 = period as i128 + 1;
        let mut prev: i128 = values[0];
        out.push(prev);
        let mut i: usize = 1;
        while i < n
            invariant
                1 <= i <= n,
                n == values.len(),
                period >= 1,
                den == period + 1,
                xs == ints(values@),
                forall|u: int| 0 <= u < n ==> -EMA_LIMIT <= #[trigger] values@[u] <= EMA_LIMIT,
                out.len() == i,
                prev == ema_at(xs, period as nat, i - 1),
                forall|u: int| 0 <= u < i ==> #[trigger] out@[u] == ema_at(xs, period as nat, u),
            decreases n - i,
        {
            let x: i128 = values[i];
            proof {
                assert forall|u: int| 0 <= u <= i implies -EMA_LIMIT <= #[trigger] xs[u]
                    <= EMA_LIMIT by {
                    assert(xs[u] == values@[u]);
                }
                lemma_ema_between(
                    xs,
                    period as nat,
                    i - 1,
                    -EMA_LIMIT as int,
                    EMA_LIMIT as int,
                );
                lemma_ema_between(xs, period as nat, i as int, -EMA_LIMIT as int, EMA_LIMIT as int);
            }
            prev = prev + div_floor(2 * (x - prev), den);
            out.push(prev);
            i = i + 1;
        }
        out
    }
}

} // verus!
