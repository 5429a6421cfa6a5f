//! Fixed-point arithmetic with six decimal digits.
//!
//! A fixed-point quantity is an integer count of millionths. Quotients are
//! rounded towards negative infinity, so that every operation has one exact
//! integer result.

use vstd::arithmetic::div_mod::lemma_fundamental_div_mod;
use vstd::arithmetic::div_mod::lemma_fundamental_div_mod_converse;
use vstd::prelude::*;

verus! {

/// The fixed-point representation of `1`.
pub const SCALE: i128 = 1_000_000;

/// The exact quotient `n / d` rounded towards negative infinity, for any
/// non-zero divisor.
pub open spec fn floor_div(n: int, d: int) -> int {
    if d > 0 {
        n / d
    } else {
        (-n) / (-d)
    }
}

/// For a positive divisor the rounded quotient is the one integer `q` with
/// `q * d <= n < (q + 1) * d`.
pub proof fn lemma_floor_div_brackets(n: int, d: int)
    requires
        d > 0,
    ensures
        floor_div(n, d) * d <= n < (floor_div(n, d) + 1) * d,
{
    lemma_fundamental_div_mod(n, d);
    let q = n / d;
    assert(d * q == q * d) by (nonlinear_arith);
    assert((q + 1) * d == q * d + d) by (nonlinear_arith);
}

/// A quotient by a positive divisor lies between zero and the dividend.
pub proof fn lemma_floor_div_between(n: int, d: int)
    requires
        d > 0,
    ensures
        n >= 0 ==> 0 <= floor_div(n, d) <= n,
        n <= 0 ==> n <= floor_div(n, d) <= 0,
{
    lemma_floor_div_brackets(n, d);
    let q = floor_div(n, d);
    if n >= 0 {
        assert(q >= 0) by (nonlinear_arith)
            requires
                d > 0,
                n >= 0,
                n < (q + 1) * d,
        ;
        assert(q <= n) by (nonlinear_arith)
            requires
                d > 0,
                q >= 0,
                q * d <= n,
        ;
    }
    if n <= 0 {
        assert(q <= 0) by (nonlinear_arith)
            requires
                d > 0,
                n <= 0,
                q * d <= n,
        ;
        if q < 0 {
            assert((q + 1) * d <= q + 1) by (nonlinear_arith)
                requires
                    d >= 1,
                    q + 1 <= 0,
            ;
        }
    }
}

/// Divides and rounds towards negative infinity.
pub fn div_floor(n: i128, d: i128) -> (q: i128)
    requires
        d > 0,
    ensures
        q == floor_div(n as int, d as int),
{
    if n >= 0 {
        n / d
    } else {
        let m: i128 = -(n + 1);
        let below: i128 = m / d;
        proof {
            let mi = m as int;
            let di = d as int;
            lemma_fundamental_div_mod(mi, di);
            let r = di - 1 - mi % di;
            let q = -(mi / di) - 1;
            assert(n as int == q * di + r) by (nonlinear_arith)
                requires
                    n as int == -mi - 1,
                    mi == di * (mi / di) + mi % di,
                    r == di - 1 - mi % di,
                    q == -(mi / di) - 1,
            ;
            lemma_fundamental_div_mod_converse(n as int, di, q, r);
        }
        -below - 1
    }
}

} // verus!
