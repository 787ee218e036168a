//! Division that rounds to the nearest integer.

use vstd::prelude::*;

verus! {

/// The integer nearest to `n / d`, an exact half going up: the quotient is
/// taken after half the divisor has been added to the dividend.
pub open spec fn round_div(n: int, d: int) -> int {
    (n + d / 2) / d
}

/// `round_div(n, d)` lies within one half of the exact quotient `n / d`.
pub proof fn lemma_round_div_is_nearest(n: int, d: int)
    requires
        d > 0,
    ensures
        2 * d * round_div(n, d) - d <= 2 * n < 2 * d * round_div(n, d) + d,
{
    let half = d / 2;
    let q = round_div(n, d);
    assert(d * q <= n + half < d * q + d) by (nonlinear_arith)
        requires
            d > 0,
            q == (n + half) / d,
    ;
    assert(2 * d * q == 2 * (d * q)) by (nonlinear_arith);
    if d % 2 == 1 {
        // an odd bound is never met by an even number
        assert((2 * (d * q) + d) % 2 == 1) by (nonlinear_arith)
            requires
                d % 2 == 1,
        ;
    }
}

/// An integer within one half of `n / d`, the upper half excluded, is `round_div(n, d)`.
pub proof fn lemma_round_div_unique(n: int, d: int, q: int)
    requires
        d > 0,
        2 * d * q - d <= 2 * n < 2 * d * q + d,
    ensures
        q == round_div(n, d),
{
    lemma_round_div_is_nearest(n, d);
    let q0 = round_div(n, d);
    assert(q == q0) by (nonlinear_arith)
        requires
            d > 0,
            2 * d * q - d <= 2 * n < 2 * d * q + d,
            2 * d * q0 - d <= 2 * n < 2 * d * q0 + d,
    ;
}

/// A rounded quotient of natural numbers is no larger than the dividend.
pub proof fn lemma_round_div_bounds(n: int, d: int)
    requires
        n >= 0,
        d > 0,
    ensures
        0 <= round_div(n, d) <= n,
{
    lemma_round_div_is_nearest(n, d);
    let q = round_div(n, d);
    assert(0 <= q <= n) by (nonlinear_arith)
        requires
            n >= 0,
            d > 0,
            2 * d * q - d <= 2 * n < 2 * d * q + d,
    ;
}

/// Rounded quotients grow with the dividend.
pub proof fn lemma_round_div_monotonic(n1: int, n2: int, d: int)
    requires
        n1 <= n2,
        d > 0,
    ensures
        round_div(n1, d) <= round_div(n2, d),
{
    lemma_round_div_is_nearest(n1, d);
    lemma_round_div_is_nearest(n2, d);
    let q1 = round_div(n1, d);
    let q2 = round_div(n2, d);
    assert(q1 <= q2) by (nonlinear_arith)
        requires
            n1 <= n2,
            d > 0,
            2 * d * q1 - d <= 2 * n1 < 2 * d * q1 + d,
            2 * d * q2 - d <= 2 * n2 < 2 * d * q2 + d,
    ;
}

/// A whole multiple of the divisor is divided exactly.
pub proof fn lemma_round_div_exact(q: int, d: int)
    requires
        d > 0,
    ensures
        round_div(q * d, d) == q,
{
    assert(2 * d * q - d <= 2 * (q * d) < 2 * d * q + d) by (nonlinear_arith)
        requires
            d > 0,
    ;
    lemma_round_div_unique(q * d, d, q);
}

/// Divides `n` by `d` and rounds to the nearest integer, an exact half going up.
pub fn rounded_quotient(n: u32, d: u32) -> (q: u32)
    requires
        d > 0,
    ensures
        q == round_div(n as int, d as int),
        q <= n,
{
    proof {
        lemma_round_div_bounds(n as int, d as int);
    }
    let wide: u64 = (n as u64 + (d / 2) as u64) / (d as u64);
    wide as u32
}

} // verus!
