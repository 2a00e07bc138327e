//! The estimator: from the totals of a sample to a line count for the whole
//! input.
//!
//! The sample says how many bytes a line takes on average; the input is
//! taken to go on as the sample does. The estimate is the exact quotient
//! `length * newlines / bytes`, rounded to the nearest whole number with
//! halves rounded upward.
//!
//! The estimator is biased: it extrapolates the average line length of the
//! windows that were drawn, and the mean of such estimates is not the true
//! count. It converges: the error shrinks as more or longer windows are
//! read, and a sample that is the whole input gives the exact count.

use crate::error::CountError;
use crate::sample::SampleResult;
use vstd::arithmetic::div_mod::{lemma_fundamental_div_mod, lemma_fundamental_div_mod_converse};
use vstd::prelude::*;

verus! {

/// `numerator / denominator` rounded to the nearest whole number, a half
/// rounded upward.
pub open spec fn rounded_ratio(numerator: nat, denominator: nat) -> nat
    recommends
        denominator > 0,
{
    ((2 * numerator + denominator) / (2 * denominator)) as nat
}

/// The rounded quotient is the quotient rounded down, plus one where the
/// remainder is at least half the denominator.
pub proof fn lemma_rounded_ratio_by_remainder(numerator: nat, denominator: nat)
    requires
        denominator > 0,
    ensures
        rounded_ratio(numerator, denominator) == numerator / denominator + if 2 * (numerator
            % denominator) >= denominator {
            1nat
        } else {
            0nat
        },
{
    let n = numerator as int;
    let d = denominator as int;
    let q = n / d;
    let r = n % d;
    lemma_fundamental_div_mod(n, d);
    assert(n == d * q + r);
    assert(0 <= r < d);
    assert(0 <= q) by (nonlinear_arith)
        requires
            n == d * q + r,
            0 <= r < d,
            0 <= n,
    ;
    if 2 * r >= d {
        assert(2 * n + d == (q + 1) * (2 * d) + (2 * r - d)) by (nonlinear_arith)
            requires
                n == d * q + r,
        ;
        lemma_fundamental_div_mod_converse(2 * n + d, 2 * d, q + 1, 2 * r - d);
    } else {
        assert(2 * n + d == q * (2 * d) + (2 * r + d)) by (nonlinear_arith)
            requires
                n == d * q + r,
        ;
        lemma_fundamental_div_mod_converse(2 * n + d, 2 * d, q, 2 * r + d);
    }
}

/// No whole number is nearer to the exact quotient than the rounded one: the
/// two differ by half at most, and by exactly half only where the rounded one
/// is the larger.
pub proof fn lemma_rounded_ratio_nearest(numerator: nat, denominator: nat)
    requires
        denominator > 0,
    ensures
        2 * rounded_ratio(numerator, denominator) * denominator - denominator <= 2 * numerator,
        2 * numerator < 2 * rounded_ratio(numerator, denominator) * denominator + denominator,
{
    let n = numerator as int;
    let d = denominator as int;
    let q = (2 * n + d) / (2 * d);
    let r = (2 * n + d) % (2 * d);
    lemma_fundamental_div_mod(2 * n + d, 2 * d);
    assert(0 <= q) by (nonlinear_arith)
        requires
            2 * n + d == (2 * d) * q + r,
            0 <= r < 2 * d,
            0 <= n,
            0 < d,
    ;
    assert((2 * d) * q == 2 * q * d) by (nonlinear_arith);
}

/// A quotient of at most `bound` rounds to at most `bound`.
pub proof fn lemma_rounded_ratio_bounded(numerator: nat, denominator: nat, bound: nat)
    requires
        denominator > 0,
        numerator <= bound * denominator,
    ensures
        rounded_ratio(numerator, denominator) <= bound,
{
    lemma_rounded_ratio_nearest(numerator, denominator);
    let q = rounded_ratio(numerator, denominator) as int;
    let d = denominator as int;
    let b = bound as int;
    assert(q <= b) by (nonlinear_arith)
        requires
            2 * q * d - d <= 2 * (b * d),
            d > 0,
    ;
}

/// A whole quotient is its own rounding.
pub proof fn lemma_rounded_ratio_of_multiple(quotient: nat, denominator: nat)
    requires
        denominator > 0,
    ensures
        rounded_ratio(quotient * denominator, denominator) == quotient,
{
    let k = quotient as int;
    let d = denominator as int;
    assert(2 * (k * d) + d == k * (2 * d) + d) by (nonlinear_arith);
    lemma_fundamental_div_mod_converse(2 * (k * d) + d, 2 * d, k, d);
}

/// The line count that a sample of `bytes` bytes with `newlines` newlines
/// gives for an input of `length` bytes; none where the sample holds no
/// newline.
pub open spec fn estimated(length: nat, bytes: nat, newlines: nat) -> Result<nat, CountError> {
    if newlines == 0 {
        Err(CountError::EstimationDegenerate)
    } else {
        Ok(rounded_ratio(length * newlines, bytes))
    }
}

/// Whether `r` is the result `expected`, which fits in a `u64`.
pub open spec fn agrees(r: Result<u64, CountError>, expected: Result<nat, CountError>) -> bool {
    match expected {
        Ok(lines) => lines <= u64::MAX && r == Ok::<u64, CountError>(lines as u64),
        Err(e) => r == Err::<u64, CountError>(e),
    }
}

/// A sample that is the whole input, with a newline in it, gives the exact
/// count.
pub proof fn lemma_estimate_of_whole_input(length: nat, newlines: nat)
    requires
        0 < newlines <= length,
    ensures
        estimated(length, length, newlines) == Ok::<nat, CountError>(newlines),
{
    lemma_rounded_ratio_of_multiple(newlines, length);
    assert(length * newlines == newlines * length) by (nonlinear_arith);
}

/// An estimate never exceeds the length of the input: there are no more
/// lines than bytes.
pub proof fn lemma_estimate_bounded(length: nat, bytes: nat, newlines: nat)
    requires
        0 < newlines <= bytes,
    ensures
        estimated(length, bytes, newlines) matches Ok(lines) && lines <= length,
{
    assert(length * newlines <= length * bytes) by (nonlinear_arith)
        requires
            newlines <= bytes,
    ;
    lemma_rounded_ratio_bounded(length * newlines, bytes, length);
}

/// Extrapolates the line count of an input of `length` bytes from the totals
/// of a sample of it.
///
/// A sample without a newline gives no estimate. Any other gives
/// `length * newlines / bytes`, rounded to the nearest whole number, which
/// never exceeds `length`.
pub fn estimate(sample: &SampleResult, length: u64) -> (r: Result<u64, CountError>)
    ensures
        agrees(r, estimated(length as nat, sample.bytes(), sample.newlines())),
        r matches Ok(lines) ==> lines <= length,
{
    let newlines = sample.total_newlines();
    let bytes = sample.total_bytes_read();
    if newlines == 0 {
        return Err(CountError::EstimationDegenerate);
    }
    proof {
        lemma_rounded_ratio_by_remainder((length * newlines) as nat, bytes as nat);
        lemma_estimate_bounded(length as nat, bytes as nat, newlines as nat);
        assert(length * newlines <= u64::MAX * u64::MAX) by (nonlinear_arith)
            requires
                0 <= length <= u64::MAX,
                0 <= newlines <= u64::MAX,
        ;
    }
    let numerator: u128 = (length as u128) * (newlines as u128);
    let denominator: u128 = bytes as u128;
    let whole: u128 = numerator / denominator;
    let rest: u128 = numerator % denominator;
    let lines: u128 = if 2 * rest >= denominator {
        whole + 1
    } else {
        whole
    };
    Ok(lines as u64)
}

} // verus!
