//! Per-band dynamics: a thresholded population standard deviation of the
//! per-frame power series, in millidecibels.
//!
//! For a series `x_1 .. x_n` the population variance is
//! `(n * sum(x^2) - sum(x)^2) / n^2`, so the standard deviation is
//! `sqrt(n * sum(x^2) - sum(x)^2) / n`; everything here is computed exactly
//! on that integer form, rounding the square root and the final division
//! down.

use vstd::arithmetic::div_mod::{lemma_fundamental_div_mod, lemma_mod_bound};
use vstd::arithmetic::mul::lemma_mul_inequality;
use vstd::prelude::*;

use crate::arith::{isqrt, isqrt_u128, lemma_isqrt_bounds};

verus! {

/// Frames more than this far below a band's loudest frame are treated as
/// inaudible and excluded from the dynamics statistic (60 dB).
pub const DYNAMICS_THRESHOLD_MILLI_DB: i64 = 60_000;

/// Largest supported series length.
pub const MAX_DB_SAMPLES: usize = 100_000_000;

/// Largest supported magnitude of a decibel value, in millidecibels.
pub const MAX_ABS_MILLI_DB: i64 = 1_000_000_000;

/// Sum of a decibel series.
pub open spec fn sum_db(s: Seq<i64>) -> int
    decreases s.len(),
{
    if s.len() == 0 {
        0
    } else {
        sum_db(s.drop_last()) + s.last()
    }
}

/// Sum of the squares of a decibel series.
pub open spec fn sum_db_sq(s: Seq<i64>) -> int
    decreases s.len(),
{
    if s.len() == 0 {
        0
    } else {
        sum_db_sq(s.drop_last()) + s.last() * s.last()
    }
}

/// Largest value of a non-empty series.
pub open spec fn max_db(s: Seq<i64>) -> int
    recommends
        s.len() > 0,
    decreases s.len(),
{
    if s.len() <= 1 {
        s[0] as int
    } else {
        let m = max_db(s.drop_last());
        if s.last() > m {
            s.last() as int
        } else {
            m
        }
    }
}

/// The subsequence of values at or above a threshold, in order.
pub open spec fn filter_ge(s: Seq<i64>, t: int) -> Seq<i64>
    decreases s.len(),
{
    if s.len() == 0 {
        Seq::empty()
    } else {
        let rest = filter_ge(s.drop_last(), t);
        if s.last() >= t {
            rest.push(s.last())
        } else {
            rest
        }
    }
}

/// `n^2` times the population variance of a series: always non-negative.
pub open spec fn variance_num(s: Seq<i64>) -> int {
    s.len() * sum_db_sq(s) - sum_db(s) * sum_db(s)
}

/// Population standard deviation of a series, in millidecibels, rounded
/// down; zero for an empty series.
pub open spec fn spec_std_dev_milli(s: Seq<i64>) -> int {
    if s.len() == 0 {
        0
    } else {
        isqrt(variance_num(s) as nat) as int / s.len() as int
    }
}

/// The dynamics value of a non-empty series: the standard deviation of the
/// values within `DYNAMICS_THRESHOLD_MILLI_DB` of the series' maximum.
pub open spec fn spec_dynamics_value(s: Seq<i64>) -> int
    recommends
        s.len() > 0,
{
    spec_std_dev_milli(filter_ge(s, max_db(s) - DYNAMICS_THRESHOLD_MILLI_DB))
}

/// For any centre `x`, `sum((x - x_i)^2)` expanded is non-negative.
proof fn lemma_sq_dev_nonneg(s: Seq<i64>, x: int)
    ensures
        s.len() * (x * x) - 2 * x * sum_db(s) + sum_db_sq(s) >= 0,
    decreases s.len(),
{
    if s.len() == 0 {
        assert(s.len() * (x * x) == 0) by (nonlinear_arith)
            requires
                s.len() == 0,
        ;
    } else {
        let rest = s.drop_last();
        let y = s.last() as int;
        lemma_sq_dev_nonneg(rest, x);
        assert(s.len() * (x * x) - 2 * x * sum_db(s) + sum_db_sq(s) >= 0) by (nonlinear_arith)
            requires
                rest.len() * (x * x) - 2 * x * sum_db(rest) + sum_db_sq(rest) >= 0,
                s.len() == rest.len() + 1,
                sum_db(s) == sum_db(rest) + y,
                sum_db_sq(s) == sum_db_sq(rest) + y * y,
        ;
    }
}

/// The variance numerator `n * sum(x^2) - sum(x)^2` is never negative.
pub proof fn lemma_variance_num_nonneg(s: Seq<i64>)
    ensures
        variance_num(s) >= 0,
    decreases s.len(),
{
    if s.len() == 0 {
        assert(variance_num(s) == 0) by (nonlinear_arith)
            requires
                s.len() == 0,
                sum_db(s) == 0,
                sum_db_sq(s) == 0,
        ;
    } else {
        let rest = s.drop_last();
        let y = s.last() as int;
        lemma_variance_num_nonneg(rest);
        lemma_sq_dev_nonneg(rest, y);
        assert(variance_num(s) >= 0) by (nonlinear_arith)
            requires
                variance_num(rest) >= 0,
                rest.len() * (y * y) - 2 * y * sum_db(rest) + sum_db_sq(rest) >= 0,
                variance_num(rest) == rest.len() * sum_db_sq(rest) - sum_db(rest) * sum_db(rest),
                variance_num(s) == s.len() * sum_db_sq(s) - sum_db(s) * sum_db(s),
                s.len() == rest.len() + 1,
                sum_db(s) == sum_db(rest) + y,
                sum_db_sq(s) == sum_db_sq(rest) + y * y,
        ;
    }
}

/// The maximum of a series within `[-cap, cap]` is itself within bounds.
proof fn lemma_max_db_in_range(s: Seq<i64>, cap: int)
    requires
        s.len() > 0,
        forall|i: int| 0 <= i < s.len() ==> -cap <= #[trigger] s[i] <= cap,
    ensures
        -cap <= max_db(s) <= cap,
        forall|i: int| 0 <= i < s.len() ==> #[trigger] s[i] <= max_db(s),
    decreases s.len(),
{
    if s.len() > 1 {
        lemma_max_db_in_range(s.drop_last(), cap);
        assert forall|i: int| 0 <= i < s.len() implies #[trigger] s[i] <= max_db(s) by {
            if i < s.len() - 1 {
                assert(s[i] == s.drop_last()[i]);
            }
        }
    }
}

/// Filtering at or below the maximum keeps at least the maximum itself.
proof fn lemma_filter_ge_keeps_max(s: Seq<i64>, t: int)
    requires
        s.len() > 0,
        t <= max_db(s),
    ensures
        filter_ge(s, t).len() > 0,
    decreases s.len(),
{
    if s.len() > 1 && s.last() < t {
        lemma_filter_ge_keeps_max(s.drop_last(), t);
    }
}

/// Filtering keeps values within the original bounds and never grows the
/// series.
proof fn lemma_filter_ge_bounds(s: Seq<i64>, t: int, cap: int)
    requires
        forall|i: int| 0 <= i < s.len() ==> -cap <= #[trigger] s[i] <= cap,
    ensures
        filter_ge(s, t).len() <= s.len(),
        forall|j: int|
            0 <= j < filter_ge(s, t).len() ==> -cap <= #[trigger] filter_ge(s, t)[j] <= cap,
    decreases s.len(),
{
    if s.len() > 0 {
        lemma_filter_ge_bounds(s.drop_last(), t, cap);
    }
}

/// Filtering below every value keeps the series unchanged.
pub proof fn lemma_filter_ge_all(s: Seq<i64>, t: int)
    requires
        forall|i: int| 0 <= i < s.len() ==> #[trigger] s[i] >= t,
    ensures
        filter_ge(s, t) =~= s,
    decreases s.len(),
{
    if s.len() > 0 {
        lemma_filter_ge_all(s.drop_last(), t);
    }
}

/// Sums of a constant series.
proof fn lemma_sums_constant(s: Seq<i64>, c: int)
    requires
        forall|i: int| 0 <= i < s.len() ==> #[trigger] s[i] == c,
    ensures
        sum_db(s) == s.len() * c,
        sum_db_sq(s) == s.len() * (c * c),
    decreases s.len(),
{
    if s.len() == 0 {
        assert(s.len() * c == 0 && s.len() * (c * c) == 0) by (nonlinear_arith)
            requires
                s.len() == 0,
        ;
    } else {
        lemma_sums_constant(s.drop_last(), c);
        assert(s.len() * c == s.drop_last().len() * c + c && s.len() * (c * c) == s.drop_last().len()
            * (c * c) + c * c) by (nonlinear_arith)
            requires
                s.len() == s.drop_last().len() + 1,
        ;
    }
}

/// A series whose surviving values are all equal has zero dynamics: a
/// constant-power band scores no variability at all.
pub proof fn lemma_dynamics_constant(s: Seq<i64>)
    requires
        s.len() > 0,
        forall|i: int| 0 <= i < s.len() ==> #[trigger] s[i] == s[0],
    ensures
        spec_dynamics_value(s) == 0,
{
    let c = s[0] as int;
    lemma_max_db_in_range(s, if c >= 0 { c } else { -c });
    assert(max_db(s) == c) by {
        assert(s[0] <= max_db(s));
        lemma_max_is_element(s);
    }
    let t = c - DYNAMICS_THRESHOLD_MILLI_DB;
    lemma_filter_ge_all(s, t);
    let f = filter_ge(s, t);
    lemma_sums_constant(f, c);
    assert(variance_num(f) == 0) by (nonlinear_arith)
        requires
            sum_db(f) == f.len() * c,
            sum_db_sq(f) == f.len() * (c * c),
            variance_num(f) == f.len() * sum_db_sq(f) - sum_db(f) * sum_db(f),
    ;
    assert(isqrt(0) == 0);
    assert(0int / f.len() as int == 0) by (nonlinear_arith)
        requires
            f.len() > 0,
    ;
}

/// The maximum of a non-empty series is one of its values.
proof fn lemma_max_is_element(s: Seq<i64>)
    requires
        s.len() > 0,
    ensures
        exists|i: int| 0 <= i < s.len() && s[i] == max_db(s),
    decreases s.len(),
{
    if s.len() == 1 {
        assert(s[0] == max_db(s));
    } else if s.last() <= max_db(s.drop_last()) {
        lemma_max_is_element(s.drop_last());
        let i = choose|i: int| 0 <= i < s.drop_last().len() && s.drop_last()[i] == max_db(
            s.drop_last(),
        );
        assert(s[i] == max_db(s));
    } else {
        assert(s[s.len() - 1] == max_db(s));
    }
}

/// Population standard deviation of a millidecibel series, rounded down;
/// an empty series scores zero.
#[verifier::loop_isolation(false)]
pub fn std_dev_milli(values: &Vec<i64>) -> (r: u64)
    requires
        values@.len() <= MAX_DB_SAMPLES,
        forall|i: int|
            0 <= i < values@.len() ==> -MAX_ABS_MILLI_DB <= #[trigger] values@[i]
                <= MAX_ABS_MILLI_DB,
    ensures
        r == spec_std_dev_milli(values@),
{
    let n = values.len();
    if n == 0 {
        return 0;
    }
    let mut sum: i128 = 0;
    let mut sum_sq: i128 = 0;
    let mut i: usize = 0;
    while i < n
        invariant
            i <= n,
            sum == sum_db(values@.subrange(0, i as int)),
            sum_sq == sum_db_sq(values@.subrange(0, i as int)),
            -(i as int) * (MAX_ABS_MILLI_DB as int) <= sum <= (i as int) * (MAX_ABS_MILLI_DB
                as int),
            0 <= sum_sq <= (i as int) * (MAX_ABS_MILLI_DB as int * MAX_ABS_MILLI_DB as int),
        decreases n - i,
    {
        let x = values[i];
        proof {
            assert(values@.subrange(0, i + 1).drop_last() =~= values@.subrange(0, i as int));
            assert(x * x <= MAX_ABS_MILLI_DB as int * MAX_ABS_MILLI_DB as int && x * x >= 0)
                by (nonlinear_arith)
                requires
                    -MAX_ABS_MILLI_DB <= x <= MAX_ABS_MILLI_DB,
            ;
        }
        sum = sum + (x as i128);
        sum_sq = sum_sq + (x as i128) * (x as i128);
        i = i + 1;
    }
    proof {
        assert(values@.subrange(0, n as int) =~= values@);
    }
    proof {
        assert((n as int) * sum_sq <= (MAX_DB_SAMPLES as int) * ((MAX_DB_SAMPLES as int) * (
        MAX_ABS_MILLI_DB as int * MAX_ABS_MILLI_DB as int)) && (n as int) * sum_sq >= 0)
            by (nonlinear_arith)
            requires
                0 <= n <= MAX_DB_SAMPLES,
                0 <= sum_sq <= (n as int) * (MAX_ABS_MILLI_DB as int * MAX_ABS_MILLI_DB as int),
                MAX_DB_SAMPLES == 100_000_000,
                MAX_ABS_MILLI_DB == 1_000_000_000,
        ;
        assert(sum * sum <= ((MAX_DB_SAMPLES as int) * (MAX_ABS_MILLI_DB as int)) * ((
        MAX_DB_SAMPLES as int) * (MAX_ABS_MILLI_DB as int)) && sum * sum >= 0) by (nonlinear_arith)
            requires
                -(n as int) * (MAX_ABS_MILLI_DB as int) <= sum <= (n as int) * (MAX_ABS_MILLI_DB
                    as int),
                0 <= n <= MAX_DB_SAMPLES,
                MAX_DB_SAMPLES == 100_000_000,
                MAX_ABS_MILLI_DB == 1_000_000_000,
        ;
        lemma_variance_num_nonneg(values@);
    }
    let num: i128 = (n as i128) * sum_sq - sum * sum;
    let root: u128 = isqrt_u128(num as u128);
    proof {
        lemma_isqrt_bounds(num as nat);
        assert(root < 0x1_0000_0000_0000_0000) by (nonlinear_arith)
            requires
                root * root <= num,
                num < 0x1_0000_0000_0000_0000_0000_0000_0000_0000,
                root >= 0,
                num <= 0x4000_0000_0000_0000_0000_0000_0000_0000,
        ;
        lemma_fundamental_div_mod(root as int, n as int);
        lemma_mod_bound(root as int, n as int);
        lemma_mul_inequality(1, n as int, (root as int) / (n as int));
    }
    let d: u128 = root / (n as u128);
    d as u64
}

/// The dynamics score of one band's millidecibel series: `None` exactly for
/// an empty series (the "not significant" sentinel), otherwise the
/// population standard deviation of the frames within
/// `DYNAMICS_THRESHOLD_MILLI_DB` of the series' loudest frame.
#[verifier::loop_isolation(false)]
pub fn band_dynamics(series: &Vec<i64>) -> (r: Option<u64>)
    requires
        series@.len() <= MAX_DB_SAMPLES,
        forall|i: int|
            0 <= i < series@.len() ==> -MAX_ABS_MILLI_DB <= #[trigger] series@[i]
                <= MAX_ABS_MILLI_DB,
    ensures
        match r {
            None => series@.len() == 0,
            Some(d) => series@.len() > 0 && d == spec_dynamics_value(series@),
        },
{
    let n = series.len();
    if n == 0 {
        return None;
    }
    let mut m: i64 = series[0];
    let mut i: usize = 1;
    while i < n
        invariant
            1 <= i <= n,
            m == max_db(series@.subrange(0, i as int)),
        decreases n - i,
    {
        proof {
            assert(series@.subrange(0, i + 1).drop_last() =~= series@.subrange(0, i as int));
        }
        if series[i] > m {
            m = series[i];
        }
        i = i + 1;
    }
    proof {
        assert(series@.subrange(0, n as int) =~= series@);
        lemma_max_db_in_range(series@, MAX_ABS_MILLI_DB as int);
    }
    let threshold: i64 = m - DYNAMICS_THRESHOLD_MILLI_DB;
    let mut filtered: Vec<i64> = Vec::new();
    let mut i: usize = 0;
    while i < n
        invariant
            i <= n,
            filtered@ =~= filter_ge(series@.subrange(0, i as int), threshold as int),
        decreases n - i,
    {
        proof {
            assert(series@.subrange(0, i + 1).drop_last() =~= series@.subrange(0, i as int));
        }
        if series[i] >= threshold {
            filtered.push(series[i]);
        }
        i = i + 1;
    }
    proof {
        assert(series@.subrange(0, n as int) =~= series@);
        lemma_filter_ge_keeps_max(series@, threshold as int);
        lemma_filter_ge_bounds(series@, threshold as int, MAX_ABS_MILLI_DB as int);
    }
    let sd = std_dev_milli(&filtered);
    Some(sd)
}

} // verus!
