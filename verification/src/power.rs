//! Per-frame band power accumulation and percentage normalisation.
//!
//! Spectral power enters as fixed-point units per bin (`u64`), K-weights as
//! fixed-point factors (`u64`), and every sum below is exact integer
//! arithmetic over those units.

use vstd::arithmetic::div_mod::{
    lemma_div_multiples_vanish, lemma_div_multiples_vanish_fancy, lemma_fundamental_div_mod,
    lemma_mod_bound,
};
use vstd::arithmetic::mul::{
    lemma_mul_is_distributive_add, lemma_mul_is_distributive_add_other_way, lemma_mul_nonnegative,
    lemma_mul_upper_bound,
};
use vstd::prelude::*;

use crate::arith::lemma_scaled_div_le;

verus! {

/// Largest supported spectrum length (bins per frame).
pub const MAX_SPECTRUM_LEN: usize = 65536;

/// Largest supported per-bin power, in fixed-point units.
pub const MAX_BIN_UNITS: u64 = 0xFF_FFFF_FFFF_FFFF;

/// Largest supported K-weight factor, in fixed-point units.
pub const MAX_K_WEIGHT: u64 = 0x3_FFFF_FFFF;

/// Fixed-point scale of the percentage values: units per percentage point.
pub const PCT_SCALE: u64 = 1_000_000;

/// Sum of `s[lo..hi]`.
pub open spec fn sum_range(s: Seq<u64>, lo: int, hi: int) -> int
    decreases hi - lo,
{
    if lo >= hi {
        0
    } else {
        sum_range(s, lo, hi - 1) + s[hi - 1]
    }
}

/// Sum of `s[i] * w[i]` over `lo <= i < hi`.
pub open spec fn sum_weighted(s: Seq<u64>, w: Seq<u64>, lo: int, hi: int) -> int
    decreases hi - lo,
{
    if lo >= hi {
        0
    } else {
        sum_weighted(s, w, lo, hi - 1) + s[hi - 1] * w[hi - 1]
    }
}

/// The power a band collects from one frame: its bins' powers summed,
/// weighted when a weight table is in use.
pub open spec fn spec_band_power(s: Seq<u64>, w: Option<Seq<u64>>, lo: int, hi: int) -> int {
    match w {
        Some(w) => sum_weighted(s, w, lo, hi),
        None => sum_range(s, lo, hi),
    }
}

/// Sum of a sequence of accumulated powers.
pub open spec fn sum_u128(s: Seq<u128>) -> int
    decreases s.len(),
{
    if s.len() == 0 {
        0
    } else {
        sum_u128(s.drop_last()) + s.last()
    }
}

/// Sum of a sequence of percentage values.
pub open spec fn sum_u64(s: Seq<u64>) -> int
    decreases s.len(),
{
    if s.len() == 0 {
        0
    } else {
        sum_u64(s.drop_last()) + s.last()
    }
}

pub proof fn lemma_sum_range_bounds(s: Seq<u64>, lo: int, hi: int)
    requires
        0 <= lo <= hi <= s.len(),
        forall|i: int| 0 <= i < s.len() ==> s[i] <= MAX_BIN_UNITS,
    ensures
        0 <= sum_range(s, lo, hi) <= (hi - lo) * MAX_BIN_UNITS,
    decreases hi - lo,
{
    if lo < hi {
        lemma_sum_range_bounds(s, lo, hi - 1);
    }
}

pub proof fn lemma_sum_weighted_bounds(s: Seq<u64>, w: Seq<u64>, lo: int, hi: int)
    requires
        0 <= lo <= hi <= s.len(),
        w.len() == s.len(),
        forall|i: int| 0 <= i < s.len() ==> s[i] <= MAX_BIN_UNITS,
        forall|i: int| 0 <= i < w.len() ==> w[i] <= MAX_K_WEIGHT,
    ensures
        0 <= sum_weighted(s, w, lo, hi) <= (hi - lo) * (MAX_BIN_UNITS as int * MAX_K_WEIGHT as int),
    decreases hi - lo,
{
    if lo < hi {
        lemma_sum_weighted_bounds(s, w, lo, hi - 1);
        lemma_mul_upper_bound(
            s[hi - 1] as int,
            MAX_BIN_UNITS as int,
            w[hi - 1] as int,
            MAX_K_WEIGHT as int,
        );
    }
}

/// Adjacent ranges sum to the sum over their union.
pub proof fn lemma_sum_range_concat(s: Seq<u64>, lo: int, mid: int, hi: int)
    requires
        0 <= lo <= mid <= hi <= s.len(),
    ensures
        sum_range(s, lo, hi) == sum_range(s, lo, mid) + sum_range(s, mid, hi),
    decreases hi - mid,
{
    if mid < hi {
        lemma_sum_range_concat(s, lo, mid, hi - 1);
    }
}

/// Adjacent ranges of a weighted sum also concatenate.
pub proof fn lemma_sum_weighted_concat(s: Seq<u64>, w: Seq<u64>, lo: int, mid: int, hi: int)
    requires
        0 <= lo <= mid <= hi <= s.len(),
    ensures
        sum_weighted(s, w, lo, hi) == sum_weighted(s, w, lo, mid) + sum_weighted(s, w, mid, hi),
    decreases hi - mid,
{
    if mid < hi {
        lemma_sum_weighted_concat(s, w, lo, mid, hi - 1);
    }
}

/// Every element of a power sequence is at most the sequence's sum.
pub proof fn lemma_sum_u128_element_le(s: Seq<u128>, i: int)
    requires
        0 <= i < s.len(),
    ensures
        s[i] <= sum_u128(s),
    decreases s.len(),
{
    lemma_sum_u128_nonneg(s.drop_last());
    if i < s.len() - 1 {
        lemma_sum_u128_element_le(s.drop_last(), i);
    }
}

pub proof fn lemma_sum_u128_nonneg(s: Seq<u128>)
    ensures
        sum_u128(s) >= 0,
    decreases s.len(),
{
    if s.len() > 0 {
        lemma_sum_u128_nonneg(s.drop_last());
    }
}

/// A sequence of zeros sums to zero.
pub proof fn lemma_sum_u128_zero(s: Seq<u128>)
    requires
        forall|i: int| 0 <= i < s.len() ==> #[trigger] s[i] == 0,
    ensures
        sum_u128(s) == 0,
    decreases s.len(),
{
    if s.len() > 0 {
        lemma_sum_u128_zero(s.drop_last());
    }
}

/// Sums add pointwise: if `c` is the elementwise sum of `a` and `b`, the
/// sum of `c` is the sum of the sums.
pub proof fn lemma_sum_u128_pointwise_add(a: Seq<u128>, b: Seq<u128>, c: Seq<u128>)
    requires
        a.len() == b.len() == c.len(),
        forall|i: int| 0 <= i < c.len() ==> #[trigger] c[i] == a[i] + b[i],
    ensures
        sum_u128(c) == sum_u128(a) + sum_u128(b),
    decreases c.len(),
{
    if c.len() > 0 {
        lemma_sum_u128_pointwise_add(a.drop_last(), b.drop_last(), c.drop_last());
    }
}

/// A prefix never sums to more than the whole sequence.
pub proof fn lemma_sum_u128_prefix_le(s: Seq<u128>, i: int)
    requires
        0 <= i <= s.len(),
    ensures
        sum_u128(s.subrange(0, i)) <= sum_u128(s),
    decreases s.len() - i,
{
    if i == s.len() {
        assert(s.subrange(0, i) =~= s);
    } else {
        lemma_sum_u128_prefix_le(s, i + 1);
        assert(s.subrange(0, i + 1).drop_last() =~= s.subrange(0, i));
        assert(sum_u128(s.subrange(0, i + 1)) == sum_u128(s.subrange(0, i)) + s[i]);
    }
}

/// Contiguous band ranges cover the whole spectrum: when the first band
/// starts at bin 0 and each band ends where the next begins, the per-band
/// power sums of one frame (raw or weighted alike) add up to the sum over
/// every bin up to the last band's end, so no bin is counted twice or
/// dropped.
pub proof fn lemma_band_powers_cover(
    s: Seq<u64>,
    w: Option<Seq<u64>>,
    ranges: Seq<(usize, usize)>,
    powers: Seq<u128>,
)
    requires
        ranges.len() == powers.len(),
        ranges.len() > 0,
        ranges[0].0 == 0,
        forall|i: int| 0 <= i < ranges.len() - 1 ==> (#[trigger] ranges[i]).1 == ranges[i + 1].0,
        forall|i: int| 0 <= i < ranges.len() ==> (#[trigger] ranges[i]).0 <= ranges[i].1 <= s.len(),
        forall|b: int|
            0 <= b < ranges.len() ==> #[trigger] powers[b] == spec_band_power(
                s,
                w,
                ranges[b].0 as int,
                ranges[b].1 as int,
            ),
    ensures
        sum_u128(powers) == spec_band_power(s, w, 0, ranges[ranges.len() - 1].1 as int),
    decreases ranges.len(),
{
    if ranges.len() == 1 {
        assert(sum_u128(powers) == sum_u128(powers.drop_last()) + powers[0]);
    } else {
        let n = ranges.len() as int;
        lemma_band_powers_cover(s, w, ranges.drop_last(), powers.drop_last());
        assert(sum_u128(powers.drop_last()) == spec_band_power(s, w, 0, ranges[n - 2].1 as int));
        assert(ranges[n - 2].1 == ranges[n - 1].0);
        match w {
            Some(k) => {
                lemma_sum_weighted_concat(s, k, 0, ranges[n - 1].0 as int, ranges[n - 1].1 as int);
            },
            None => {
                lemma_sum_range_concat(s, 0, ranges[n - 1].0 as int, ranges[n - 1].1 as int);
            },
        }
    }
}

/// Sum of the floors `s[i] * scale / t`.
pub open spec fn sum_floors(s: Seq<u128>, scale: int, t: int) -> int
    decreases s.len(),
{
    if s.len() == 0 {
        0
    } else {
        sum_floors(s.drop_last(), scale, t) + s.last() * scale / t
    }
}

/// Flooring division distributes over addition up to one unit.
proof fn lemma_div_superadd(u: int, v: int, t: int)
    requires
        t > 0,
        u >= 0,
        v >= 0,
    ensures
        u / t + v / t <= (u + v) / t <= u / t + v / t + 1,
{
    lemma_fundamental_div_mod(u, t);
    lemma_fundamental_div_mod(v, t);
    lemma_mod_bound(u, t);
    lemma_mod_bound(v, t);
    let qu = u / t;
    let qv = v / t;
    let ru = u % t;
    let rv = v % t;
    lemma_mul_is_distributive_add(t, qu, qv);
    if ru + rv < t {
        assert(u + v == t * (qu + qv) + (ru + rv));
        lemma_div_multiples_vanish_fancy(qu + qv, ru + rv, t);
    } else {
        lemma_mul_is_distributive_add(t, qu + qv, 1);
        assert(t * (qu + qv + 1) == t * (qu + qv) + t * 1) by {
            lemma_mul_is_distributive_add(t, qu + qv, 1);
        }
        assert(u + v == t * (qu + qv + 1) + (ru + rv - t));
        lemma_div_multiples_vanish_fancy(qu + qv + 1, ru + rv - t, t);
    }
}

/// The sum of the floored scaled shares brackets the floored scaled total:
/// it is at most the total's share and misses it by less than one unit per
/// element.
proof fn lemma_sum_floors_bounds(s: Seq<u128>, scale: int, t: int)
    requires
        t > 0,
        scale >= 0,
    ensures
        sum_floors(s, scale, t) <= sum_u128(s) * scale / t,
        sum_u128(s) * scale / t <= sum_floors(s, scale, t) + (if s.len() > 0 {
            s.len() - 1
        } else {
            0int
        }),
    decreases s.len(),
{
    if s.len() == 0 {
        assert(sum_u128(s) * scale == 0) by (nonlinear_arith)
            requires
                sum_u128(s) == 0,
        ;
        lemma_div_multiples_vanish(0, t);
        assert(t * 0 == 0) by (nonlinear_arith);
    } else {
        let rest = s.drop_last();
        let x = s.last() as int;
        lemma_sum_floors_bounds(rest, scale, t);
        lemma_sum_u128_nonneg(rest);
        lemma_mul_is_distributive_add_other_way(scale, sum_u128(rest), x);
        assert(sum_u128(s) * scale == sum_u128(rest) * scale + x * scale);
        lemma_mul_nonnegative(sum_u128(rest), scale);
        lemma_mul_nonnegative(x, scale);
        lemma_div_superadd(sum_u128(rest) * scale, x * scale, t);
        if rest.len() == 0 {
            assert(sum_u128(rest) * scale == 0) by (nonlinear_arith)
                requires
                    sum_u128(rest) == 0,
            ;
            lemma_div_multiples_vanish(0, t);
            assert(t * 0 == 0) by (nonlinear_arith);
        }
    }
}

/// Pointwise equal share sequences have equal sums.
proof fn lemma_sum_u64_matches_floors(powers: Seq<u128>, pct: Seq<u64>, scale: int, t: int)
    requires
        pct.len() == powers.len(),
        forall|i: int|
            0 <= i < pct.len() ==> #[trigger] pct[i] == powers[i] * scale / t,
    ensures
        sum_u64(pct) == sum_floors(powers, scale, t),
    decreases pct.len(),
{
    if pct.len() > 0 {
        lemma_sum_u64_matches_floors(powers.drop_last(), pct.drop_last(), scale, t);
    }
}

/// Percentage values lose less than one unit per band to rounding: for a
/// positive total they sum to at most exactly 100 % and to more than 100 %
/// minus one unit per band.
pub proof fn lemma_percentages_sum(powers: Seq<u128>, pct: Seq<u64>)
    requires
        sum_u128(powers) > 0,
        pct.len() == powers.len(),
        forall|i: int|
            0 <= i < pct.len() ==> #[trigger] pct[i] == powers[i] * (100 * PCT_SCALE as int)
                / sum_u128(powers),
    ensures
        100 * (PCT_SCALE as int) - powers.len() < sum_u64(pct) <= 100 * (PCT_SCALE as int),
{
    let t = sum_u128(powers);
    let scale = 100 * PCT_SCALE as int;
    lemma_sum_u64_matches_floors(powers, pct, scale, t);
    lemma_sum_floors_bounds(powers, scale, t);
    lemma_div_multiples_vanish(scale, t);
    assert(t * scale == sum_u128(powers) * scale) by (nonlinear_arith)
        requires
            t == sum_u128(powers),
    ;
}

/// Computes every band's power from one frame's spectrum: the sum of the
/// spectrum over the band's bin range, weighted pointwise when a K-weight
/// table is supplied.
#[verifier::loop_isolation(false)]
pub fn frame_band_powers(
    spectrum: &Vec<u64>,
    k_table: Option<&Vec<u64>>,
    ranges: &Vec<(usize, usize)>,
) -> (r: Vec<u128>)
    requires
        spectrum@.len() <= MAX_SPECTRUM_LEN,
        forall|i: int| 0 <= i < spectrum@.len() ==> spectrum@[i] <= MAX_BIN_UNITS,
        match k_table {
            Some(k) => k@.len() == spectrum@.len() && forall|i: int|
                0 <= i < k@.len() ==> k@[i] <= MAX_K_WEIGHT,
            None => true,
        },
        forall|b: int|
            0 <= b < ranges@.len() ==> (#[trigger] ranges@[b]).0 <= ranges@[b].1
                <= spectrum@.len(),
    ensures
        r@.len() == ranges@.len(),
        forall|b: int|
            0 <= b < ranges@.len() ==> #[trigger] r@[b] == spec_band_power(
                spectrum@,
                match k_table {
                    Some(k) => Some(k@),
                    None => None,
                },
                ranges@[b].0 as int,
                ranges@[b].1 as int,
            ),
{
    let ghost w: Option<Seq<u64>> = match k_table {
        Some(k) => Some(k@),
        None => None,
    };
    let mut r: Vec<u128> = Vec::new();
    let mut b: usize = 0;
    while b < ranges.len()
        invariant
            b <= ranges@.len(),
            r@.len() == b,
            forall|x: int|
                0 <= x < b ==> #[trigger] r@[x] == spec_band_power(
                    spectrum@,
                    w,
                    ranges@[x].0 as int,
                    ranges@[x].1 as int,
                ),
        decreases ranges@.len() - b,
    {
        let (lo, hi) = ranges[b];
        proof {
            assert(lo == ranges@[b as int].0 && hi == ranges@[b as int].1);
            assert(lo <= hi <= spectrum@.len());
        }
        let mut acc: u128 = 0;
        let mut j: usize = lo;
        while j < hi
            invariant
                lo <= j <= hi,
                acc == spec_band_power(spectrum@, w, lo as int, j as int),
            decreases hi - j,
        {
            proof {
                assert(j < hi <= spectrum@.len() <= MAX_SPECTRUM_LEN);
                match w {
                    Some(k) => {
                        assert(spec_band_power(spectrum@, w, lo as int, j as int) == sum_weighted(
                            spectrum@,
                            k,
                            lo as int,
                            j as int,
                        ));
                        lemma_sum_weighted_bounds(spectrum@, k, lo as int, j as int);
                        lemma_mul_upper_bound(
                            spectrum@[j as int] as int,
                            MAX_BIN_UNITS as int,
                            k[j as int] as int,
                            MAX_K_WEIGHT as int,
                        );
                        assert(acc + spectrum@[j as int] * k[j as int] <= u128::MAX) by (nonlinear_arith)
                            requires
                                acc <= (j - lo) * (MAX_BIN_UNITS as int * MAX_K_WEIGHT as int),
                                spectrum@[j as int] as int * k[j as int] as int <= MAX_BIN_UNITS
                                    as int * MAX_K_WEIGHT as int,
                                0 <= j - lo <= 65535,
                                MAX_BIN_UNITS == 0xFF_FFFF_FFFF_FFFF,
                                MAX_K_WEIGHT == 0x3_FFFF_FFFF,
                        ;
                    },
                    None => {
                        lemma_sum_range_bounds(spectrum@, lo as int, j as int);
                        assert(acc + spectrum@[j as int] <= u128::MAX) by (nonlinear_arith)
                            requires
                                acc <= (j - lo) * (MAX_BIN_UNITS as int),
                                spectrum@[j as int] <= MAX_BIN_UNITS,
                                0 <= j - lo <= 65535,
                                MAX_BIN_UNITS == 0xFF_FFFF_FFFF_FFFF,
                        ;
                    },
                }
            }
            let term: u128 = match k_table {
                Some(k) => (spectrum[j] as u128) * (k[j] as u128),
                None => spectrum[j] as u128,
            };
            acc = acc + term;
            j = j + 1;
        }
        r.push(acc);
        b = b + 1;
    }
    r
}

/// Adds one frame's band powers onto the running totals.
#[verifier::loop_isolation(false)]
pub fn accumulate_powers(acc: &mut Vec<u128>, frame: &Vec<u128>)
    requires
        old(acc)@.len() == frame@.len(),
        forall|i: int| 0 <= i < frame@.len() ==> old(acc)@[i] + frame@[i] <= u128::MAX,
    ensures
        final(acc)@.len() == old(acc)@.len(),
        forall|i: int|
            0 <= i < final(acc)@.len() ==> final(acc)@[i] == old(acc)@[i] + frame@[i],
{
    let mut i: usize = 0;
    while i < frame.len()
        invariant
            i <= frame@.len(),
            acc@.len() == old(acc)@.len(),
            forall|x: int| 0 <= x < i ==> acc@[x] == old(acc)@[x] + frame@[x],
            forall|x: int| i <= x < acc@.len() ==> acc@[x] == old(acc)@[x],
        decreases frame@.len() - i,
    {
        let v: u128 = acc[i] + frame[i];
        acc.set(i, v);
        i = i + 1;
    }
}

/// Converts a power vector to shares of the total, in units of
/// `PCT_SCALE` per percentage point (so 100 % is `100 * PCT_SCALE`).
/// A vector whose total is zero maps to all zeros.
#[verifier::loop_isolation(false)]
pub fn powers_to_percentages(powers: &Vec<u128>) -> (r: Vec<u64>)
    requires
        sum_u128(powers@) <= u128::MAX as int / (100 * PCT_SCALE as int),
    ensures
        r@.len() == powers@.len(),
        sum_u128(powers@) == 0 ==> forall|i: int| 0 <= i < r@.len() ==> r@[i] == 0,
        sum_u128(powers@) > 0 ==> forall|i: int|
            0 <= i < r@.len() ==> #[trigger] r@[i] == powers@[i] * (100 * PCT_SCALE as int)
                / sum_u128(powers@),
{
    let ghost total_spec = sum_u128(powers@);
    let mut total: u128 = 0;
    let mut i: usize = 0;
    while i < powers.len()
        invariant
            i <= powers@.len(),
            total == sum_u128(powers@.subrange(0, i as int)),
        decreases powers@.len() - i,
    {
        proof {
            lemma_sum_u128_prefix_le(powers@, i + 1);
            assert(powers@.subrange(0, i + 1).drop_last() =~= powers@.subrange(0, i as int));
        }
        total = total + powers[i];
        i = i + 1;
    }
    proof {
        assert(powers@.subrange(0, powers@.len() as int) =~= powers@);
    }
    let mut r: Vec<u64> = Vec::new();
    let mut i: usize = 0;
    while i < powers.len()
        invariant
            i <= powers@.len(),
            r@.len() == i,
            total == total_spec,
            total_spec == 0 ==> forall|x: int| 0 <= x < i ==> r@[x] == 0,
            total_spec > 0 ==> forall|x: int|
                0 <= x < i ==> #[trigger] r@[x] == powers@[x] * (100 * PCT_SCALE as int)
                    / total_spec,
        decreases powers@.len() - i,
    {
        if total == 0 {
            r.push(0);
        } else {
            proof {
                let s = 100 * PCT_SCALE as int;
                lemma_sum_u128_element_le(powers@, i as int);
                lemma_mul_upper_bound(powers@[i as int] as int, total_spec, s, s);
                lemma_mul_upper_bound(total_spec, u128::MAX as int / s, s, s);
                lemma_fundamental_div_mod(u128::MAX as int, s);
                lemma_scaled_div_le(powers@[i as int] as int, s, total_spec);
            }
            let q: u128 = powers[i] * (100 * PCT_SCALE) as u128 / total;
            r.push(q as u64);
        }
        i = i + 1;
    }
    r
}

} // verus!
