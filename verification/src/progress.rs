//! Progress reporting for the frame loop.
//!
//! As the frame loop advances, a whole-number percentage is derived from the
//! frame count and reported only when it changes, so a full run reports a
//! strictly increasing sequence of values ending at exactly 100.

use vstd::arithmetic::div_mod::{lemma_div_is_ordered, lemma_div_multiples_vanish};
use vstd::prelude::*;

verus! {

/// The whole-number percentage after `done` of `total` frames.
pub open spec fn spec_percent(done: int, total: int) -> int
    recommends
        total > 0,
{
    done * 100 / total
}

/// The sequence of percentages reported after `done` frames: each frame's
/// percentage is appended only when it differs from the previous report
/// (with 0 standing for "nothing reported yet").
pub open spec fn spec_reported(done: int, total: int) -> Seq<u8>
    recommends
        total > 0,
    decreases done,
{
    if done <= 0 {
        Seq::empty()
    } else {
        let prev = spec_reported(done - 1, total);
        let before: int = if prev.len() == 0 {
            0
        } else {
            prev.last() as int
        };
        let p = spec_percent(done, total);
        if p == before {
            prev
        } else {
            prev.push(p as u8)
        }
    }
}

/// Tracks reported progress across a frame loop.
pub struct ProgressTracker {
    pub total: usize,
    pub done: usize,
    pub last: u8,
    pub reported: Ghost<Seq<u8>>,
}

impl ProgressTracker {
    pub open spec fn wf(self) -> bool {
        &&& 0 < self.total <= usize::MAX / 100
        &&& self.done <= self.total
        &&& self.reported@ == spec_reported(self.done as int, self.total as int)
        &&& self.last as int == (if self.reported@.len() == 0 {
            0int
        } else {
            self.reported@.last() as int
        })
    }

    /// Starts tracking a run of `total` frames.
    pub fn new(total: usize) -> (r: ProgressTracker)
        requires
            0 < total <= usize::MAX / 100,
        ensures
            r.wf(),
            r.total == total,
            r.done == 0,
            r.reported@ == Seq::<u8>::empty(),
    {
        ProgressTracker { total, done: 0, last: 0, reported: Ghost(Seq::empty()) }
    }

    /// Advances past one frame; returns the new percentage exactly when it
    /// differs from the last reported one.
    pub fn advance(&mut self) -> (r: Option<u8>)
        requires
            old(self).wf(),
            old(self).done < old(self).total,
        ensures
            final(self).wf(),
            final(self).total == old(self).total,
            final(self).done == old(self).done + 1,
            match r {
                Some(p) => {
                    &&& p == spec_percent(final(self).done as int, final(self).total as int)
                    &&& p != old(self).last
                    &&& final(self).reported@ == old(self).reported@.push(p)
                },
                None => {
                    &&& spec_percent(final(self).done as int, final(self).total as int) == old(
                        self,
                    ).last
                    &&& final(self).reported@ == old(self).reported@
                },
            },
    {
        let done = self.done + 1;
        proof {
            lemma_div_multiples_vanish(100, self.total as int);
            lemma_div_is_ordered(done as int * 100, self.total as int * 100, self.total as int);
            lemma_div_is_ordered(0, done as int * 100, self.total as int);
        }
        let p = (done * 100 / self.total) as u8;
        self.done = done;
        if p != self.last {
            self.last = p;
            proof {
                self.reported@ = self.reported@.push(p);
            }
            Some(p)
        } else {
            None
        }
    }
}

/// The reported sequence is strictly increasing, all values are between 1
/// and the current percentage, and its last value is the current percentage
/// (which is 0 if nothing was reported).
proof fn lemma_reported_props(done: int, total: int)
    requires
        total > 0,
        0 <= done <= total,
    ensures
        forall|i: int, j: int|
            0 <= i < j < spec_reported(done, total).len() ==> spec_reported(done, total)[i]
                < spec_reported(done, total)[j],
        spec_reported(done, total).len() == 0 ==> spec_percent(done, total) == 0,
        spec_reported(done, total).len() > 0 ==> spec_reported(done, total).last() == spec_percent(
            done,
            total,
        ),
        0 <= spec_percent(done, total) <= 100,
    decreases done,
{
    lemma_div_multiples_vanish(100, total);
    lemma_div_is_ordered(done * 100, total * 100, total);
    lemma_div_is_ordered(0, done * 100, total);
    if done == 0 {
        lemma_div_multiples_vanish(0, total);
        assert(total * 0 == 0) by (nonlinear_arith);
        assert(0 * 100 == 0);
    } else {
        lemma_reported_props(done - 1, total);
        lemma_div_is_ordered((done - 1) * 100, done * 100, total);
        let prev = spec_reported(done - 1, total);
        let p = spec_percent(done, total);
        if prev.len() > 0 && p != prev.last() {
            assert(prev.last() == spec_percent(done - 1, total));
            assert(p > prev.last());
        }
    }
}

/// After the final frame the reported sequence is non-empty, strictly
/// increasing (so no value is ever repeated), and ends at exactly 100.
pub proof fn lemma_progress_contract(t: ProgressTracker)
    requires
        t.wf(),
        t.done == t.total,
    ensures
        t.reported@.len() > 0,
        t.reported@.last() == 100,
        forall|i: int, j: int|
            0 <= i < j < t.reported@.len() ==> t.reported@[i] < t.reported@[j],
{
    let total = t.total as int;
    lemma_reported_props(total, total);
    lemma_div_multiples_vanish(100, total);
    assert(total * 100 == 100 * total) by (nonlinear_arith);
    assert(spec_percent(total, total) == 100);
}

} // verus!
