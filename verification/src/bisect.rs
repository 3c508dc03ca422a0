//! Bisection over interleavings: the delta-debug-like binary search through
//! schedule space that pinpoints the critical reordering.

use vstd::prelude::*;
use vstd::string::StringExecFns;

use crate::opts::AnalyzeError;
use crate::record::SchedEvent;
use crate::render::spec_u64_dec;
use crate::render::u64_to_dec;

verus! {

/// The outcome of the search: a failing schedule, a passing schedule sharing
/// its prefix, and the index of the critical event.
#[derive(Debug)]
pub struct CriticalSchedule {
    pub failing_schedule: Vec<SchedEvent>,
    pub passing_schedule: Vec<SchedEvent>,
    pub critical_event_index: usize,
}

/// State of the bisection.  `fsched` is the schedule currently known to
/// match (the failing run), `psched` the one known not to match (the passing
/// run); they agree on the first `lo` events, and the critical point lies in
/// `(lo, hi]`.  The probe counter names the probe runs.
#[derive(Debug)]
pub struct Bisector {
    pub fsched: Vec<SchedEvent>,
    pub psched: Vec<SchedEvent>,
    pub lo: usize,
    pub hi: usize,
    pub probe_index: u64,
}

/// An element-for-element copy of a schedule.
pub fn copy_sched_events(v: &Vec<SchedEvent>) -> (r: Vec<SchedEvent>)
    ensures
        r@ == v@,
{
    let mut r: Vec<SchedEvent> = Vec::new();
    let mut i: usize = 0;
    while i < v.len()
        invariant
            i <= v.len(),
            r@ =~= v@.take(i as int),
        decreases v.len() - i,
    {
        r.push(v[i]);
        i = i + 1;
    }
    proof {
        assert(v@.take(i as int) =~= v@);
    }
    r
}

impl Bisector {
    /// The loop invariant of the search: the two schedules share the prefix
    /// of length `lo`, and the window still to narrow is `(lo, hi)`.
    pub open spec fn wf(self) -> bool {
        &&& self.lo < self.hi
        &&& (self.hi as int) < self.fsched@.len()
        &&& (self.hi as int) < self.psched@.len()
        &&& self.fsched@.subrange(0, self.lo as int) == self.psched@.subrange(0, self.lo as int)
    }

    /// Start the search from a matching target schedule and a non-matching
    /// baseline schedule.  Schedules shorter than two events leave no
    /// adjacent pair to search for.
    pub fn bisect_start(target: Vec<SchedEvent>, baseline: Vec<SchedEvent>) -> (r: Result<
        Bisector,
        AnalyzeError,
    >)
        ensures
            r is Ok <==> (target@.len() >= 2 && baseline@.len() >= 2),
            r matches Ok(b) ==> {
                &&& b.wf()
                &&& b.fsched@ == target@
                &&& b.psched@ == baseline@
                &&& b.lo == 0
                &&& (b.hi as int) == (if target@.len() <= baseline@.len() {
                    target@.len()
                } else {
                    baseline@.len()
                }) - 1
                &&& b.probe_index == 0
            },
            r matches Err(e) ==> e == AnalyzeError::SchedulesTooShort,
    {
        if target.len() < 2 || baseline.len() < 2 {
            return Err(AnalyzeError::SchedulesTooShort);
        }
        let shorter = if target.len() <= baseline.len() {
            target.len()
        } else {
            baseline.len()
        };
        let b = Bisector { fsched: target, psched: baseline, lo: 0, hi: shorter - 1, probe_index: 0 };
        proof {
            assert(b.fsched@.subrange(0, 0) =~= b.psched@.subrange(0, 0));
        }
        Ok(b)
    }

    /// Whether the window has narrowed to the critical adjacent pair.
    pub fn converged(&self) -> (r: bool)
        ensures
            r == (self.hi - self.lo == 1),
    {
        self.hi > self.lo && self.hi - self.lo == 1
    }

    /// The probe point: the midpoint of the open window, lowest index on
    /// ties for reproducibility.
    pub open spec fn spec_mid(self) -> int {
        self.lo + (self.hi - self.lo) / 2
    }

    /// The hybrid schedule probed next: the passing prefix up to the probe
    /// point spliced onto the failing suffix from it.
    pub open spec fn spec_hybrid(self) -> Seq<SchedEvent> {
        self.psched@.subrange(0, self.spec_mid()) + self.fsched@.subrange(
            self.spec_mid(),
            self.fsched@.len() as int,
        )
    }

    /// Build the next probe: its run name and its hybrid schedule.  The
    /// probe counter increases monotonically so that probe run names never
    /// collide.
    pub fn next_probe(&mut self) -> (r: (String, Vec<SchedEvent>))
        requires
            old(self).wf(),
            old(self).hi - old(self).lo >= 2,
            old(self).probe_index < u64::MAX,
        ensures
            final(self).fsched == old(self).fsched,
            final(self).psched == old(self).psched,
            final(self).lo == old(self).lo,
            final(self).hi == old(self).hi,
            final(self).probe_index == old(self).probe_index + 1,
            r.0@ == "bisect_round_"@ + spec_u64_dec(final(self).probe_index as nat),
            r.1@ == final(self).spec_hybrid(),
    {
        self.probe_index = self.probe_index + 1;
        let mut name = String::new();
        name.append("bisect_round_");
        let d = u64_to_dec(self.probe_index);
        name.append(d.as_str());
        let mid = self.lo + (self.hi - self.lo) / 2;
        let mut h: Vec<SchedEvent> = Vec::new();
        let mut i: usize = 0;
        while i < mid
            invariant
                i <= mid,
                mid == self.spec_mid(),
                (mid as int) < self.psched@.len(),
                h@ =~= self.psched@.take(i as int),
            decreases mid - i,
        {
            h.push(self.psched[i]);
            i = i + 1;
        }
        let flen = self.fsched.len();
        let mut j: usize = mid;
        while j < flen
            invariant
                mid <= j <= flen,
                flen == self.fsched@.len(),
                mid == self.spec_mid(),
                (mid as int) < self.psched@.len(),
                h@ =~= self.psched@.take(mid as int) + self.fsched@.subrange(mid as int, j as int),
            decreases flen - j,
        {
            h.push(self.fsched[j]);
            j = j + 1;
        }
        proof {
            assert(h@ =~= self.spec_hybrid());
        }
        (name, h)
    }

    /// Narrow the window with the probe's outcome.  A matching probe becomes
    /// the new failing schedule (the prefix it took from the passing side is
    /// now shared); a non-matching probe becomes the new passing schedule.
    /// A replay that deviated from the requested schedule must be reported
    /// as non-matching: a schedule that does not reproduce is never treated
    /// as a failing witness.
    pub fn record_probe_result(&mut self, matched: bool)
        requires
            old(self).wf(),
            old(self).hi - old(self).lo >= 2,
        ensures
            final(self).wf(),
            final(self).hi - final(self).lo < old(self).hi - old(self).lo,
            final(self).probe_index == old(self).probe_index,
            matched ==> {
                &&& final(self).fsched@ == old(self).spec_hybrid()
                &&& final(self).psched == old(self).psched
                &&& final(self).lo == old(self).spec_mid()
                &&& final(self).hi == old(self).hi
            },
            !matched ==> {
                &&& final(self).psched@ == old(self).spec_hybrid()
                &&& final(self).fsched == old(self).fsched
                &&& final(self).lo == old(self).lo
                &&& final(self).hi == old(self).spec_mid()
            },
    {
        let ghost pre = *self;
        let mid = self.lo + (self.hi - self.lo) / 2;
        let mut h: Vec<SchedEvent> = Vec::new();
        let mut i: usize = 0;
        while i < mid
            invariant
                i <= mid,
                *self == pre,
                mid == pre.spec_mid(),
                (mid as int) < self.psched@.len(),
                h@ =~= self.psched@.take(i as int),
            decreases mid - i,
        {
            h.push(self.psched[i]);
            i = i + 1;
        }
        let flen = self.fsched.len();
        let mut j: usize = mid;
        while j < flen
            invariant
                mid <= j <= flen,
                *self == pre,
                flen == self.fsched@.len(),
                mid == pre.spec_mid(),
                (mid as int) < self.psched@.len(),
                h@ =~= self.psched@.take(mid as int) + self.fsched@.subrange(mid as int, j as int),
            decreases flen - j,
        {
            h.push(self.fsched[j]);
            j = j + 1;
        }
        proof {
            assert(h@ =~= pre.spec_hybrid());
        }
        if matched {
            self.fsched = h;
            self.lo = mid;
            proof {
                assert(self.fsched@.subrange(0, mid as int) =~= self.psched@.subrange(
                    0,
                    mid as int,
                ));
                assert(self.fsched@.len() == pre.fsched@.len());
            }
        } else {
            self.psched = h;
            self.hi = mid;
            proof {
                assert(self.psched@.subrange(0, pre.lo as int) =~= pre.psched@.subrange(
                    0,
                    pre.lo as int,
                ));
                assert(self.psched@.len() == pre.fsched@.len());
            }
        }
    }

    /// The critical schedule once the window holds one adjacent pair: the
    /// failing schedule still matches, the passing one still does not, and
    /// they are equal before the critical event index.
    pub fn result(&self) -> (r: CriticalSchedule)
        requires
            self.wf(),
            self.hi - self.lo == 1,
        ensures
            r.critical_event_index == self.lo + 1,
            1 <= r.critical_event_index,
            (r.critical_event_index as int) < r.failing_schedule@.len(),
            r.failing_schedule@ == self.fsched@,
            r.passing_schedule@ == self.psched@,
            r.failing_schedule@.subrange(0, r.critical_event_index - 1)
                == r.passing_schedule@.subrange(0, r.critical_event_index - 1),
    {
        CriticalSchedule {
            failing_schedule: copy_sched_events(&self.fsched),
            passing_schedule: copy_sched_events(&self.psched),
            critical_event_index: self.lo + 1,
        }
    }
}

} // verus!
