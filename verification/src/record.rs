//! Preemption records: ordered per-thread scheduling directives, the unit of
//! data the whole pipeline transforms.

use vstd::prelude::*;

verus! {

/// One scheduling directive recorded for a thread: the event index at which
/// the scheduler intervened, and whether the intervention was a preemption
/// (a forced context switch) or another kind of entry.
#[derive(Clone, Copy, PartialEq, Eq, Structural, Debug)]
pub struct Directive {
    pub index: u64,
    pub preemptive: bool,
}

/// The directives recorded for one thread, keyed by the thread id.
#[derive(Debug)]
pub struct ThreadDirectives {
    pub tid: u64,
    pub dirs: Vec<Directive>,
}

/// Mathematical model of one thread's directives.
#[verifier::ext_equal]
pub struct ThreadModel {
    pub tid: u64,
    pub dirs: Seq<Directive>,
}

impl View for ThreadDirectives {
    type V = ThreadModel;

    open spec fn view(&self) -> ThreadModel {
        ThreadModel { tid: self.tid, dirs: self.dirs@ }
    }
}

/// One scheduling decision in a full schedule trace: the thread that ran and
/// the operation index it executed.
#[derive(Clone, Copy, PartialEq, Eq, Structural, Debug)]
pub struct SchedEvent {
    pub tid: u64,
    pub op: u64,
}

/// An ordered set of per-thread preemption directives, optionally carrying a
/// full schedule trace; both are replay inputs for the runtime.
#[derive(Debug)]
pub struct PreemptionRecord {
    pub threads: Vec<ThreadDirectives>,
    pub events: Vec<SchedEvent>,
}

/// Mathematical model of a preemption record.
#[verifier::ext_equal]
pub struct RecordModel {
    pub threads: Seq<ThreadModel>,
    pub events: Seq<SchedEvent>,
}

impl View for PreemptionRecord {
    type V = RecordModel;

    open spec fn view(&self) -> RecordModel {
        RecordModel {
            threads: Seq::new(self.threads@.len(), |i: int| self.threads@[i]@),
            events: self.events@,
        }
    }
}

/// How many of a thread's directives are preemptions.
pub open spec fn count_preempts(dirs: Seq<Directive>) -> nat
    decreases dirs.len(),
{
    if dirs.len() == 0 {
        0
    } else {
        count_preempts(dirs.drop_last()) + (if dirs.last().preemptive {
            1nat
        } else {
            0nat
        })
    }
}

/// Total number of preemptions in a record, over all threads.
pub open spec fn total_preempts(ts: Seq<ThreadModel>) -> nat
    decreases ts.len(),
{
    if ts.len() == 0 {
        0
    } else {
        total_preempts(ts.drop_last()) + count_preempts(ts.last().dirs)
    }
}

/// A thread's directives with the non-preemption entries stripped.
pub open spec fn keep_preempts(dirs: Seq<Directive>) -> Seq<Directive>
    decreases dirs.len(),
{
    if dirs.len() == 0 {
        Seq::empty()
    } else if dirs.last().preemptive {
        keep_preempts(dirs.drop_last()).push(dirs.last())
    } else {
        keep_preempts(dirs.drop_last())
    }
}

/// Every preemption of a single thread counts towards the record's total.
proof fn lemma_count_le_total(ts: Seq<ThreadModel>, t: int)
    requires
        0 <= t < ts.len(),
    ensures
        count_preempts(ts[t].dirs) <= total_preempts(ts),
    decreases ts.len(),
{
    if t == ts.len() - 1 {
        assert(ts.last() == ts[t]);
    } else {
        assert(ts.drop_last()[t] == ts[t]);
        lemma_count_le_total(ts.drop_last(), t);
    }
}

impl PreemptionRecord {
    /// A record holding a full schedule trace and no per-thread directives;
    /// written to disk when an event trace is replayed or persisted.
    pub fn from_sched_events(events: Vec<SchedEvent>) -> (r: PreemptionRecord)
        ensures
            r@.threads =~= Seq::<ThreadModel>::empty(),
            r@.events == events@,
    {
        let r = PreemptionRecord { threads: Vec::new(), events };
        proof {
            assert(r@.threads =~= Seq::<ThreadModel>::empty());
        }
        r
    }

    /// Whether any thread still holds a preemption directive.
    pub fn has_preemptions(&self) -> (b: bool)
        ensures
            b == (total_preempts(self@.threads) > 0),
    {
        let n = self.threads.len();
        let mut t: usize = 0;
        while t < n
            invariant
                t <= n,
                n == self.threads.len(),
                total_preempts(self@.threads.take(t as int)) == 0,
            decreases n - t,
        {
            let dirs = &self.threads[t].dirs;
            let m = dirs.len();
            let mut j: usize = 0;
            while j < m
                invariant
                    t < self.threads.len(),
                    j <= m,
                    m == dirs.len(),
                    dirs == &self.threads[t as int].dirs,
                    count_preempts(dirs@.take(j as int)) == 0,
                decreases m - j,
            {
                proof {
                    assert(dirs@.take(j + 1).drop_last() =~= dirs@.take(j as int));
                    assert(dirs@.take(j + 1).last() == dirs@[j as int]);
                }
                if dirs[j].preemptive {
                    proof {
                        assert(dirs@.take(j + 1).len() != 0);
                        assert(count_preempts(dirs@.take(j + 1)) > 0);
                        assert(dirs@ =~= dirs@.take(m as int));
                        lemma_count_mono_take(dirs@, j + 1);
                        assert(self@.threads[t as int].dirs == dirs@);
                        lemma_count_le_total(self@.threads, t as int);
                    }
                    return true;
                }
                j = j + 1;
            }
            proof {
                assert(dirs@.take(j as int) =~= dirs@);
                assert(self@.threads[t as int].dirs == dirs@);
                assert(self@.threads.take(t + 1).drop_last() =~= self@.threads.take(t as int));
                assert(self@.threads.take(t + 1).last() == self@.threads[t as int]);
            }
            t = t + 1;
        }
        proof {
            assert(self@.threads.take(t as int) =~= self@.threads);
        }
        false
    }

    /// The record with every thread's structure retained but all directive
    /// contents (and any schedule trace) dropped: the empty preemption set.
    pub fn strip_contents(&self) -> (r: PreemptionRecord)
        ensures
            r@.threads.len() == self@.threads.len(),
            forall|i: int|
                0 <= i < self@.threads.len() ==> r@.threads[i] == (ThreadModel {
                    tid: self@.threads[i].tid,
                    dirs: Seq::<Directive>::empty(),
                }),
            r@.events =~= Seq::<SchedEvent>::empty(),
    {
        let mut out: Vec<ThreadDirectives> = Vec::new();
        let mut t: usize = 0;
        while t < self.threads.len()
            invariant
                t <= self.threads.len(),
                out@.len() == t,
                forall|i: int|
                    0 <= i < t ==> out@[i]@ == (ThreadModel {
                        tid: self@.threads[i].tid,
                        dirs: Seq::<Directive>::empty(),
                    }),
            decreases self.threads.len() - t,
        {
            out.push(ThreadDirectives { tid: self.threads[t].tid, dirs: Vec::new() });
            t = t + 1;
        }
        PreemptionRecord { threads: out, events: Vec::new() }
    }

    /// Keep only the preemption entries of each thread; other directive kinds
    /// are stripped.  The schedule trace is untouched.
    pub fn preemptions_only(&mut self)
        ensures
            final(self)@.threads.len() == old(self)@.threads.len(),
            forall|i: int|
                0 <= i < old(self)@.threads.len() ==> final(self)@.threads[i] == (ThreadModel {
                    tid: old(self)@.threads[i].tid,
                    dirs: keep_preempts(old(self)@.threads[i].dirs),
                }),
            final(self)@.events == old(self)@.events,
    {
        let n = self.threads.len();
        let mut out: Vec<ThreadDirectives> = Vec::new();
        let mut t: usize = 0;
        while t < n
            invariant
                t <= n,
                n == self.threads.len(),
                out@.len() == t,
                forall|i: int|
                    0 <= i < t ==> out@[i]@ == (ThreadModel {
                        tid: self@.threads[i].tid,
                        dirs: keep_preempts(self@.threads[i].dirs),
                    }),
            decreases n - t,
        {
            let dirs = &self.threads[t].dirs;
            let m = dirs.len();
            let mut filtered: Vec<Directive> = Vec::new();
            let mut j: usize = 0;
            while j < m
                invariant
                    t < self.threads.len(),
                    j <= m,
                    m == dirs.len(),
                    dirs == &self.threads[t as int].dirs,
                    filtered@ == keep_preempts(dirs@.take(j as int)),
                decreases m - j,
            {
                proof {
                    assert(dirs@.take(j + 1).drop_last() =~= dirs@.take(j as int));
                    assert(dirs@.take(j + 1).last() == dirs@[j as int]);
                }
                if dirs[j].preemptive {
                    filtered.push(dirs[j]);
                }
                j = j + 1;
            }
            proof {
                assert(dirs@.take(j as int) =~= dirs@);
                assert(dirs@ == self@.threads[t as int].dirs);
            }
            let tid = self.threads[t].tid;
            out.push(ThreadDirectives { tid, dirs: filtered });
            t = t + 1;
        }
        self.threads = out;
    }
}

/// A position `(t, j)` that holds a preemption directive.
pub open spec fn preempt_pos(ts: Seq<ThreadModel>, t: int, j: int) -> bool {
    &&& 0 <= t < ts.len()
    &&& 0 <= j < ts[t].dirs.len()
    &&& ts[t].dirs[j].preemptive
}

/// The latest preemption of a record: the preemption with the greatest event
/// index; among equals, the one on the earliest thread entry and earliest
/// directive position.
pub open spec fn latest_pos(ts: Seq<ThreadModel>, t: int, j: int) -> bool {
    &&& preempt_pos(ts, t, j)
    &&& forall|t2: int, j2: int|
        preempt_pos(ts, t2, j2) ==> ts[t2].dirs[j2].index <= ts[t].dirs[j].index
    &&& forall|t2: int, j2: int|
        preempt_pos(ts, t2, j2) && ts[t2].dirs[j2].index == ts[t].dirs[j].index ==> (t2 > t || (t2
            == t && j2 >= j))
}

/// The thread seq `out` is `ts` with the directive at `(t, j)` removed.
pub open spec fn removal_at(ts: Seq<ThreadModel>, t: int, j: int, out: Seq<ThreadModel>) -> bool {
    out =~= ts.update(
        t,
        ThreadModel { tid: ts[t].tid, dirs: ts[t].dirs.take(j) + ts[t].dirs.skip(j + 1) },
    )
}

/// The record after one knockout: the latest preemption removed; a record
/// with no preemption is left unchanged.
pub open spec fn spec_knockout(m: RecordModel) -> RecordModel {
    if total_preempts(m.threads) == 0 {
        m
    } else {
        let (t, j) = choose|t: int, j: int| latest_pos(m.threads, t, j);
        RecordModel {
            threads: m.threads.update(
                t,
                ThreadModel {
                    tid: m.threads[t].tid,
                    dirs: m.threads[t].dirs.take(j) + m.threads[t].dirs.skip(j + 1),
                },
            ),
            events: m.events,
        }
    }
}

/// The latest preemption position is unique.
pub proof fn lemma_latest_pos_unique(ts: Seq<ThreadModel>, t1: int, j1: int, t2: int, j2: int)
    requires
        latest_pos(ts, t1, j1),
        latest_pos(ts, t2, j2),
    ensures
        t1 == t2 && j1 == j2,
{
    assert(ts[t1].dirs[j1].index <= ts[t2].dirs[j2].index);
    assert(ts[t2].dirs[j2].index <= ts[t1].dirs[j1].index);
}

proof fn lemma_count_concat(a: Seq<Directive>, b: Seq<Directive>)
    ensures
        count_preempts(a + b) == count_preempts(a) + count_preempts(b),
    decreases b.len(),
{
    if b.len() == 0 {
        assert(a + b =~= a);
    } else {
        assert((a + b).drop_last() =~= a + b.drop_last());
        assert((a + b).last() == b.last());
        lemma_count_concat(a, b.drop_last());
    }
}

proof fn lemma_count_remove(dirs: Seq<Directive>, j: int)
    requires
        0 <= j < dirs.len(),
        dirs[j].preemptive,
    ensures
        count_preempts(dirs.take(j) + dirs.skip(j + 1)) + 1 == count_preempts(dirs),
{
    assert(dirs =~= dirs.take(j + 1) + dirs.skip(j + 1));
    assert(dirs.take(j + 1).drop_last() =~= dirs.take(j));
    assert(dirs.take(j + 1).last() == dirs[j]);
    lemma_count_concat(dirs.take(j + 1), dirs.skip(j + 1));
    lemma_count_concat(dirs.take(j), dirs.skip(j + 1));
}

proof fn lemma_total_update(ts: Seq<ThreadModel>, t: int, nt: ThreadModel)
    requires
        0 <= t < ts.len(),
    ensures
        total_preempts(ts.update(t, nt)) + count_preempts(ts[t].dirs) == total_preempts(ts)
            + count_preempts(nt.dirs),
    decreases ts.len(),
{
    if t == ts.len() - 1 {
        assert(ts.update(t, nt).drop_last() =~= ts.drop_last());
        assert(ts.update(t, nt).last() == nt);
    } else {
        assert(ts.update(t, nt).drop_last() =~= ts.drop_last().update(t, nt));
        assert(ts.update(t, nt).last() == ts.last());
        assert(ts.drop_last()[t] == ts[t]);
        lemma_total_update(ts.drop_last(), t, nt);
    }
}

/// A thread seq with no preemption position anywhere holds no preemptions.
proof fn lemma_count_zero(dirs: Seq<Directive>)
    requires
        forall|j: int| 0 <= j < dirs.len() ==> !dirs[j].preemptive,
    ensures
        count_preempts(dirs) == 0,
    decreases dirs.len(),
{
    if dirs.len() > 0 {
        lemma_count_zero(dirs.drop_last());
    }
}

proof fn lemma_total_zero(ts: Seq<ThreadModel>)
    requires
        forall|t: int, j: int| !preempt_pos(ts, t, j),
    ensures
        total_preempts(ts) == 0,
    decreases ts.len(),
{
    if ts.len() > 0 {
        assert forall|t: int, j: int| !preempt_pos(ts.drop_last(), t, j) by {
            if preempt_pos(ts.drop_last(), t, j) {
                assert(ts.drop_last()[t] == ts[t]);
                assert(preempt_pos(ts, t, j));
            }
        }
        lemma_total_zero(ts.drop_last());
        let t = ts.len() - 1;
        assert forall|j: int| 0 <= j < ts[t].dirs.len() implies !ts[t].dirs[j].preemptive by {
            assert(!preempt_pos(ts, t, j));
        }
        lemma_count_zero(ts[t].dirs);
        assert(ts.last() == ts[t]);
    }
}

fn copy_dirs(v: &Vec<Directive>) -> (r: Vec<Directive>)
    ensures
        r@ == v@,
{
    let mut r: Vec<Directive> = Vec::new();
    let mut i: usize = 0;
    while i < v.len()
        invariant
            i <= v.len(),
            r@ =~= v@.take(i as int),
        decreases v.len() - i,
    {
        r.push(v[i]);
        i = i + 1;
    }
    proof {
        assert(v@.take(i as int) =~= v@);
    }
    r
}

fn copy_events(v: &Vec<SchedEvent>) -> (r: Vec<SchedEvent>)
    ensures
        r@ == v@,
{
    let mut r: Vec<SchedEvent> = Vec::new();
    let mut i: usize = 0;
    while i < v.len()
        invariant
            i <= v.len(),
            r@ =~= v@.take(i as int),
        decreases v.len() - i,
    {
        r.push(v[i]);
        i = i + 1;
    }
    proof {
        assert(v@.take(i as int) =~= v@);
    }
    r
}

/// Whether position `(t2, j2)` lies before `(t, j)` in scan order.
pub open spec fn scanned_before(t2: int, j2: int, t: int, j: int) -> bool {
    t2 < t || (t2 == t && j2 < j)
}

impl PreemptionRecord {
    /// The record with its latest preemption dropped; a record with no
    /// preemptions is returned unchanged.  When a preemption is dropped, the
    /// total strictly shrinks by exactly one.
    pub fn with_latest_preempt_removed(&self) -> (r: PreemptionRecord)
        ensures
            total_preempts(self@.threads) == 0 ==> r@.threads =~= self@.threads,
            total_preempts(self@.threads) > 0 ==> exists|t: int, j: int|
                #[trigger] latest_pos(self@.threads, t, j) && removal_at(
                    self@.threads,
                    t,
                    j,
                    r@.threads,
                ),
            total_preempts(r@.threads) == if total_preempts(self@.threads) == 0 {
                0nat
            } else {
                (total_preempts(self@.threads) - 1) as nat
            },
            r@.events == self@.events,
            r@ == spec_knockout(self@),
    {
        let ghost ts = self@.threads;
        let n = self.threads.len();
        let mut have: bool = false;
        let mut bt: usize = 0;
        let mut bj: usize = 0;
        let mut bidx: u64 = 0;
        let mut t: usize = 0;
        while t < n
            invariant
                t <= n,
                n == self.threads.len(),
                ts == self@.threads,
                !have ==> forall|t2: int, j2: int|
                    #[trigger] preempt_pos(ts, t2, j2) ==> !scanned_before(t2, j2, t as int, 0),
                have ==> {
                    &&& preempt_pos(ts, bt as int, bj as int)
                    &&& scanned_before(bt as int, bj as int, t as int, 0)
                    &&& bidx == ts[bt as int].dirs[bj as int].index
                    &&& forall|t2: int, j2: int|
                        #[trigger] preempt_pos(ts, t2, j2) && scanned_before(t2, j2, t as int, 0)
                            ==> ts[t2].dirs[j2].index <= bidx
                    &&& forall|t2: int, j2: int|
                        #[trigger] preempt_pos(ts, t2, j2) && scanned_before(t2, j2, t as int, 0)
                            && ts[t2].dirs[j2].index == bidx ==> (t2 > bt as int || (t2 == bt as int
                            && j2 >= bj as int))
                },
            decreases n - t,
        {
            let dirs = &self.threads[t].dirs;
            let m = dirs.len();
            let mut j: usize = 0;
            while j < m
                invariant
                    t < n,
                    n == self.threads.len(),
                    j <= m,
                    m == dirs.len(),
                    dirs == &self.threads[t as int].dirs,
                    ts == self@.threads,
                    !have ==> forall|t2: int, j2: int|
                        #[trigger] preempt_pos(ts, t2, j2) ==> !scanned_before(
                            t2,
                            j2,
                            t as int,
                            j as int,
                        ),
                    have ==> {
                        &&& preempt_pos(ts, bt as int, bj as int)
                        &&& scanned_before(bt as int, bj as int, t as int, j as int)
                        &&& bidx == ts[bt as int].dirs[bj as int].index
                        &&& forall|t2: int, j2: int|
                            #[trigger] preempt_pos(ts, t2, j2) && scanned_before(
                                t2,
                                j2,
                                t as int,
                                j as int,
                            ) ==> ts[t2].dirs[j2].index <= bidx
                        &&& forall|t2: int, j2: int|
                            #[trigger] preempt_pos(ts, t2, j2) && scanned_before(
                                t2,
                                j2,
                                t as int,
                                j as int,
                            ) && ts[t2].dirs[j2].index == bidx ==> (t2 > bt as int || (t2 == bt
                                as int && j2 >= bj as int))
                    },
                decreases m - j,
            {
                proof {
                    assert(ts[t as int].dirs == dirs@);
                }
                if dirs[j].preemptive {
                    if !have || dirs[j].index > bidx {
                        have = true;
                        bt = t;
                        bj = j;
                        bidx = dirs[j].index;
                    }
                }
                j = j + 1;
            }
            proof {
                assert(ts[t as int].dirs == dirs@);
                assert forall|t2: int, j2: int|
                    #[trigger] preempt_pos(ts, t2, j2) && scanned_before(
                        t2,
                        j2,
                        t + 1,
                        0,
                    ) implies scanned_before(t2, j2, t as int, m as int) by {
                    if t2 == t as int {
                        assert(j2 < ts[t as int].dirs.len());
                    }
                }
            }
            t = t + 1;
        }
        if !have {
            proof {
                assert forall|t2: int, j2: int| !preempt_pos(ts, t2, j2) by {
                    if preempt_pos(ts, t2, j2) {
                        assert(scanned_before(t2, j2, n as int, 0));
                    }
                }
                lemma_total_zero(ts);
            }
            let mut out: Vec<ThreadDirectives> = Vec::new();
            let mut i: usize = 0;
            while i < self.threads.len()
                invariant
                    i <= self.threads.len(),
                    out@.len() == i,
                    forall|k: int| 0 <= k < i ==> out@[k]@ == self@.threads[k],
                decreases self.threads.len() - i,
            {
                out.push(
                    ThreadDirectives {
                        tid: self.threads[i].tid,
                        dirs: copy_dirs(&self.threads[i].dirs),
                    },
                );
                i = i + 1;
            }
            let r = PreemptionRecord { threads: out, events: copy_events(&self.events) };
            proof {
                assert(r@.threads =~= self@.threads);
                assert(r@ =~= spec_knockout(self@));
            }
            return r;
        }
        proof {
            assert forall|t2: int, j2: int|
                #[trigger] preempt_pos(ts, t2, j2) implies scanned_before(t2, j2, n as int, 0) by {}
            assert(latest_pos(ts, bt as int, bj as int));
        }
        let r = self.remove_directive(bt, bj);
        proof {
            lemma_count_le_total(ts, bt as int);
            let (ct, cj) = choose|ct: int, cj: int| latest_pos(ts, ct, cj);
            lemma_latest_pos_unique(ts, bt as int, bj as int, ct, cj);
            assert(r@ =~= spec_knockout(self@));
        }
        r
    }

    /// The record with the directive at position `(t, j)` removed.
    pub fn remove_directive(&self, bt: usize, bj: usize) -> (r: PreemptionRecord)
        requires
            (bt as int) < self@.threads.len(),
            (bj as int) < self@.threads[bt as int].dirs.len(),
        ensures
            removal_at(self@.threads, bt as int, bj as int, r@.threads),
            r@.events == self@.events,
            self@.threads[bt as int].dirs[bj as int].preemptive ==> total_preempts(r@.threads) + 1
                == total_preempts(self@.threads),
    {
        let ghost ts = self@.threads;
        let n = self.threads.len();
        let mut out: Vec<ThreadDirectives> = Vec::new();
        let mut i: usize = 0;
        while i < self.threads.len()
            invariant
                i <= self.threads.len(),
                n == self.threads.len(),
                bt < n,
                bj < self@.threads[bt as int].dirs.len(),
                ts == self@.threads,
                out@.len() == i,
                forall|k: int| 0 <= k < i && k != bt as int ==> out@[k]@ == ts[k],
                (bt as int) < i ==> out@[bt as int]@ == (ThreadModel {
                    tid: ts[bt as int].tid,
                    dirs: ts[bt as int].dirs.take(bj as int) + ts[bt as int].dirs.skip(bj + 1),
                }),
            decreases self.threads.len() - i,
        {
            if i == bt {
                let dirs = &self.threads[i].dirs;
                let mut nd: Vec<Directive> = Vec::new();
                let mut j: usize = 0;
                while j < dirs.len()
                    invariant
                        j <= dirs.len(),
                        bj < dirs.len(),
                        dirs == &self.threads[bt as int].dirs,
                        ts == self@.threads,
                        bt < self.threads.len(),
                        j <= bj ==> nd@ =~= dirs@.take(j as int),
                        j > bj ==> nd@ =~= dirs@.take(bj as int) + dirs@.subrange(bj + 1, j as int),
                    decreases dirs.len() - j,
                {
                    if j != bj {
                        nd.push(dirs[j]);
                        proof {
                            if j > bj {
                                assert(dirs@.take(bj as int) + dirs@.subrange(bj + 1, j + 1) =~= (
                                dirs@.take(bj as int) + dirs@.subrange(bj + 1, j as int)).push(
                                    dirs@[j as int],
                                ));
                            } else {
                                assert(dirs@.take(j + 1) =~= dirs@.take(j as int).push(
                                    dirs@[j as int],
                                ));
                                if j + 1 > bj as int {
                                    assert(dirs@.take(bj as int) + dirs@.subrange(bj + 1, j + 1)
                                        =~= dirs@.take(j + 1));
                                }
                            }
                        }
                    }
                    j = j + 1;
                }
                proof {
                    assert(dirs@.subrange(bj + 1, dirs@.len() as int) =~= dirs@.skip(bj + 1));
                    assert(ts[bt as int].dirs == dirs@);
                }
                out.push(ThreadDirectives { tid: self.threads[i].tid, dirs: nd });
            } else {
                out.push(
                    ThreadDirectives {
                        tid: self.threads[i].tid,
                        dirs: copy_dirs(&self.threads[i].dirs),
                    },
                );
            }
            i = i + 1;
        }
        let r = PreemptionRecord { threads: out, events: copy_events(&self.events) };
        proof {
            let nt = ThreadModel {
                tid: ts[bt as int].tid,
                dirs: ts[bt as int].dirs.take(bj as int) + ts[bt as int].dirs.skip(bj + 1),
            };
            assert(r@.threads =~= ts.update(bt as int, nt));
            assert(removal_at(ts, bt as int, bj as int, r@.threads));
            if ts[bt as int].dirs[bj as int].preemptive {
                lemma_count_remove(ts[bt as int].dirs, bj as int);
                lemma_total_update(ts, bt as int, nt);
            }
        }
        r
    }
}

/// Thread entries ordered by thread id.
pub open spec fn sorted_by_tid(ts: Seq<ThreadModel>) -> bool {
    forall|i: int, j: int| 0 <= i < j < ts.len() ==> #[trigger] ts[i].tid <= #[trigger] ts[j].tid
}

/// No thread entry with an empty directive list.
pub open spec fn no_empty_threads(ts: Seq<ThreadModel>) -> bool {
    forall|i: int| 0 <= i < ts.len() ==> #[trigger] ts[i].dirs.len() != 0
}

/// The thread entries with the empty ones dropped, order kept.
pub open spec fn drop_empty(ts: Seq<ThreadModel>) -> Seq<ThreadModel>
    decreases ts.len(),
{
    if ts.len() == 0 {
        Seq::empty()
    } else if ts.last().dirs.len() == 0 {
        drop_empty(ts.drop_last())
    } else {
        drop_empty(ts.drop_last()).push(ts.last())
    }
}

/// `x` inserted into `ts` before the first entry with a greater thread id.
pub open spec fn insert_by_tid(x: ThreadModel, ts: Seq<ThreadModel>) -> Seq<ThreadModel>
    decreases ts.len(),
{
    if ts.len() == 0 {
        seq![x]
    } else if x.tid < ts[0].tid {
        seq![x] + ts
    } else {
        seq![ts[0]] + insert_by_tid(x, ts.drop_first())
    }
}

/// Insertion sort of the thread entries by thread id.
pub open spec fn sort_by_tid(ts: Seq<ThreadModel>) -> Seq<ThreadModel>
    decreases ts.len(),
{
    if ts.len() == 0 {
        Seq::empty()
    } else {
        insert_by_tid(ts.last(), sort_by_tid(ts.drop_last()))
    }
}

/// The canonical form of a record's thread entries: empty entries dropped,
/// the rest ordered by thread id.
pub open spec fn spec_normalize(ts: Seq<ThreadModel>) -> Seq<ThreadModel> {
    sort_by_tid(drop_empty(ts))
}

proof fn lemma_insert_props(x: ThreadModel, ts: Seq<ThreadModel>)
    requires
        sorted_by_tid(ts),
    ensures
        sorted_by_tid(insert_by_tid(x, ts)),
        insert_by_tid(x, ts).len() == ts.len() + 1,
        forall|i: int|
            0 <= i < insert_by_tid(x, ts).len() ==> #[trigger] insert_by_tid(x, ts)[i] == x
                || ts.contains(insert_by_tid(x, ts)[i]),
    decreases ts.len(),
{
    let out = insert_by_tid(x, ts);
    if ts.len() == 0 {
    } else if x.tid < ts[0].tid {
        assert(out =~= seq![x] + ts);
        assert forall|i: int, j: int| 0 <= i < j < out.len() implies #[trigger] out[i].tid
            <= #[trigger] out[j].tid by {
            if i == 0 {
                assert(out[j] == ts[j - 1]);
                if j > 1 {
                    assert(ts[0].tid <= ts[j - 1].tid);
                }
            } else {
                assert(out[i] == ts[i - 1] && out[j] == ts[j - 1]);
            }
        }
        assert forall|i: int| 0 <= i < out.len() implies #[trigger] out[i] == x || ts.contains(
            out[i],
        ) by {
            if i > 0 {
                assert(out[i] == ts[i - 1]);
            }
        }
    } else {
        let rest = ts.drop_first();
        assert forall|i: int, j: int| 0 <= i < j < rest.len() implies #[trigger] rest[i].tid
            <= #[trigger] rest[j].tid by {
            assert(ts[i + 1].tid <= ts[j + 1].tid);
        }
        lemma_insert_props(x, rest);
        let sub = insert_by_tid(x, rest);
        assert(out =~= seq![ts[0]] + sub);
        assert forall|i: int, j: int| 0 <= i < j < out.len() implies #[trigger] out[i].tid
            <= #[trigger] out[j].tid by {
            if i == 0 {
                assert(out[j] == sub[j - 1]);
                if sub[j - 1] == x {
                    assert(ts[0].tid <= x.tid);
                } else {
                    assert(rest.contains(sub[j - 1]));
                    let k = choose|k: int| 0 <= k < rest.len() && rest[k] == sub[j - 1];
                    if ts.len() > 1 {
                        assert(ts[0].tid <= ts[k + 1].tid);
                    }
                }
            } else {
                assert(out[i] == sub[i - 1] && out[j] == sub[j - 1]);
            }
        }
        assert forall|i: int| 0 <= i < out.len() implies #[trigger] out[i] == x || ts.contains(
            out[i],
        ) by {
            if i == 0 {
                assert(ts[0] == out[0]);
                assert(ts.contains(ts[0]));
            } else {
                assert(out[i] == sub[i - 1]);
                if sub[i - 1] != x {
                    assert(rest.contains(sub[i - 1]));
                    let k = choose|k: int| 0 <= k < rest.len() && rest[k] == sub[i - 1];
                    assert(ts[k + 1] == sub[i - 1]);
                    assert(ts.contains(ts[k + 1]));
                }
            }
        }
    }
}

proof fn lemma_sort_props(ts: Seq<ThreadModel>)
    ensures
        sorted_by_tid(sort_by_tid(ts)),
        sort_by_tid(ts).len() == ts.len(),
        forall|i: int|
            0 <= i < sort_by_tid(ts).len() ==> ts.contains(#[trigger] sort_by_tid(ts)[i]),
    decreases ts.len(),
{
    let out = sort_by_tid(ts);
    if ts.len() == 0 {
    } else {
        lemma_sort_props(ts.drop_last());
        lemma_insert_props(ts.last(), sort_by_tid(ts.drop_last()));
        assert forall|i: int| 0 <= i < out.len() implies ts.contains(#[trigger] out[i]) by {
            if out[i] == ts.last() {
                assert(ts[ts.len() - 1] == ts.last());
            } else {
                assert(sort_by_tid(ts.drop_last()).contains(out[i]));
                let k = choose|k: int|
                    0 <= k < sort_by_tid(ts.drop_last()).len() && sort_by_tid(ts.drop_last())[k]
                        == out[i];
                assert(ts.drop_last().contains(sort_by_tid(ts.drop_last())[k]));
                let k2 = choose|k2: int|
                    0 <= k2 < ts.drop_last().len() && ts.drop_last()[k2] == out[i];
                assert(ts[k2] == out[i]);
            }
        }
    }
}

proof fn lemma_insert_all_le(x: ThreadModel, ts: Seq<ThreadModel>)
    requires
        forall|i: int| 0 <= i < ts.len() ==> #[trigger] ts[i].tid <= x.tid,
    ensures
        insert_by_tid(x, ts) =~= ts.push(x),
    decreases ts.len(),
{
    if ts.len() == 0 {
    } else {
        assert(ts[0].tid <= x.tid);
        let rest = ts.drop_first();
        assert forall|i: int| 0 <= i < rest.len() implies #[trigger] rest[i].tid <= x.tid by {
            assert(ts[i + 1].tid <= x.tid);
        }
        lemma_insert_all_le(x, rest);
    }
}

proof fn lemma_sort_id(ts: Seq<ThreadModel>)
    requires
        sorted_by_tid(ts),
    ensures
        sort_by_tid(ts) =~= ts,
    decreases ts.len(),
{
    if ts.len() > 0 {
        let front = ts.drop_last();
        assert forall|i: int, j: int| 0 <= i < j < front.len() implies #[trigger] front[i].tid
            <= #[trigger] front[j].tid by {
            assert(ts[i].tid <= ts[j].tid);
        }
        lemma_sort_id(front);
        assert forall|i: int| 0 <= i < front.len() implies #[trigger] front[i].tid
            <= ts.last().tid by {
            assert(ts[i].tid <= ts[ts.len() - 1].tid);
        }
        lemma_insert_all_le(ts.last(), front);
        assert(front.push(ts.last()) =~= ts);
    }
}

proof fn lemma_drop_empty_props(ts: Seq<ThreadModel>)
    ensures
        no_empty_threads(drop_empty(ts)),
        no_empty_threads(ts) ==> drop_empty(ts) =~= ts,
    decreases ts.len(),
{
    if ts.len() > 0 {
        lemma_drop_empty_props(ts.drop_last());
        if no_empty_threads(ts) {
            assert forall|i: int| 0 <= i < ts.drop_last().len() implies #[trigger] ts.drop_last(
            )[i].dirs.len() != 0 by {
                assert(ts[i].dirs.len() != 0);
            }
            assert(ts.last().dirs.len() != 0);
        }
    }
}

/// Canonicalization is idempotent: normalizing a normalized record changes
/// nothing.
pub proof fn lemma_normalize_idempotent(ts: Seq<ThreadModel>)
    ensures
        spec_normalize(spec_normalize(ts)) == spec_normalize(ts),
{
    let n1 = spec_normalize(ts);
    lemma_drop_empty_props(ts);
    lemma_sort_props(drop_empty(ts));
    assert forall|i: int| 0 <= i < n1.len() implies #[trigger] n1[i].dirs.len() != 0 by {
        assert(drop_empty(ts).contains(n1[i]));
        let k = choose|k: int| 0 <= k < drop_empty(ts).len() && drop_empty(ts)[k] == n1[i];
        assert(drop_empty(ts)[k].dirs.len() != 0);
    }
    lemma_drop_empty_props(n1);
    assert(drop_empty(n1) =~= n1);
    lemma_sort_id(n1);
}

impl PreemptionRecord {
    /// The canonical form of the record: thread entries with no directives are
    /// dropped and the rest are ordered by thread id.  The schedule trace is
    /// untouched.
    pub fn normalize(&self) -> (r: PreemptionRecord)
        ensures
            r@.threads == spec_normalize(self@.threads),
            r@.events == self@.events,
    {
        let ghost ts = self@.threads;
        let n = self.threads.len();
        let mut out: Vec<ThreadDirectives> = Vec::new();
        let mut t: usize = 0;
        while t < n
            invariant
                t <= n,
                n == self.threads.len(),
                ts == self@.threads,
                out@.len() <= t,
                Seq::new(out@.len(), |i: int| out@[i]@) =~= spec_normalize(ts.take(t as int)),
            decreases n - t,
        {
            let ghost prev = Seq::new(out@.len(), |i: int| out@[i]@);
            proof {
                assert(ts.take(t + 1).drop_last() =~= ts.take(t as int));
                assert(ts.take(t + 1).last() == ts[t as int]);
            }
            if self.threads[t].dirs.len() > 0 {
                let x = ThreadDirectives {
                    tid: self.threads[t].tid,
                    dirs: copy_dirs(&self.threads[t].dirs),
                };
                let ghost xm = x@;
                let mut k: usize = 0;
                while k < out.len()
                    invariant_except_break
                        k <= out.len(),
                        forall|i: int| 0 <= i < k ==> #[trigger] out@[i]@.tid <= xm.tid,
                        xm == x@,
                    ensures
                        k <= out.len(),
                        forall|i: int| 0 <= i < k ==> #[trigger] out@[i]@.tid <= xm.tid,
                        k < out.len() ==> out@[k as int]@.tid > xm.tid,
                        xm == x@,
                    decreases out.len() - k,
                {
                    if out[k].tid > x.tid {
                        break ;
                    }
                    k = k + 1;
                }
                proof {
                    assert(drop_empty(ts.take(t + 1)) =~= drop_empty(ts.take(t as int)).push(xm));
                    assert(spec_normalize(ts.take(t + 1)) == insert_by_tid(xm, prev)) by {
                        assert(drop_empty(ts.take(t as int)).push(xm).drop_last() =~= drop_empty(
                            ts.take(t as int),
                        ));
                    }
                    lemma_insert_prefix(xm, prev, k as int);
                }
                out.insert(k, x);
                proof {
                    assert(Seq::new(out@.len(), |i: int| out@[i]@) =~= prev.take(k as int) + seq![
                        xm,
                    ] + prev.skip(k as int));
                }
            } else {
                proof {
                    assert(drop_empty(ts.take(t + 1)) =~= drop_empty(ts.take(t as int)));
                }
            }
            t = t + 1;
        }
        proof {
            assert(ts.take(t as int) =~= ts);
        }
        let r = PreemptionRecord { threads: out, events: copy_events(&self.events) };
        r
    }
}

/// `insert_by_tid` splices at the first position whose tid is greater.
proof fn lemma_insert_prefix(x: ThreadModel, ts: Seq<ThreadModel>, k: int)
    requires
        0 <= k <= ts.len(),
        forall|i: int| 0 <= i < k ==> #[trigger] ts[i].tid <= x.tid,
        k < ts.len() ==> ts[k].tid > x.tid,
    ensures
        insert_by_tid(x, ts) =~= ts.take(k) + seq![x] + ts.skip(k),
    decreases k,
{
    if k == 0 {
        if ts.len() == 0 {
            assert(insert_by_tid(x, ts) =~= ts.take(0) + seq![x] + ts.skip(0));
        } else {
            assert(x.tid < ts[0].tid);
            assert(insert_by_tid(x, ts) =~= seq![x] + ts);
            assert(ts.take(0) + seq![x] + ts.skip(0) =~= seq![x] + ts);
        }
    } else {
        assert(ts[0].tid <= x.tid);
        let rest = ts.drop_first();
        assert forall|i: int| 0 <= i < k - 1 implies #[trigger] rest[i].tid <= x.tid by {
            assert(ts[i + 1].tid <= x.tid);
        }
        assert(k - 1 < rest.len() ==> rest[k - 1].tid > x.tid);
        lemma_insert_prefix(x, rest, k - 1);
        assert(insert_by_tid(x, ts) =~= seq![ts[0]] + insert_by_tid(x, rest));
        assert(seq![ts[0]] + (rest.take(k - 1) + seq![x] + rest.skip(k - 1)) =~= ts.take(k) + seq![
            x,
        ] + ts.skip(k));
    }
}

/// A thread entry is internally consistent when its directive indices are
/// strictly increasing.
pub open spec fn thread_well_formed(t: ThreadModel) -> bool {
    forall|j1: int, j2: int|
        0 <= j1 < j2 < t.dirs.len() ==> #[trigger] t.dirs[j1].index < #[trigger] t.dirs[j2].index
}

/// No two thread entries share a thread id.
pub open spec fn tids_distinct(ts: Seq<ThreadModel>) -> bool {
    forall|i: int, j: int| 0 <= i < j < ts.len() ==> #[trigger] ts[i].tid != #[trigger] ts[j].tid
}

/// Internal consistency of a whole record.
pub open spec fn record_well_formed(m: RecordModel) -> bool {
    &&& tids_distinct(m.threads)
    &&& forall|i: int| 0 <= i < m.threads.len() ==> thread_well_formed(#[trigger] m.threads[i])
}

/// Why a record failed its consistency check.
#[derive(Clone, Copy, PartialEq, Eq, Structural, Debug)]
pub enum ValidateError {
    RepeatedTid,
    UnorderedDirectives,
}

proof fn lemma_adjacent_increasing(dirs: Seq<Directive>, j1: int, j2: int)
    requires
        forall|j: int| 0 <= j < dirs.len() - 1 ==> #[trigger] dirs[j].index < dirs[j + 1].index,
        0 <= j1 < j2 < dirs.len(),
    ensures
        dirs[j1].index < dirs[j2].index,
    decreases j2 - j1,
{
    if j2 == j1 + 1 {
        assert(dirs[j1].index < dirs[j1 + 1].index);
    } else {
        lemma_adjacent_increasing(dirs, j1, j2 - 1);
        assert(dirs[j2 - 1].index < dirs[(j2 - 1) + 1].index);
    }
}

impl PreemptionRecord {
    /// Check the record's internal consistency: distinct thread ids, and
    /// strictly increasing directive indices within each thread.  A repeated
    /// thread id is reported first.
    pub fn validate(&self) -> (r: Result<(), ValidateError>)
        ensures
            r is Ok <==> record_well_formed(self@),
            r == Err::<(), ValidateError>(ValidateError::RepeatedTid) <==> !tids_distinct(
                self@.threads,
            ),
    {
        let ghost ts = self@.threads;
        let n = self.threads.len();
        let mut t: usize = 0;
        while t < n
            invariant
                t <= n,
                n == self.threads.len(),
                ts == self@.threads,
                forall|i: int, j: int| 0 <= i < j < ts.len() && i < t ==> ts[i].tid != ts[j].tid,
            decreases n - t,
        {
            let mut u: usize = t + 1;
            while u < n
                invariant
                    t < u <= n,
                    n == self.threads.len(),
                    ts == self@.threads,
                    forall|j: int| (t as int) < j < u ==> ts[t as int].tid != ts[j].tid,
                decreases n - u,
            {
                if self.threads[t].tid == self.threads[u].tid {
                    proof {
                        assert(ts[t as int].tid == ts[u as int].tid);
                        assert(!tids_distinct(ts));
                    }
                    return Err(ValidateError::RepeatedTid);
                }
                u = u + 1;
            }
            t = t + 1;
        }
        proof {
            assert(tids_distinct(ts));
        }
        let mut t: usize = 0;
        while t < n
            invariant
                t <= n,
                n == self.threads.len(),
                ts == self@.threads,
                tids_distinct(ts),
                forall|i: int| 0 <= i < t ==> thread_well_formed(#[trigger] ts[i]),
            decreases n - t,
        {
            let dirs = &self.threads[t].dirs;
            let m = dirs.len();
            if m > 0 {
                let mut j: usize = 0;
                while j + 1 < m
                    invariant
                        j < m,
                        m == dirs.len(),
                        dirs == &self.threads[t as int].dirs,
                        t < n,
                        n == self.threads.len(),
                        ts == self@.threads,
                        tids_distinct(ts),
                        forall|i: int|
                            0 <= i < j ==> #[trigger] dirs@[i].index < dirs@[i + 1].index,
                    decreases m - j,
                {
                    if dirs[j].index >= dirs[j + 1].index {
                        proof {
                            assert(ts[t as int].dirs == dirs@);
                            assert(!thread_well_formed(ts[t as int]));
                            assert(!record_well_formed(self@));
                        }
                        return Err(ValidateError::UnorderedDirectives);
                    }
                    j = j + 1;
                }
                proof {
                    assert(ts[t as int].dirs == dirs@);
                    assert forall|j1: int, j2: int|
                        0 <= j1 < j2 < dirs@.len() implies #[trigger] dirs@[j1].index
                        < #[trigger] dirs@[j2].index by {
                        lemma_adjacent_increasing(dirs@, j1, j2);
                    }
                    assert(thread_well_formed(ts[t as int]));
                }
            } else {
                proof {
                    assert(ts[t as int].dirs == dirs@);
                    assert(thread_well_formed(ts[t as int]));
                }
            }
            t = t + 1;
        }
        Ok(())
    }
}

/// A prefix never holds more preemptions than the whole.
proof fn lemma_count_mono_take(dirs: Seq<Directive>, j: int)
    requires
        0 <= j <= dirs.len(),
    ensures
        count_preempts(dirs.take(j)) <= count_preempts(dirs),
    decreases dirs.len() - j,
{
    if j == dirs.len() {
        assert(dirs.take(j) =~= dirs);
    } else {
        assert(dirs.take(j + 1).drop_last() =~= dirs.take(j));
        lemma_count_mono_take(dirs, j + 1);
    }
}

} // verus!
