//! The minimizer: drop preemptions one at a time, keeping only those the
//! criterion needs, scanning from the latest position backward.

use vstd::prelude::*;

use crate::record::preempt_pos;
use crate::record::removal_at;
use crate::record::PreemptionRecord;
use crate::record::ThreadModel;

verus! {

/// Position `(t1, j1)` is at or before `(t2, j2)` in directive order.
pub open spec fn pos_le(t1: int, j1: int, t2: int, j2: int) -> bool {
    t1 < t2 || (t1 == t2 && j1 <= j2)
}

/// Position `(t1, j1)` is strictly before `(t2, j2)` in directive order.
pub open spec fn pos_lt(t1: int, j1: int, t2: int, j2: int) -> bool {
    t1 < t2 || (t1 == t2 && j1 < j2)
}

/// A valid directive position of a record.
pub open spec fn valid_dir_pos(ts: Seq<ThreadModel>, t: int, j: int) -> bool {
    0 <= t < ts.len() && 0 <= j < ts[t].dirs.len()
}

/// State of a minimization: the record currently known to match, and the
/// next directive position to try a knockout at, scanning backward.  The
/// record tagged in `current` has always been confirmed matching by the
/// caller before it was stored.
pub struct Minimizer {
    pub current: PreemptionRecord,
    pub cursor: Option<(usize, usize)>,
}

/// The cursor is a valid position, when present.
pub open spec fn cursor_ok(ts: Seq<ThreadModel>, c: Option<(usize, usize)>) -> bool {
    match c {
        Option::None => true,
        Option::Some((t, j)) => valid_dir_pos(ts, t as int, j as int),
    }
}

/// `c` is the greatest valid position strictly before thread `t0`, or there
/// is none at all.
pub open spec fn greatest_before_thread(
    ts: Seq<ThreadModel>,
    t0: int,
    c: Option<(usize, usize)>,
) -> bool {
    match c {
        Option::None => forall|t2: int, j2: int|
            #[trigger] valid_dir_pos(ts, t2, j2) ==> t2 >= t0,
        Option::Some((t, j)) => {
            &&& valid_dir_pos(ts, t as int, j as int)
            &&& (t as int) < t0
            &&& forall|t2: int, j2: int|
                #[trigger] valid_dir_pos(ts, t2, j2) && t2 < t0 ==> pos_le(
                    t2,
                    j2,
                    t as int,
                    j as int,
                )
        },
    }
}

/// Find the greatest directive position strictly before thread `t0`,
/// scanning threads backward.
fn last_pos_before_thread(rec: &PreemptionRecord, t0: usize) -> (r: Option<(usize, usize)>)
    requires
        (t0 as int) <= rec@.threads.len(),
    ensures
        greatest_before_thread(rec@.threads, t0 as int, r),
{
    let mut t: usize = t0;
    while t > 0
        invariant
            t <= t0,
            (t0 as int) <= rec@.threads.len(),
            forall|t2: int, j2: int|
                #[trigger] valid_dir_pos(rec@.threads, t2, j2) && t2 < t0 ==> t2 < t,
        decreases t,
    {
        t = t - 1;
        let m = rec.threads[t].dirs.len();
        if m > 0 {
            return Option::Some((t, m - 1));
        }
    }
    Option::None
}

/// `c` is the greatest valid position strictly before `(bt, bj)`, or there
/// is none at all.
pub open spec fn greatest_below(
    ts: Seq<ThreadModel>,
    bt: int,
    bj: int,
    c: Option<(usize, usize)>,
) -> bool {
    match c {
        Option::None => forall|t2: int, j2: int|
            #[trigger] valid_dir_pos(ts, t2, j2) ==> !pos_lt(t2, j2, bt, bj),
        Option::Some((t, j)) => {
            &&& valid_dir_pos(ts, t as int, j as int)
            &&& pos_lt(t as int, j as int, bt, bj)
            &&& forall|t2: int, j2: int|
                #[trigger] valid_dir_pos(ts, t2, j2) && pos_lt(t2, j2, bt, bj) ==> pos_le(
                    t2,
                    j2,
                    t as int,
                    j as int,
                )
        },
    }
}

/// The greatest valid position strictly before `(bt, bj)`.
fn prev_pos(rec: &PreemptionRecord, bt: usize, bj: usize) -> (r: Option<(usize, usize)>)
    requires
        (bt as int) < rec@.threads.len(),
        (bj as int) <= rec@.threads[bt as int].dirs.len(),
    ensures
        greatest_below(rec@.threads, bt as int, bj as int, r),
{
    if bj > 0 {
        Option::Some((bt, bj - 1))
    } else {
        let r = last_pos_before_thread(rec, bt);
        proof {
            assert forall|t2: int, j2: int|
                #[trigger] valid_dir_pos(rec@.threads, t2, j2) && pos_lt(
                    t2,
                    j2,
                    bt as int,
                    0,
                ) implies t2 < bt as int by {}
        }
        r
    }
}

impl Minimizer {
    /// Begin minimizing a record that matches the criterion.  The cursor
    /// starts at the last directive position of the record.
    pub fn minimize_start(record: PreemptionRecord) -> (m: Minimizer)
        ensures
            m.current@ == record@,
            cursor_ok(m.current@.threads, m.cursor),
            m.cursor is None ==> forall|t2: int, j2: int|
                !#[trigger] valid_dir_pos(m.current@.threads, t2, j2),
            m.cursor matches Some(p) ==> forall|t2: int, j2: int|
                #[trigger] valid_dir_pos(m.current@.threads, t2, j2) ==> pos_le(
                    t2,
                    j2,
                    p.0 as int,
                    p.1 as int,
                ),
    {
        let n = record.threads.len();
        let cursor = last_pos_before_thread(&record, n);
        Minimizer { current: record, cursor }
    }

    /// The next knockout candidate: the record with the preemption at the
    /// cursor removed, the cursor first advanced backward past directive
    /// entries that are not preemptions.  `None` exactly when no preemption
    /// remains at or before the cursor: every position has then been tried
    /// and the record is locally minimal for this knockout operator.
    pub fn next_candidate(&mut self) -> (r: Option<PreemptionRecord>)
        requires
            cursor_ok(old(self).current@.threads, old(self).cursor),
        ensures
            final(self).current@ == old(self).current@,
            cursor_ok(final(self).current@.threads, final(self).cursor),
            r is None ==> final(self).cursor is None && (match old(self).cursor {
                Option::None => true,
                Option::Some(op) => forall|t2: int, j2: int|
                    #[trigger] preempt_pos(old(self).current@.threads, t2, j2) ==> !pos_le(
                        t2,
                        j2,
                        op.0 as int,
                        op.1 as int,
                    ),
            }),
            r matches Some(cand) ==> {
                &&& final(self).cursor matches Some(p) && {
                    &&& preempt_pos(final(self).current@.threads, p.0 as int, p.1 as int)
                    &&& removal_at(
                        final(self).current@.threads,
                        p.0 as int,
                        p.1 as int,
                        cand@.threads,
                    )
                    &&& (match old(self).cursor {
                        Option::None => false,
                        Option::Some(op) => pos_le(
                            p.0 as int,
                            p.1 as int,
                            op.0 as int,
                            op.1 as int,
                        ) && forall|t2: int, j2: int|
                            #[trigger] preempt_pos(old(self).current@.threads, t2, j2) && pos_le(
                                t2,
                                j2,
                                op.0 as int,
                                op.1 as int,
                            ) ==> pos_le(t2, j2, p.0 as int, p.1 as int),
                    })
                }
                &&& cand@.events == final(self).current@.events
            },
    {
        let ghost ts = self.current@.threads;
        let ghost start = self.cursor;
        loop
            invariant
                self.current == old(self).current,
                ts == self.current@.threads,
                cursor_ok(ts, self.cursor),
                match self.cursor {
                    Option::None => (match start {
                        Option::None => true,
                        Option::Some(op) => forall|t2: int, j2: int|
                            #[trigger] preempt_pos(ts, t2, j2) ==> !pos_le(
                                t2,
                                j2,
                                op.0 as int,
                                op.1 as int,
                            ),
                    }),
                    Option::Some(c) => (match start {
                        Option::None => false,
                        Option::Some(op) => pos_le(
                            c.0 as int,
                            c.1 as int,
                            op.0 as int,
                            op.1 as int,
                        ) && forall|t2: int, j2: int|
                            #[trigger] preempt_pos(ts, t2, j2) && pos_le(
                                t2,
                                j2,
                                op.0 as int,
                                op.1 as int,
                            ) ==> pos_le(t2, j2, c.0 as int, c.1 as int),
                    }),
                },
            ensures
                self.current == old(self).current,
                ts == self.current@.threads,
                cursor_ok(ts, self.cursor),
                match self.cursor {
                    Option::None => (match start {
                        Option::None => true,
                        Option::Some(op) => forall|t2: int, j2: int|
                            #[trigger] preempt_pos(ts, t2, j2) ==> !pos_le(
                                t2,
                                j2,
                                op.0 as int,
                                op.1 as int,
                            ),
                    }),
                    Option::Some(c) => preempt_pos(ts, c.0 as int, c.1 as int) && (match start {
                        Option::None => false,
                        Option::Some(op) => pos_le(
                            c.0 as int,
                            c.1 as int,
                            op.0 as int,
                            op.1 as int,
                        ) && forall|t2: int, j2: int|
                            #[trigger] preempt_pos(ts, t2, j2) && pos_le(
                                t2,
                                j2,
                                op.0 as int,
                                op.1 as int,
                            ) ==> pos_le(t2, j2, c.0 as int, c.1 as int),
                    }),
                },
            decreases (match self.cursor {
                Option::None => 0int,
                Option::Some(p) => p.0 as int + 1,
            }), (match self.cursor {
                Option::None => 0int,
                Option::Some(p) => p.1 as int,
            }),
        {
            match self.cursor {
                Option::None => {
                    break ;
                },
                Option::Some((t, j)) => {
                    if self.current.threads[t].dirs[j].preemptive {
                        proof {
                            assert(preempt_pos(ts, t as int, j as int));
                        }
                        break ;
                    }
                    let nxt = prev_pos(&self.current, t, j);
                    proof {
                        assert(!preempt_pos(ts, t as int, j as int));
                        let op = match start {
                            Option::Some(op) => op,
                            Option::None => (0usize, 0usize),
                        };
                        match nxt {
                            Option::None => {
                                assert forall|t2: int, j2: int|
                                    #[trigger] preempt_pos(ts, t2, j2) implies !pos_le(
                                    t2,
                                    j2,
                                    op.0 as int,
                                    op.1 as int,
                                ) by {
                                    if pos_le(t2, j2, op.0 as int, op.1 as int) {
                                        assert(pos_le(t2, j2, t as int, j as int));
                                        assert(valid_dir_pos(ts, t2, j2));
                                        assert(pos_lt(t2, j2, t as int, j as int));
                                    }
                                }
                            },
                            Option::Some(c) => {
                                assert(pos_le(c.0 as int, c.1 as int, op.0 as int, op.1 as int));
                                assert forall|t2: int, j2: int|
                                    #[trigger] preempt_pos(ts, t2, j2) && pos_le(
                                        t2,
                                        j2,
                                        op.0 as int,
                                        op.1 as int,
                                    ) implies pos_le(t2, j2, c.0 as int, c.1 as int) by {
                                    assert(pos_le(t2, j2, t as int, j as int));
                                    assert(valid_dir_pos(ts, t2, j2));
                                    assert(pos_lt(t2, j2, t as int, j as int));
                                }
                            },
                        }
                    }
                    self.cursor = nxt;
                },
            }
        }
        match self.cursor {
            Option::None => Option::None,
            Option::Some((t, j)) => Option::Some(self.current.remove_directive(t, j)),
        }
    }

    /// Consume the outcome of replaying the candidate.  Only a candidate
    /// whose replay matched becomes the new current record, so the record
    /// carried as matching has always been observed to match.  Either way
    /// the cursor moves to the greatest position strictly below the tried
    /// one.
    pub fn step(&mut self, matched: bool)
        requires
            old(self).cursor matches Some(p) && preempt_pos(
                old(self).current@.threads,
                p.0 as int,
                p.1 as int,
            ),
        ensures
            cursor_ok(final(self).current@.threads, final(self).cursor),
            matched ==> (old(self).cursor matches Some(p) && removal_at(
                old(self).current@.threads,
                p.0 as int,
                p.1 as int,
                final(self).current@.threads,
            ) && final(self).current@.events == old(self).current@.events),
            !matched ==> final(self).current@ == old(self).current@,
            old(self).cursor matches Some(p) ==> greatest_below(
                final(self).current@.threads,
                p.0 as int,
                p.1 as int,
                final(self).cursor,
            ),
    {
        let (t, j) = match self.cursor {
            Option::Some(p) => p,
            Option::None => {
                proof {
                    assert(false);
                }
                (0, 0)
            },
        };
        if matched {
            let ghost pre = self.current@.threads;
            self.current = self.current.remove_directive(t, j);
            let nxt = prev_pos(&self.current, t, j);
            proof {
                let post = self.current@.threads;
                assert(post == pre.update(
                    t as int,
                    ThreadModel {
                        tid: pre[t as int].tid,
                        dirs: pre[t as int].dirs.take(j as int) + pre[t as int].dirs.skip(j + 1),
                    },
                ));
                assert(post[t as int].dirs.len() == pre[t as int].dirs.len() - 1);
            }
            self.cursor = nxt;
        } else {
            let nxt = prev_pos(&self.current, t, j);
            self.cursor = nxt;
        }
    }
}

} // verus!
