//! The configuration handed to the deterministic runtime for one run, and
//! its rendering as `hermit run` command-line flags.

use vstd::prelude::*;
use vstd::string::StringExecFns;

use crate::render::spec_u64_dec;
use crate::render::u64_to_dec;

verus! {

/// What drives the nondeterminism of one run: exactly one of a seeded chaos
/// mode, a preemption-record replay, or a full schedule replay.
#[derive(Debug)]
pub enum ReplayDriver {
    Chaos { seed: u64, sched_seed: Option<u64> },
    Preemptions { path: String },
    Schedule { path: String },
}

/// Model of a replay driver, paths as text.
pub enum DriverModel {
    Chaos { seed: u64, sched_seed: Option<u64> },
    Preemptions { path: Seq<char> },
    Schedule { path: Seq<char> },
}

impl View for ReplayDriver {
    type V = DriverModel;

    open spec fn view(&self) -> DriverModel {
        match self {
            ReplayDriver::Chaos { seed, sched_seed } => DriverModel::Chaos {
                seed: *seed,
                sched_seed: *sched_seed,
            },
            ReplayDriver::Preemptions { path } => DriverModel::Preemptions { path: path@ },
            ReplayDriver::Schedule { path } => DriverModel::Schedule { path: path@ },
        }
    }
}

/// One stack-trace capture request: when the event at this index fires, the
/// runtime writes a stack trace to the path.
#[derive(Debug)]
pub struct StackTraceRequest {
    pub event_index: u64,
    pub path: String,
}

impl View for StackTraceRequest {
    type V = (u64, Seq<char>);

    open spec fn view(&self) -> (u64, Seq<char>) {
        (self.event_index, self.path@)
    }
}

/// The semantically meaningful runtime configuration for one run.
#[derive(Debug)]
pub struct RunOptions {
    pub driver: ReplayDriver,
    pub chaos: bool,
    pub record_preemptions: bool,
    pub record_preemptions_to: Option<String>,
    pub stacktrace_event: Vec<StackTraceRequest>,
    pub imprecise_timers: bool,
    pub sequentialize_threads: bool,
    pub bind: Vec<String>,
    pub summary: bool,
}

/// Model of a run configuration.
pub struct RunOptionsModel {
    pub driver: DriverModel,
    pub chaos: bool,
    pub record_preemptions: bool,
    pub record_preemptions_to: Option<Seq<char>>,
    pub stacktrace_event: Seq<(u64, Seq<char>)>,
    pub imprecise_timers: bool,
    pub sequentialize_threads: bool,
    pub bind: Seq<Seq<char>>,
    pub summary: bool,
}

impl View for RunOptions {
    type V = RunOptionsModel;

    open spec fn view(&self) -> RunOptionsModel {
        RunOptionsModel {
            driver: self.driver@,
            chaos: self.chaos,
            record_preemptions: self.record_preemptions,
            record_preemptions_to: match self.record_preemptions_to {
                Option::None => Option::None,
                Option::Some(p) => Option::Some(p@),
            },
            stacktrace_event: Seq::new(
                self.stacktrace_event@.len(),
                |i: int| self.stacktrace_event@[i]@,
            ),
            imprecise_timers: self.imprecise_timers,
            sequentialize_threads: self.sequentialize_threads,
            bind: Seq::new(self.bind@.len(), |i: int| self.bind@[i]@),
            summary: self.summary,
        }
    }
}

fn clone_opt_string(p: &Option<String>) -> (r: Option<String>)
    ensures
        r is Some <==> p is Some,
        r matches Some(s) ==> p matches Some(q) && s@ == q@,
{
    match p {
        Option::None => Option::None,
        Option::Some(s) => Option::Some(s.clone()),
    }
}

impl ReplayDriver {
    /// An identical copy of the driver.
    pub fn duplicate(&self) -> (r: ReplayDriver)
        ensures
            r@ == self@,
    {
        match self {
            ReplayDriver::Chaos { seed, sched_seed } => ReplayDriver::Chaos {
                seed: *seed,
                sched_seed: *sched_seed,
            },
            ReplayDriver::Preemptions { path } => ReplayDriver::Preemptions { path: path.clone() },
            ReplayDriver::Schedule { path } => ReplayDriver::Schedule { path: path.clone() },
        }
    }
}

impl RunOptions {
    /// An identical copy of the configuration.
    pub fn duplicate(&self) -> (r: RunOptions)
        ensures
            r@ == self@,
    {
        let mut st: Vec<StackTraceRequest> = Vec::new();
        let mut i: usize = 0;
        while i < self.stacktrace_event.len()
            invariant
                i <= self.stacktrace_event.len(),
                st@.len() == i,
                forall|k: int| 0 <= k < i ==> st@[k]@ == self.stacktrace_event@[k]@,
            decreases self.stacktrace_event.len() - i,
        {
            st.push(
                StackTraceRequest {
                    event_index: self.stacktrace_event[i].event_index,
                    path: self.stacktrace_event[i].path.clone(),
                },
            );
            i = i + 1;
        }
        let mut bd: Vec<String> = Vec::new();
        let mut j: usize = 0;
        while j < self.bind.len()
            invariant
                j <= self.bind.len(),
                bd@.len() == j,
                forall|k: int| 0 <= k < j ==> bd@[k]@ == self.bind@[k]@,
            decreases self.bind.len() - j,
        {
            bd.push(self.bind[j].clone());
            j = j + 1;
        }
        let r = RunOptions {
            driver: self.driver.duplicate(),
            chaos: self.chaos,
            record_preemptions: self.record_preemptions,
            record_preemptions_to: clone_opt_string(&self.record_preemptions_to),
            stacktrace_event: st,
            imprecise_timers: self.imprecise_timers,
            sequentialize_threads: self.sequentialize_threads,
            bind: bd,
            summary: self.summary,
        };
        proof {
            assert(r@.stacktrace_event =~= self@.stacktrace_event);
            assert(r@.bind =~= self@.bind);
            assert(r@.record_preemptions_to == self@.record_preemptions_to);
        }
        r
    }
}

/// The flags of the replay driver.
pub open spec fn spec_driver_flags(d: DriverModel) -> Seq<char> {
    match d {
        DriverModel::Chaos { seed, sched_seed } => " --seed="@ + spec_u64_dec(seed as nat) + (
        match sched_seed {
            Option::None => Seq::<char>::empty(),
            Option::Some(ss) => " --sched-seed="@ + spec_u64_dec(ss as nat),
        }),
        DriverModel::Preemptions { path } => " --replay-preemptions-from="@ + path,
        DriverModel::Schedule { path } => " --replay-schedule-from="@ + path,
    }
}

/// The stack-trace capture flags, in request order.
pub open spec fn spec_stack_flags(reqs: Seq<(u64, Seq<char>)>) -> Seq<char>
    decreases reqs.len(),
{
    if reqs.len() == 0 {
        Seq::empty()
    } else {
        spec_stack_flags(reqs.drop_last()) + " --stacktrace-event="@ + spec_u64_dec(
            reqs.last().0 as nat,
        ) + ","@ + reqs.last().1
    }
}

/// The bind flags, in order.
pub open spec fn spec_bind_flags(binds: Seq<Seq<char>>) -> Seq<char>
    decreases binds.len(),
{
    if binds.len() == 0 {
        Seq::empty()
    } else {
        spec_bind_flags(binds.drop_last()) + " --bind="@ + binds.last()
    }
}

/// The full flag rendering of a run configuration, each flag preceded by a
/// single space.
pub open spec fn spec_flags(m: RunOptionsModel) -> Seq<char> {
    (if m.sequentialize_threads {
        " --sequentialize-threads"@
    } else {
        Seq::<char>::empty()
    }) + (if m.chaos {
        " --chaos"@
    } else {
        Seq::<char>::empty()
    }) + (if m.imprecise_timers {
        " --imprecise-timers"@
    } else {
        Seq::<char>::empty()
    }) + spec_driver_flags(m.driver) + (if m.record_preemptions {
        " --record-preemptions"@
    } else {
        Seq::<char>::empty()
    }) + (match m.record_preemptions_to {
        Option::None => Seq::<char>::empty(),
        Option::Some(p) => " --record-preemptions-to="@ + p,
    }) + spec_stack_flags(m.stacktrace_event) + spec_bind_flags(m.bind) + (if m.summary {
        " --summary"@
    } else {
        Seq::<char>::empty()
    })
}

impl RunOptions {
    /// Render the configuration as `hermit run` flags.
    #[verifier::rlimit(100)]
    pub fn render_flags(&self) -> (s: String)
        ensures
            s@ == spec_flags(self@),
    {
        let ghost g1: Seq<char> = if self@.sequentialize_threads {
            " --sequentialize-threads"@
        } else {
            Seq::<char>::empty()
        };
        let ghost g2: Seq<char> = if self@.chaos {
            " --chaos"@
        } else {
            Seq::<char>::empty()
        };
        let ghost g3: Seq<char> = if self@.imprecise_timers {
            " --imprecise-timers"@
        } else {
            Seq::<char>::empty()
        };
        let ghost g4: Seq<char> = spec_driver_flags(self@.driver);
        let ghost g5: Seq<char> = if self@.record_preemptions {
            " --record-preemptions"@
        } else {
            Seq::<char>::empty()
        };
        let ghost g6: Seq<char> = match self@.record_preemptions_to {
            Option::None => Seq::<char>::empty(),
            Option::Some(p) => " --record-preemptions-to="@ + p,
        };
        let ghost g7: Seq<char> = spec_stack_flags(self@.stacktrace_event);
        let ghost g8: Seq<char> = spec_bind_flags(self@.bind);
        let ghost g9: Seq<char> = if self@.summary {
            " --summary"@
        } else {
            Seq::<char>::empty()
        };
        let mut s = String::new();
        if self.sequentialize_threads {
            s.append(" --sequentialize-threads");
        }
        proof {
            assert(s@ =~= g1);
        }
        if self.chaos {
            s.append(" --chaos");
        }
        proof {
            assert(s@ =~= g1 + g2);
        }
        if self.imprecise_timers {
            s.append(" --imprecise-timers");
        }
        proof {
            assert(s@ =~= g1 + g2 + g3);
        }
        match &self.driver {
            ReplayDriver::Chaos { seed, sched_seed } => {
                s.append(" --seed=");
                let d = u64_to_dec(*seed);
                s.append(d.as_str());
                match sched_seed {
                    Option::None => {},
                    Option::Some(ss) => {
                        s.append(" --sched-seed=");
                        let d2 = u64_to_dec(*ss);
                        s.append(d2.as_str());
                    },
                }
            },
            ReplayDriver::Preemptions { path } => {
                s.append(" --replay-preemptions-from=");
                s.append(path.as_str());
            },
            ReplayDriver::Schedule { path } => {
                s.append(" --replay-schedule-from=");
                s.append(path.as_str());
            },
        }
        proof {
            assert(s@ =~= g1 + g2 + g3 + g4);
        }
        if self.record_preemptions {
            s.append(" --record-preemptions");
        }
        proof {
            assert(s@ =~= g1 + g2 + g3 + g4 + g5);
        }
        match &self.record_preemptions_to {
            Option::None => {},
            Option::Some(p) => {
                s.append(" --record-preemptions-to=");
                s.append(p.as_str());
            },
        }
        proof {
            assert(s@ =~= g1 + g2 + g3 + g4 + g5 + g6);
        }
        let ghost pre_stack = s@;
        let mut i: usize = 0;
        while i < self.stacktrace_event.len()
            invariant
                i <= self.stacktrace_event.len(),
                s@ == pre_stack + spec_stack_flags(self@.stacktrace_event.take(i as int)),
            decreases self.stacktrace_event.len() - i,
        {
            s.append(" --stacktrace-event=");
            let d = u64_to_dec(self.stacktrace_event[i].event_index);
            s.append(d.as_str());
            s.append(",");
            s.append(self.stacktrace_event[i].path.as_str());
            proof {
                let reqs = self@.stacktrace_event;
                assert(reqs.take(i + 1).drop_last() =~= reqs.take(i as int));
                assert(reqs.take(i + 1).last() == reqs[i as int]);
                assert(reqs[i as int] == self.stacktrace_event@[i as int]@);
                assert(s@ =~= pre_stack + spec_stack_flags(reqs.take(i + 1)));
            }
            i = i + 1;
        }
        proof {
            assert(self@.stacktrace_event.take(i as int) =~= self@.stacktrace_event);
            assert(s@ =~= g1 + g2 + g3 + g4 + g5 + g6 + g7);
        }
        let ghost pre_bind = s@;
        let mut j: usize = 0;
        while j < self.bind.len()
            invariant
                j <= self.bind.len(),
                s@ == pre_bind + spec_bind_flags(self@.bind.take(j as int)),
            decreases self.bind.len() - j,
        {
            s.append(" --bind=");
            s.append(self.bind[j].as_str());
            proof {
                let binds = self@.bind;
                assert(binds.take(j + 1).drop_last() =~= binds.take(j as int));
                assert(binds.take(j + 1).last() == binds[j as int]);
                assert(binds[j as int] == self.bind@[j as int]@);
                assert(s@ =~= pre_bind + spec_bind_flags(binds.take(j + 1)));
            }
            j = j + 1;
        }
        proof {
            assert(self@.bind.take(j as int) =~= self@.bind);
            assert(s@ =~= g1 + g2 + g3 + g4 + g5 + g6 + g7 + g8);
        }
        if self.summary {
            s.append(" --summary");
        }
        proof {
            assert(s@ =~= g1 + g2 + g3 + g4 + g5 + g6 + g7 + g8 + g9);
            assert(spec_flags(self@) == g1 + g2 + g3 + g4 + g5 + g6 + g7 + g8 + g9);
        }
        s
    }
}

} // verus!
