//! The six phases of the analysis pipeline: the decisions each phase makes
//! and the run requests it hands to the runtime driver.

use vstd::prelude::*;
use vstd::string::StrSliceExecFns;
use vstd::string::StringExecFns;

use crate::bisect::Bisector;
use crate::bisect::CriticalSchedule;
use crate::codec::spec_encode;
use crate::minimize::Minimizer;
use crate::opts::spec_artifact_path;
use crate::opts::AnalyzeError;
use crate::opts::AnalyzeOpts;
use crate::opts::RunRequest;
use crate::record::keep_preempts;
use crate::record::record_well_formed;
use crate::record::spec_knockout;
use crate::record::spec_normalize;
use crate::record::PreemptionRecord;
use crate::record::RecordModel;
use crate::record::SchedEvent;
use crate::record::ThreadModel;
use crate::render::spec_u64_dec;
use crate::render::u64_to_dec;
use crate::runopts::DriverModel;
use crate::runopts::ReplayDriver;
use crate::runopts::RunOptions;
use crate::runopts::RunOptionsModel;

verus! {

/// `needle` occurs in `hay` starting at position `k`.
pub open spec fn spec_contains_at(hay: Seq<char>, needle: Seq<char>, k: int) -> bool {
    0 <= k && k + needle.len() <= hay.len() && hay.subrange(k, k + needle.len()) == needle
}

/// `needle` occurs somewhere in `hay`.
pub open spec fn spec_contains(hay: Seq<char>, needle: Seq<char>) -> bool {
    exists|k: int| spec_contains_at(hay, needle, k)
}

/// Substring search, complete in both directions.
pub fn contains_substring(hay: &str, needle: &str) -> (r: bool)
    ensures
        r == spec_contains(hay@, needle@),
{
    let hl = hay.unicode_len();
    let nl = needle.unicode_len();
    if nl > hl {
        proof {
            assert forall|k: int| !spec_contains_at(hay@, needle@, k) by {}
        }
        return false;
    }
    let mut k: usize = 0;
    while k <= hl - nl
        invariant
            nl <= hl,
            hl == hay@.len(),
            nl == needle@.len(),
            k <= hl - nl + 1,
            forall|k2: int| 0 <= k2 < k ==> !spec_contains_at(hay@, needle@, k2),
        decreases hl - nl - k + 1,
    {
        let mut i: usize = 0;
        let mut mismatch = false;
        while i < nl
            invariant_except_break
                !mismatch,
                i <= nl,
                k + nl <= hl,
                hl == hay@.len(),
                nl == needle@.len(),
                forall|i2: int| 0 <= i2 < i ==> hay@[k + i2] == needle@[i2],
            ensures
                i <= nl,
                k + nl <= hl,
                hl == hay@.len(),
                nl == needle@.len(),
                mismatch ==> i < nl && hay@[k + i] != needle@[i as int],
                !mismatch ==> i == nl && (forall|i2: int|
                    0 <= i2 < nl ==> hay@[k + i2] == needle@[i2]),
            decreases nl - i,
        {
            if hay.get_char(k + i) != needle.get_char(i) {
                mismatch = true;
                break ;
            }
            i = i + 1;
        }
        if !mismatch {
            proof {
                assert(hay@.subrange(k as int, k + needle@.len()) =~= needle@);
                assert(spec_contains_at(hay@, needle@, k as int));
            }
            return true;
        }
        proof {
            assert(!spec_contains_at(hay@, needle@, k as int));
        }
        k = k + 1;
    }
    proof {
        assert forall|k2: int| !spec_contains_at(hay@, needle@, k2) by {
            if spec_contains_at(hay@, needle@, k2) {
                assert(0 <= k2 < k);
            }
        }
    }
    false
}

/// The lines of a log with those containing the ignored text dropped.
pub open spec fn spec_keep_lines(lines: Seq<Seq<char>>, ignore: Seq<char>) -> Seq<Seq<char>>
    decreases lines.len(),
{
    if lines.len() == 0 {
        Seq::empty()
    } else if spec_contains(lines.last(), ignore) {
        spec_keep_lines(lines.drop_last(), ignore)
    } else {
        spec_keep_lines(lines.drop_last(), ignore).push(lines.last())
    }
}

fn keep_lines(lines: &Vec<String>, ignore: &str) -> (r: Vec<String>)
    ensures
        Seq::new(r@.len(), |i: int| r@[i]@) =~~= spec_keep_lines(
            Seq::new(lines@.len(), |i: int| lines@[i]@),
            ignore@,
        ),
{
    let ghost model = Seq::new(lines@.len(), |i: int| lines@[i]@);
    let mut out: Vec<String> = Vec::new();
    let mut i: usize = 0;
    while i < lines.len()
        invariant
            i <= lines.len(),
            model == Seq::new(lines@.len(), |k: int| lines@[k]@),
            Seq::new(out@.len(), |k: int| out@[k]@) =~~= spec_keep_lines(
                model.take(i as int),
                ignore@,
            ),
        decreases lines.len() - i,
    {
        proof {
            assert(model.take(i + 1).drop_last() =~= model.take(i as int));
            assert(model.take(i + 1).last() == model[i as int]);
        }
        if !contains_substring(lines[i].as_str(), ignore) {
            out.push(lines[i].clone());
        }
        proof {
            assert(Seq::new(out@.len(), |k: int| out@[k]@) =~~= spec_keep_lines(
                model.take(i + 1),
                ignore@,
            ));
        }
        i = i + 1;
    }
    proof {
        assert(model.take(i as int) =~= model);
    }
    out
}

fn string_lists_equal(a: &Vec<String>, b: &Vec<String>) -> (r: bool)
    ensures
        r == (Seq::new(a@.len(), |i: int| a@[i]@) =~~= Seq::new(b@.len(), |i: int| b@[i]@)),
{
    let ghost am = Seq::new(a@.len(), |i: int| a@[i]@);
    let ghost bm = Seq::new(b@.len(), |i: int| b@[i]@);
    if a.len() != b.len() {
        return false;
    }
    let mut i: usize = 0;
    while i < a.len()
        invariant
            i <= a.len(),
            a@.len() == b@.len(),
            am == Seq::new(a@.len(), |k: int| a@[k]@),
            bm == Seq::new(b@.len(), |k: int| b@[k]@),
            forall|k: int| 0 <= k < i ==> am[k] == bm[k],
        decreases a.len() - i,
    {
        if !a[i].eq(&b[i]) {
            proof {
                assert(am[i as int] != bm[i as int]);
            }
            return false;
        }
        i = i + 1;
    }
    proof {
        assert(am =~~= bm);
    }
    true
}

impl AnalyzeOpts {
    /// The weaker log comparison used after a preemption replay: the two
    /// logs must agree line for line once the chaos-RNG lines, which a
    /// replay is not expected to conserve, are dropped from both.
    pub fn log_diff_preemption_replay(&self, lines1: &Vec<String>, lines2: &Vec<String>) -> (r:
        bool)
        ensures
            r == (spec_keep_lines(Seq::new(lines1@.len(), |i: int| lines1@[i]@), "CHAOSRAND"@)
                =~~= spec_keep_lines(Seq::new(lines2@.len(), |i: int| lines2@[i]@), "CHAOSRAND"@)),
    {
        let k1 = keep_lines(lines1, "CHAOSRAND");
        let k2 = keep_lines(lines2, "CHAOSRAND");
        string_lists_equal(&k1, &k2)
    }

    /// The self-check replay request: replay the target's preemptions under
    /// the run-one configuration, re-recording preemptions for the
    /// fixed-point comparison.  Also returns the path the replay records to.
    pub fn phase3_replay_request(&self, run1_preempts_path: &str) -> (r: Result<
        (RunRequest, String),
        AnalyzeError,
    >)
        requires
            self.tmp_dir is Some,
        ensures
            r is Ok <==> self.run_options.sequentialize_threads,
            r matches Ok(p) ==> {
                &&& p.0.runname@ == "run1b_selfcheck"@
                &&& p.1@ == spec_artifact_path(self.tmp_dir->0@, "run1b_selfcheck"@, "preempts"@)
                &&& p.0.options@ == (RunOptionsModel {
                    driver: DriverModel::Preemptions { path: run1_preempts_path@ },
                    record_preemptions: true,
                    record_preemptions_to: Option::Some(p.1@),
                    ..RunOptionsModel { driver: self.spec_run1_driver(), ..self.spec_base_runopts() }
                })
            },
            r matches Err(e) ==> e == AnalyzeError::NoSequentializeThreads,
    {
        let mut ro = match self.get_run1_runopts() {
            Ok(ro) => ro,
            Err(e) => {
                return Err(e);
            },
        };
        let preempts_path = self.preempts_path("run1b_selfcheck");
        ro.driver = ReplayDriver::Preemptions { path: run1_preempts_path.to_owned() };
        ro.record_preemptions = true;
        ro.record_preemptions_to = Option::Some(preempts_path.clone());
        Ok((RunRequest { runname: "run1b_selfcheck".to_owned(), options: ro }, preempts_path))
    }

    /// Decide the self-check from the three observations of the extra
    /// replay: it must still match the criterion, its log must agree with
    /// the target's modulo the ignored chaos lines, and the preemptions it
    /// re-recorded must equal those replayed — the fixed point the
    /// self-check demands.  With the self-check disabled nothing is
    /// checked.
    pub fn phase3_strict_preempt_replay_check(
        &self,
        second_matches: bool,
        logs_match: bool,
        preempts_equal: bool,
    ) -> (r: Result<(), AnalyzeError>)
        ensures
            !self.selfcheck ==> r is Ok,
            self.selfcheck ==> (r is Ok <==> (second_matches && logs_match && preempts_equal)),
            self.selfcheck && !second_matches ==> r == Err::<(), AnalyzeError>(
                AnalyzeError::SecondRunMismatch,
            ),
            self.selfcheck && second_matches && !logs_match ==> r == Err::<(), AnalyzeError>(
                AnalyzeError::LogDifference,
            ),
            self.selfcheck && second_matches && logs_match && !preempts_equal ==> r == Err::<
                (),
                AnalyzeError,
            >(AnalyzeError::NoFixedPoint),
    {
        if !self.selfcheck {
            return Ok(());
        }
        if !second_matches {
            return Err(AnalyzeError::SecondRunMismatch);
        }
        if !logs_match {
            return Err(AnalyzeError::LogDifference);
        }
        if !preempts_equal {
            return Err(AnalyzeError::NoFixedPoint);
        }
        Ok(())
    }
}

/// What phase one does before the first decision: copy a provided
/// preemption file into the workspace, or record a first run.
pub enum Phase1Plan {
    CopyProvided { source: String, dest: String },
    RecordRun { request: RunRequest, preempts_path: String },
}

/// What follows the first run's outcome.
#[derive(Clone, Copy, PartialEq, Eq, Structural, Debug)]
pub enum Phase1Next {
    Accept,
    Search,
}

/// What phase two does: reduce the record, or keep it as loaded.
pub enum Phase2Plan {
    Reduce(Minimizer),
    KeepLoaded(PreemptionRecord),
}

/// Which branch phase four takes to derive the baseline.
pub enum Phase4Plan {
    RecordFromSeed { request: RunRequest, preempts_path: String },
    LoadProvided { source: String },
    Knockout,
    Stripped,
}

/// The outcome of one knockout probe.
pub enum KnockoutNext {
    StillMatching(PreemptionRecord),
    Baseline(PreemptionRecord),
}

/// The final analysis report: the diagnostic header and the stack traces of
/// the two racing events.
#[derive(Debug)]
pub struct Report {
    pub header: String,
    pub stack1: String,
    pub stack2: String,
}

/// Everything phase six computes before the stack-trace rerun: where the two
/// endpoint schedules go and as which bytes, the report header, and the
/// rerun request with its two stack paths.
pub struct Phase6Plan {
    pub final_failing_path: String,
    pub final_passing_path: String,
    pub failing_bytes: Vec<u8>,
    pub passing_bytes: Vec<u8>,
    pub header: String,
    pub request: RunRequest,
    pub stack1_path: String,
    pub stack2_path: String,
}

/// The fixed diagnostic header of the report for a critical event index.
pub open spec fn spec_header(ci: nat) -> Seq<char> {
    "These two operations, on different threads, are RACING with each other.\n"@
        + "The current order of events "@ + spec_u64_dec((ci - 1) as nat) + " and "@ + spec_u64_dec(
        ci,
    ) + " is causing a FAILURE.\n"@
        + "You must add synchronization to prevent these operations from racing, or give them a different order.\n"@
}

impl AnalyzeOpts {
    /// Add preemption recording to a run configuration, recording to the
    /// run's preemption path; the request for a target-establishing run.
    pub fn launch_and_record_preempts(&self, runname: &str, runopts: RunOptions) -> (r: (
        RunRequest,
        String,
    ))
        requires
            self.tmp_dir is Some,
        ensures
            r.0.runname@ == runname@,
            r.1@ == spec_artifact_path(self.tmp_dir->0@, runname@, "preempts"@),
            r.0.options@ == (RunOptionsModel {
                record_preemptions: true,
                record_preemptions_to: Option::Some(r.1@),
                ..runopts@
            }),
    {
        let mut ro = runopts;
        let preempts_path = self.preempts_path(runname);
        ro.record_preemptions = true;
        ro.record_preemptions_to = Option::Some(preempts_path.clone());
        (RunRequest { runname: runname.to_owned(), options: ro }, preempts_path)
    }

    /// Plan phase one: with a provided preemption file it is copied into the
    /// workspace (the self-check cannot yet run on a provided file); with a
    /// seed the first run is recorded.
    pub fn phase1_plan(&self) -> (r: Result<Phase1Plan, AnalyzeError>)
        requires
            self.tmp_dir is Some,
        ensures
            self.run1_preemptions is Some && self.selfcheck ==> r == Err::<Phase1Plan, AnalyzeError>(
                AnalyzeError::NotImplemented,
            ),
            self.run1_preemptions is Some && !self.selfcheck ==> (r matches Ok(p) && (
            p matches Phase1Plan::CopyProvided { source, dest } && source@
                == self.run1_preemptions->0@ && dest@ == spec_artifact_path(
                self.tmp_dir->0@,
                "phase1_target"@,
                "preempts"@,
            ))),
            self.run1_preemptions is None && !self.run_options.sequentialize_threads ==> r == Err::<
                Phase1Plan,
                AnalyzeError,
            >(AnalyzeError::NoSequentializeThreads),
            self.run1_preemptions is None && self.run_options.sequentialize_threads ==> (r matches
            Ok(p) && (p matches Phase1Plan::RecordRun { request, preempts_path } && {
                &&& request.runname@ == "phase1_target"@
                &&& preempts_path@ == spec_artifact_path(
                    self.tmp_dir->0@,
                    "phase1_target"@,
                    "preempts"@,
                )
                &&& request.options@ == (RunOptionsModel {
                    record_preemptions: true,
                    record_preemptions_to: Option::Some(preempts_path@),
                    ..RunOptionsModel { driver: self.spec_run1_driver(), ..self.spec_base_runopts() }
                })
            })),
    {
        match &self.run1_preemptions {
            Option::Some(src) => {
                if self.selfcheck {
                    return Err(AnalyzeError::NotImplemented);
                }
                Ok(
                    Phase1Plan::CopyProvided {
                        source: src.clone(),
                        dest: self.preempts_path("phase1_target"),
                    },
                )
            },
            Option::None => {
                let run1_opts = match self.get_run1_runopts() {
                    Ok(ro) => ro,
                    Err(e) => {
                        return Err(e);
                    },
                };
                let (request, preempts_path) = self.launch_and_record_preempts(
                    "phase1_target",
                    run1_opts,
                );
                Ok(Phase1Plan::RecordRun { request, preempts_path })
            },
        }
    }

    /// Decide phase one from the first run's outcome: a matching run is the
    /// target; a non-matching one starts the search when enabled and fails
    /// the phase otherwise.  A run is accepted as target only when it
    /// matched.
    pub fn phase1_decide(&self, matched: bool) -> (r: Result<Phase1Next, AnalyzeError>)
        ensures
            matched ==> r == Ok::<Phase1Next, AnalyzeError>(Phase1Next::Accept),
            !matched && self.search ==> r == Ok::<Phase1Next, AnalyzeError>(Phase1Next::Search),
            !matched && !self.search ==> r == Err::<Phase1Next, AnalyzeError>(
                AnalyzeError::RunDidNotMatch,
            ),
    {
        if matched {
            Ok(Phase1Next::Accept)
        } else if self.search {
            Ok(Phase1Next::Search)
        } else {
            Err(AnalyzeError::RunDidNotMatch)
        }
    }

    /// Plan phase two: begin a minimization of the loaded record, or keep it
    /// unreduced when minimization is disabled.
    pub fn phase2_minimize(&self, loaded: PreemptionRecord) -> (r: Phase2Plan)
        ensures
            self.minimize ==> (r matches Phase2Plan::Reduce(m) && {
                &&& m.current@ == loaded@
                &&& crate::minimize::cursor_ok(m.current@.threads, m.cursor)
                &&& (m.cursor is None ==> forall|t2: int, j2: int|
                    !#[trigger] crate::minimize::valid_dir_pos(m.current@.threads, t2, j2))
                &&& (m.cursor matches Some(c) ==> forall|t2: int, j2: int|
                    #[trigger] crate::minimize::valid_dir_pos(m.current@.threads, t2, j2)
                        ==> crate::minimize::pos_le(t2, j2, c.0 as int, c.1 as int))
            }),
            !self.minimize ==> (r matches Phase2Plan::KeepLoaded(rec) && rec@ == loaded@),
    {
        if self.minimize {
            Phase2Plan::Reduce(Minimizer::minimize_start(loaded))
        } else {
            Phase2Plan::KeepLoaded(loaded)
        }
    }

    /// Plan phase four: the baseline comes from the run-two seed when given,
    /// else from the run-two preemption file, else by knockouts from the
    /// minimized target, else from the target with its contents stripped.
    pub fn phase4_choose_baseline_sched_events(&self) -> (r: Result<Phase4Plan, AnalyzeError>)
        requires
            self.tmp_dir is Some,
        ensures
            self.run2_seed is Some && !self.run_options.sequentialize_threads ==> r == Err::<
                Phase4Plan,
                AnalyzeError,
            >(AnalyzeError::NoSequentializeThreads),
            self.run2_seed is Some && self.run_options.sequentialize_threads ==> (r matches Ok(p)
                && (p matches Phase4Plan::RecordFromSeed { request, preempts_path } && {
                &&& request.runname@ == "run2_baseline"@
                &&& preempts_path@ == spec_artifact_path(
                    self.tmp_dir->0@,
                    "run2_baseline"@,
                    "preempts"@,
                )
                &&& request.options@ == (RunOptionsModel {
                    record_preemptions: true,
                    record_preemptions_to: Option::Some(preempts_path@),
                    ..RunOptionsModel { driver: self.spec_run2_driver(), ..self.spec_base_runopts() }
                })
            })),
            self.run2_seed is None && self.run2_preemptions is Some ==> (r matches Ok(p) && (
            p matches Phase4Plan::LoadProvided { source } && source@ == self.run2_preemptions->0@)),
            self.run2_seed is None && self.run2_preemptions is None && self.minimize ==> r
                == Ok::<Phase4Plan, AnalyzeError>(Phase4Plan::Knockout),
            self.run2_seed is None && self.run2_preemptions is None && !self.minimize ==> r
                == Ok::<Phase4Plan, AnalyzeError>(Phase4Plan::Stripped),
    {
        if self.run2_seed.is_some() {
            let run2_opts = match self.get_run2_runopts() {
                Ok(ro) => ro,
                Err(e) => {
                    return Err(e);
                },
            };
            let (request, preempts_path) = self.launch_and_record_preempts(
                "run2_baseline",
                run2_opts,
            );
            Ok(Phase4Plan::RecordFromSeed { request, preempts_path })
        } else if let Option::Some(src) = &self.run2_preemptions {
            Ok(Phase4Plan::LoadProvided { source: src.clone() })
        } else if self.minimize {
            Ok(Phase4Plan::Knockout)
        } else {
            Ok(Phase4Plan::Stripped)
        }
    }

    /// One knockout: drop the latest preemption of the matching record, and
    /// hand back the candidate with its workspace path and the replay
    /// request that records its schedule to `sched_events_path`.  A
    /// candidate that fails its consistency check aborts the phase.
    pub fn save_nearby_non_matching_sched_events(
        &self,
        matching_preempts: &PreemptionRecord,
        sched_events_path: &str,
    ) -> (r: Result<(PreemptionRecord, String, Vec<u8>, RunRequest), AnalyzeError>)
        requires
            self.tmp_dir is Some,
        ensures
            r is Ok <==> (self.run_options.sequentialize_threads && record_well_formed(
                spec_knockout(matching_preempts@),
            )),
            r matches Ok(p) ==> {
                &&& p.0@ == spec_knockout(matching_preempts@)
                &&& p.1@ == spec_artifact_path(
                    self.tmp_dir->0@,
                    "baseline_nearby_non_matching"@,
                    "preempts"@,
                )
                &&& p.2@ == spec_encode(spec_knockout(matching_preempts@))
                &&& p.3.runname@ == "baseline_nearby_non_matching"@
                &&& p.3.options@ == (RunOptionsModel {
                    driver: DriverModel::Preemptions { path: p.1@ },
                    record_preemptions_to: Option::Some(sched_events_path@),
                    ..self.spec_base_runopts()
                })
            },
            r matches Err(e) ==> (e == AnalyzeError::CorruptBaselineRecord || e
                == AnalyzeError::NoSequentializeThreads),
    {
        let non_matching = matching_preempts.with_latest_preempt_removed();
        if let Err(_) = non_matching.validate() {
            return Err(AnalyzeError::CorruptBaselineRecord);
        }
        let path = self.preempts_path("baseline_nearby_non_matching");
        let bytes = non_matching.write_to();
        let request = match self.launch_from_preempts_to_sched(
            "baseline_nearby_non_matching",
            path.as_str(),
            Option::Some(sched_events_path),
        ) {
            Ok(req) => req,
            Err(e) => {
                return Err(e);
            },
        };
        Ok((non_matching, path, bytes, request))
    }

    /// Decide one knockout from its replay outcome: a candidate that still
    /// matches needs further knockouts; the first candidate that does not
    /// match is the baseline, returned together atomically.  A record is
    /// handed on as baseline only when its replay did not match.
    pub fn phase4_knockout_decide(&self, candidate: PreemptionRecord, matched: bool) -> (r:
        KnockoutNext)
        ensures
            matched ==> (r matches KnockoutNext::StillMatching(c) && c@ == candidate@),
            !matched ==> (r matches KnockoutNext::Baseline(c) && c@ == candidate@),
    {
        if matched {
            KnockoutNext::StillMatching(candidate)
        } else {
            KnockoutNext::Baseline(candidate)
        }
    }

    /// The run that verifies the target endpoint still matches while
    /// recording its full schedule.
    pub fn save_final_target_sched_events(
        &self,
        final_preempts_path: &str,
        sched_events_path: &str,
    ) -> (r: Result<RunRequest, AnalyzeError>)
        requires
            self.tmp_dir is Some,
        ensures
            r is Ok <==> self.run_options.sequentialize_threads,
            r matches Ok(req) ==> {
                &&& req.runname@ == "verify_target_endpoint"@
                &&& req.options@ == (RunOptionsModel {
                    driver: DriverModel::Preemptions { path: final_preempts_path@ },
                    record_preemptions_to: Option::Some(sched_events_path@),
                    ..self.spec_base_runopts()
                })
            },
            r matches Err(e) ==> e == AnalyzeError::NoSequentializeThreads,
    {
        self.launch_from_preempts_to_sched(
            "verify_target_endpoint",
            final_preempts_path,
            Option::Some(sched_events_path),
        )
    }

    /// The target endpoint must still match the criterion; anything else
    /// breaks the target invariant.
    pub fn target_endpoint_decide(&self, matched: bool) -> (r: Result<(), AnalyzeError>)
        ensures
            r is Ok <==> matched,
            r matches Err(e) ==> e == AnalyzeError::FinalTargetMismatch,
    {
        if matched {
            Ok(())
        } else {
            Err(AnalyzeError::FinalTargetMismatch)
        }
    }

    /// The run that records the baseline endpoint's schedule: the baseline
    /// record is persisted at `final_pass.preempts` and replayed, recording
    /// to the baseline schedule path.
    pub fn save_final_baseline_sched_events(
        &self,
        final_preempts: &PreemptionRecord,
        sched_events_path: &str,
    ) -> (r: Result<(String, Vec<u8>, RunRequest), AnalyzeError>)
        requires
            self.tmp_dir is Some,
        ensures
            r is Ok <==> self.run_options.sequentialize_threads,
            r matches Ok(p) ==> {
                &&& p.0@ == spec_artifact_path(self.tmp_dir->0@, "final_pass"@, "preempts"@)
                &&& p.1@ == spec_encode(final_preempts@)
                &&& p.2.runname@ == "verify_baseline_endpoint"@
                &&& p.2.options@ == (RunOptionsModel {
                    driver: DriverModel::Preemptions { path: p.0@ },
                    record_preemptions_to: Option::Some(sched_events_path@),
                    ..self.spec_base_runopts()
                })
            },
            r matches Err(e) ==> e == AnalyzeError::NoSequentializeThreads,
    {
        let path = self.artifact_path("final_pass", "preempts");
        let bytes = final_preempts.write_to();
        let request = match self.launch_from_preempts_to_sched(
            "verify_baseline_endpoint",
            path.as_str(),
            Option::Some(sched_events_path),
        ) {
            Ok(req) => req,
            Err(e) => {
                return Err(e);
            },
        };
        Ok((path, bytes, request))
    }

    /// Begin phase five: the binary search through schedule space from the
    /// matching target schedule and the non-matching baseline schedule.
    pub fn phase5_bisect_traces(&self, target: Vec<SchedEvent>, baseline: Vec<SchedEvent>) -> (r:
        Result<Bisector, AnalyzeError>)
        ensures
            r is Ok <==> (target@.len() >= 2 && baseline@.len() >= 2),
            r matches Ok(b) ==> {
                &&& b.wf()
                &&& b.fsched@ == target@
                &&& b.psched@ == baseline@
                &&& b.lo == 0
                &&& (b.hi as int) == (if target@.len() <= baseline@.len() {
                    target@.len()
                } else {
                    baseline@.len()
                }) - 1
                &&& b.probe_index == 0
            },
            r matches Err(e) ==> e == AnalyzeError::SchedulesTooShort,
    {
        Bisector::bisect_start(target, baseline)
    }

    /// The request that replays one probe's hybrid schedule from its
    /// serialized form on disk.
    pub fn bisect_probe_request(&self, runname: &str, sched_path: &str) -> (r: Result<
        RunRequest,
        AnalyzeError,
    >)
        requires
            self.tmp_dir is Some,
        ensures
            r is Ok <==> self.run_options.sequentialize_threads,
            r matches Ok(req) ==> {
                &&& req.runname@ == runname@
                &&& req.options@ == (RunOptionsModel {
                    driver: DriverModel::Schedule { path: sched_path@ },
                    ..self.spec_base_runopts()
                })
            },
            r matches Err(e) ==> e == AnalyzeError::NoSequentializeThreads,
    {
        let mut ro = match self.get_base_runopts() {
            Ok(ro) => ro,
            Err(e) => {
                return Err(e);
            },
        };
        ro.driver = ReplayDriver::Schedule { path: sched_path.to_owned() };
        Ok(RunRequest { runname: runname.to_owned(), options: ro })
    }

    /// Plan phase six: persist both endpoint schedules as record files and
    /// build the stack-trace rerun of the failing one.
    pub fn phase6_record_outputs(&self, crit: &CriticalSchedule) -> (r: Result<
        Phase6Plan,
        AnalyzeError,
    >)
        requires
            self.tmp_dir is Some,
            crit.critical_event_index >= 1,
            crit.critical_event_index <= u64::MAX,
        ensures
            r is Ok <==> self.run_options.sequentialize_threads,
            r matches Ok(p) ==> {
                &&& p.final_failing_path@ == spec_artifact_path(
                    self.tmp_dir->0@,
                    "final_target_for_stacktraces"@,
                    "events"@,
                )
                &&& p.final_passing_path@ == spec_artifact_path(
                    self.tmp_dir->0@,
                    "final_baseline"@,
                    "events"@,
                )
                &&& p.failing_bytes@ == spec_encode(
                    RecordModel {
                        threads: Seq::<ThreadModel>::empty(),
                        events: crit.failing_schedule@,
                    },
                )
                &&& p.passing_bytes@ == spec_encode(
                    RecordModel {
                        threads: Seq::<ThreadModel>::empty(),
                        events: crit.passing_schedule@,
                    },
                )
                &&& p.header@ == spec_header(crit.critical_event_index as nat)
                &&& p.request.runname@ == "final_target_for_stacktraces"@
                &&& p.stack1_path@ == spec_artifact_path(
                    self.tmp_dir->0@,
                    "final_target_for_stacktraces"@,
                    "stack1"@,
                )
                &&& p.stack2_path@ == spec_artifact_path(
                    self.tmp_dir->0@,
                    "final_target_for_stacktraces"@,
                    "stack2"@,
                )
                &&& p.request.options@ == (RunOptionsModel {
                    driver: DriverModel::Schedule { path: p.final_failing_path@ },
                    stacktrace_event: seq![
                        ((crit.critical_event_index - 1) as u64, p.stack1_path@),
                        (crit.critical_event_index as u64, p.stack2_path@),
                    ],
                    ..self.spec_base_runopts()
                })
            },
            r matches Err(e) ==> e == AnalyzeError::NoSequentializeThreads,
    {
        let final_failing_path = self.sched_path("final_target_for_stacktraces");
        let final_passing_path = self.sched_path("final_baseline");
        let failing_rec = PreemptionRecord::from_sched_events(
            crate::bisect::copy_sched_events(&crit.failing_schedule),
        );
        let passing_rec = PreemptionRecord::from_sched_events(
            crate::bisect::copy_sched_events(&crit.passing_schedule),
        );
        let failing_bytes = failing_rec.write_to();
        let passing_bytes = passing_rec.write_to();
        let mut header = String::new();
        header.append("These two operations, on different threads, are RACING with each other.\n");
        header.append("The current order of events ");
        let d1 = u64_to_dec((crit.critical_event_index - 1) as u64);
        header.append(d1.as_str());
        header.append(" and ");
        let d2 = u64_to_dec(crit.critical_event_index as u64);
        header.append(d2.as_str());
        header.append(" is causing a FAILURE.\n");
        header.append(
            "You must add synchronization to prevent these operations from racing, or give them a different order.\n",
        );
        let (request, stack1_path, stack2_path) = match self.launch_for_stacktraces(
            "final_target_for_stacktraces",
            final_failing_path.as_str(),
            crit.critical_event_index as u64,
        ) {
            Ok(t) => t,
            Err(e) => {
                return Err(e);
            },
        };
        Ok(
            Phase6Plan {
                final_failing_path,
                final_passing_path,
                failing_bytes,
                passing_bytes,
                header,
                request,
                stack1_path,
                stack2_path,
            },
        )
    }

    /// Build the report once the stack-trace rerun came back: it must still
    /// match the criterion, else the target invariant broke inside the
    /// analyzer.
    pub fn phase6_report(&self, header: String, rerun_matched: bool, stack1: String, stack2: String)
        -> (r: Result<Report, AnalyzeError>)
        ensures
            r is Ok <==> rerun_matched,
            r matches Ok(rep) ==> rep.header@ == header@ && rep.stack1@ == stack1@ && rep.stack2@
                == stack2@,
            r matches Err(e) ==> e == AnalyzeError::FinalRunMismatch,
    {
        if rerun_matched {
            Ok(Report { header, stack1, stack2 })
        } else {
            Err(AnalyzeError::FinalRunMismatch)
        }
    }

    /// Replay inputs the analyzer cannot drive yet.
    pub fn check_supported(&self) -> (r: Result<(), AnalyzeError>)
        ensures
            r is Ok <==> (self.run1_schedule is None && self.run2_schedule is None),
            r matches Err(e) ==> e == AnalyzeError::NotImplemented,
    {
        if self.run1_schedule.is_some() || self.run2_schedule.is_some() {
            Err(AnalyzeError::NotImplemented)
        } else {
            Ok(())
        }
    }

    /// The exit status of a successful diagnosis: the user override, or
    /// success.
    pub fn final_exit_status(&self) -> (r: i32)
        ensures
            r == (match self.success_exit_code {
                Option::Some(c) => c,
                Option::None => 0,
            }),
    {
        match self.success_exit_code {
            Option::Some(c) => c,
            Option::None => 0,
        }
    }
}

/// The canonical target record the bisection endpoints are built from: the
/// minimized record normalized, then restricted to its preemption entries.
pub fn canonicalize_target(rec: &PreemptionRecord) -> (r: PreemptionRecord)
    ensures
        r@.threads.len() == spec_normalize(rec@.threads).len(),
        forall|i: int|
            0 <= i < r@.threads.len() ==> r@.threads[i] == (ThreadModel {
                tid: spec_normalize(rec@.threads)[i].tid,
                dirs: keep_preempts(spec_normalize(rec@.threads)[i].dirs),
            }),
        r@.events == rec@.events,
{
    let mut n = rec.normalize();
    n.preemptions_only();
    n
}

} // verus!
