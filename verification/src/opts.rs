//! The analyzer's configuration, artifact naming, run-request builders and
//! the oracle that decides a captured run against the criterion.

use vstd::pervasive::unreached;
use vstd::prelude::*;
use vstd::string::StringExecFns;

use crate::criteria::check_stream;
use crate::criteria::opt_pat;
use crate::criteria::stream_ok;
use crate::criteria::ExitStatusConstraint;
use crate::criteria::RunOutput;
use crate::render::i32_to_dec;
use crate::render::join_with;
use crate::render::spec_i32_dec;
use crate::render::spec_join_with;
use crate::render::spec_u64_dec;
use crate::render::u64_to_dec;
use crate::runopts::spec_flags;
use crate::runopts::DriverModel;
use crate::runopts::ReplayDriver;
use crate::runopts::RunOptions;
use crate::runopts::RunOptionsModel;
use crate::runopts::StackTraceRequest;

verus! {

/// Why the pipeline stopped.
#[derive(Clone, Copy, PartialEq, Eq, Structural, Debug)]
pub enum AnalyzeError {
    /// Determinism is required: the runtime must sequentialize threads.
    NoSequentializeThreads,
    /// The first run did not match the criterion and search was disabled.
    RunDidNotMatch,
    /// The self-check replay stopped matching the criterion.
    SecondRunMismatch,
    /// The self-check replay produced diverging logs.
    LogDifference,
    /// The self-check replay re-recorded different preemptions.
    NoFixedPoint,
    /// A knockout produced a record that fails its consistency check.
    CorruptBaselineRecord,
    /// The final target preemption record stopped matching the criterion.
    FinalTargetMismatch,
    /// The final stack-trace run did not match the criterion.
    FinalRunMismatch,
    /// Bisection needs schedules of at least two shared positions.
    SchedulesTooShort,
    /// An option combination that the analyzer does not support yet.
    NotImplemented,
}

/// One run the pipeline asks the runtime for: the run name that artifact
/// files are derived from, and the run configuration.
#[derive(Debug)]
pub struct RunRequest {
    pub runname: String,
    pub options: RunOptions,
}

/// The analyzer's configuration: criterion, phase switches, seeds and replay
/// inputs, the parsed base run configuration, and the workspace.
#[derive(Debug)]
pub struct AnalyzeOpts {
    pub target_stdout: Option<String>,
    pub target_stderr: Option<String>,
    pub target_exit_code: ExitStatusConstraint,
    pub search: bool,
    pub minimize: bool,
    pub selfcheck: bool,
    pub verbose: bool,
    pub imprecise_search: bool,
    pub run1_seed: Option<u64>,
    pub run2_seed: Option<u64>,
    pub analyze_seed: Option<u64>,
    pub run1_preemptions: Option<String>,
    pub run2_preemptions: Option<String>,
    pub run1_schedule: Option<String>,
    pub run2_schedule: Option<String>,
    pub report_file: Option<String>,
    pub success_exit_code: Option<i32>,
    pub run_args: Vec<String>,
    pub run_options: RunOptions,
    pub tmp_dir: Option<String>,
}

/// `dir/name.ext`, the artifact path scheme of the workspace.
pub open spec fn spec_artifact_path(dir: Seq<char>, name: Seq<char>, ext: Seq<char>) -> Seq<char> {
    dir + "/"@ + name + "."@ + ext
}

impl AnalyzeOpts {
    /// Whether a captured run satisfies the criterion: all present
    /// constraints hold.  With no constraint present every run matches.
    pub open spec fn spec_output_matches(self, out: &RunOutput) -> bool {
        &&& stream_ok(opt_pat(self.target_stdout), out.stdout@)
        &&& stream_ok(opt_pat(self.target_stderr), out.stderr@)
        &&& self.target_exit_code.spec_is_match(out.status)
    }

    /// Decide whether the run met the criterion we are looking for.
    pub fn output_matches(&self, out: &RunOutput) -> (r: bool)
        ensures
            r == self.spec_output_matches(out),
    {
        let mut answer = true;
        if !check_stream(&self.target_stdout, out.stdout.as_slice()) {
            answer = false;
        }
        if !check_stream(&self.target_stderr, out.stderr.as_slice()) {
            answer = false;
        }
        if !self.target_exit_code.is_match(out.status) {
            answer = false;
        }
        answer
    }

    /// It is suspicious to run with no filter at all.
    pub fn has_filters(&self) -> (r: bool)
        ensures
            r == (self.target_stdout is Some || self.target_stderr is Some
                || self.target_exit_code != ExitStatusConstraint::Any),
    {
        let exit_filtered = match self.target_exit_code {
            ExitStatusConstraint::Any => false,
            _ => true,
        };
        self.target_stdout.is_some() || self.target_stderr.is_some() || exit_filtered
    }

    /// The workspace directory; the phases may only run once it is set.
    pub fn tmp_dir_str(&self) -> (r: &String)
        requires
            self.tmp_dir is Some,
        ensures
            r@ == self.tmp_dir->0@,
    {
        match &self.tmp_dir {
            Option::Some(d) => d,
            Option::None => unreached(),
        }
    }

    /// The log-file path of a run.
    pub fn log_path(&self, runname: &str) -> (r: String)
        requires
            self.tmp_dir is Some,
        ensures
            r@ == spec_artifact_path(self.tmp_dir->0@, runname@, "log"@),
    {
        self.artifact_path(runname, "log")
    }

    /// The preemption-record path of a run.
    pub fn preempts_path(&self, runname: &str) -> (r: String)
        requires
            self.tmp_dir is Some,
        ensures
            r@ == spec_artifact_path(self.tmp_dir->0@, runname@, "preempts"@),
    {
        self.artifact_path(runname, "preempts")
    }

    /// The schedule-trace path of a run.
    pub fn sched_path(&self, runname: &str) -> (r: String)
        requires
            self.tmp_dir is Some,
        ensures
            r@ == spec_artifact_path(self.tmp_dir->0@, runname@, "events"@),
    {
        self.artifact_path(runname, "events")
    }

    /// `dir/runname.ext` for an arbitrary artifact extension.
    pub fn artifact_path(&self, runname: &str, ext: &str) -> (r: String)
        requires
            self.tmp_dir is Some,
        ensures
            r@ == spec_artifact_path(self.tmp_dir->0@, runname@, ext@),
    {
        let mut s = self.tmp_dir_str().clone();
        s.append("/");
        s.append(runname);
        s.append(".");
        s.append(ext);
        s
    }

    /// The base configuration all runs share: the parsed run options with the
    /// workspace bound into the sandbox.  Rejected when the configuration
    /// does not sequentialize threads, since determinism is then lost.
    pub fn get_base_runopts(&self) -> (r: Result<RunOptions, AnalyzeError>)
        requires
            self.tmp_dir is Some,
        ensures
            r is Ok <==> self.run_options.sequentialize_threads,
            r matches Ok(ro) ==> ro@ == self.spec_base_runopts(),
            r matches Err(e) ==> e == AnalyzeError::NoSequentializeThreads,
    {
        if !self.run_options.sequentialize_threads {
            return Err(AnalyzeError::NoSequentializeThreads);
        }
        let mut ro = self.run_options.duplicate();
        ro.bind.push(self.tmp_dir_str().clone());
        proof {
            assert(ro@.bind =~= self.run_options@.bind.push(self.tmp_dir->0@));
        }
        Ok(ro)
    }

    /// The parsed run options with the workspace appended to the binds.
    pub open spec fn spec_base_runopts(self) -> RunOptionsModel {
        RunOptionsModel {
            driver: self.run_options@.driver,
            chaos: self.run_options@.chaos,
            record_preemptions: self.run_options@.record_preemptions,
            record_preemptions_to: self.run_options@.record_preemptions_to,
            stacktrace_event: self.run_options@.stacktrace_event,
            imprecise_timers: self.run_options@.imprecise_timers,
            sequentialize_threads: self.run_options@.sequentialize_threads,
            bind: self.run_options@.bind.push(self.tmp_dir->0@),
            summary: self.run_options@.summary,
        }
    }

    /// The user supplied a seed without chaos mode; usually an error worth a
    /// warning on the terminal.
    pub fn warns_seed_without_chaos(&self) -> (r: bool)
        ensures
            r == (self.run1_seed is Some && !self.run_options.chaos),
    {
        self.run1_seed.is_some() && !self.run_options.chaos
    }

    /// What drives run one: the run-one seed when given, else the run-one
    /// preemption file, else the base configuration's own driver.
    pub open spec fn spec_run1_driver(self) -> DriverModel {
        if self.run1_seed is Some {
            DriverModel::Chaos {
                seed: self.run1_seed->0,
                sched_seed: match self.run_options@.driver {
                    DriverModel::Chaos { sched_seed, .. } => sched_seed,
                    _ => Option::None,
                },
            }
        } else if self.run1_preemptions is Some {
            DriverModel::Preemptions { path: self.run1_preemptions->0@ }
        } else {
            self.run_options@.driver
        }
    }

    /// The run configuration for the initial target run.
    pub fn get_run1_runopts(&self) -> (r: Result<RunOptions, AnalyzeError>)
        requires
            self.tmp_dir is Some,
        ensures
            r is Ok <==> self.run_options.sequentialize_threads,
            r matches Ok(ro) ==> ro@ == (RunOptionsModel {
                driver: self.spec_run1_driver(),
                ..self.spec_base_runopts()
            }),
            r matches Err(e) ==> e == AnalyzeError::NoSequentializeThreads,
    {
        let mut ro = match self.get_base_runopts() {
            Ok(ro) => ro,
            Err(e) => {
                return Err(e);
            },
        };
        if let Option::Some(seed) = self.run1_seed {
            let kept = match &ro.driver {
                ReplayDriver::Chaos { sched_seed, .. } => *sched_seed,
                _ => Option::None,
            };
            ro.driver = ReplayDriver::Chaos { seed, sched_seed: kept };
        } else if let Option::Some(path) = &self.run1_preemptions {
            ro.driver = ReplayDriver::Preemptions { path: path.clone() };
        }
        Ok(ro)
    }

    /// What drives run two, symmetrically to run one.
    pub open spec fn spec_run2_driver(self) -> DriverModel {
        if self.run2_seed is Some {
            DriverModel::Chaos {
                seed: self.run2_seed->0,
                sched_seed: match self.run_options@.driver {
                    DriverModel::Chaos { sched_seed, .. } => sched_seed,
                    _ => Option::None,
                },
            }
        } else if self.run2_preemptions is Some {
            DriverModel::Preemptions { path: self.run2_preemptions->0@ }
        } else {
            self.run_options@.driver
        }
    }

    /// The run configuration for the baseline run.
    pub fn get_run2_runopts(&self) -> (r: Result<RunOptions, AnalyzeError>)
        requires
            self.tmp_dir is Some,
        ensures
            r is Ok <==> self.run_options.sequentialize_threads,
            r matches Ok(ro) ==> ro@ == (RunOptionsModel {
                driver: self.spec_run2_driver(),
                ..self.spec_base_runopts()
            }),
            r matches Err(e) ==> e == AnalyzeError::NoSequentializeThreads,
    {
        let mut ro = match self.get_base_runopts() {
            Ok(ro) => ro,
            Err(e) => {
                return Err(e);
            },
        };
        if let Option::Some(seed) = self.run2_seed {
            let kept = match &ro.driver {
                ReplayDriver::Chaos { sched_seed, .. } => *sched_seed,
                _ => Option::None,
            };
            ro.driver = ReplayDriver::Chaos { seed, sched_seed: kept };
        } else if let Option::Some(path) = &self.run2_preemptions {
            ro.driver = ReplayDriver::Preemptions { path: path.clone() };
        }
        Ok(ro)
    }

    /// The request that replays a preemption record, optionally re-recording
    /// the full schedule it produces.
    pub fn launch_from_preempts_to_sched(
        &self,
        runname: &str,
        preempts_path: &str,
        record_sched_path: Option<&str>,
    ) -> (r: Result<RunRequest, AnalyzeError>)
        requires
            self.tmp_dir is Some,
        ensures
            r is Ok <==> self.run_options.sequentialize_threads,
            r matches Ok(req) ==> {
                &&& req.runname@ == runname@
                &&& req.options@ == (RunOptionsModel {
                    driver: DriverModel::Preemptions { path: preempts_path@ },
                    record_preemptions_to: match record_sched_path {
                        Option::None => self.spec_base_runopts().record_preemptions_to,
                        Option::Some(p) => Option::Some(p@),
                    },
                    ..self.spec_base_runopts()
                })
            },
            r matches Err(e) ==> e == AnalyzeError::NoSequentializeThreads,
    {
        let mut ro = match self.get_base_runopts() {
            Ok(ro) => ro,
            Err(e) => {
                return Err(e);
            },
        };
        ro.driver = ReplayDriver::Preemptions { path: preempts_path.to_owned() };
        match record_sched_path {
            Option::None => {},
            Option::Some(p) => {
                ro.record_preemptions_to = Option::Some(p.to_owned());
            },
        }
        Ok(RunRequest { runname: runname.to_owned(), options: ro })
    }

    /// The request that replays the failing schedule while capturing stack
    /// traces at the critical event and its predecessor; also returns the
    /// two stack paths.
    pub fn launch_for_stacktraces(
        &self,
        runname: &str,
        schedule_path: &str,
        critical_event_index: u64,
    ) -> (r: Result<(RunRequest, String, String), AnalyzeError>)
        requires
            self.tmp_dir is Some,
            critical_event_index >= 1,
        ensures
            r is Ok <==> self.run_options.sequentialize_threads,
            r matches Ok(req) ==> {
                &&& req.0.runname@ == runname@
                &&& req.1@ == spec_artifact_path(self.tmp_dir->0@, runname@, "stack1"@)
                &&& req.2@ == spec_artifact_path(self.tmp_dir->0@, runname@, "stack2"@)
                &&& req.0.options@ == (RunOptionsModel {
                    driver: DriverModel::Schedule { path: schedule_path@ },
                    stacktrace_event: seq![
                        ((critical_event_index - 1) as u64, req.1@),
                        (critical_event_index, req.2@),
                    ],
                    ..self.spec_base_runopts()
                })
            },
            r matches Err(e) ==> e == AnalyzeError::NoSequentializeThreads,
    {
        let mut ro = match self.get_base_runopts() {
            Ok(ro) => ro,
            Err(e) => {
                return Err(e);
            },
        };
        let stack1 = self.artifact_path(runname, "stack1");
        let stack2 = self.artifact_path(runname, "stack2");
        ro.driver = ReplayDriver::Schedule { path: schedule_path.to_owned() };
        let mut st: Vec<StackTraceRequest> = Vec::new();
        st.push(
            StackTraceRequest { event_index: critical_event_index - 1, path: stack1.clone() },
        );
        st.push(StackTraceRequest { event_index: critical_event_index, path: stack2.clone() });
        ro.stacktrace_event = st;
        let req = RunRequest { runname: runname.to_owned(), options: ro };
        proof {
            assert(req.options@.stacktrace_event =~= seq![
                ((critical_event_index - 1) as u64, stack1@),
                (critical_event_index, stack2@),
            ]);
        }
        Ok((req, stack1, stack2))
    }

    /// The repro command line for a run configuration, with the log file
    /// named when a run name is given.
    pub fn runopts_to_repro(&self, runopts: &RunOptions, runname: Option<&str>) -> (r: String)
        requires
            runname is Some ==> self.tmp_dir is Some,
        ensures
            r@ == (match runname {
                Option::Some(name) => "hermit --log=debug --log-file="@ + spec_artifact_path(
                    self.tmp_dir->0@,
                    name@,
                    "log"@,
                ) + " run"@,
                Option::None => "hermit --log=debug run"@,
            }) + spec_flags(runopts@) + " "@ + spec_join_with(
                Seq::new(self.run_args@.len(), |i: int| self.run_args@[i]@),
                " "@,
            ),
    {
        let mut s = String::new();
        match runname {
            Option::Some(name) => {
                s.append("hermit --log=debug --log-file=");
                let lp = self.log_path(name);
                s.append(lp.as_str());
                s.append(" run");
            },
            Option::None => {
                s.append("hermit --log=debug run");
            },
        }
        let flags = runopts.render_flags();
        s.append(flags.as_str());
        s.append(" ");
        let args = join_with(&self.run_args, " ");
        s.append(args.as_str());
        s
    }

    /// The repro command line that replays a preemption record directly.
    pub fn to_repro_cmd(&self, preempts_path: &str, extra_flags: &str) -> (r: String)
        requires
            self.tmp_dir is Some,
        ensures
            r@ == "hermit --log-file=/dev/stderr run --bind="@ + self.tmp_dir->0@
                + " --sequentialize-threads --replay-preemptions-from='"@ + preempts_path@ + "' "@
                + extra_flags@ + " "@ + spec_join_with(
                Seq::new(self.run_args@.len(), |i: int| self.run_args@[i]@),
                " "@,
            ),
    {
        let mut s = String::new();
        s.append("hermit --log-file=/dev/stderr run --bind=");
        s.append(self.tmp_dir_str().as_str());
        s.append(" --sequentialize-threads --replay-preemptions-from='");
        s.append(preempts_path);
        s.append("' ");
        s.append(extra_flags);
        s.append(" ");
        let args = join_with(&self.run_args, " ");
        s.append(args.as_str());
        s
    }

    /// The repro command line for a seeded chaos run.
    pub fn to_repro_chaos(&self, seed: u64) -> (r: String)
        ensures
            r@ == "hermit --log-file=/dev/stderr run --seed="@ + spec_u64_dec(seed as nat) + " "@
                + spec_join_with(Seq::new(self.run_args@.len(), |i: int| self.run_args@[i]@), " "@),
    {
        let mut s = String::new();
        s.append("hermit --log-file=/dev/stderr run --seed=");
        let d = u64_to_dec(seed);
        s.append(d.as_str());
        s.append(" ");
        let args = join_with(&self.run_args, " ");
        s.append(args.as_str());
        s
    }

    /// The criterion pieces as the diagnostics print them.
    pub open spec fn spec_criteria_pieces(self) -> Seq<Seq<char>> {
        (match self.target_exit_code {
            ExitStatusConstraint::Exact(c) => seq!["exit code="@ + spec_i32_dec(c as int)],
            ExitStatusConstraint::NonZero => seq!["nonzero exit"@],
            ExitStatusConstraint::Any => Seq::<Seq<char>>::empty(),
        }) + (if self.target_stdout is Some {
            seq![" matching stdout"@]
        } else {
            Seq::<Seq<char>>::empty()
        }) + (if self.target_stderr is Some {
            seq![" matching stderr"@]
        } else {
            Seq::<Seq<char>>::empty()
        })
    }

    /// Render the criterion for the diagnostics.
    pub fn display_criteria(&self) -> (r: String)
        ensures
            r@ == spec_join_with(self.spec_criteria_pieces(), ", "@),
    {
        let mut pieces: Vec<String> = Vec::new();
        match self.target_exit_code {
            ExitStatusConstraint::Exact(c) => {
                let mut p = String::new();
                p.append("exit code=");
                let d = i32_to_dec(c);
                p.append(d.as_str());
                pieces.push(p);
            },
            ExitStatusConstraint::NonZero => {
                pieces.push("nonzero exit".to_owned());
            },
            ExitStatusConstraint::Any => {},
        }
        if self.target_stdout.is_some() {
            pieces.push(" matching stdout".to_owned());
        }
        if self.target_stderr.is_some() {
            pieces.push(" matching stderr".to_owned());
        }
        let r = join_with(&pieces, ", ");
        proof {
            assert(Seq::new(pieces@.len(), |i: int| pieces@[i]@) =~~= self.spec_criteria_pieces());
        }
        r
    }
}

} // verus!
