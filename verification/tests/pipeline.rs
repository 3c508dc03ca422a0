use hermit_analyze::bisect::CriticalSchedule;
use hermit_analyze::criteria::ExitStatusConstraint;
use hermit_analyze::minimize::Minimizer;
use hermit_analyze::opts::{AnalyzeError, AnalyzeOpts};
use hermit_analyze::phases::{KnockoutNext, Phase1Next, Phase2Plan, Phase4Plan};
use hermit_analyze::record::{Directive, PreemptionRecord, SchedEvent, ThreadDirectives};
use hermit_analyze::runopts::{ReplayDriver, RunOptions};

fn base_run_options() -> RunOptions {
    RunOptions {
        driver: ReplayDriver::Chaos {
            seed: 0,
            sched_seed: None,
        },
        chaos: true,
        record_preemptions: false,
        record_preemptions_to: None,
        stacktrace_event: Vec::new(),
        imprecise_timers: false,
        sequentialize_threads: true,
        bind: Vec::new(),
        summary: false,
    }
}

fn base_opts() -> AnalyzeOpts {
    AnalyzeOpts {
        target_stdout: None,
        target_stderr: None,
        target_exit_code: ExitStatusConstraint::Any,
        search: false,
        minimize: false,
        selfcheck: false,
        verbose: false,
        imprecise_search: false,
        run1_seed: None,
        run2_seed: None,
        analyze_seed: None,
        run1_preemptions: None,
        run2_preemptions: None,
        run1_schedule: None,
        run2_schedule: None,
        report_file: None,
        success_exit_code: None,
        run_args: Vec::new(),
        run_options: base_run_options(),
        tmp_dir: Some("/tmp/hermit_analyze_ws".to_string()),
    }
}

fn preempt_record(indices: &[u64]) -> PreemptionRecord {
    PreemptionRecord {
        threads: vec![ThreadDirectives {
            tid: 1,
            dirs: indices
                .iter()
                .map(|i| Directive {
                    index: *i,
                    preemptive: true,
                })
                .collect(),
        }],
        events: Vec::new(),
    }
}

fn preempt_indices(r: &PreemptionRecord) -> Vec<u64> {
    r.threads[0].dirs.iter().map(|d| d.index).collect()
}

// Target already matches: the first run satisfies `exit_code = Exact(139)`,
// phase one accepts without searching, and with minimization disabled phase
// two keeps the record as loaded.
#[test]
fn target_already_matches() {
    let mut opts = base_opts();
    opts.target_exit_code = ExitStatusConstraint::Exact(139);
    opts.run1_seed = Some(11);

    let out = hermit_analyze::criteria::RunOutput {
        status: 139,
        stdout: Vec::new(),
        stderr: Vec::new(),
    };
    let matched = opts.output_matches(&out);
    assert!(matched);
    assert_eq!(opts.phase1_decide(matched), Ok(Phase1Next::Accept));

    let loaded = preempt_record(&[1, 2, 3]);
    match opts.phase2_minimize(loaded) {
        Phase2Plan::KeepLoaded(rec) => assert_eq!(preempt_indices(&rec), vec![1, 2, 3]),
        Phase2Plan::Reduce(_) => panic!("minimization is disabled"),
    }
}

// Search finds failure: rounds before the fifth produce clean runs, round
// five matches, and its preemption file ends the search.
#[test]
fn search_finds_failure_in_round_five() {
    let mut opts = base_opts();
    opts.search = true;
    opts.analyze_seed = Some(42);
    opts.target_stderr = Some("DEADLOCK".to_string());

    assert_eq!(opts.phase1_decide(false), Ok(Phase1Next::Search));

    let mut st = opts.do_search_start();
    let found = loop {
        let sched_seed = st.next_sched_seed();
        let (request, preempts_path) = opts.launch_search(st.round, sched_seed).unwrap();
        assert!(request.options.record_preemptions);
        // Mocked runtime: only round five prints DEADLOCK.
        let matched = st.round == 5;
        match opts.search_round_decide(matched, preempts_path) {
            Some(path) => break path,
            None => st.record_miss(),
        }
    };
    assert_eq!(st.round, 5);
    assert_eq!(found, "/tmp/hermit_analyze_ws/search_round_005.preempts");
}

// Minimization strictly shrinks: ten preemptions, the criterion needs
// exactly indices 3 and 7, and the minimized record holds exactly those.
#[test]
fn minimization_keeps_exactly_the_needed_preemptions() {
    let mut opts = base_opts();
    opts.minimize = true;
    let matches = |r: &PreemptionRecord| {
        let idx = preempt_indices(r);
        idx.contains(&3) && idx.contains(&7)
    };
    let initial = preempt_record(&[0, 1, 2, 3, 4, 5, 6, 7, 8, 9]);
    assert!(matches(&initial));

    let mut m: Minimizer = match opts.phase2_minimize(initial) {
        Phase2Plan::Reduce(m) => m,
        Phase2Plan::KeepLoaded(_) => panic!("minimization is enabled"),
    };
    let mut rounds = 0;
    loop {
        match m.next_candidate() {
            None => break,
            Some(candidate) => {
                let matched = matches(&candidate);
                // The matching property is preserved throughout: the current
                // record always matches.
                assert!(matches(&m.current));
                m.step(matched);
                assert!(matches(&m.current));
                rounds += 1;
            }
        }
    }
    assert_eq!(preempt_indices(&m.current), vec![3, 7]);
    assert_eq!(rounds, 10);
}

// Baseline derivation via knockout: from the minimized record {3, 7},
// removing the latest preemption (7) no longer matches, so the baseline is
// {3} after exactly one knockout.
#[test]
fn baseline_after_one_knockout() {
    let mut opts = base_opts();
    opts.minimize = true;
    match opts.phase4_choose_baseline_sched_events().unwrap() {
        Phase4Plan::Knockout => {}
        _ => panic!("knockout branch expected"),
    }
    let matches = |r: &PreemptionRecord| {
        let idx = preempt_indices(r);
        idx.contains(&3) && idx.contains(&7)
    };
    let minimized = preempt_record(&[3, 7]);
    let sched_path = opts.sched_path("run2_baseline");
    let mut knockouts = 0;
    let mut current = minimized;
    let baseline = loop {
        let (candidate, _path, _bytes, request) = opts
            .save_nearby_non_matching_sched_events(&current, &sched_path)
            .unwrap();
        assert_eq!(request.runname, "baseline_nearby_non_matching");
        knockouts += 1;
        let matched = matches(&candidate);
        match opts.phase4_knockout_decide(candidate, matched) {
            KnockoutNext::StillMatching(c) => current = c,
            KnockoutNext::Baseline(b) => break b,
        }
    };
    assert_eq!(knockouts, 1);
    assert_eq!(preempt_indices(&baseline), vec![3]);
}

// Phase four's other branches.
#[test]
fn phase4_branch_selection() {
    let mut opts = base_opts();
    opts.run2_seed = Some(9);
    match opts.phase4_choose_baseline_sched_events().unwrap() {
        Phase4Plan::RecordFromSeed { request, .. } => {
            assert_eq!(request.runname, "run2_baseline")
        }
        _ => panic!("seed branch expected"),
    }
    let mut opts = base_opts();
    opts.run2_preemptions = Some("/some/file.preempts".to_string());
    match opts.phase4_choose_baseline_sched_events().unwrap() {
        Phase4Plan::LoadProvided { source } => assert_eq!(source, "/some/file.preempts"),
        _ => panic!("provided-file branch expected"),
    }
    let opts = base_opts();
    match opts.phase4_choose_baseline_sched_events().unwrap() {
        Phase4Plan::Stripped => {}
        _ => panic!("stripped branch expected"),
    }
}

// A corrupt knockout candidate aborts phase four.
#[test]
fn corrupt_knockout_candidate_is_fatal() {
    let opts = base_opts();
    let bad = PreemptionRecord {
        threads: vec![
            ThreadDirectives {
                tid: 1,
                dirs: vec![Directive {
                    index: 5,
                    preemptive: true,
                }],
            },
            ThreadDirectives {
                tid: 1,
                dirs: vec![Directive {
                    index: 2,
                    preemptive: true,
                }],
            },
        ],
        events: Vec::new(),
    };
    let sched_path = opts.sched_path("run2_baseline");
    match opts.save_nearby_non_matching_sched_events(&bad, &sched_path) {
        Err(AnalyzeError::CorruptBaselineRecord) => {}
        _ => panic!("the repeated thread id must be rejected"),
    }
}

// Bisection converges: schedules of length 100, the criterion holds exactly
// when the event of operation 42 precedes that of operation 43.  The search
// ends with critical event index 43 and schedules differing only at
// positions 42 and 43.
#[test]
fn bisection_converges_on_the_critical_pair() {
    let opts = base_opts();
    let event = |op: u64| SchedEvent { tid: 0, op };
    let target: Vec<SchedEvent> = (0..100).map(|i| event(i)).collect();
    let mut baseline = target.clone();
    baseline.swap(42, 43);

    let matches = |sched: &Vec<SchedEvent>| {
        let a = sched.iter().position(|e| e.op == 42);
        let b = sched.iter().position(|e| e.op == 43);
        match (a, b) {
            (Some(i), Some(j)) => i < j,
            _ => false,
        }
    };
    assert!(matches(&target));
    assert!(!matches(&baseline));

    let mut bisector = opts.phase5_bisect_traces(target.clone(), baseline).unwrap();
    let mut probes = 0;
    while !bisector.converged() {
        let (runname, hybrid) = bisector.next_probe();
        assert_eq!(runname, format!("bisect_round_{}", probes + 1));
        let matched = matches(&hybrid);
        bisector.record_probe_result(matched);
        probes += 1;
        assert!(probes <= 100, "bisection must converge");
    }
    let crit: CriticalSchedule = bisector.result();
    assert_eq!(crit.critical_event_index, 43);
    assert!(matches(&crit.failing_schedule));
    assert!(!matches(&crit.passing_schedule));
    for i in 0..42 {
        assert_eq!(crit.failing_schedule[i], crit.passing_schedule[i]);
    }
    for i in 44..100 {
        assert_eq!(crit.failing_schedule[i], crit.passing_schedule[i]);
    }
    assert_eq!(crit.failing_schedule[42].op, 42);
    assert_eq!(crit.failing_schedule[43].op, 43);
}

#[test]
fn bisection_rejects_degenerate_schedules() {
    let opts = base_opts();
    let one = vec![SchedEvent { tid: 0, op: 0 }];
    match opts.phase5_bisect_traces(one.clone(), one) {
        Err(AnalyzeError::SchedulesTooShort) => {}
        _ => panic!("a one-event schedule leaves nothing to bisect"),
    }
}

// Self-check failure: one byte of log noise on replay aborts phase three.
#[test]
fn selfcheck_fails_on_log_noise() {
    let mut opts = base_opts();
    opts.selfcheck = true;
    let lines1 = vec!["step one".to_string(), "step two".to_string()];
    let mut lines2 = lines1.clone();
    lines2[1] = "step twoX".to_string();
    let logs_match = opts.log_diff_preemption_replay(&lines1, &lines2);
    assert!(!logs_match);
    assert_eq!(
        opts.phase3_strict_preempt_replay_check(true, logs_match, true),
        Err(AnalyzeError::LogDifference)
    );
}

#[test]
fn selfcheck_ignores_chaos_rng_lines() {
    let mut opts = base_opts();
    opts.selfcheck = true;
    let lines1 = vec![
        "step one".to_string(),
        "CHAOSRAND draw 17".to_string(),
        "step two".to_string(),
    ];
    let lines2 = vec![
        "step one".to_string(),
        "CHAOSRAND draw 99".to_string(),
        "step two".to_string(),
    ];
    assert!(opts.log_diff_preemption_replay(&lines1, &lines2));
    assert_eq!(opts.phase3_strict_preempt_replay_check(true, true, true), Ok(()));
}

#[test]
fn selfcheck_requires_the_fixed_point() {
    let mut opts = base_opts();
    opts.selfcheck = true;
    assert_eq!(
        opts.phase3_strict_preempt_replay_check(false, true, true),
        Err(AnalyzeError::SecondRunMismatch)
    );
    assert_eq!(
        opts.phase3_strict_preempt_replay_check(true, true, false),
        Err(AnalyzeError::NoFixedPoint)
    );
    // With the self-check disabled nothing is checked.
    let opts2 = base_opts();
    assert_eq!(
        opts2.phase3_strict_preempt_replay_check(false, false, false),
        Ok(())
    );
}

// The remaining error paths of the pipeline.
#[test]
fn pipeline_error_paths() {
    let mut opts = base_opts();
    opts.run_options.sequentialize_threads = false;
    assert_eq!(
        opts.get_base_runopts().unwrap_err(),
        AnalyzeError::NoSequentializeThreads
    );

    let opts = base_opts();
    assert_eq!(
        opts.phase1_decide(false),
        Err(AnalyzeError::RunDidNotMatch)
    );
    assert_eq!(
        opts.target_endpoint_decide(false),
        Err(AnalyzeError::FinalTargetMismatch)
    );
    assert!(opts.target_endpoint_decide(true).is_ok());
    assert_eq!(
        opts.phase6_report("h".to_string(), false, "s1".to_string(), "s2".to_string())
            .unwrap_err(),
        AnalyzeError::FinalRunMismatch
    );

    let mut opts = base_opts();
    opts.run1_schedule = Some("x.events".to_string());
    assert_eq!(opts.check_supported(), Err(AnalyzeError::NotImplemented));

    let mut opts = base_opts();
    opts.run1_preemptions = Some("p.preempts".to_string());
    opts.selfcheck = true;
    assert!(matches!(
        opts.phase1_plan(),
        Err(AnalyzeError::NotImplemented)
    ));
}

// Phase six assembles the rerun and the report.
#[test]
fn phase6_builds_rerun_and_report() {
    let opts = base_opts();
    let event = |op: u64| SchedEvent { tid: 0, op };
    let crit = CriticalSchedule {
        failing_schedule: vec![event(0), event(1), event(2)],
        passing_schedule: vec![event(0), event(2), event(1)],
        critical_event_index: 2,
    };
    let plan = opts.phase6_record_outputs(&crit).unwrap();
    assert_eq!(
        plan.final_failing_path,
        "/tmp/hermit_analyze_ws/final_target_for_stacktraces.events"
    );
    assert_eq!(
        plan.final_passing_path,
        "/tmp/hermit_analyze_ws/final_baseline.events"
    );
    assert!(plan.header.contains("order of events 1 and 2"));
    assert_eq!(plan.request.runname, "final_target_for_stacktraces");
    assert_eq!(plan.request.options.stacktrace_event.len(), 2);
    assert_eq!(plan.request.options.stacktrace_event[0].event_index, 1);
    assert_eq!(plan.request.options.stacktrace_event[1].event_index, 2);
    assert_eq!(
        plan.stack1_path,
        "/tmp/hermit_analyze_ws/final_target_for_stacktraces.stack1"
    );

    let report = opts
        .phase6_report(plan.header, true, "trace a".to_string(), "trace b".to_string())
        .unwrap();
    assert_eq!(report.stack1, "trace a");
    assert_eq!(report.stack2, "trace b");

    assert_eq!(opts.final_exit_status(), 0);
    let mut opts2 = base_opts();
    opts2.success_exit_code = Some(7);
    assert_eq!(opts2.final_exit_status(), 7);
}
