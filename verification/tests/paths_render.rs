use hermit_analyze::criteria::ExitStatusConstraint;
use hermit_analyze::opts::AnalyzeOpts;
use hermit_analyze::render::{i32_to_dec, u64_to_dec, u64_to_dec3};
use hermit_analyze::runopts::{ReplayDriver, RunOptions, StackTraceRequest};

fn base_run_options() -> RunOptions {
    RunOptions {
        driver: ReplayDriver::Chaos {
            seed: 0,
            sched_seed: None,
        },
        chaos: true,
        record_preemptions: false,
        record_preemptions_to: None,
        stacktrace_event: Vec::new(),
        imprecise_timers: false,
        sequentialize_threads: true,
        bind: Vec::new(),
        summary: false,
    }
}

fn base_opts() -> AnalyzeOpts {
    AnalyzeOpts {
        target_stdout: None,
        target_stderr: None,
        target_exit_code: ExitStatusConstraint::Any,
        search: false,
        minimize: false,
        selfcheck: false,
        verbose: false,
        imprecise_search: false,
        run1_seed: None,
        run2_seed: None,
        analyze_seed: None,
        run1_preemptions: None,
        run2_preemptions: None,
        run1_schedule: None,
        run2_schedule: None,
        report_file: None,
        success_exit_code: None,
        run_args: vec!["./prog".to_string(), "--arg".to_string()],
        run_options: base_run_options(),
        tmp_dir: Some("/tmp/ws".to_string()),
    }
}

#[test]
fn decimal_rendering() {
    assert_eq!(u64_to_dec(0), "0");
    assert_eq!(u64_to_dec(7), "7");
    assert_eq!(u64_to_dec(42), "42");
    assert_eq!(u64_to_dec(18446744073709551615), "18446744073709551615");
    assert_eq!(u64_to_dec3(0), "000");
    assert_eq!(u64_to_dec3(42), "042");
    assert_eq!(u64_to_dec3(100), "100");
    assert_eq!(u64_to_dec3(1234), "1234");
    assert_eq!(i32_to_dec(-1), "-1");
    assert_eq!(i32_to_dec(139), "139");
    assert_eq!(i32_to_dec(-2147483648), "-2147483648");
}

#[test]
fn artifact_paths() {
    let opts = base_opts();
    assert_eq!(opts.log_path("run1"), "/tmp/ws/run1.log");
    assert_eq!(opts.preempts_path("run1"), "/tmp/ws/run1.preempts");
    assert_eq!(opts.sched_path("run1"), "/tmp/ws/run1.events");
    assert_eq!(opts.artifact_path("r", "stack1"), "/tmp/ws/r.stack1");
}

#[test]
fn base_runopts_binds_the_workspace() {
    let opts = base_opts();
    let ro = opts.get_base_runopts().unwrap();
    assert_eq!(ro.bind, vec!["/tmp/ws".to_string()]);
    assert!(ro.sequentialize_threads);
}

#[test]
fn run1_and_run2_drivers() {
    let mut opts = base_opts();
    opts.run1_seed = Some(77);
    let ro = opts.get_run1_runopts().unwrap();
    match ro.driver {
        ReplayDriver::Chaos { seed, sched_seed } => {
            assert_eq!(seed, 77);
            assert_eq!(sched_seed, None);
        }
        _ => panic!("seeded chaos expected"),
    }

    let mut opts = base_opts();
    opts.run2_preemptions = Some("/tmp/ws/two.preempts".to_string());
    let ro = opts.get_run2_runopts().unwrap();
    match ro.driver {
        ReplayDriver::Preemptions { path } => assert_eq!(path, "/tmp/ws/two.preempts"),
        _ => panic!("preemption replay expected"),
    }
}

#[test]
fn replay_request_sets_driver_and_recording() {
    let opts = base_opts();
    let req = opts
        .launch_from_preempts_to_sched("verify", "/tmp/ws/a.preempts", Some("/tmp/ws/a.events"))
        .unwrap();
    assert_eq!(req.runname, "verify");
    match &req.options.driver {
        ReplayDriver::Preemptions { path } => assert_eq!(path, "/tmp/ws/a.preempts"),
        _ => panic!("preemption replay expected"),
    }
    assert_eq!(
        req.options.record_preemptions_to,
        Some("/tmp/ws/a.events".to_string())
    );
}

#[test]
fn stacktrace_request_straddles_the_critical_event() {
    let opts = base_opts();
    let (req, stack1, stack2) = opts
        .launch_for_stacktraces("final", "/tmp/ws/final.events", 43)
        .unwrap();
    assert_eq!(stack1, "/tmp/ws/final.stack1");
    assert_eq!(stack2, "/tmp/ws/final.stack2");
    assert_eq!(req.options.stacktrace_event.len(), 2);
    assert_eq!(req.options.stacktrace_event[0].event_index, 42);
    assert_eq!(req.options.stacktrace_event[0].path, stack1);
    assert_eq!(req.options.stacktrace_event[1].event_index, 43);
    assert_eq!(req.options.stacktrace_event[1].path, stack2);
}

#[test]
fn render_flags_lists_the_configuration() {
    let mut ro = base_run_options();
    ro.driver = ReplayDriver::Chaos {
        seed: 5,
        sched_seed: Some(9),
    };
    ro.record_preemptions = true;
    ro.record_preemptions_to = Some("/tmp/ws/x.preempts".to_string());
    ro.stacktrace_event = vec![StackTraceRequest {
        event_index: 3,
        path: "/tmp/ws/x.stack1".to_string(),
    }];
    ro.bind = vec!["/tmp/ws".to_string()];
    assert_eq!(
        ro.render_flags(),
        " --sequentialize-threads --chaos --seed=5 --sched-seed=9 --record-preemptions \
         --record-preemptions-to=/tmp/ws/x.preempts --stacktrace-event=3,/tmp/ws/x.stack1 \
         --bind=/tmp/ws"
    );
}

#[test]
fn repro_command_lines() {
    let opts = base_opts();
    let ro = opts.get_base_runopts().unwrap();
    assert_eq!(
        opts.runopts_to_repro(&ro, None),
        "hermit --log=debug run --sequentialize-threads --chaos --seed=0 --bind=/tmp/ws \
         ./prog --arg"
    );
    assert_eq!(
        opts.runopts_to_repro(&ro, Some("round1")),
        "hermit --log=debug --log-file=/tmp/ws/round1.log run --sequentialize-threads --chaos \
         --seed=0 --bind=/tmp/ws ./prog --arg"
    );
    assert_eq!(
        opts.to_repro_cmd("/tmp/ws/m.preempts", "--record-preemptions-to=/tmp/ws/m.events"),
        "hermit --log-file=/dev/stderr run --bind=/tmp/ws --sequentialize-threads \
         --replay-preemptions-from='/tmp/ws/m.preempts' \
         --record-preemptions-to=/tmp/ws/m.events ./prog --arg"
    );
    assert_eq!(
        opts.to_repro_chaos(99),
        "hermit --log-file=/dev/stderr run --seed=99 ./prog --arg"
    );
}

#[test]
fn duplicate_copies_every_field() {
    let mut ro = base_run_options();
    ro.driver = ReplayDriver::Schedule {
        path: "/tmp/ws/s.events".to_string(),
    };
    ro.bind = vec!["/a".to_string(), "/b".to_string()];
    let copy = ro.duplicate();
    match copy.driver {
        ReplayDriver::Schedule { path } => assert_eq!(path, "/tmp/ws/s.events"),
        _ => panic!("schedule replay expected"),
    }
    assert_eq!(copy.bind, ro.bind);
    assert_eq!(copy.sequentialize_threads, ro.sequentialize_threads);
}
