use hermit_analyze::criteria::{ExitStatusConstraint, RunOutput};
use hermit_analyze::opts::AnalyzeOpts;
use hermit_analyze::runopts::{ReplayDriver, RunOptions};

fn base_run_options() -> RunOptions {
    RunOptions {
        driver: ReplayDriver::Chaos {
            seed: 0,
            sched_seed: None,
        },
        chaos: true,
        record_preemptions: false,
        record_preemptions_to: None,
        stacktrace_event: Vec::new(),
        imprecise_timers: false,
        sequentialize_threads: true,
        bind: Vec::new(),
        summary: false,
    }
}

fn base_opts() -> AnalyzeOpts {
    AnalyzeOpts {
        target_stdout: None,
        target_stderr: None,
        target_exit_code: ExitStatusConstraint::Any,
        search: false,
        minimize: false,
        selfcheck: false,
        verbose: false,
        imprecise_search: false,
        run1_seed: None,
        run2_seed: None,
        analyze_seed: None,
        run1_preemptions: None,
        run2_preemptions: None,
        run1_schedule: None,
        run2_schedule: None,
        report_file: None,
        success_exit_code: None,
        run_args: Vec::new(),
        run_options: base_run_options(),
        tmp_dir: Some("/tmp/hermit_analyze_ws".to_string()),
    }
}

fn output(status: i32, stdout: &[u8], stderr: &[u8]) -> RunOutput {
    RunOutput {
        status,
        stdout: stdout.to_vec(),
        stderr: stderr.to_vec(),
    }
}

#[test]
fn no_constraints_matches_every_run() {
    let opts = base_opts();
    assert!(!opts.has_filters());
    assert!(opts.output_matches(&output(0, b"", b"")));
    assert!(opts.output_matches(&output(139, b"x", b"y")));
}

#[test]
fn exact_exit_code_constraint() {
    let mut opts = base_opts();
    opts.target_exit_code = ExitStatusConstraint::Exact(139);
    assert!(opts.has_filters());
    assert!(opts.output_matches(&output(139, b"", b"")));
    assert!(!opts.output_matches(&output(0, b"", b"")));
    assert!(!opts.output_matches(&output(1, b"", b"")));
}

#[test]
fn nonzero_exit_code_constraint() {
    let mut opts = base_opts();
    opts.target_exit_code = ExitStatusConstraint::NonZero;
    assert!(opts.output_matches(&output(1, b"", b"")));
    assert!(!opts.output_matches(&output(0, b"", b"")));
}

#[test]
fn stderr_pattern_constraint() {
    let mut opts = base_opts();
    opts.target_stderr = Some("DEADLOCK".to_string());
    assert!(opts.output_matches(&output(0, b"", b"thread DEADLOCK detected")));
    assert!(!opts.output_matches(&output(0, b"", b"all clear")));
    // The pattern applies to stderr, not stdout.
    assert!(!opts.output_matches(&output(0, b"DEADLOCK", b"")));
}

#[test]
fn stdout_regex_is_a_real_regular_expression() {
    let mut opts = base_opts();
    opts.target_stdout = Some("ab+c$".to_string());
    assert!(opts.output_matches(&output(0, b"xxabbbc", b"")));
    assert!(!opts.output_matches(&output(0, b"ac", b"")));
    assert!(!opts.output_matches(&output(0, b"abbbcd", b"")));
}

#[test]
fn conjunction_of_constraints() {
    let mut opts = base_opts();
    opts.target_exit_code = ExitStatusConstraint::NonZero;
    opts.target_stderr = Some("panic".to_string());
    assert!(opts.output_matches(&output(101, b"", b"panic: oh no")));
    assert!(!opts.output_matches(&output(0, b"", b"panic: oh no")));
    assert!(!opts.output_matches(&output(101, b"", b"fine")));
}

#[test]
fn pattern_validity_check() {
    assert!(hermit_analyze::criteria::pattern_is_valid("ab+c$"));
    assert!(!hermit_analyze::criteria::pattern_is_valid("("));
}

#[test]
fn invalid_pattern_never_matches() {
    let mut opts = base_opts();
    opts.target_stdout = Some("(".to_string());
    assert!(!opts.output_matches(&output(0, b"(", b"")));
}

#[test]
fn stream_bytes_are_decoded_lossily() {
    let mut opts = base_opts();
    opts.target_stdout = Some("end$".to_string());
    // Invalid UTF-8 in the middle must not prevent matching the tail.
    assert!(opts.output_matches(&output(0, b"\xff\xfe the end", b"")));
}

#[test]
fn display_criteria_names_the_constraints() {
    let mut opts = base_opts();
    opts.target_exit_code = ExitStatusConstraint::Exact(139);
    opts.target_stdout = Some("a".to_string());
    opts.target_stderr = Some("b".to_string());
    assert_eq!(
        opts.display_criteria(),
        "exit code=139,  matching stdout,  matching stderr"
    );
    let mut opts2 = base_opts();
    opts2.target_exit_code = ExitStatusConstraint::NonZero;
    assert_eq!(opts2.display_criteria(), "nonzero exit");
    assert_eq!(base_opts().display_criteria(), "");
}
