use hermit_analyze::record::{Directive, PreemptionRecord, SchedEvent, ThreadDirectives, ValidateError};

fn dir(index: u64, preemptive: bool) -> Directive {
    Directive { index, preemptive }
}

fn thread(tid: u64, dirs: Vec<Directive>) -> ThreadDirectives {
    ThreadDirectives { tid, dirs }
}

fn record(threads: Vec<ThreadDirectives>) -> PreemptionRecord {
    PreemptionRecord {
        threads,
        events: Vec::new(),
    }
}

fn preempt_count(r: &PreemptionRecord) -> usize {
    r.threads
        .iter()
        .map(|t| t.dirs.iter().filter(|d| d.preemptive).count())
        .sum()
}

#[test]
fn knockout_strictly_shrinks_nonempty() {
    let r = record(vec![
        thread(1, vec![dir(10, true), dir(20, false)]),
        thread(2, vec![dir(30, true), dir(40, true)]),
    ]);
    assert!(r.has_preemptions());
    assert_eq!(preempt_count(&r), 3);
    let r2 = r.with_latest_preempt_removed();
    assert_eq!(preempt_count(&r2), 2);
    let r3 = r2.with_latest_preempt_removed();
    assert_eq!(preempt_count(&r3), 1);
    let r4 = r3.with_latest_preempt_removed();
    assert_eq!(preempt_count(&r4), 0);
    assert!(!r4.has_preemptions());
}

#[test]
fn knockout_removes_the_latest_index() {
    let r = record(vec![
        thread(1, vec![dir(10, true), dir(50, true)]),
        thread(2, vec![dir(30, true)]),
    ]);
    let r2 = r.with_latest_preempt_removed();
    // The preemption with the greatest event index (50, on thread 1) leaves.
    assert_eq!(r2.threads[0].dirs, vec![dir(10, true)]);
    assert_eq!(r2.threads[1].dirs, vec![dir(30, true)]);
}

#[test]
fn knockout_on_empty_returns_record_unchanged() {
    let r = record(vec![thread(1, vec![dir(10, false)])]);
    let r2 = r.with_latest_preempt_removed();
    assert_eq!(r2.threads.len(), 1);
    assert_eq!(r2.threads[0].tid, 1);
    assert_eq!(r2.threads[0].dirs, vec![dir(10, false)]);
}

#[test]
fn normalize_sorts_by_tid_and_drops_empty() {
    let r = record(vec![
        thread(5, vec![dir(1, true)]),
        thread(2, Vec::new()),
        thread(3, vec![dir(2, true)]),
    ]);
    let n = r.normalize();
    assert_eq!(n.threads.len(), 2);
    assert_eq!(n.threads[0].tid, 3);
    assert_eq!(n.threads[1].tid, 5);
}

#[test]
fn normalize_is_idempotent() {
    let r = record(vec![
        thread(9, vec![dir(4, true), dir(9, false)]),
        thread(1, vec![dir(2, true)]),
        thread(7, Vec::new()),
        thread(4, vec![dir(3, false)]),
    ]);
    let once = r.normalize();
    let twice = once.normalize();
    assert_eq!(once.threads.len(), twice.threads.len());
    for (a, b) in once.threads.iter().zip(twice.threads.iter()) {
        assert_eq!(a.tid, b.tid);
        assert_eq!(a.dirs, b.dirs);
    }
}

#[test]
fn preemptions_only_strips_other_entries() {
    let mut r = record(vec![thread(
        1,
        vec![dir(1, true), dir(2, false), dir(3, true)],
    )]);
    r.preemptions_only();
    assert_eq!(r.threads[0].dirs, vec![dir(1, true), dir(3, true)]);
}

#[test]
fn strip_contents_keeps_structure_only() {
    let r = record(vec![
        thread(1, vec![dir(1, true)]),
        thread(2, vec![dir(2, true)]),
    ]);
    let s = r.strip_contents();
    assert_eq!(s.threads.len(), 2);
    assert_eq!(s.threads[0].tid, 1);
    assert!(s.threads[0].dirs.is_empty());
    assert!(s.threads[1].dirs.is_empty());
    assert!(s.events.is_empty());
}

#[test]
fn validate_accepts_consistent_record() {
    let r = record(vec![
        thread(1, vec![dir(1, true), dir(5, false)]),
        thread(2, vec![dir(3, true)]),
    ]);
    assert!(r.validate().is_ok());
}

#[test]
fn validate_rejects_repeated_tid() {
    let r = record(vec![
        thread(1, vec![dir(1, true)]),
        thread(1, vec![dir(2, true)]),
    ]);
    assert_eq!(r.validate(), Err(ValidateError::RepeatedTid));
}

#[test]
fn validate_rejects_unordered_directives() {
    let r = record(vec![thread(1, vec![dir(5, true), dir(5, true)])]);
    assert_eq!(r.validate(), Err(ValidateError::UnorderedDirectives));
}

#[test]
fn from_sched_events_carries_the_trace() {
    let events = vec![
        SchedEvent { tid: 1, op: 0 },
        SchedEvent { tid: 2, op: 1 },
    ];
    let r = PreemptionRecord::from_sched_events(events.clone());
    assert!(r.threads.is_empty());
    assert_eq!(r.events, events);
}
