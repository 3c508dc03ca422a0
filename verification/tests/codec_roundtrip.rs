use hermit_analyze::codec::{preempt_files_equal, read_trace, records_equal};
use hermit_analyze::record::{Directive, PreemptionRecord, SchedEvent, ThreadDirectives};

fn sample() -> PreemptionRecord {
    PreemptionRecord {
        threads: vec![
            ThreadDirectives {
                tid: 3,
                dirs: vec![
                    Directive {
                        index: 7,
                        preemptive: true,
                    },
                    Directive {
                        index: 9,
                        preemptive: false,
                    },
                ],
            },
            ThreadDirectives {
                tid: 8,
                dirs: Vec::new(),
            },
        ],
        events: vec![SchedEvent { tid: 3, op: 1 }, SchedEvent { tid: 8, op: 2 }],
    }
}

#[test]
fn load_of_write_is_identity() {
    let r = sample();
    let bytes = r.write_to();
    let back = PreemptionRecord::load_from(&bytes).expect("well-formed bytes");
    assert!(records_equal(&r, &back));
}

#[test]
fn load_of_write_is_identity_for_empty_record() {
    let r = PreemptionRecord {
        threads: Vec::new(),
        events: Vec::new(),
    };
    let bytes = r.write_to();
    let back = PreemptionRecord::load_from(&bytes).expect("well-formed bytes");
    assert!(records_equal(&r, &back));
}

#[test]
fn encoding_has_the_documented_layout() {
    // version, thread count, (tid, dir count, dirs...), event count, events.
    let r = PreemptionRecord {
        threads: vec![ThreadDirectives {
            tid: 2,
            dirs: vec![Directive {
                index: 5,
                preemptive: true,
            }],
        }],
        events: vec![SchedEvent { tid: 2, op: 6 }],
    };
    let bytes = r.write_to();
    let mut expected: Vec<u8> = Vec::new();
    for word in [1u64, 1, 2, 1, 5, 1, 1, 2, 6] {
        expected.extend_from_slice(&word.to_le_bytes());
    }
    assert_eq!(bytes, expected);
}

#[test]
fn trailing_bytes_are_rejected() {
    let mut bytes = sample().write_to();
    bytes.push(0);
    assert!(PreemptionRecord::load_from(&bytes).is_none());
}

#[test]
fn truncated_input_is_rejected() {
    let bytes = sample().write_to();
    assert!(PreemptionRecord::load_from(&bytes[..bytes.len() - 1]).is_none());
}

#[test]
fn wrong_version_is_rejected() {
    let mut bytes = sample().write_to();
    bytes[0] = 2;
    assert!(PreemptionRecord::load_from(&bytes).is_none());
}

#[test]
fn bad_preemption_flag_is_rejected() {
    let r = PreemptionRecord {
        threads: vec![ThreadDirectives {
            tid: 1,
            dirs: vec![Directive {
                index: 4,
                preemptive: false,
            }],
        }],
        events: Vec::new(),
    };
    let mut bytes = r.write_to();
    // The flag word of the single directive starts at offset 40.
    bytes[40] = 9;
    assert!(PreemptionRecord::load_from(&bytes).is_none());
}

#[test]
fn preempt_files_equal_detects_equality_and_difference() {
    let a = sample().write_to();
    let b = sample().write_to();
    assert!(preempt_files_equal(&a, &b));

    let mut other = sample();
    other.threads[0].dirs[0].index = 8;
    let c = other.write_to();
    assert!(!preempt_files_equal(&a, &c));
    // A malformed file equals nothing.
    assert!(!preempt_files_equal(&a, &a[..a.len() - 1]));
}

#[test]
fn read_trace_returns_the_events() {
    let r = sample();
    let bytes = r.write_to();
    let trace = read_trace(&bytes).expect("well-formed bytes");
    assert_eq!(trace, r.events);
    assert!(read_trace(&bytes[1..]).is_none());
}
