use scematica::state::{liveness_of, pid_of, tail_lines, Liveness, STALE_AFTER_SECS};

#[test]
fn liveness_distinguishes_stopped_from_stale() {
    let stopped = Liveness::Stopped;
    let stale = Liveness::Stale { metrics_age_secs: 900, pid: Some(1234) };
    let live = Liveness::Live { metrics_age_secs: 2 };
    assert_ne!(stopped, stale);
    assert_ne!(stale, live);
    assert!(live.is_live());
    assert!(!stale.is_live());
    assert!(!stopped.is_live());
}

#[test]
fn liveness_follows_the_age_of_the_metrics_file() {
    assert_eq!(liveness_of(None, Some("123")), Liveness::Stopped);
    assert_eq!(liveness_of(Some(STALE_AFTER_SECS), None), Liveness::Live { metrics_age_secs: 30 });
    assert_eq!(
        liveness_of(Some(31), Some(" 4321\n")),
        Liveness::Stale { metrics_age_secs: 31, pid: Some(4321) }
    );
    assert_eq!(liveness_of(Some(31), Some("garbage")), Liveness::Stale { metrics_age_secs: 31, pid: None });
}

#[test]
fn a_lock_file_pid_is_a_trimmed_u32() {
    assert_eq!(pid_of("42"), Some(42));
    assert_eq!(pid_of(" +42 "), Some(42));
    assert_eq!(pid_of("-1"), None);
    assert_eq!(pid_of("4294967296"), None);
    assert_eq!(pid_of(""), None);
}

#[test]
fn the_tail_skips_blank_lines_and_keeps_order() {
    let text = "one\n\n two \n   \nthree\nfour\n";
    assert_eq!(tail_lines(text, 2), vec!["three".to_string(), "four".to_string()]);
    assert_eq!(tail_lines(text, 10), vec!["one".to_string(), " two ".to_string(), "three".to_string(), "four".to_string()]);
    assert!(tail_lines("", 5).is_empty());
}
