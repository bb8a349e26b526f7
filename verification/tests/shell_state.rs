use tv_shell::shell_state::{
    evaluate_freshness, status, Freshness, ShellState, HEARTBEAT_SECS, STALE_AFTER_SECS,
};

#[test]
fn stale_after_is_three_heartbeats() {
    assert_eq!(STALE_AFTER_SECS, 3 * HEARTBEAT_SECS);
    assert_eq!(STALE_AFTER_SECS, 9);
}

#[test]
fn evaluate_freshness_truth_table() {
    let cases: [(u64, u64, u64, bool, Option<u64>); 9] = [
        (0, 1_000, 9, true, None),
        (0, 0, 9, true, None),
        (1_000, 1_000, 9, false, Some(0)),
        (1_000, 1_003, 9, false, Some(3)),
        (1_000, 1_008, 9, false, Some(8)),
        (1_000, 1_009, 9, true, Some(9)),
        (1_000, 1_060, 9, true, Some(60)),
        (1_000, 990, 9, false, Some(0)),
        (u64::MAX, 1, 9, false, Some(0)),
    ];
    for (last_push, now, stale_after, want_stale, want_age) in cases {
        let got = evaluate_freshness(last_push, now, stale_after);
        assert_eq!(
            got,
            Freshness {
                stale: want_stale,
                age_seconds: want_age
            },
            "evaluate_freshness({last_push}, {now}, {stale_after})"
        );
    }
}

#[test]
fn record_then_status_reports_verbatim_state() {
    let mut cache = ShellState::default();
    let empty = status(&cache, 1_000, false);
    assert_eq!(empty.shell_state, None);
    assert!(empty.stale);
    assert_eq!(empty.age_seconds, None);
    assert!(!empty.media_playing);

    cache.record("appRunning".to_string(), true, 1_000);
    let fresh = status(&cache, 1_002, true);
    assert_eq!(fresh.shell_state.as_deref(), Some("appRunning"));
    assert!(fresh.media_playing);
    assert!(!fresh.stale);
    assert_eq!(fresh.age_seconds, Some(2));
    assert!(fresh.shell_running);
    assert_eq!(fresh.stale_after_seconds, STALE_AFTER_SECS);

    let wedged = status(&cache, 1_100, true);
    assert_eq!(wedged.shell_state.as_deref(), Some("appRunning"));
    assert!(wedged.stale);
    assert_eq!(wedged.age_seconds, Some(100));
}

#[test]
fn status_serialises_with_json_nulls_for_never_pushed() {
    let json = status(&ShellState::default(), 42, false).to_json().to_compact();
    assert!(json.contains(r#""shell_state":null"#), "got: {json}");
    assert!(json.contains(r#""age_seconds":null"#), "got: {json}");
    assert!(json.contains(r#""stale":true"#), "got: {json}");
    assert!(json.contains(r#""shell_running":false"#), "got: {json}");
}

#[test]
fn a_stale_reading_stays_stale() {
    let stale = evaluate_freshness(1_000, 1_009, STALE_AFTER_SECS).stale;
    assert!(stale);
    for later in [1_010, 5_000, u64::MAX] {
        assert!(evaluate_freshness(1_000, later, STALE_AFTER_SECS).stale, "{later}");
    }
}
