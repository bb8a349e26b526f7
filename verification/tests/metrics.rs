use tv_shell::metrics::{
    count_warning_lines, escape_label_value, is_warning_line, render, render_blocking, scan_step,
    temp_name, textfile_target, warning_delta, BuildInfo, Metrics, Sample, ScanState, SysMetrics,
    TempEntry,
};

#[test]
fn counters_render_with_help_and_type() {
    let mut m = Metrics::default();
    m.inc_input_events();
    m.inc_input_events();
    m.inc_intents();
    m.inc_transitions();
    m.inc_pad_joins();
    m.inc_shell_restarts();
    let text = render(&m, None, None);

    assert!(text.contains("# HELP tv_shell_input_events_total"));
    assert!(text.contains("# TYPE tv_shell_input_events_total counter"));
    assert!(text.contains("\ntv_shell_input_events_total 2\n"));
    assert!(text.contains("\ntv_shell_intents_emitted_total 1\n"));
    assert!(text.contains("\ntv_shell_transitions_total 1\n"));
    assert!(text.contains("\ntv_shell_pad_joins_total 1\n"));
    assert!(text.contains("\ntv_shell_pad_leaves_total 0\n"));
    assert!(text.contains("\ntv_shell_shell_restarts_total 1\n"));
    assert!(text.contains("\ntv_shell_quickshell_multi_instance_total 0\n"));
    assert!(text.contains("\ntv_shell_quickshell_warnings_total 0\n"));
    assert!(text.ends_with('\n'));
    assert!(!text.contains("tv_shell_cpu_percent"));
    assert!(!text.contains("tv_shell_build_info"));
}

#[test]
fn runtime_supervision_metrics_render() {
    let mut m = Metrics::default();
    let text0 = render(&m, None, None);
    assert!(text0.contains("# TYPE tv_shell_input_runtime_up gauge"));
    assert!(text0.contains("\ntv_shell_input_runtime_up 0\n"));
    assert!(text0.contains("# TYPE tv_shell_input_runtime_restarts_total counter"));
    assert!(text0.contains("\ntv_shell_input_runtime_restarts_total 0\n"));
    assert!(text0.contains("# TYPE tv_shell_grab_invariant_violations_total counter"));
    assert!(text0.contains("\ntv_shell_grab_invariant_violations_total 0\n"));

    m.set_runtime_up(true);
    m.inc_runtime_restarts();
    m.inc_runtime_restarts();
    m.inc_grab_invariant_violations();
    let text = render(&m, None, None);
    assert!(text.contains("\ntv_shell_input_runtime_up 1\n"));
    assert!(text.contains("\ntv_shell_input_runtime_restarts_total 2\n"));
    assert!(text.contains("\ntv_shell_grab_invariant_violations_total 1\n"));

    m.set_runtime_up(false);
    assert!(render(&m, None, None).contains("\ntv_shell_input_runtime_up 0\n"));
}

#[test]
fn dev_action_counters_render() {
    let mut m = Metrics::default();
    m.inc_deploy(true);
    m.inc_deploy(true);
    m.inc_deploy(false);
    m.inc_build();
    m.inc_restart_shell();
    m.inc_restart_daemon();
    m.inc_quickshell_multi_instance();
    let text = render(&m, None, None);

    assert!(text.contains("# TYPE tv_shell_deploy_total counter"));
    assert!(text.contains("tv_shell_deploy_total{outcome=\"ok\"} 2\n"));
    assert!(text.contains("tv_shell_deploy_total{outcome=\"error\"} 1\n"));
    assert!(text.contains("\ntv_shell_build_total 1\n"));
    assert!(text.contains("\ntv_shell_restart_shell_total 1\n"));
    assert!(text.contains("\ntv_shell_restart_daemon_total 1\n"));
    assert!(text.contains("\ntv_shell_quickshell_multi_instance_total 1\n"));
}

#[test]
fn build_info_renders_value_1_with_labels() {
    let mut m = Metrics::default();
    let build = BuildInfo {
        sha: "a1b2c3d".into(),
        branch: "feat/daemon-observability".into(),
        version: "0.1.0".into(),
    };
    let text = render(&m, None, Some(&build));
    assert!(text.contains("# TYPE tv_shell_build_info gauge"));
    assert!(text.contains(
        "tv_shell_build_info{sha=\"a1b2c3d\",branch=\"feat/daemon-observability\",version=\"0.1.0\"} 1\n"
    ));
}

#[test]
fn gauges_render_when_sys_present() {
    let mut m = Metrics::default();
    let sys = SysMetrics {
        cpu_pct: "12.5".to_string(),
        mem_used: 1024,
        mem_total: 4096,
        mem_pct: 25,
        load1: "0.42".to_string(),
        temps: vec![
            TempEntry {
                label: "CPU Tctl".into(),
                celsius: "55".to_string(),
            },
            TempEntry {
                label: "GPU edge".into(),
                celsius: "48.5".to_string(),
            },
        ],
    };
    let text = render(&m, Some(&sys), None);

    assert!(text.contains("# TYPE tv_shell_cpu_percent gauge"));
    assert!(text.contains("\ntv_shell_cpu_percent 12.5\n"));
    assert!(text.contains("\ntv_shell_mem_used_bytes 1024\n"));
    assert!(text.contains("\ntv_shell_mem_total_bytes 4096\n"));
    assert!(text.contains("\ntv_shell_load1 0.42\n"));
    assert!(text.contains("# TYPE tv_shell_temperature_celsius gauge"));
    assert!(text.contains("tv_shell_temperature_celsius{sensor=\"CPU Tctl\"} 55\n"));
    assert!(text.contains("tv_shell_temperature_celsius{sensor=\"GPU edge\"} 48.5\n"));
}

#[test]
fn label_value_escaping() {
    assert_eq!(escape_label_value("plain"), "plain");
    assert_eq!(escape_label_value("a\"b"), "a\\\"b");
    assert_eq!(escape_label_value("a\\b"), "a\\\\b");
    assert_eq!(escape_label_value("a\nb"), "a\\nb");
}

#[test]
fn count_warning_lines_matches_the_restart_tail_predicate() {
    assert_eq!(count_warning_lines("qml: WARN something\n"), 1);
    assert_eq!(count_warning_lines("ERROR: failed to load\n"), 1);
    assert_eq!(
        count_warning_lines("warning: x\nWarning: y\nqt.svg.draw: error here\n"),
        3
    );
    assert_eq!(count_warning_lines("info: started\ndebug: tick\n"), 0);
    assert_eq!(count_warning_lines(""), 0);
    assert_eq!(
        count_warning_lines("info: a\nWARN b\ndebug: c\nERROR d\n"),
        2
    );
    assert_eq!(count_warning_lines("WARN no trailing newline"), 1);
}

#[test]
fn count_warning_lines_does_not_filter_icon_noise() {
    let icon_flood = "qt.gui.icc: WARNING: COULD NOT LOAD ICON application-x-foo\n".repeat(5);
    assert_eq!(count_warning_lines(&icon_flood), 5);
    assert_eq!(
        count_warning_lines("qt.svg.draw: The requested buffer size is too big, ignoring\n"),
        0,
        "a line with neither WARN nor ERROR is still not counted"
    );
}

#[test]
fn quickshell_warnings_render() {
    let mut m = Metrics::default();
    m.add_quickshell_warnings(3);
    m.add_quickshell_warnings(4);
    let text = render(&m, None, None);

    assert!(text.contains("# HELP tv_shell_quickshell_warnings_total"));
    assert!(text.contains("# TYPE tv_shell_quickshell_warnings_total counter"));
    assert!(text.contains("\ntv_shell_quickshell_warnings_total 7\n"));
}

#[test]
fn warning_delta_seeds_without_counting_history() {
    let mut st = ScanState::default();
    assert_eq!(warning_delta(&mut st, 4096, Some(7), 500), 0);
    assert_eq!(warning_delta(&mut st, 4200, Some(7), 503), 3);
}

#[test]
fn warning_delta_counts_a_cold_boot_burst_after_an_absent_log() {
    let mut st = ScanState::default();
    assert_eq!(
        warning_delta(&mut st, 0, None, 0),
        0,
        "absent log seeds at zero"
    );
    assert_eq!(
        warning_delta(&mut st, 3923, Some(1), 37),
        37,
        "the shell's startup burst must be counted, not swallowed by the seed"
    );
}

#[test]
fn warning_delta_still_ignores_history_on_a_daemon_re_exec() {
    let mut st = ScanState::default();
    assert_eq!(warning_delta(&mut st, 3923, Some(1), 37), 0);
    assert_eq!(warning_delta(&mut st, 4100, Some(1), 39), 2);
}

#[test]
fn warning_delta_counts_appends_only() {
    let mut st = ScanState::default();
    warning_delta(&mut st, 0, Some(7), 0); // seed on an empty file
    assert_eq!(warning_delta(&mut st, 100, Some(7), 2), 2);
    assert_eq!(
        warning_delta(&mut st, 100, Some(7), 2),
        0,
        "no growth, no delta"
    );
    assert_eq!(warning_delta(&mut st, 300, Some(7), 9), 7);
}

#[test]
fn warning_delta_treats_a_shrink_as_a_fresh_file() {
    let mut st = ScanState::default();
    warning_delta(&mut st, 0, Some(7), 0);
    assert_eq!(warning_delta(&mut st, 9000, Some(7), 40), 40);
    assert_eq!(
        warning_delta(&mut st, 120, Some(7), 3),
        3,
        "truncate + 3 fresh warnings = 3, not a saturating 0 and never negative"
    );
    assert_eq!(warning_delta(&mut st, 400, Some(7), 5), 2);
}

#[test]
fn warning_delta_treats_an_inode_change_as_a_fresh_file() {
    let mut st = ScanState::default();
    warning_delta(&mut st, 100, Some(7), 5);
    assert_eq!(warning_delta(&mut st, 900, Some(8), 6), 6);
}

#[test]
fn warning_delta_without_inodes_falls_back_to_length() {
    let mut st = ScanState::default();
    warning_delta(&mut st, 100, None, 5);
    assert_eq!(warning_delta(&mut st, 200, None, 8), 3);
    assert_eq!(
        warning_delta(&mut st, 10, None, 1),
        1,
        "shrink still detected"
    );
}

#[test]
fn a_scan_counts_what_was_appended() {
    let read = |text: &str| Sample::Read {
        len: text.len() as u64,
        ino: Some(7),
        text: text.to_string(),
    };
    let mut state = ScanState::default();
    let mut m = Metrics::new();
    scan_step(&mut state, &mut m, &Sample::Absent);
    scan_step(&mut state, &mut m, &read("WARN a\nERROR b\n"));
    assert_eq!(m.quickshell_warnings, 2);
    scan_step(&mut state, &mut m, &Sample::Failed);
    scan_step(&mut state, &mut m, &read("WARN a\nERROR b\nwarn c\n"));
    assert_eq!(m.quickshell_warnings, 3);
    let mut fresh = ScanState::default();
    scan_step(&mut fresh, &mut m, &read("WARN a\n"));
    assert_eq!(m.quickshell_warnings, 3);
}

#[test]
fn warnings_are_told_from_other_lines() {
    assert!(is_warning_line("qml: Warning"));
    assert!(is_warning_line("an ERROR here"));
    assert!(!is_warning_line("a war of errands"));
    assert!(!is_warning_line(""));
}

#[test]
fn everything_rendered_ends_in_a_line_feed() {
    let m = Metrics::new();
    let sys = SysMetrics {
        cpu_pct: "0".to_string(),
        mem_used: 1,
        mem_total: 2,
        mem_pct: 50,
        load1: "0".to_string(),
        temps: vec![],
    };
    assert!(render(&m, Some(&sys), None).ends_with('\n'));
    assert_eq!(render_blocking(&m, &sys, None), render(&m, Some(&sys), None));
}

#[test]
fn the_textfile_and_its_temporary_name() {
    assert_eq!(textfile_target(None), None);
    assert_eq!(textfile_target(Some(String::new())), None);
    assert_eq!(textfile_target(Some("/a/b.prom".to_string())).as_deref(), Some("/a/b.prom"));
    assert_eq!(temp_name(Some("b.prom"), 42), ".b.prom.42.tmp");
    assert_eq!(temp_name(None, 42), ".tv-shell.42.tmp");
}

#[test]
fn the_counter_of_warnings_never_falls() {
    let mut state = ScanState::default();
    let mut m = Metrics::default();
    let mut last = 0;
    for (len, ino, text) in [
        (30, Some(1), "WARN a\nWARN b\n"),
        (60, Some(1), "WARN a\nWARN b\nERROR c\n"),
        (10, Some(1), "WARN x\n"),
        (10, Some(2), "fine\n"),
        (50, Some(2), "fine\nWARN y\n"),
    ] {
        let text = text.to_string();
        scan_step(&mut state, &mut m, &Sample::Read { len, ino, text });
        assert!(m.quickshell_warnings >= last);
        last = m.quickshell_warnings;
    }
    assert_eq!(last, 3);
}

#[test]
fn a_label_leaves_neither_its_quotes_nor_its_line() {
    let escaped = escape_label_value("a\"b\\n\nc");
    assert_eq!(escaped, "a\\\"b\\\\n\\nc");
    assert!(!escaped.contains('\n'));
}

#[test]
fn the_parts_of_the_exposition_stand_around_the_counters() {
    let mut m = Metrics::default();
    m.inc_intents();
    let build = BuildInfo {
        sha: "abc".into(),
        branch: "main".into(),
        version: "1".into(),
    };
    let sys = SysMetrics {
        cpu_pct: "0".to_string(),
        mem_used: 1,
        mem_total: 2,
        mem_pct: 50,
        load1: "0".to_string(),
        temps: vec![],
    };
    let bare = render(&m, None, None);
    assert!(!bare.contains("tv_shell_build_info"));
    assert!(!bare.contains("tv_shell_cpu_percent"));
    let built = render(&m, None, Some(&build));
    let revision = built.strip_suffix(bare.as_str()).unwrap();
    assert_eq!(revision.lines().count(), 3);
    assert!(revision.contains("tv_shell_build_info{"));
    let measured = render(&m, Some(&sys), None);
    assert!(measured.strip_prefix(bare.as_str()).unwrap().contains("tv_shell_cpu_percent 0\n"));
    let whole = render(&m, Some(&sys), Some(&build));
    assert_eq!(whole, format!("{revision}{measured}"));
}

#[test]
fn every_line_is_a_description_or_a_value() {
    let mut m = Metrics::default();
    m.inc_deploy(false);
    let build = BuildInfo {
        sha: "a\nb".into(),
        branch: "x\"y\\z".into(),
        version: "\r".into(),
    };
    let sys = SysMetrics {
        cpu_pct: "12.5".to_string(),
        mem_used: 1,
        mem_total: 2,
        mem_pct: 50,
        load1: "0".to_string(),
        temps: vec![TempEntry {
            label: "a\nb".into(),
            celsius: "-3.25".to_string(),
        }],
    };
    let text = render(&m, Some(&sys), Some(&build));
    assert!(text.ends_with('\n'));
    for line in text.lines() {
        if line.starts_with("# HELP ") || line.starts_with("# TYPE ") {
            continue;
        }
        let (name, value) = line.rsplit_once(' ').unwrap();
        assert!(name.starts_with("tv_shell_"), "{line}");
        assert!(value.parse::<f64>().is_ok(), "{line}");
    }
    assert!(text.contains(
        "\ntv_shell_build_info{sha=\"a\\nb\",branch=\"x\\\"y\\\\z\",version=\"\r\"} 1\n"
    ));
    assert!(text.contains("\ntv_shell_temperature_celsius{sensor=\"a\\nb\"} -3.25\n"));
    assert!(text.contains(
        "\ntv_shell_deploy_total{outcome=\"ok\"} 0\ntv_shell_deploy_total{outcome=\"error\"} 1\n"
    ));
}
