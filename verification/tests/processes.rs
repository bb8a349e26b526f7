use tv_shell::processes::{is_empty_json_object, parse_top_processes};

#[test]
fn only_an_empty_json_object_reads_as_no_active_window() {
    for empty in ["{}", "  {}  ", "{\n}\n"] {
        assert!(
            is_empty_json_object(empty),
            "{empty:?} should read as no active window"
        );
    }
    for present in [
        r#"{"class":"tv.plex.Plex"}"#,
        r#"{"class":""}"#,
        "[]",
        "null",
        "",
        "transport error: connection refused",
        "{ not json",
    ] {
        assert!(
            !is_empty_json_object(present),
            "{present:?} must NOT be swallowed as an empty active window"
        );
    }
}

#[test]
fn parse_top_processes_skips_header_and_splits_columns() {
    let raw = "  PID  %CPU  %MEM COMMAND\n\
                  1234  12.3   4.5 firefox\n\
                   567   0.1   0.2 systemd";
    let rows = parse_top_processes(raw);
    assert_eq!(rows.len(), 2);
    assert_eq!(rows[0].pid, "1234");
    assert_eq!(rows[0].pcpu, "12.3");
    assert_eq!(rows[0].pmem, "4.5");
    assert_eq!(rows[0].comm, "firefox");
    assert_eq!(rows[1].comm, "systemd");
}

#[test]
fn parse_top_processes_joins_multi_word_comm() {
    let raw = "PID %CPU %MEM COMMAND\n1 0.0 0.0 some odd name";
    let rows = parse_top_processes(raw);
    assert_eq!(rows.len(), 1);
    assert_eq!(rows[0].comm, "some odd name");
}

#[test]
fn parse_top_processes_skips_malformed_lines() {
    let raw = "PID %CPU %MEM COMMAND\n1 2 3 ok\ntoo short\n";
    let rows = parse_top_processes(raw);
    assert_eq!(rows.len(), 1);
    assert_eq!(rows[0].comm, "ok");
}

#[test]
fn parse_top_processes_empty_body_yields_no_rows() {
    assert!(parse_top_processes("PID %CPU %MEM COMMAND\n").is_empty());
    assert!(parse_top_processes("").is_empty());
}
