use serde_json::Value;
use tv_shell::hyprland::{
    active_window_json, backoff, client_class, client_index, clients_json, dispatch_accepted,
    monitor_added, monitor_removed, monitors_json, note_reconnect, openwindow_address, openwindow_class,
    parse_active, parse_clients, parse_monitors, parse_openwindow, read_event,
    reconcile_workspaces, request_timed_out, resolve_window_class, socket_dir, vanished_windows,
    ClassStep, HyprEvent, MonitorWatch, NewWindow, ReconnectSeverity, CLASS_ATTEMPTS,
    CLASS_INTERVAL_MS, KEYWORD_TIMEOUT_MS, MONITOR_RECONCILE_DEBOUNCE_MS, MONITOR_SNAPSHOT_TTL_MS,
    REQUEST_TIMEOUT_MS,
};
use tv_shell::workspaces::Registry;

fn clients_body() -> &'static str {
    r#"[{"address":"0x1","class":"tv.plex.Plex","workspace":{"id":2}},
        {"address":"0x2","class":"steam","workspace":{"id":4}},
        {"address":"0x3","class":"streaming_client","workspace":{"id":3}}]"#
}

#[test]
fn client_index_pairs_address_with_class() {
    let idx = client_index(clients_body());
    assert_eq!(
        idx,
        vec![
            ("0x1".to_string(), "tv.plex.Plex".to_string()),
            ("0x2".to_string(), "steam".to_string()),
            ("0x3".to_string(), "streaming_client".to_string()),
        ]
    );
}

#[test]
fn client_index_keeps_classless_windows_but_drops_addressless_ones() {
    let body = r#"[{"address":"0x9","class":""},{"class":"orphan"},{"address":"  "}]"#;
    assert_eq!(client_index(body), vec![("0x9".to_string(), String::new())]);
}

#[test]
fn client_index_degrades_to_empty_on_junk() {
    assert!(client_index("").is_empty());
    assert!(client_index("not json").is_empty());
    assert!(client_index("{}").is_empty());
}

#[test]
fn vanished_windows_names_what_did_not_come_back() {
    let before = client_index(clients_body());
    let after = client_index(r#"[{"address":"0x1","class":"tv.plex.Plex"}]"#);
    assert_eq!(
        vanished_windows(&before, &after),
        vec![
            ("0x2".to_string(), "steam".to_string()),
            ("0x3".to_string(), "streaming_client".to_string()),
        ]
    );
}

#[test]
fn vanished_windows_is_empty_when_everything_survives() {
    let before = client_index(clients_body());
    assert!(vanished_windows(&before, &before).is_empty());
    let mut after = before.clone();
    after.push(("0x4".to_string(), "newcomer".to_string()));
    assert!(vanished_windows(&before, &after).is_empty());
}

#[test]
fn vanished_windows_matches_on_address_not_class() {
    let before = vec![
        ("0xa".to_string(), "steam".to_string()),
        ("0xb".to_string(), "steam".to_string()),
    ];
    let after = vec![("0xa".to_string(), "steam".to_string())];
    assert_eq!(
        vanished_windows(&before, &after),
        vec![("0xb".to_string(), "steam".to_string())]
    );
}

#[test]
fn vanished_windows_tolerates_a_class_resolving_late() {
    let before = vec![("0xc".to_string(), String::new())];
    let after = vec![("0xc".to_string(), "streaming_client".to_string())];
    assert!(vanished_windows(&before, &after).is_empty());
}

#[test]
fn keyword_gets_a_far_larger_budget_than_an_ipc_read() {
    let (keyword, request) = (KEYWORD_TIMEOUT_MS, REQUEST_TIMEOUT_MS);
    assert!(keyword >= request * 10);
}

fn idx(pairs: &[(&str, &str)]) -> Vec<(String, String)> {
    pairs
        .iter()
        .map(|(a, c)| (a.to_string(), c.to_string()))
        .collect()
}

#[test]
fn unreadable_client_list_reports_nothing_and_keeps_the_snapshot() {
    let mut w = MonitorWatch::default();
    let t0: u64 = 1_000_000;
    w.on_removed(t0, idx(&[("0x1", "steam"), ("0x2", "streaming_client")]));

    assert!(
        w.on_added(t0, None).is_empty(),
        "no diff on an unreadable list"
    );
    assert!(
        w.on_added(t0, Some(&[])).is_empty(),
        "no diff on an empty list"
    );
    assert_eq!(
        w.on_added(t0, Some(&idx(&[("0x1", "steam")]))),
        idx(&[("0x2", "streaming_client")])
    );
}

#[test]
fn first_removal_wins_so_a_second_output_cannot_erase_the_evidence() {
    let mut w = MonitorWatch::default();
    let t0: u64 = 1_000_000;
    w.on_removed(t0, idx(&[("0x1", "steam"), ("0x2", "streaming_client")]));
    w.on_removed(t0, idx(&[("0x2", "streaming_client")]));

    assert_eq!(
        w.on_added(t0, Some(&idx(&[("0x2", "streaming_client")]))),
        idx(&[("0x1", "steam")]),
        "the window lost with the FIRST output must still be reported"
    );
}

#[test]
fn a_stale_snapshot_is_discarded_rather_than_blamed() {
    let mut w = MonitorWatch::default();
    let t0: u64 = 1_000_000;
    w.on_removed(t0, idx(&[("0x1", "steam")]));
    let much_later = t0 + MONITOR_SNAPSHOT_TTL_MS + 1_000;
    assert!(w.on_added(much_later, Some(&idx(&[]))).is_empty());
    assert!(w
        .on_added(much_later, Some(&idx(&[("0x9", "other")])))
        .is_empty());
}

#[test]
fn an_add_with_no_prior_removal_reports_nothing() {
    let mut w = MonitorWatch::default();
    assert!(w
        .on_added(1_000_000, Some(&idx(&[("0x1", "steam")])))
        .is_empty());
}

#[test]
fn a_snapshot_is_consumed_by_the_add_that_uses_it() {
    let mut w = MonitorWatch::default();
    let t0: u64 = 1_000_000;
    w.on_removed(t0, idx(&[("0x1", "steam")]));
    assert_eq!(
        w.on_added(t0, Some(&idx(&[("0x2", "other")]))),
        idx(&[("0x1", "steam")])
    );
    assert!(w.on_added(t0, Some(&idx(&[("0x2", "other")]))).is_empty());
}

#[test]
fn reconciles_are_debounced_across_a_burst() {
    let mut w = MonitorWatch::default();
    let t0: u64 = 1_000_000;
    assert!(w.should_reconcile(t0), "the first one always runs");
    assert!(!w.should_reconcile(t0), "the v2 twin collapses into it");
    assert!(!w.should_reconcile(t0 + 100));
    assert!(w.should_reconcile(t0 + MONITOR_RECONCILE_DEBOUNCE_MS));
}

const THRESHOLD: u32 = 5;

#[test]
fn reconnect_counter_lifecycle() {
    let mut failures = 0u32;

    for expected in 1..THRESHOLD {
        assert_eq!(
            note_reconnect(&mut failures, false, THRESHOLD),
            Some(ReconnectSeverity::Warn)
        );
        assert_eq!(failures, expected);
    }

    assert_eq!(
        note_reconnect(&mut failures, false, THRESHOLD),
        Some(ReconnectSeverity::Escalate)
    );
    assert_eq!(failures, THRESHOLD);

    assert_eq!(
        note_reconnect(&mut failures, false, THRESHOLD),
        Some(ReconnectSeverity::Escalate)
    );
    assert_eq!(
        note_reconnect(&mut failures, false, THRESHOLD),
        Some(ReconnectSeverity::Escalate)
    );
    assert_eq!(failures, THRESHOLD + 2);

    assert_eq!(note_reconnect(&mut failures, true, THRESHOLD), None);
    assert_eq!(failures, 0);

    assert_eq!(
        note_reconnect(&mut failures, false, THRESHOLD),
        Some(ReconnectSeverity::Warn)
    );
    assert_eq!(failures, 1);
}

#[test]
fn active_reshapes_to_contract() {
    let body = r#"{"address":"0x55","class":"steam","title":"Steam, Big Picture","pid":42,"workspace":{"id":1,"name":"1"}}"#;
    let out = parse_active(body);
    let v: Value = serde_json::from_str(&out).unwrap();
    assert_eq!(v.get("class").unwrap(), "steam");
    assert_eq!(v.get("title").unwrap(), "Steam, Big Picture");
    assert_eq!(v.get("address").unwrap(), "0x55");
    assert_eq!(v.get("fullscreen").unwrap(), false); // absent -> false
    assert!(v.get("pid").is_none()); // dropped
}

#[test]
fn active_fullscreen_field_handles_bool_and_int() {
    let v: Value = serde_json::from_str(&parse_active(
        r#"{"class":"a","title":"","address":"0x1","fullscreen":true}"#,
    ))
    .unwrap();
    assert_eq!(v.get("fullscreen").unwrap(), true);

    let v: Value = serde_json::from_str(&parse_active(
        r#"{"class":"a","title":"","address":"0x1","fullscreen":2}"#,
    ))
    .unwrap();
    assert_eq!(v.get("fullscreen").unwrap(), true);

    let v: Value = serde_json::from_str(&parse_active(
        r#"{"class":"a","title":"","address":"0x1","fullscreen":0}"#,
    ))
    .unwrap();
    assert_eq!(v.get("fullscreen").unwrap(), false);
}

#[test]
fn active_empty_and_malformed_become_empty_object() {
    assert_eq!(parse_active(""), "{}");
    assert_eq!(parse_active("{}"), "{}"); // no class
    assert_eq!(parse_active("not json"), "{}");
}

#[test]
fn clients_reshapes_each_entry_with_workspace_name() {
    let body = r#"[{"address":"0x1","class":"foo","title":"Foo","focusHistoryID":0,"workspace":{"id":2,"name":"web"}},
                   {"address":"0x2","class":"bar","title":"Bar","workspace":{"id":3,"name":"games"}}]"#;
    let out = parse_clients(body);
    let v: Value = serde_json::from_str(&out).unwrap();
    let arr = v.as_array().unwrap();
    assert_eq!(arr.len(), 2);
    assert_eq!(arr[0].get("workspace").unwrap(), "web");
    assert_eq!(arr[0].get("focusHistoryId").unwrap(), 0);
    assert_eq!(arr[1].get("class").unwrap(), "bar");
    assert_eq!(arr[1].get("focusHistoryId").unwrap(), 9999); // absent -> sentinel
}

#[test]
fn clients_non_array_becomes_empty_array() {
    assert_eq!(parse_clients("{}"), "[]");
    assert_eq!(parse_clients(""), "[]");
}

#[test]
fn monitors_hdr_derived_from_10bit_format() {
    let body = r#"[{"name":"DP-1","description":"LG OLED","width":3840,"height":2160,"refreshRate":120.0,"scale":1.0,"x":0,"y":0,"activeWorkspace":{"id":1,"name":"1"},"dpmsStatus":true,"vrr":true,"availableModes":["3840x2160@120.00000"],"currentFormat":"XRGB2101010"}]"#;
    let out = parse_monitors(body);
    let v: serde_json::Value = serde_json::from_str(&out).unwrap();
    let arr = v.as_array().unwrap();
    assert_eq!(arr.len(), 1);
    assert_eq!(arr[0].get("hdr").unwrap(), true);
    assert_eq!(arr[0].get("currentFormat").unwrap(), "XRGB2101010");
    assert_eq!(arr[0].get("name").unwrap(), "DP-1");
    assert_eq!(arr[0].get("width").unwrap(), 3840);
    assert_eq!(arr[0].get("activeWorkspace").unwrap(), "1");
}

#[test]
fn monitors_hdr_false_for_8bit_format() {
    let body = r#"[{"name":"HDMI-A-1","description":"Test Monitor","width":1920,"height":1080,"refreshRate":60.0,"scale":1.0,"x":0,"y":0,"activeWorkspace":{"id":1,"name":"1"},"dpmsStatus":true,"vrr":false,"availableModes":["1920x1080@60.00000"],"currentFormat":"XRGB8888"}]"#;
    let out = parse_monitors(body);
    let v: serde_json::Value = serde_json::from_str(&out).unwrap();
    let arr = v.as_array().unwrap();
    assert_eq!(arr[0].get("hdr").unwrap(), false);
    assert_eq!(arr[0].get("currentFormat").unwrap(), "XRGB8888");
}

#[test]
fn monitors_non_array_becomes_empty_array() {
    assert_eq!(parse_monitors("{}"), "[]");
    assert_eq!(parse_monitors(""), "[]");
    assert_eq!(parse_monitors("not json"), "[]");
}

#[test]
fn monitors_missing_current_format_defaults_to_empty_and_hdr_false() {
    let body = r#"[{"name":"DP-2","width":2560,"height":1440,"refreshRate":144.0,"scale":1.0,"x":0,"y":0,"activeWorkspace":{"id":1,"name":"1"}}]"#;
    let out = parse_monitors(body);
    let v: serde_json::Value = serde_json::from_str(&out).unwrap();
    let arr = v.as_array().unwrap();
    assert_eq!(arr[0].get("hdr").unwrap(), false);
    assert_eq!(arr[0].get("currentFormat").unwrap(), "");
}

#[test]
fn parse_openwindow_basic() {
    let data = "0x12345678,1,steam,Steam Big Picture";
    let out = parse_openwindow(data);
    let v: serde_json::Value = serde_json::from_str(&out).unwrap();
    assert_eq!(v.get("address").unwrap(), "0x12345678");
    assert_eq!(v.get("workspace").unwrap(), "1");
    assert_eq!(v.get("class").unwrap(), "steam");
    assert_eq!(v.get("title").unwrap(), "Steam Big Picture");
}

#[test]
fn parse_openwindow_title_with_commas() {
    let data = "0xabcdef,games,firefox,Mozilla Firefox, Web Browser, v120";
    let out = parse_openwindow(data);
    let v: serde_json::Value = serde_json::from_str(&out).unwrap();
    assert_eq!(v.get("address").unwrap(), "0xabcdef");
    assert_eq!(v.get("workspace").unwrap(), "games");
    assert_eq!(v.get("class").unwrap(), "firefox");
    assert_eq!(
        v.get("title").unwrap(),
        "Mozilla Firefox, Web Browser, v120"
    );
}

#[test]
fn parse_openwindow_missing_fields_default_to_empty() {
    let out = parse_openwindow("");
    let v: serde_json::Value = serde_json::from_str(&out).unwrap();
    assert_eq!(v.get("address").unwrap(), "");
    assert_eq!(v.get("class").unwrap(), "");
    assert_eq!(v.get("title").unwrap(), "");

    let out2 = parse_openwindow("0x1,workspace");
    let v2: serde_json::Value = serde_json::from_str(&out2).unwrap();
    assert_eq!(v2.get("address").unwrap(), "0x1");
    assert_eq!(v2.get("workspace").unwrap(), "workspace");
    assert_eq!(v2.get("class").unwrap(), "");
    assert_eq!(v2.get("title").unwrap(), "");
}

#[test]
fn parse_openwindow_output_is_compact_json() {
    let out = parse_openwindow("0x1,1,cls,title");
    assert!(!out.contains('\n'));
    assert!(!out.contains(": "));
}

#[test]
fn openwindow_address_extracts_first_field() {
    assert_eq!(
        openwindow_address("0x12345678,1,steam,Steam Big Picture").as_deref(),
        Some("0x12345678")
    );
    assert_eq!(
        openwindow_address("0xabc,games,some.random.App,Title").as_deref(),
        Some("0xabc")
    );
}

#[test]
fn openwindow_address_none_for_missing_or_empty() {
    assert_eq!(openwindow_address(""), None);
    assert_eq!(openwindow_address(",1,steam,Title"), None);
    assert_eq!(openwindow_address("  ,1,steam,Title"), None);
    assert_eq!(openwindow_address("12345678,1,steam,Title"), None);
    assert_eq!(openwindow_address("abc,1,steam,Title"), None);
}

#[test]
fn dispatch_accepted_recognises_success_and_rejection() {
    assert!(dispatch_accepted("ok"));
    assert!(dispatch_accepted("ok\n"));
    assert!(dispatch_accepted("OK"));
    assert!(dispatch_accepted(""));
    assert!(dispatch_accepted("   "));

    assert!(!dispatch_accepted("Invalid workspace"));
    assert!(!dispatch_accepted("Window not found"));
    assert!(!dispatch_accepted("okay, but not really"));
}

#[test]
fn openwindow_class_is_the_third_field() {
    assert_eq!(
        openwindow_class("0x1,2,streaming_client,Red Dead Redemption 2 [Streaming]").as_deref(),
        Some("streaming_client")
    );
    assert_eq!(
        openwindow_class("0x1,2,steam,Steam, Big Picture, Mode").as_deref(),
        Some("steam")
    );
}

#[test]
fn openwindow_class_rejects_malformed_or_empty() {
    assert_eq!(openwindow_class(""), None);
    assert_eq!(openwindow_class("0x1,2"), None);
    assert_eq!(openwindow_class("0x1,2,,Title"), None);
}

#[test]
fn events_are_told_apart() {
    assert_eq!(
        read_event("activewindow>>steam,Steam, Big"),
        HyprEvent::ActiveWindow("steam".to_string())
    );
    assert_eq!(read_event("activewindow>>,"), HyprEvent::ActiveWindow(String::new()));
    assert_eq!(read_event("fullscreen>> 1 "), HyprEvent::Fullscreen(true));
    assert_eq!(read_event("fullscreen>>2"), HyprEvent::Fullscreen(false));
    assert_eq!(read_event("closewindow>> 0x1 "), HyprEvent::CloseWindow("0x1".to_string()));
    assert_eq!(
        read_event("openwindow>>0x1,2,steam,A, B"),
        HyprEvent::OpenWindow {
            park: Some(NewWindow { address: "0x1".to_string(), hint: "steam".to_string() }),
            document: parse_openwindow("0x1,2,steam,A, B"),
        }
    );
    assert_eq!(
        read_event("openwindow>>zz,2,,"),
        HyprEvent::OpenWindow { park: None, document: parse_openwindow("zz,2,,") }
    );
    for name in ["monitorremoved", "monitorremovedv2"] {
        assert_eq!(
            read_event(&format!("{name}>> DP-1 ")),
            HyprEvent::MonitorRemoved("DP-1".to_string())
        );
    }
    for name in ["monitoradded", "monitoraddedv2"] {
        assert_eq!(
            read_event(&format!("{name}>>DP-1")),
            HyprEvent::MonitorAdded("DP-1".to_string())
        );
    }
    for line in ["", "noise", "workspace>>2", "fullscreen>1"] {
        assert_eq!(read_event(line), HyprEvent::Other, "{line}");
    }
}

#[test]
fn windows_are_parked_by_class_once() {
    let mut registry = Registry::new();
    let body = r#"[{"address":"0x1","class":"steam","workspace":{"id":1}},
        {"address":"0x2","class":"plex","workspace":{"id":1}},
        {"address":"0x3","class":"","workspace":{"id":1}},
        {"address":"0x4","class":"steam","workspace":{"id":1}}]"#;
    let moves = reconcile_workspaces(&mut registry, body);
    let commands: Vec<&str> = moves.iter().map(|m| m.command.as_str()).collect();
    assert_eq!(
        commands,
        [
            "dispatch movetoworkspacesilent 2,address:0x1",
            "dispatch movetoworkspacesilent 3,address:0x2",
            "dispatch movetoworkspacesilent 2,address:0x4",
        ]
    );
    let again = reconcile_workspaces(&mut registry, body);
    assert_eq!(again, moves);
    assert!(reconcile_workspaces(&mut registry, "junk").is_empty());
}

#[test]
fn the_class_of_a_window_is_looked_up_until_it_is_there() {
    assert_eq!(resolve_window_class("steam", 0, None), ClassStep::Found("steam".to_string()));
    assert_eq!(
        resolve_window_class("", 0, None),
        ClassStep::LookUp { after_ms: CLASS_INTERVAL_MS }
    );
    assert_eq!(
        resolve_window_class("", CLASS_ATTEMPTS, None),
        ClassStep::Unknown
    );
    assert_eq!(
        resolve_window_class("", 3, Some("late".to_string())),
        ClassStep::Found("late".to_string())
    );
    let body = clients_body();
    assert_eq!(client_class(body, "0x2").as_deref(), Some("steam"));
    assert_eq!(client_class(body, "0x9"), None);
}

#[test]
fn an_added_output_names_what_is_lost() {
    let mut w = MonitorWatch::default();
    monitor_removed(&mut w, 900, None);
    monitor_removed(&mut w, 1_000, Some(clients_body()));
    monitor_removed(&mut w, 1_100, Some("[]"));
    let after = r#"[{"address":"0x1","class":"tv.plex.Plex"}]"#;
    let (gone, due) = monitor_added(&mut w, 2_000, Some(after));
    assert_eq!(gone, idx(&[("0x2", "steam"), ("0x3", "streaming_client")]));
    assert!(due);
    assert_eq!(monitor_added(&mut w, 2_100, Some(after)), (vec![], false));
    assert_eq!(monitor_added(&mut w, 3_000, None), (vec![], true));
}

#[test]
fn replies_without_a_compositor_are_empty() {
    assert_eq!(active_window_json(None), "{}");
    assert_eq!(clients_json(None), "[]");
    assert_eq!(monitors_json(None), "[]");
    let body = r#"{"class":"a","title":"t","address":"0x1","fullscreen":1}"#;
    assert_eq!(
        active_window_json(Some(body)),
        r#"{"address":"0x1","class":"a","fullscreen":true,"title":"t"}"#
    );
    assert_eq!(clients_json(Some("[]")), "[]");
    assert_eq!(monitors_json(Some("[]")), "[]");
    assert_eq!(request_timed_out("j/clients"), "hyprland request \"j/clients\" timed out");
}

#[test]
fn the_socket_is_found_by_its_signature() {
    let dir = |sig, run, here, legacy| socket_dir(sig, run, here, legacy);
    assert!(dir(None, Some("/run"), true, true).is_err());
    assert_eq!(dir(Some("s"), Some("/run/user/1"), true, true).unwrap(), "/run/user/1/hypr/s");
    assert_eq!(dir(Some("s"), Some("/run/user/1"), false, false).unwrap(), "/run/user/1/hypr/s");
    assert_eq!(dir(Some("s"), Some("/run/user/1"), false, true).unwrap(), "/tmp/hypr/s");
    assert_eq!(dir(Some("s"), None, false, false).unwrap(), "/tmp/hypr/s");
}

#[test]
fn waits_double_up_to_half_a_minute() {
    let mut waits = vec![];
    let mut next = 1;
    for _ in 0..7 {
        let (now, then) = backoff(next, false);
        waits.push(now);
        next = then;
    }
    assert_eq!(waits, [1, 2, 4, 8, 16, 30, 30]);
    assert_eq!(backoff(30, true), (1, 2));
}
