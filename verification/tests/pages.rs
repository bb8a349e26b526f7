use tv_shell::display_change::{claim, confirm_reply, DisplayGuard};
use tv_shell::display_page::{
    command_notice, confirm_notice, render_apply, render_confirm, render_revert, render_section,
    render_vrr, vrr_label, ApplyForm, Control, DisplayModeTemplate, DisplayState, DisplaysState,
    ModeView, PendingState, StateReply, VrrForm,
};
use tv_shell::html::{esc, pre_block};
use tv_shell::ipc_console::{
    error_result, pretty_block, result_html, run_line, validate_iface, validate_token, Ask,
};
use tv_shell::json::parse_json;
use tv_shell::network::{
    render_bt_action, render_bt_list, render_ping, render_throughput, BtActionForm, BtDevice,
    IfaceForm, PingForm,
};
use tv_shell::processes::{render_page, ClientsReply, HyprClientView};
use tv_shell::recovery::{
    image_unavailable, redirect, render_capture, restarted, unit_for, unit_view, NoScreenshot,
    Provenance,
};
use tv_shell::remote::{
    check_raw, render_intent, render_key, render_launch_app, render_list_apps, render_raw, AppEntry,
    NameForm, RawForm, WmClassForm,
};

fn text(s: &str) -> String {
    s.to_string()
}

fn line(s: &str) -> Ask {
    Ask::Line(text(s))
}

fn refused(s: &str) -> Ask {
    Ask::Shown(error_result(s))
}

#[test]
fn markup_is_escaped() {
    assert_eq!(esc("a<b>&\"c\"'"), "a&lt;b&gt;&amp;&quot;c&quot;'");
    assert_eq!(esc("&lt;"), "&amp;lt;");
    assert_eq!(pre_block("<x>"), "<pre>&lt;x&gt;</pre>");
}

#[test]
fn replies_are_laid_out_where_they_are_json() {
    assert_eq!(pretty_block("{\"b\":1,\"a\":[]}"), "<pre>{\n  &quot;a&quot;: [],\n  &quot;b&quot;: 1\n}</pre>");
    assert_eq!(pretty_block("not <json>"), "<pre>not &lt;json&gt;</pre>");
    assert_eq!(run_line(Ok(text("ok"))), result_html(true, "", "<pre>ok</pre>"));
    assert_eq!(run_line(Err(text("down"))), result_html(false, "", "<pre>down</pre>"));
}

#[test]
fn arguments_are_single_words() {
    assert_eq!(validate_token("  home "), Ok(text("home")));
    assert_eq!(validate_token(" \t"), Err(text("value must not be empty")));
    assert_eq!(
        validate_token("a b"),
        Err(text("value \"a b\" must not contain whitespace or control characters"))
    );
    assert_eq!(
        validate_token("a\u{1}b"),
        Err(text("value \"a\\u{1}b\" must not contain whitespace or control characters"))
    );
    assert_eq!(validate_iface("eth0"), Ok(text("eth0")));
    assert_eq!(validate_iface("a/b"), Err(text("invalid interface name \"a/b\"")));
    assert_eq!(validate_iface(".."), Err(text("invalid interface name \"..\"")));
    assert_eq!(validate_iface(""), Err(text("value must not be empty")));
}

#[test]
fn network_commands() {
    let iface = |s: &str| render_throughput(&IfaceForm { iface: text(s) });
    assert_eq!(iface(" wlan0 "), line("net-throughput wlan0"));
    assert_eq!(iface("../x"), refused("invalid interface name \"../x\""));
    let ping = |h: &str, c: Option<&str>| render_ping(&PingForm { host: text(h), count: c.map(text) });
    assert_eq!(ping("host", None), line("net-ping host"));
    assert_eq!(ping("host", Some("  ")), line("net-ping host"));
    assert_eq!(ping("host", Some(" 10 ")), line("net-ping host 10"));
    assert_eq!(ping("host", Some("+1")), line("net-ping host 1"));
    for count in ["0", "11", "x", "-1"] {
        assert_eq!(ping("host", Some(count)), refused("count must be an integer between 1 and 10"));
    }
    assert_eq!(ping("", Some("x")), refused("value must not be empty"));
    let bt = |m: &str, a: &str| render_bt_action(&BtActionForm { mac: text(m), action: text(a) });
    assert_eq!(bt("aa:bb", "pair"), line("bt-pair aa:bb"));
    assert_eq!(bt("aa:bb", "reset"), refused("unknown bluetooth action \"reset\""));
    assert_eq!(bt("a b", "pair"), refused("value \"a b\" must not contain whitespace or control characters"));
}

#[test]
fn bluetooth_devices_are_listed() {
    assert_eq!(
        render_bt_list(Ok(vec![])),
        result_html(true, "", "<p class=\"muted\">No known Bluetooth devices.</p>")
    );
    assert_eq!(render_bt_list(Err(text("down"))), error_result("down"));
    let device = BtDevice { mac: text("AA:BB"), name: None, paired: true, connected: false, trusted: true };
    let r = render_bt_list(Ok(vec![device]));
    assert!(r.ok);
    let mut want = String::from(
        r#"<table class="tools-table"><thead><tr><th>Name</th><th>MAC</th><th>State</th><th>Actions</th></tr></thead><tbody>"#,
    );
    want.push_str(r#"<tr><td>(unnamed)</td><td>AA:BB</td><td class="muted">paired trusted</td><td>"#);
    for action in ["connect", "disconnect", "pair", "trust"] {
        want.push_str(&format!(
            r##"<form hx-post="/devices/network/bt/action" hx-disabled-elt="find button" hx-target="#network-result" hx-swap="innerHTML" class="inline-form">
                             <input type="hidden" name="mac" value="AA:BB">
                             <input type="hidden" name="action" value="{action}">
                             <button class="btn-mutate" type="submit">{action}</button>
                           </form>"##
        ));
    }
    want.push_str("</td></tr></tbody></table>");
    assert_eq!(r.body_html, want);
}

#[test]
fn apps_are_listed_and_launched() {
    assert_eq!(
        render_list_apps(Ok(vec![])),
        result_html(true, "", "<p class=\"muted\">No launchable apps found.</p>")
    );
    assert_eq!(render_list_apps(Err(text("down"))), error_result("down"));
    let app = AppEntry { name: text("A<"), comment: text("c"), wm_class: text("\"w\"") };
    let want = r##"<table class="tools-table"><thead><tr><th>Name</th><th>Comment</th><th></th></tr></thead><tbody><tr><td>A&lt;</td><td class="muted">c</td><td>
                       <form hx-post="/remote/launcher/launch" hx-disabled-elt="find button" hx-target="#launcher-result" hx-swap="innerHTML" class="inline-form">
                         <input type="hidden" name="wm_class" value="&quot;w&quot;">
                         <button class="btn-mutate" type="submit">Launch</button>
                       </form></td></tr></tbody></table>"##;
    assert_eq!(render_list_apps(Ok(vec![app])), result_html(true, "", want));
    let launch = |s: &str| render_launch_app(&WmClassForm { wm_class: text(s) });
    assert_eq!(launch("steam"), line("intent app:steam"));
    assert_eq!(launch(" "), refused("value must not be empty"));
}

#[test]
fn intents_and_keys() {
    let intent = |s: &str| render_intent(&NameForm { name: text(s) });
    assert_eq!(intent(" overlay:volume"), line("intent overlay:volume"));
    assert_eq!(intent(""), refused("value must not be empty"));
    let key = |s: &str| render_key(&NameForm { name: text(s) });
    assert_eq!(key(" up\n"), line("key up"));
    assert_eq!(key("jump"), refused("unknown key \"jump\" (allowed: up, down, left, right, select, back)"));
}

#[test]
fn raw_lines_are_checked_and_warned_of() {
    let raw = |s: &str| check_raw(&RawForm { cmd: text(s) });
    assert_eq!(raw("  ").unwrap_err(), error_result("command must not be empty"));
    assert_eq!(
        raw("a\nb").unwrap_err(),
        error_result("command must be a single line with no control characters")
    );
    let plain = raw(" sys-status now ").unwrap();
    assert_eq!((plain.line.as_str(), plain.warning.as_str()), ("sys-status now", ""));
    let guarded = raw("grab pad").unwrap();
    assert_eq!(
        guarded.warning,
        "grab belongs to another page's guarded flow (Shell ▸ Advanced/Controllers) — \
         sending it here bypasses that page's own validation/UI. Proceeding anyway."
    );
    assert_eq!(raw("grabber").unwrap().warning, "");
    assert_eq!(
        render_raw(&guarded, Ok(text("1"))),
        result_html(true, &guarded.warning, "<pre>1</pre>")
    );
    assert_eq!(
        render_raw(&plain, Err(text("<e>"))),
        result_html(false, "", "<pre>&lt;e&gt;</pre>")
    );
}

fn display() -> DisplayState {
    DisplayState {
        name: text("HDMI-A-1"),
        description: text("TV"),
        current_label: None,
        current_format: text("XRGB8888"),
        hdr: false,
        vrr_active: true,
        configured_line: None,
        configured_vrr: None,
        modes: vec![],
    }
}

#[test]
fn the_display_section_shows_the_state() {
    let state = DisplaysState {
        displays: vec![
            display(),
            DisplayState {
                current_label: Some(text("4K")),
                configured_line: Some(text("HDMI-A-1,x")),
                configured_vrr: Some(2),
                modes: vec![ModeView { value: text("v"), label: text("l"), current: true }],
                ..display()
            },
        ],
        pending: Some(PendingState {
            monitor: text("m"),
            applied: text("a"),
            previous: text("p"),
            seconds_remaining: 7,
        }),
        revert_seconds: 15,
        config_path: text("/c"),
        config_present: true,
    };
    let r = render_section(&StateReply::Read(state), Some((true, text("done"))));
    assert!(r.available && r.notice_shown && r.notice_ok && r.pending && r.config_present);
    assert_eq!((r.error.as_str(), r.notice_text.as_str()), ("", "done"));
    assert_eq!((r.pending_monitor.as_str(), r.pending_applied.as_str()), ("m", "a"));
    assert_eq!((r.pending_previous.as_str(), r.pending_seconds, r.revert_seconds), ("p", 7, 15));
    assert_eq!(r.config_path, "/c");
    let (bare, full) = (&r.displays[0], &r.displays[1]);
    assert_eq!((bare.current_label.as_str(), bare.vrr_selected), ("unknown", 1));
    assert!(!bare.vrr_from_config && !bare.has_config_line && bare.no_modes);
    assert_eq!((full.current_label.as_str(), full.vrr_selected), ("4K", 2));
    assert!(full.vrr_from_config && full.has_config_line && !full.no_modes);
    assert_eq!((full.configured_line.as_str(), full.modes.len()), ("HDMI-A-1,x", 1));
}

#[test]
fn the_display_section_says_why_it_is_empty() {
    let down = render_section(&StateReply::Failed(text("down")), None);
    assert!(!down.available && !down.notice_shown && down.displays.is_empty());
    assert_eq!(down.error, "down");
    assert_eq!(down, DisplayModeTemplate::unavailable(text("down"), None));
    let odd = render_section(&StateReply::Unreadable(text("eof")), Some((false, text("n"))));
    assert_eq!(odd.error, "could not parse the daemon's display state: eof");
    assert!(odd.notice_shown && !odd.notice_ok);
}

fn send(line: &str, done: &str) -> Control {
    Control::Send { line: text(line), done: text(done) }
}

#[test]
fn display_controls() {
    let apply = |m: &str, v: &str| render_apply(&ApplyForm { monitor: text(m), mode: text(v) });
    assert_eq!(
        apply("DP-1", "1920x1080@60"),
        send("hypr-set-mode DP-1 1920x1080@60", "Applied 1920x1080@60 to DP-1.")
    );
    assert_eq!(apply("", ""), Control::Wrong(text("value must not be empty")));
    assert_eq!(
        apply("a", "b c"),
        Control::Wrong(text("value \"b c\" must not contain whitespace or control characters"))
    );
    let vrr = |m: &str, v: &str| render_vrr(&VrrForm { monitor: text(m), vrr: text(v) });
    assert_eq!(vrr("DP-1", " 2 "), send("hypr-set-vrr DP-1 2", "Set VRR to fullscreen only on DP-1."));
    for bad in ["3", "x", "256", ""] {
        assert_eq!(
            vrr("DP-1", bad),
            Control::Wrong(format!("invalid VRR mode {bad:?} — expected 0, 1 or 2"))
        );
    }
    assert_eq!(vrr("", "9"), Control::Wrong(text("value must not be empty")));
    assert_eq!([vrr_label(0), vrr_label(1), vrr_label(2)], ["off", "on", "fullscreen only"]);
    assert_eq!(
        render_revert(),
        send("hypr-display-revert", "Reverted to the previous display settings.")
    );
    assert_eq!(command_notice(Ok(text("x")), "done"), (true, text("done")));
    assert_eq!(command_notice(Err(text("e")), "done"), (false, text("e")));
}

#[test]
fn a_confirmed_change_says_whether_it_was_written() {
    let notice = |s: &str| confirm_notice(&parse_json(s).unwrap());
    assert_eq!(
        notice(r#"{"persisted":true,"configPath":"/c"}"#),
        (true, text("Kept, and written to /c."))
    );
    assert_eq!(
        notice(r#"{"persisted":false,"persistError":"full"}"#),
        (
            false,
            text(
                "Kept for this session, but could NOT be written to the local Hyprland config: full. \
                 It will revert when Hyprland restarts."
            )
        )
    );
    assert_eq!(
        render_confirm(Ok(text("ok"))),
        (
            false,
            text(
                "Kept for this session, but could NOT be written to the local Hyprland config: \
                 unknown error. It will revert when Hyprland restarts."
            )
        )
    );
    assert_eq!(render_confirm(Err(text("e"))), (false, text("e")));
}

#[test]
fn only_the_three_units_are_restarted() {
    assert_eq!(unit_for("daemon"), Ok(text("tv-shell-input.service")));
    assert_eq!(unit_for("shell"), Ok(text("tv-shell-quickshell.service")));
    assert_eq!(unit_for("panel"), Ok(text("tv-shell-panel.service")));
    assert_eq!(unit_for("sshd"), Err(text("unknown unit key \"sshd\"")));
    assert_eq!(restarted("u", Ok(text("out"))).message, "restarted u\nout");
    let failed = restarted("u", Err(text("e")));
    assert_eq!((failed.ok, failed.message.as_str()), (false, "restart u failed: e"));
    assert_eq!(unit_view("shell", "Shell", text("u"), text("active")).confirm, "Restart u now?");
    assert_eq!(
        unit_view("panel", "Panel", text("u"), text("active")).confirm,
        "Restart u now? This is the panel serving THIS page — it will disconnect immediately. \
         Reload the page after a few seconds to reconnect."
    );
}

#[test]
fn screenshots_carry_their_provenance() {
    let shot = Provenance {
        sha: text("s"),
        branch: text("b"),
        version: text("v"),
        captured_at: text("t"),
    };
    let r = render_capture(Ok(shot), 99);
    assert!(r.ok && r.message.is_empty());
    assert_eq!((r.sha.as_str(), r.branch.as_str(), r.version.as_str()), ("s", "b", "v"));
    assert_eq!((r.captured_at.as_str(), r.cache_bust), ("t", 99));
    for (configured, word) in [(true, "unreachable"), (false, "not configured")] {
        let r = render_capture(Err(NoScreenshot { configured, error: text("e") }), 99);
        assert!(!r.ok && r.sha.is_empty() && r.cache_bust == 0);
        assert_eq!(r.message, format!("HTTP bridge {word} — see the banner above. (e)"));
    }
    assert_eq!(image_unavailable("e"), (503, text("screenshot unavailable: e")));
}

#[test]
fn moved_pages_are_forwarded() {
    for (path, target) in [
        ("/dashboard", Some("/")),
        ("/processes", Some("/system/processes")),
        ("/logs", Some("/system/logs")),
        ("/settings", Some("/shell/appearance")),
        ("/widgets", Some("/shell/widgets")),
        ("/media", Some("/shell/appearance")),
        ("/tools", Some("/remote/navigation")),
        ("/controllers", Some("/devices/controllers")),
        ("/cec", Some("/devices/cec")),
        ("/dev", Some("/dev/recovery")),
        ("/dev/deploy", None),
    ] {
        assert_eq!(redirect(path), target, "{path}");
    }
}

#[test]
fn the_process_page_degrades_by_section() {
    let row = HyprClientView {
        class: text("c"),
        title: text("t"),
        workspace: text("2"),
        address: text("0x1"),
    };
    let up = render_page(
        Ok(text("{}")),
        ClientsReply::Read(vec![row]),
        Ok(text("[]")),
        Ok(text("PID %CPU %MEM COMMAND\n1 2 3 ok\n")),
    );
    assert!(up.hypr_available && up.hypr_active_empty);
    assert_eq!((up.hypr_active.as_str(), up.hypr_monitors.as_str()), ("{}", "[]"));
    assert_eq!((up.hypr_clients_rows.len(), up.top_rows.len()), (1, 1));
    assert!(up.hypr_clients_error.is_empty() && up.top_error.is_empty());
    let down = render_page(
        Err(text("a")),
        ClientsReply::Failed(text("b")),
        Err(text("c")),
        Err(text("d")),
    );
    assert!(!down.hypr_available && !down.hypr_active_empty);
    assert_eq!((down.hypr_active.as_str(), down.hypr_clients_error.as_str()), ("a", "b"));
    assert_eq!((down.hypr_monitors.as_str(), down.top_error.as_str()), ("c", "ps failed: d"));
    let odd = render_page(
        Err(text("a")),
        ClientsReply::Unreadable(text("eof")),
        Err(text("c")),
        Err(text("d")),
    );
    assert!(odd.hypr_available);
    assert_eq!(odd.hypr_clients_error, "failed to parse hypr-clients reply: eof");
}

#[test]
fn a_confirmation_is_shown_as_it_was_replied() {
    let mut guard = DisplayGuard::default();
    guard.arm("DP-1", "old", "new", 0);
    let pending = claim(&mut guard).unwrap();
    assert_eq!(
        render_confirm(Ok(confirm_reply(&pending, "/c \"x\"", None))),
        (true, text("Kept, and written to /c \"x\"."))
    );
    assert_eq!(
        render_confirm(Ok(confirm_reply(&pending, "/c", Some(text("disk full"))))).1,
        "Kept for this session, but could NOT be written to /c: disk full. \
         It will revert when Hyprland restarts."
    );
}
