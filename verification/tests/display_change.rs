use tv_shell::display_change::{
    available_modes, base_line, begin_change, claim, confirm_reply, confirmed_conf,
    display_state_json, finish_change, keyword_outcome, monitor_command, restore_reply, set_mode,
    set_vrr, ChangeStep, DisplayGuard, Monitor, RevertCause, REVERT_MS,
};
use tv_shell::display_mode::{configured_line, rate_text, Rate};
use tv_shell::json::parse_json;

const CONF: &str = "monitor=HDMI-A-1,3840x2160@120,0x0,2,vrr,1,cm,hdr  # TV\nother = 1\n";

fn rate(hz: f64) -> Option<Rate> {
    Rate::read(hz.to_bits(), &format!("{hz:.5}"), &format!("{hz:.2}"))
}

fn rate_of(s: &str) -> Option<Rate> {
    rate_text(s).and_then(|t| t.parse().ok()).and_then(rate)
}

fn hz(r: &Rate) -> f64 {
    f64::from_bits(r.order)
}

fn monitor(name: &str, width: u32, refresh: f64, modes: &[&str]) -> Monitor {
    let list = modes.iter().map(|m| format!(",\"{m}\"")).collect::<String>();
    let entry = parse_json(&format!(
        "{{\"name\":\"{name}\",\"width\":{width},\"height\":1080,\"x\":10,\"y\":-5,\
         \"availableModes\":[7{list}],\"currentFormat\":\"XRGB8888\",\"vrr\":true}}"
    ))
    .unwrap();
    let rates: Vec<Option<Rate>> = available_modes(&entry).iter().map(|s| rate_of(s)).collect();
    let mut m = Monitor {
        entry,
        refresh: rate(refresh),
        scale: "1.500000".to_string(),
        rates,
        close: vec![],
        current_close: vec![],
    };
    let each: Vec<f64> = m.mode_list().iter().map(|x| hz(&x.refresh)).collect();
    m.close = each
        .iter()
        .map(|a| each.iter().map(|b| (a - b).abs() < 0.5).collect())
        .collect();
    m.current_close = each.iter().map(|a| (a - refresh).abs() < 0.5).collect();
    m
}

fn outputs() -> Vec<Monitor> {
    vec![
        monitor("HDMI-A-1", 3840, 120.0, &["3840x2160@120.00000Hz", "1920x1080@60.00000Hz"]),
        monitor("DP-1", 1920, 60.0, &["1920x1080@60.00000Hz", "junk"]),
        monitor("DP-2", 0, 0.0, &[]),
    ]
}

fn near(monitors: &[Monitor], to: &Option<Rate>) -> Vec<Vec<bool>> {
    monitors
        .iter()
        .map(|m| {
            m.mode_list()
                .iter()
                .map(|x| to.as_ref().is_some_and(|t| (hz(&x.refresh) - hz(t)).abs() < 0.5))
                .collect()
        })
        .collect()
}

fn change_mode(name: &str, asked: &str) -> Result<(String, String, bool), String> {
    let all = outputs();
    let to = rate_of(asked);
    let close = near(&all, &to);
    set_mode(CONF, &all, name, asked, to, &close).map(|p| (p.previous, p.next, p.from_conf))
}

#[test]
fn a_change_starts_from_the_configured_line() {
    assert_eq!(
        change_mode("HDMI-A-1", "1920x1080@60"),
        Ok((
            "HDMI-A-1,3840x2160@120,0x0,2,vrr,1,cm,hdr".to_string(),
            "HDMI-A-1,1920x1080@60,0x0,2,vrr,1,cm,hdr".to_string(),
            true
        ))
    );
    assert_eq!(
        change_mode("DP-1", "1920x1080@59.94"),
        Ok((
            "DP-1,1920x1080@60,10x-5,1.5".to_string(),
            "DP-1,1920x1080@59.94,10x-5,1.5".to_string(),
            false
        ))
    );
    assert_eq!(
        base_line(CONF, &outputs(), "DP-1"),
        Ok(("DP-1,1920x1080@60,10x-5,1.5".to_string(), false))
    );
}

#[test]
fn a_mode_that_cannot_be_set_is_refused() {
    for (name, asked, reply) in [
        ("HDMI-A-1", "huge", "error:unparseable mode 'huge' — expected WIDTHxHEIGHT@REFRESH"),
        ("DP-9", "1920x1080@60", "error:no such output 'DP-9'"),
        ("DP-1", "800x600@60", "error:output 'DP-1' does not report mode 800x600@60 as available"),
        ("DP-1", "1920x1080@120", "error:output 'DP-1' does not report mode 1920x1080@120 as available"),
    ] {
        assert_eq!(change_mode(name, asked), Err(reply.to_string()));
    }
    let all = outputs();
    let to = rate_of("1920x1080@60");
    let close = near(&all, &to);
    assert_eq!(
        set_mode("monitor=DP-1\n", &all, "DP-1", "1920x1080@60", to, &close).unwrap_err(),
        "error:configured line for 'DP-1' has no resolution field: DP-1"
    );
}

#[test]
fn the_vrr_setting_is_changed_in_place() {
    let plan = |name: &str, vrr: u8| {
        set_vrr(CONF, &outputs(), name, vrr).map(|p| p.next)
    };
    assert_eq!(plan("HDMI-A-1", 0), Ok("HDMI-A-1,3840x2160@120,0x0,2,vrr,0,cm,hdr".to_string()));
    assert_eq!(plan("DP-1", 2), Ok("DP-1,1920x1080@60,10x-5,1.5,vrr,2".to_string()));
    assert_eq!(
        plan("DP-1", 3),
        Err("error:vrr must be 0 (off), 1 (on) or 2 (fullscreen only)".to_string())
    );
    assert_eq!(
        plan("DP-2", 1),
        Err("error:output 'DP-2' reports no usable current mode".to_string())
    );
    assert_eq!(
        set_vrr("monitor=DP-1,a,b\n", &outputs(), "DP-1", 1).unwrap_err(),
        "error:configured line for 'DP-1' is too short to carry a vrr argument: DP-1,a,b"
    );
}

#[test]
fn a_change_is_applied_and_confirmed() {
    let mut guard = DisplayGuard::default();
    let (previous, next, from_conf) = change_mode("HDMI-A-1", "1920x1080@60").unwrap();
    assert_eq!(
        begin_change(&guard, "HDMI-A-1", &previous, &next),
        ChangeStep::Send(format!("/keyword monitor {next}"))
    );
    let (reply, timer) =
        finish_change(&mut guard, "HDMI-A-1", &previous, &next, from_conf, Ok(()), 1_000);
    assert_eq!(
        reply,
        format!(
            "{{\"applied\":\"{next}\",\"fromConfig\":true,\"monitor\":\"HDMI-A-1\",\"ok\":true,\
             \"previous\":\"{previous}\",\"revertSeconds\":15}}"
        )
    );
    assert_eq!(timer, Some(1));
    assert_eq!(guard.peek().unwrap().deadline, 1_000 + REVERT_MS);
    assert_eq!(
        begin_change(&guard, "DP-1", "a", "b"),
        ChangeStep::Reply(
            "error:a display change on 'HDMI-A-1' is already awaiting confirmation — confirm or \
             revert it first"
                .to_string()
        )
    );
    let pending = claim(&mut guard).unwrap();
    let conf = confirmed_conf(&pending, CONF);
    assert_eq!(configured_line(&conf, "HDMI-A-1").as_deref(), Some(next.as_str()));
    assert!(conf.ends_with("  # TV\nother = 1\n"), "{conf}");
    assert_eq!(
        confirm_reply(&pending, "/c", None),
        format!(
            "{{\"configPath\":\"/c\",\"line\":\"{next}\",\"monitor\":\"HDMI-A-1\",\"ok\":true,\
             \"persisted\":true}}"
        )
    );
    assert_eq!(
        confirm_reply(&pending, "/c", Some("full".to_string())),
        format!(
            "{{\"configPath\":\"/c\",\"line\":\"{next}\",\"monitor\":\"HDMI-A-1\",\"ok\":true,\
             \"persistError\":\"full\",\"persisted\":false}}"
        )
    );
    assert!(guard.take_generation(1).is_none());
    assert_eq!(
        claim(&mut guard).unwrap_err(),
        "error:no display change is awaiting confirmation"
    );
}

#[test]
fn a_timer_undoes_only_its_own_change() {
    let mut guard = DisplayGuard::default();
    let first = guard.arm("DP-1", "old", "new", 0);
    assert!(guard.take().is_some());
    let second = guard.arm("DP-1", "old", "newer", 5);
    assert!(guard.take_generation(first).is_none());
    let pending = guard.take_generation(second).unwrap();
    assert_eq!(monitor_command(&pending.previous), "/keyword monitor old");
    assert_eq!(
        restore_reply(&pending, RevertCause::Timeout, Ok(())),
        "{\"cause\":\"timeout\",\"monitor\":\"DP-1\",\"ok\":true,\"reverted\":\"old\"}"
    );
    assert_eq!(
        restore_reply(&pending, RevertCause::Manual, Err("gone".to_string())),
        "error:gone"
    );
}

#[test]
fn a_change_that_changes_nothing_or_fails_leaves_nothing_pending() {
    let mut guard = DisplayGuard::default();
    assert_eq!(
        begin_change(&guard, "DP-1", "a", "a"),
        ChangeStep::Reply(
            "{\"applied\":\"a\",\"monitor\":\"DP-1\",\"ok\":true,\"unchanged\":true}".to_string()
        )
    );
    let failed = Err("hyprland said no".to_string());
    assert_eq!(
        finish_change(&mut guard, "DP-1", "a", "b", false, failed, 0),
        ("error:hyprland said no".to_string(), None)
    );
    assert!(guard.peek().is_none());
    assert_eq!(keyword_outcome("monitor a", " OK\n"), Ok(()));
    assert_eq!(
        keyword_outcome("monitor a", " bad \n"),
        Err("hyprland rejected `keyword monitor a`: bad".to_string())
    );
}

#[test]
fn the_state_says_all_that_the_controls_need() {
    let mut guard = DisplayGuard::default();
    guard.arm("HDMI-A-1", "p", "a", 1_000);
    let all = vec![outputs().remove(1)];
    let text = display_state_json(&guard, &all, CONF, "/c", true, 3_500);
    assert_eq!(
        text,
        "{\"configPath\":\"/c\",\"configPresent\":true,\"displays\":[{\"configuredLine\":null,\
         \"configuredVrr\":null,\"currentFormat\":\"XRGB8888\",\"currentLabel\":\"1920 × 1080 @ 60 Hz\",\
         \"currentMode\":\"1920x1080@60\",\"description\":\"\",\"dpmsStatus\":true,\"hdr\":false,\
         \"modes\":[{\"current\":true,\"label\":\"1920 × 1080 @ 60 Hz\",\"value\":\"1920x1080@60\"}],\
         \"name\":\"DP-1\",\"vrrActive\":true}],\"pending\":{\"applied\":\"a\",\"monitor\":\"HDMI-A-1\",\
         \"previous\":\"p\",\"secondsRemaining\":12},\"revertSeconds\":15}"
    );
    let idle = display_state_json(&DisplayGuard::default(), &Vec::new(), "", "/c", false, 0);
    assert_eq!(
        idle,
        "{\"configPath\":\"/c\",\"configPresent\":false,\"displays\":[],\"pending\":null,\
         \"revertSeconds\":15}"
    );
}

#[test]
fn a_guard_has_room_until_the_clock_runs_out() {
    let guard = DisplayGuard::default();
    assert!(guard.has_room(0));
    assert!(guard.has_room(u64::MAX - REVERT_MS));
    assert!(!guard.has_room(u64::MAX - REVERT_MS + 1));
}
