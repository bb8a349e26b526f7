use tv_shell::display_mode::{
    configured_line, fields, find_monitor_line, line_mode, line_name, line_vrr, mode_options,
    rate_text, read_modes, rewrite_mode, rewrite_vrr, synthesize_line, upsert_monitor_line, Mode,
    ModeOption, Rate,
};

fn read(hz: f64) -> Option<Rate> {
    Rate::read(hz.to_bits(), &format!("{hz:.5}"), &format!("{hz:.2}"))
}

fn rate(hz: f64) -> Rate {
    read(hz).unwrap()
}

fn scale(x: f64) -> String {
    format!("{x:.6}")
}

fn rate_of(s: &str) -> Option<Rate> {
    rate_text(s).and_then(|t| t.parse::<f64>().ok()).and_then(read)
}

fn mode(s: &str) -> Option<Mode> {
    Mode::parse(s, rate_of(s))
}

fn mode_on(line: &str) -> Option<Mode> {
    line_mode(line, fields(line).get(1).and_then(|f| rate_of(f)))
}

fn close(a: &Mode, b: &Mode) -> bool {
    (f64::from_bits(a.refresh.order) - f64::from_bits(b.refresh.order)).abs() < 0.5
}

fn same(a: &Mode, b: &Mode) -> bool {
    a.same(b, close(a, b))
}

fn options(available: &[String], current: Option<Mode>) -> Vec<ModeOption> {
    let rates: Vec<Option<Rate>> = available.iter().map(|s| rate_of(s)).collect();
    let modes: Vec<Mode> = read_modes(available, &rates);
    let near: Vec<Vec<bool>> = modes
        .iter()
        .map(|a| modes.iter().map(|b| close(a, b)).collect())
        .collect();
    let near_current: Vec<bool> = modes
        .iter()
        .map(|m| current.as_ref().is_some_and(|c| close(m, c)))
        .collect();
    let size = current.as_ref().map(|c| (c.width, c.height));
    mode_options(&modes, &near, size, &near_current)
}

const HDR_LINE: &str =
    "HDMI-A-1,3840x2160@120,0x0,2,vrr,1,bitdepth,10,cm,hdr,sdrbrightness,1.2,sdrsaturation,1.05";

#[test]
fn mode_parses_every_spelling_hyprland_emits() {
    let want = Mode {
        width: 3840,
        height: 2160,
        refresh: rate(120.0),
    };
    for s in [
        "3840x2160@120",
        "3840x2160@120.00000",
        "3840x2160@120.00000Hz",
        "  3840x2160@120  ",
    ] {
        assert_eq!(mode(s), Some(want.clone()), "parsing {s:?}");
    }
}

#[test]
fn mode_rejects_junk_and_a_missing_refresh() {
    for s in [
        "3840x2160",
        "preferred",
        "highrr",
        "@120",
        "0x0@60",
        "3840x2160@0",
        "",
    ] {
        assert_eq!(mode(s), None, "parsing {s:?}");
    }
}

#[test]
fn mode_keyword_trims_hyprlands_trailing_zeros() {
    assert_eq!(
        mode("3840x2160@120.00000").unwrap().to_keyword(),
        "3840x2160@120"
    );
    assert_eq!(
        mode("1920x1080@59.94000").unwrap().to_keyword(),
        "1920x1080@59.94"
    );
}

#[test]
fn mode_label_reads_as_a_menu_entry() {
    assert_eq!(
        mode("3840x2160@119.998Hz").unwrap().label(),
        "3840 × 2160 @ 120 Hz"
    );
}

#[test]
fn same_tolerates_hyprlands_rounding() {
    let a = mode("3840x2160@120").unwrap();
    let b = mode("3840x2160@119.998Hz").unwrap();
    assert!(same(&a, &b));
    assert!(!same(&a, &mode("3840x2160@60").unwrap()));
    assert!(!same(&a, &mode("1920x1080@120").unwrap()));
}

#[test]
fn rewrite_mode_preserves_every_other_argument() {
    let out = rewrite_mode(HDR_LINE, &mode("1920x1080@60").unwrap()).unwrap();
    assert_eq!(
        out,
        "HDMI-A-1,1920x1080@60,0x0,2,vrr,1,bitdepth,10,cm,hdr,sdrbrightness,1.2,sdrsaturation,1.05"
    );
    assert_eq!(line_vrr(&out), Some(1));
}

#[test]
fn rewrite_vrr_replaces_in_place_and_leaves_the_mode_alone() {
    let out = rewrite_vrr(HDR_LINE, 0).unwrap();
    assert_eq!(line_vrr(&out), Some(0));
    assert_eq!(mode_on(&out), mode_on(HDR_LINE));
    assert!(out.contains("cm,hdr"), "HDR arguments dropped: {out}");
}

#[test]
fn rewrite_vrr_appends_when_the_line_has_none() {
    let out = rewrite_vrr("HDMI-A-1,3840x2160@120,0x0,2", 2).unwrap();
    assert_eq!(out, "HDMI-A-1,3840x2160@120,0x0,2,vrr,2");
    assert_eq!(line_vrr(&out), Some(2));
}

#[test]
fn rewrites_refuse_a_line_too_short_to_be_one() {
    assert_eq!(
        rewrite_mode("HDMI-A-1", &mode("1920x1080@60").unwrap()),
        None
    );
    assert_eq!(rewrite_vrr("HDMI-A-1,3840x2160@120", 1), None);
}

#[test]
fn line_accessors_read_the_example_config() {
    assert_eq!(line_name(HDR_LINE), "HDMI-A-1");
    assert_eq!(mode_on(HDR_LINE), mode("3840x2160@120"));
    assert_eq!(line_vrr(HDR_LINE), Some(1));
    assert_eq!(mode_on(",preferred,auto,auto"), None);
    assert_eq!(line_vrr("HDMI-A-1,3840x2160@120,0x0,2"), None);
}

#[test]
fn synthesize_line_trims_the_scale() {
    let m = mode("1920x1080@60").unwrap();
    assert_eq!(
        synthesize_line("DP-1", &m, 0, 0, &scale(1.0)),
        "DP-1,1920x1080@60,0x0,1"
    );
    assert_eq!(
        synthesize_line("DP-1", &m, 1920, -100, &scale(1.5)),
        "DP-1,1920x1080@60,1920x-100,1.5"
    );
}

#[test]
fn mode_options_dedupe_sort_and_mark_the_current_mode() {
    let available: Vec<String> = [
        "1920x1080@60.00000Hz",
        "3840x2160@60.00000Hz",
        "3840x2160@120.00000Hz",
        "3840x2160@119.99800Hz",
        "2560x1440@144.00000Hz",
        "garbage",
    ]
    .iter()
    .map(|s| s.to_string())
    .collect();

    let opts = options(&available, mode("3840x2160@120"));
    let values: Vec<&str> = opts.iter().map(|o| o.value.as_str()).collect();
    assert_eq!(
        values,
        vec![
            "3840x2160@120",
            "3840x2160@60",
            "2560x1440@144",
            "1920x1080@60"
        ]
    );
    assert_eq!(opts[0].label, "3840 × 2160 @ 120 Hz");
    assert!(opts[0].current);
    assert!(opts[1..].iter().all(|o| !o.current));
}

#[test]
fn mode_options_on_an_output_that_reports_nothing_is_empty() {
    assert!(options(&[], mode("3840x2160@120")).is_empty());
}

const CONF: &str = "\
# Per-machine display override
monitor=HDMI-A-1,3840x2160@120,0x0,2,vrr,1,cm,hdr  # 4K120 HDR over the AVR

quirks {
    prefer_hdr = 1
}
";

#[test]
fn finds_a_named_line_but_never_the_catch_all() {
    assert_eq!(find_monitor_line(CONF, "HDMI-A-1"), Some(1));
    assert_eq!(find_monitor_line(CONF, "DP-1"), None);
    assert_eq!(
        find_monitor_line("monitor=,preferred,auto,auto\n", "HDMI-A-1"),
        None
    );
    assert_eq!(find_monitor_line(CONF, ""), None);
}

#[test]
fn monitor_value_tolerates_spacing_and_indentation() {
    assert_eq!(
        find_monitor_line("  monitor = DP-1,1920x1080@60,0x0,1\n", "DP-1"),
        Some(0)
    );
    assert_eq!(
        find_monitor_line("# monitor=DP-1,1920x1080@60,0x0,1\n", "DP-1"),
        None
    );
}

#[test]
fn upsert_rewrites_one_line_and_keeps_its_comment_and_neighbours() {
    let out = upsert_monitor_line(CONF, "HDMI-A-1", "HDMI-A-1,1920x1080@60,0x0,2,vrr,0,cm,hdr");
    assert!(
        out.contains(
            "monitor=HDMI-A-1,1920x1080@60,0x0,2,vrr,0,cm,hdr  # 4K120 HDR over the AVR"
        ),
        "{out}"
    );
    assert!(
        out.contains("prefer_hdr = 1"),
        "neighbouring block lost: {out}"
    );
    assert!(
        out.contains("# Per-machine display override"),
        "leading comment lost: {out}"
    );
    assert_eq!(
        out.lines()
            .filter(|l| l.trim_start().starts_with("monitor"))
            .count(),
        1
    );
}

#[test]
fn upsert_appends_for_an_output_the_file_never_mentioned() {
    let out = upsert_monitor_line(CONF, "DP-1", "DP-1,1920x1080@60,0x0,1");
    assert!(out.contains("monitor=DP-1,1920x1080@60,0x0,1"), "{out}");
    assert!(
        out.contains("monitor=HDMI-A-1,3840x2160@120,0x0,2,vrr,1,cm,hdr"),
        "{out}"
    );
    assert!(out.ends_with('\n'));
}

#[test]
fn upsert_into_an_empty_file_produces_a_valid_one() {
    let out = upsert_monitor_line("", "DP-1", "DP-1,1920x1080@60,0x0,1");
    assert_eq!(
        configured_line(&out, "DP-1").as_deref(),
        Some("DP-1,1920x1080@60,0x0,1")
    );
}

#[test]
fn configured_line_round_trips_through_upsert() {
    let line = "HDMI-A-1,2560x1440@144,0x0,1,vrr,2,bitdepth,10";
    let out = upsert_monitor_line(CONF, "HDMI-A-1", line);
    assert_eq!(configured_line(&out, "HDMI-A-1").as_deref(), Some(line));
}

#[test]
fn upsert_keeps_the_line_endings_of_the_other_lines() {
    assert_eq!(
        upsert_monitor_line(
            "# a\r\nmonitor=DP-1,preferred,auto,1\r\n# b\r\n",
            "DP-1",
            "DP-1,1920x1080@60,0x0,1"
        ),
        "# a\r\nmonitor=DP-1,1920x1080@60,0x0,1\r\n# b\r\n"
    );
    assert_eq!(
        upsert_monitor_line(
            "# a\r\n\r\nmonitor=DP-1,preferred,auto,1",
            "DP-1",
            "DP-1,1920x1080@60,0x0,1"
        ),
        "# a\r\n\r\nmonitor=DP-1,1920x1080@60,0x0,1\n"
    );
}

#[test]
fn a_line_has_a_mode_only_where_it_is_spelled_out() {
    assert_eq!(line_mode("DP-1,1920x1080@60,0x0,1", Some(rate(60.0))), mode("1920x1080@60"));
    assert_eq!(line_mode("DP-1,1920x1080@60,0x0,1", None), None);
    assert_eq!(line_mode(",preferred,auto,auto", Some(rate(60.0))), None);
    assert_eq!(line_mode("DP-1,0x1080@60", Some(rate(60.0))), None);
    assert_eq!(line_mode("DP-1", Some(rate(60.0))), None);
}

#[test]
fn modes_are_read_in_order_without_what_is_none() {
    let available: Vec<String> = ["1920x1080@60.00Hz", "junk", "800x600@-1", "640x480@75", "1x1@x"]
        .iter()
        .map(|s| s.to_string())
        .collect();
    let rates: Vec<Option<Rate>> = available.iter().map(|s| rate_of(s)).collect();
    assert_eq!(
        read_modes(&available, &rates),
        vec![mode("1920x1080@60").unwrap(), mode("640x480@75").unwrap()]
    );
    assert!(read_modes(&[], &[]).is_empty());
}

#[test]
fn a_written_mode_is_read_back() {
    for s in ["3840x2160@119.88", "1x1@1", "4294967295x2@0.00001"] {
        let m = mode(s).unwrap();
        assert_eq!(m.to_keyword(), s);
        assert_eq!(mode(&m.to_keyword()), Some(m.clone()));
        let line = rewrite_mode("DP-1,preferred,auto,1,vrr,1", &m).unwrap();
        assert_eq!(mode_on(&line), Some(m));
    }
}

#[test]
fn a_rate_is_finite_and_greater_than_zero() {
    for hz in [0.0, -0.0, -1.0, f64::INFINITY, f64::NEG_INFINITY, f64::NAN] {
        assert_eq!(read(hz), None, "{hz}");
    }
    for hz in [f64::MIN_POSITIVE, 5e-324, 59.94, f64::MAX] {
        assert_eq!(read(hz).map(|r| r.order), Some(hz.to_bits()), "{hz}");
    }
    let r = rate(59.945);
    assert_eq!((r.keyword.as_str(), r.label.as_str()), ("59.945", "59.95"));
    let r = rate(120.0);
    assert_eq!((r.keyword.as_str(), r.label.as_str()), ("120", "120"));
}
