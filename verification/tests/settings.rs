use tv_shell::json::{parse_json, Json};
use tv_shell::settings::{
    build_groups, build_patch, complex_notes_html, config_line, daemon_owned_json, raw_saved, read_raw,
    result_html, saved, schema, submitted_groups, FieldKind, FloatReading, SettingsPage,
    DAEMON_OWNED_KEYS, GROUP_FIELD,
};

const APPEARANCE: &[&str] = &["Appearance"];
const DISPLAY_AUDIO: &[&str] = &["Display", "Night Light", "Power", "Audio"];

fn reading(v: &str) -> FloatReading {
    match v.trim().parse::<f64>() {
        Err(_) => FloatReading::Unreadable,
        Ok(n) => match serde_json::Number::from_f64(n) {
            None => FloatReading::NotFinite,
            Some(n) => FloatReading::Finite(n.to_string()),
        },
    }
}

fn patch(owned: &[&str], form: &[(&str, &str)]) -> Result<String, String> {
    let pairs: Vec<(String, String)> =
        form.iter().map(|(k, v)| (k.to_string(), v.to_string())).collect();
    let numbers: Vec<FloatReading> = pairs.iter().map(|(_, v)| reading(v)).collect();
    build_patch(owned, &pairs, &numbers).map(|p| p.to_compact())
}

fn doc(text: &str) -> Json {
    parse_json(text).unwrap()
}

#[test]
fn the_schema_has_unique_keys_and_known_groups() {
    let fields = schema();
    assert_eq!(fields.len(), 25);
    for (i, f) in fields.iter().enumerate() {
        assert!(!DAEMON_OWNED_KEYS.contains(&f.key), "{}", f.key);
        assert_ne!(f.key, GROUP_FIELD);
        for g in &fields[..i] {
            assert_ne!(f.key, g.key);
        }
    }
    let first = &fields[0];
    assert_eq!((first.key, first.group, first.default), ("themeMode", "Appearance", "dark"));
    assert!(matches!(first.kind, FieldKind::Enum(["auto", "light", "dark"])));
}

#[test]
fn an_unchecked_box_is_written_as_false() {
    assert_eq!(
        patch(APPEARANCE, &[("__group", "Appearance"), ("themeMode", "light")]).unwrap(),
        r#"{"reduceMotion":false,"themeMode":"light"}"#
    );
    assert_eq!(
        patch(APPEARANCE, &[("__group", "Appearance"), ("reduceMotion", "on")]).unwrap(),
        r#"{"reduceMotion":true}"#
    );
}

#[test]
fn a_form_patches_its_own_groups_only() {
    assert_eq!(
        patch(DISPLAY_AUDIO, &[("__group", "Audio"), ("defaultSink", " hdmi "), ("themeMode", "dark")])
            .unwrap(),
        r#"{"defaultSink":" hdmi "}"#
    );
    assert_eq!(
        patch(DISPLAY_AUDIO, &[("__group", "Power"), ("__group", "Night Light"), ("__group", "Power")])
            .unwrap(),
        r#"{"nightLightEnabled":false,"wakeOnController":false}"#
    );
}

#[test]
fn every_kind_of_field_is_read() {
    assert_eq!(
        patch(
            APPEARANCE,
            &[
                ("__group", " Appearance "),
                ("autoThemeDarkStart", " 21 "),
                ("textScale", " 1.50 "),
                ("textScale", "2"),
            ],
        )
        .unwrap(),
        r#"{"autoThemeDarkStart":21,"reduceMotion":false,"textScale":2.0}"#
    );
    assert_eq!(
        patch(&["Apps"], &[("__group", "Apps"), ("prewarmApps", " a \r\n\n  b\n")]).unwrap(),
        r#"{"prewarmApps":["a","b"]}"#
    );
    assert_eq!(
        patch(&["Apps"], &[("__group", "Apps"), ("prewarmApps", "")]).unwrap(),
        r#"{"prewarmApps":[]}"#
    );
    assert_eq!(
        patch(&["CEC"], &[("__group", "CEC"), ("cecDefaultInput", "-1"), ("cecDeviceNames", "{}")]).unwrap(),
        r#"{"cecAutoSwitchOnPowerOn":false,"cecDefaultInput":-1,"cecFocusOnStartup":false,"cecFocusOnWake":false}"#
    );
}

#[test]
fn what_a_form_gets_wrong_is_said() {
    let group = ("__group", "Appearance");
    let cases: [(&[(&str, &str)], &str); 8] = [
        (
            &[("themeMode", "dark")],
            "no __group submitted — a settings form must declare the schema groups it owns; \
             refusing to patch every group",
        ),
        (
            &[("__group", "Nope")],
            "unknown settings group \"Nope\" — not a group in the settings schema",
        ),
        (
            &[("__group", "Audio")],
            "settings group \"Audio\" is not owned by the form that was submitted",
        ),
        (
            &[group, ("themeMode", "pink")],
            "invalid value for themeMode: \"pink\" (allowed: auto, light, dark)",
        ),
        (
            &[group, ("autoThemeDarkStart", "x")],
            "invalid integer for autoThemeDarkStart: \"x\"",
        ),
        (&[group, ("autoThemeDarkStart", "-1")], "autoThemeDarkStart must be >= 0"),
        (&[group, ("autoThemeDarkStart", "24")], "autoThemeDarkStart must be <= 23"),
        (&[group, ("textScale", "wide")], "invalid number for textScale: \"wide\""),
    ];
    for (form, message) in cases {
        assert_eq!(patch(APPEARANCE, form).unwrap_err(), message);
    }
    assert_eq!(
        patch(APPEARANCE, &[group, ("textScale", "inf")]).unwrap_err(),
        "invalid number for textScale"
    );
}

#[test]
fn declared_groups_are_owned_ones() {
    let pairs = |names: &[&str]| -> Vec<(String, String)> {
        names.iter().map(|n| (GROUP_FIELD.to_string(), n.to_string())).collect()
    };
    assert_eq!(
        submitted_groups(DISPLAY_AUDIO, &pairs(&["Audio", "Display", "Audio"])).unwrap(),
        ["Audio", "Display"]
    );
    assert!(submitted_groups(DISPLAY_AUDIO, &pairs(&["Audio", "CEC"])).is_err());
    assert!(submitted_groups(DISPLAY_AUDIO, &[]).is_err());
}

#[test]
fn forms_show_the_document_or_the_default() {
    let cfg = doc(
        r#"{"themeMode": "auto", "autoThemeDarkStart": 19, "reduceMotion": true, "textScale": 1.25,
            "autoThemeLightStart": "x"}"#,
    );
    let groups = build_groups(&cfg, APPEARANCE);
    assert_eq!(groups.len(), 1);
    assert_eq!(groups[0].name, "Appearance");
    let html: Vec<&str> = groups[0].fields.iter().map(|f| f.input_html.as_str()).collect();
    assert_eq!(
        html,
        [
            "<select id=\"themeMode\" name=\"themeMode\"><option value=\"auto\" selected>auto</option>\
             <option value=\"light\">light</option><option value=\"dark\">dark</option></select>",
            "<input type=\"number\" id=\"autoThemeDarkStart\" name=\"autoThemeDarkStart\" value=\"19\" \
             min=\"0\" max=\"23\">",
            "<input type=\"number\" id=\"autoThemeLightStart\" name=\"autoThemeLightStart\" value=\"7\" \
             min=\"0\" max=\"23\">",
            "<input type=\"checkbox\" id=\"reduceMotion\" name=\"reduceMotion\" checked>",
            "<input type=\"number\" step=\"0.01\" id=\"textScale\" name=\"textScale\" value=\"1.25\">",
        ]
    );
    let groups = build_groups(&doc("{}"), DISPLAY_AUDIO);
    let names: Vec<&str> = groups.iter().map(|g| g.name).collect();
    assert_eq!(names, ["Display", "Night Light", "Power", "Audio"]);
    assert_eq!(
        groups[0].fields[3].input_html,
        "<input type=\"number\" id=\"autoDimDelayMinutes\" name=\"autoDimDelayMinutes\" value=\"2\" min=\"0\">"
    );
    let apps = build_groups(&doc(r#"{"prewarmApps": ["a<b", 1, "\"c\""]}"#), &["Apps"]);
    assert_eq!(
        apps[0].fields[0].input_html,
        "<textarea id=\"prewarmApps\" name=\"prewarmApps\" rows=\"3\">a&lt;b\n&quot;c&quot;</textarea>"
    );
    assert!(build_groups(&doc("{}"), &["Widgets"]).is_empty());
}

#[test]
fn what_the_daemon_owns_is_shown_apart() {
    assert_eq!(complex_notes_html(), "<code>widgets</code>, <code>cecDeviceNames</code>");
    assert_eq!(
        daemon_owned_json(&doc(r#"{"webApps": [1], "keyBindings": {"a": "b"}, "themeMode": "dark"}"#)),
        "{\n  \"keyBindings\": {\n    \"a\": \"b\"\n  },\n  \"webApps\": [\n    1\n  ]\n}"
    );
    assert_eq!(daemon_owned_json(&doc("[]")), "{}");
}

#[test]
fn raw_documents_must_be_objects() {
    assert_eq!(read_raw(" {\"a\": null} ").unwrap().to_compact(), "{\"a\":null}");
    let shown = doc(r#"{"themeMode": "dark", "overscan": 3, "widgets": {"a": [true]}}"#);
    assert_eq!(read_raw(&shown.to_pretty()).unwrap(), shown);
    for text in ["[]", "1", "null"] {
        assert_eq!(
            read_raw(text).unwrap_err().message,
            "Invalid: raw JSON must be an object, e.g. {\"key\":value} — not an array or scalar."
        );
    }
    let err = read_raw("{").unwrap_err();
    assert!(!err.ok);
    assert!(err.message.starts_with("Invalid JSON: EOF while parsing"), "{}", err.message);
}

#[test]
fn saves_are_reported() {
    assert_eq!(saved(Ok(())), result_html(true, "Settings saved."));
    assert_eq!(saved(Err("down".to_string())), result_html(false, "Save failed: down"));
    assert_eq!(raw_saved(Ok(())), result_html(true, "Raw JSON merged into settings.json."));
    assert_eq!(raw_saved(Err("down".to_string())), result_html(false, "Save failed: down"));
}

fn page_patch(page: SettingsPage, form: &[(&str, &str)]) -> Result<String, String> {
    let pairs: Vec<(String, String)> =
        form.iter().map(|(k, v)| (k.to_string(), v.to_string())).collect();
    let numbers: Vec<FloatReading> = pairs.iter().map(|(_, v)| reading(v)).collect();
    page.patch(&pairs, &numbers).map(|p| p.to_compact())
}

#[test]
fn every_page_saves_its_own_groups_only() {
    let pages = [
        SettingsPage::Appearance,
        SettingsPage::Apps,
        SettingsPage::DisplayAudio,
    ];
    assert_eq!(SettingsPage::Appearance.owned(), APPEARANCE);
    assert_eq!(SettingsPage::Apps.owned(), ["Apps"]);
    assert_eq!(SettingsPage::DisplayAudio.owned(), DISPLAY_AUDIO);
    for page in pages {
        for other in pages {
            for group in other.owned() {
                let form = [("__group", group), ("themeMode", "dark")];
                assert_eq!(page_patch(page, &form).is_ok(), page == other, "{group}");
                assert_eq!(page.owned().contains(&group), page == other, "{group}");
            }
        }
        let shown: Vec<String> =
            page.groups(&doc("{}")).into_iter().map(|g| g.name.to_string()).collect();
        let mut owned = page.owned();
        for name in &shown {
            assert!(owned.contains(&name.as_str()), "{name}");
        }
        owned.retain(|name| !shown.iter().any(|s| s == name));
        assert!(owned.is_empty());
    }
    assert_eq!(
        page_patch(SettingsPage::Apps, &[("__group", "Apps"), ("prewarmApps", "a")]).unwrap(),
        r#"{"prewarmApps":["a"]}"#
    );
}

#[test]
fn a_patch_is_sent_in_one_line() {
    let form = [("__group", "Apps"), ("prewarmApps", "a\nb\r\n \"c\"")];
    let pairs: Vec<(String, String)> =
        form.iter().map(|(k, v)| (k.to_string(), v.to_string())).collect();
    let numbers: Vec<FloatReading> = pairs.iter().map(|(_, v)| reading(v)).collect();
    let patch = SettingsPage::Apps.patch(&pairs, &numbers).unwrap();
    assert_eq!(
        config_line(&patch),
        "set-config {\"prewarmApps\":[\"a\",\"b\",\"\\\"c\\\"\"]}"
    );
    let raw = read_raw("{\n \"k\" : \"a\\nb\", \"n\": 1.5e300 }").unwrap();
    assert_eq!(config_line(&raw), "set-config {\"k\":\"a\\nb\",\"n\":1.5e+300}");
}
