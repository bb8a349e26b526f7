//! The settings that the panel edits: their schema, the form fields that show
//! them, and the patch that a submitted form makes.

use crate::html;
use crate::html::esc;
use crate::json;
use crate::json::{float_json, signed_json, Fields, Json};
use crate::text;
use vstd::prelude::*;

verus! {

// ---------------------------------------------------------------------------
// Schema
// ---------------------------------------------------------------------------

/// How the value of a setting is typed and checked.
#[derive(Clone, Copy, Debug)]
pub enum FieldKind {
    Bool,
    /// One of these texts.
    Enum(&'static [&'static str]),
    /// A whole number within bounds.
    Int { min: Option<i64>, max: Option<i64> },
    Float,
    Str,
    /// A list of texts, one to a line.
    StrList,
    /// An object that no form field can show.
    Complex,
}

/// How the value of a setting is typed and checked.
pub enum KindRule {
    Bool,
    Enum(Seq<Seq<char>>),
    Int { min: Option<i64>, max: Option<i64> },
    Float,
    Str,
    StrList,
    Complex,
}

/// What the words of a list say.
pub open spec fn words_said(words: Seq<&str>) -> Seq<Seq<char>> {
    Seq::new(words.len(), |i: int| words[i]@)
}

impl View for FieldKind {
    type V = KindRule;

    open spec fn view(&self) -> KindRule {
        match *self {
            FieldKind::Bool => KindRule::Bool,
            FieldKind::Enum(allowed) => KindRule::Enum(words_said(allowed@)),
            FieldKind::Int { min, max } => KindRule::Int { min, max },
            FieldKind::Float => KindRule::Float,
            FieldKind::Str => KindRule::Str,
            FieldKind::StrList => KindRule::StrList,
            FieldKind::Complex => KindRule::Complex,
        }
    }
}

/// A setting.
#[derive(Clone, Copy, Debug)]
pub struct SettingField {
    pub key: &'static str,
    pub label: &'static str,
    /// The group that it is shown and saved with.
    pub group: &'static str,
    pub kind: FieldKind,
    pub default: &'static str,
}

/// A setting.
pub struct FieldRule {
    pub key: Seq<char>,
    pub label: Seq<char>,
    pub group: Seq<char>,
    pub kind: KindRule,
    pub default: Seq<char>,
}

impl View for SettingField {
    type V = FieldRule;

    open spec fn view(&self) -> FieldRule {
        FieldRule {
            key: self.key@,
            label: self.label@,
            group: self.group@,
            kind: self.kind@,
            default: self.default@,
        }
    }
}

/// The settings that the panel edits.
#[verifier::opaque]
pub open spec fn schema_rules() -> Seq<FieldRule> {
    seq![
        FieldRule {
            key: "themeMode"@,
            label: "Theme mode"@,
            group: "Appearance"@,
            kind: KindRule::Enum(seq!["auto"@, "light"@, "dark"@]),
            default: "dark"@,
        },
        FieldRule {
            key: "autoThemeDarkStart"@,
            label: "Auto-theme: dark start hour"@,
            group: "Appearance"@,
            kind: KindRule::Int { min: Some(0), max: Some(23) },
            default: "20"@,
        },
        FieldRule {
            key: "autoThemeLightStart"@,
            label: "Auto-theme: light start hour"@,
            group: "Appearance"@,
            kind: KindRule::Int { min: Some(0), max: Some(23) },
            default: "7"@,
        },
        FieldRule {
            key: "reduceMotion"@,
            label: "Reduce motion"@,
            group: "Appearance"@,
            kind: KindRule::Bool,
            default: "false"@,
        },
        FieldRule {
            key: "textScale"@,
            label: "Text scale"@,
            group: "Appearance"@,
            kind: KindRule::Float,
            default: "1.0"@,
        },
        FieldRule {
            key: "controllerDebug"@,
            label: "Controller debug overlay"@,
            group: "Input"@,
            kind: KindRule::Bool,
            default: "false"@,
        },
        FieldRule {
            key: "rumbleEnabled"@,
            label: "Rumble enabled"@,
            group: "Input"@,
            kind: KindRule::Bool,
            default: "true"@,
        },
        FieldRule {
            key: "widgets"@,
            label: "Widgets config"@,
            group: "Widgets"@,
            kind: KindRule::Complex,
            default: "{}"@,
        },
        FieldRule {
            key: "hdrEnabled"@,
            label: "HDR enabled"@,
            group: "Display"@,
            kind: KindRule::Bool,
            default: "true"@,
        },
        FieldRule {
            key: "overscan"@,
            label: "Overscan percent"@,
            group: "Display"@,
            kind: KindRule::Int { min: Some(0), max: Some(10) },
            default: "0"@,
        },
        FieldRule {
            key: "autoDimEnabled"@,
            label: "Auto-dim enabled"@,
            group: "Display"@,
            kind: KindRule::Bool,
            default: "false"@,
        },
        FieldRule {
            key: "autoDimDelayMinutes"@,
            label: "Auto-dim delay (minutes)"@,
            group: "Display"@,
            kind: KindRule::Int { min: Some(0), max: None },
            default: "2"@,
        },
        FieldRule {
            key: "wallpaperPath"@,
            label: "Wallpaper image path (empty = none)"@,
            group: "Display"@,
            kind: KindRule::Str,
            default: ""@,
        },
        FieldRule {
            key: "nightLightEnabled"@,
            label: "Night light enabled"@,
            group: "Night Light"@,
            kind: KindRule::Bool,
            default: "false"@,
        },
        FieldRule {
            key: "nightLightTemp"@,
            label: "Night light temperature (K)"@,
            group: "Night Light"@,
            kind: KindRule::Int { min: Some(1000), max: Some(10000) },
            default: "4500"@,
        },
        FieldRule {
            key: "sleepTimerMinutes"@,
            label: "Sleep timer (minutes, 0 = off)"@,
            group: "Power"@,
            kind: KindRule::Int { min: Some(0), max: None },
            default: "0"@,
        },
        FieldRule {
            key: "wakeOnController"@,
            label: "Wake on controller input"@,
            group: "Power"@,
            kind: KindRule::Bool,
            default: "true"@,
        },
        FieldRule {
            key: "defaultSink"@,
            label: "Default audio sink"@,
            group: "Audio"@,
            kind: KindRule::Str,
            default: ""@,
        },
        FieldRule {
            key: "audioCardProfile"@,
            label: "Audio card profile (\"card|profile\")"@,
            group: "Audio"@,
            kind: KindRule::Str,
            default: ""@,
        },
        FieldRule {
            key: "cecFocusOnStartup"@,
            label: "CEC: claim active source on startup"@,
            group: "CEC"@,
            kind: KindRule::Bool,
            default: "false"@,
        },
        FieldRule {
            key: "cecFocusOnWake"@,
            label: "CEC: claim active source on wake"@,
            group: "CEC"@,
            kind: KindRule::Bool,
            default: "true"@,
        },
        FieldRule {
            key: "cecAutoSwitchOnPowerOn"@,
            label: "CEC: auto-switch input on device power-on"@,
            group: "CEC"@,
            kind: KindRule::Bool,
            default: "false"@,
        },
        FieldRule {
            key: "cecDefaultInput"@,
            label: "CEC: default input logical address (-1 = unset)"@,
            group: "CEC"@,
            kind: KindRule::Int { min: Some((-1) as i64), max: Some(15) },
            default: "-1"@,
        },
        FieldRule {
            key: "cecDeviceNames"@,
            label: "CEC device name overrides"@,
            group: "CEC"@,
            kind: KindRule::Complex,
            default: "{}"@,
        },
        FieldRule {
            key: "prewarmApps"@,
            label: "Prewarm apps at login (StartupWMClass, one per line)"@,
            group: "Apps"@,
            kind: KindRule::StrList,
            default: ""@,
        },
    ]
}

/// What the fields say.
pub open spec fn rules_of(fields: Seq<SettingField>) -> Seq<FieldRule> {
    Seq::new(fields.len(), |i: int| fields[i]@)
}

/// The settings that the panel edits.
pub fn schema() -> (r: Vec<SettingField>)
    ensures
        rules_of(r@) == schema_rules(),
{
    let r = vec![
        SettingField {
            key: "themeMode",
            label: "Theme mode",
            group: "Appearance",
            kind: FieldKind::Enum(&["auto", "light", "dark"]),
            default: "dark",
        },
        SettingField {
            key: "autoThemeDarkStart",
            label: "Auto-theme: dark start hour",
            group: "Appearance",
            kind: FieldKind::Int { min: Some(0), max: Some(23) },
            default: "20",
        },
        SettingField {
            key: "autoThemeLightStart",
            label: "Auto-theme: light start hour",
            group: "Appearance",
            kind: FieldKind::Int { min: Some(0), max: Some(23) },
            default: "7",
        },
        SettingField {
            key: "reduceMotion",
            label: "Reduce motion",
            group: "Appearance",
            kind: FieldKind::Bool,
            default: "false",
        },
        SettingField {
            key: "textScale",
            label: "Text scale",
            group: "Appearance",
            kind: FieldKind::Float,
            default: "1.0",
        },
        SettingField {
            key: "controllerDebug",
            label: "Controller debug overlay",
            group: "Input",
            kind: FieldKind::Bool,
            default: "false",
        },
        SettingField {
            key: "rumbleEnabled",
            label: "Rumble enabled",
            group: "Input",
            kind: FieldKind::Bool,
            default: "true",
        },
        SettingField {
            key: "widgets",
            label: "Widgets config",
            group: "Widgets",
            kind: FieldKind::Complex,
            default: "{}",
        },
        SettingField {
            key: "hdrEnabled",
            label: "HDR enabled",
            group: "Display",
            kind: FieldKind::Bool,
            default: "true",
        },
        SettingField {
            key: "overscan",
            label: "Overscan percent",
            group: "Display",
            kind: FieldKind::Int { min: Some(0), max: Some(10) },
            default: "0",
        },
        SettingField {
            key: "autoDimEnabled",
            label: "Auto-dim enabled",
            group: "Display",
            kind: FieldKind::Bool,
            default: "false",
        },
        SettingField {
            key: "autoDimDelayMinutes",
            label: "Auto-dim delay (minutes)",
            group: "Display",
            kind: FieldKind::Int { min: Some(0), max: None },
            default: "2",
        },
        SettingField {
            key: "wallpaperPath",
            label: "Wallpaper image path (empty = none)",
            group: "Display",
            kind: FieldKind::Str,
            default: "",
        },
        SettingField {
            key: "nightLightEnabled",
            label: "Night light enabled",
            group: "Night Light",
            kind: FieldKind::Bool,
            default: "false",
        },
        SettingField {
            key: "nightLightTemp",
            label: "Night light temperature (K)",
            group: "Night Light",
            kind: FieldKind::Int { min: Some(1000), max: Some(10000) },
            default: "4500",
        },
        SettingField {
            key: "sleepTimerMinutes",
            label: "Sleep timer (minutes, 0 = off)",
            group: "Power",
            kind: FieldKind::Int { min: Some(0), max: None },
            default: "0",
        },
        SettingField {
            key: "wakeOnController",
            label: "Wake on controller input",
            group: "Power",
            kind: FieldKind::Bool,
            default: "true",
        },
        SettingField {
            key: "defaultSink",
            label: "Default audio sink",
            group: "Audio",
            kind: FieldKind::Str,
            default: "",
        },
        SettingField {
            key: "audioCardProfile",
            label: "Audio card profile (\"card|profile\")",
            group: "Audio",
            kind: FieldKind::Str,
            default: "",
        },
        SettingField {
            key: "cecFocusOnStartup",
            label: "CEC: claim active source on startup",
            group: "CEC",
            kind: FieldKind::Bool,
            default: "false",
        },
        SettingField {
            key: "cecFocusOnWake",
            label: "CEC: claim active source on wake",
            group: "CEC",
            kind: FieldKind::Bool,
            default: "true",
        },
        SettingField {
            key: "cecAutoSwitchOnPowerOn",
            label: "CEC: auto-switch input on device power-on",
            group: "CEC",
            kind: FieldKind::Bool,
            default: "false",
        },
        SettingField {
            key: "cecDefaultInput",
            label: "CEC: default input logical address (-1 = unset)",
            group: "CEC",
            kind: FieldKind::Int { min: Some(-1), max: Some(15) },
            default: "-1",
        },
        SettingField {
            key: "cecDeviceNames",
            label: "CEC device name overrides",
            group: "CEC",
            kind: FieldKind::Complex,
            default: "{}",
        },
        SettingField {
            key: "prewarmApps",
            label: "Prewarm apps at login (StartupWMClass, one per line)",
            group: "Apps",
            kind: FieldKind::StrList,
            default: "",
        },
    ];
    proof {
        reveal(schema_rules);
        assert(words_said(r@[0].kind->Enum_0@) =~= seq!["auto"@, "light"@, "dark"@]);
        assert(rules_of(r@) =~= schema_rules());
    }
    r
}

/// The keys that the daemon writes. They are shown, and no form saves them.
pub const DAEMON_OWNED_KEYS: [&'static str; 4] = [
    "keyBindings",
    "perGameBindings",
    "perPlayerBindings",
    "webApps",
];

/// The form field by which a form tells the groups that it covers.
pub const GROUP_FIELD: &'static str = "__group";

// ---------------------------------------------------------------------------
// Form fields
// ---------------------------------------------------------------------------

/// The text of `key`, or `default` where there is none.
pub open spec fn text_or(v: json::JsonView, key: Seq<char>, default: Seq<char>) -> Seq<char> {
    match json::member(v, key) {
        Some(json::JsonView::Text(s)) => s,
        _ => default,
    }
}

/// The whole number of `key` in decimal, or `default` where there is none.
pub open spec fn number_or(v: json::JsonView, key: Seq<char>, default: Seq<char>) -> Seq<char> {
    match json::member(v, key) {
        Some(json::JsonView::Number(n)) => match n.signed {
            Some(i) => text::int_text(i as int),
            None => default,
        },
        _ => default,
    }
}

/// The texts among some documents.
pub open spec fn texts_in(items: Seq<json::JsonView>) -> Seq<Seq<char>>
    decreases items.len(),
{
    if items.len() == 0 {
        Seq::empty()
    } else {
        match items.last() {
            json::JsonView::Text(s) => texts_in(items.drop_last()).push(s),
            _ => texts_in(items.drop_last()),
        }
    }
}

/// The texts of the list at `key`, one to a line.
pub open spec fn lines_or_empty(v: json::JsonView, key: Seq<char>) -> Seq<char> {
    match json::member(v, key) {
        Some(json::JsonView::Array(items)) => text::joined(texts_in(items), "\n"@),
        _ => Seq::empty(),
    }
}

/// The choices of a list, with the current one marked.
pub open spec fn options_text(allowed: Seq<Seq<char>>, current: Seq<char>) -> Seq<char>
    decreases allowed.len(),
{
    if allowed.len() == 0 {
        Seq::empty()
    } else {
        let o = allowed.last();
        options_text(allowed.drop_last(), current) + ("<option value=\""@ + html::escaped(o) + "\""@
            + (if o == current {
            " selected"@
        } else {
            Seq::empty()
        }) + ">"@ + html::escaped(o) + "</option>"@)
    }
}

/// The head of an element with the key as id and name.
pub open spec fn named(element: Seq<char>, key: Seq<char>) -> Seq<char> {
    element + " id=\""@ + key + "\" name=\""@ + key + "\""@
}

/// A bound of a number as an attribute.
pub open spec fn bound_text(name: Seq<char>, bound: Option<i64>) -> Seq<char> {
    match bound {
        Some(n) => " "@ + name + "=\""@ + text::int_text(n as int) + "\""@,
        None => Seq::empty(),
    }
}

/// The form element of a setting, filled with its value in `cfg`, or with its
/// default where `cfg` has none of its type.
pub open spec fn input_text(f: FieldRule, cfg: json::JsonView) -> Seq<char> {
    match f.kind {
        KindRule::Bool => named("<input type=\"checkbox\""@, f.key) + (if json::bool_or(
            cfg,
            f.key,
            f.default == "true"@,
        ) {
            " checked"@
        } else {
            Seq::empty()
        }) + ">"@,
        KindRule::Enum(allowed) => named("<select"@, f.key) + ">"@ + options_text(
            allowed,
            text_or(cfg, f.key, f.default),
        ) + "</select>"@,
        KindRule::Int { min, max } => named("<input type=\"number\""@, f.key) + " value=\""@
            + html::escaped(number_or(cfg, f.key, f.default)) + "\""@ + bound_text("min"@, min)
            + bound_text("max"@, max) + ">"@,
        KindRule::Float => named("<input type=\"number\" step=\"0.01\""@, f.key) + " value=\""@
            + html::escaped(json::shown_or(cfg, f.key, f.default)) + "\">"@,
        KindRule::Str => named("<input type=\"text\""@, f.key) + " value=\""@ + html::escaped(
            text_or(cfg, f.key, f.default),
        ) + "\">"@,
        KindRule::StrList => named("<textarea"@, f.key) + " rows=\"3\">"@ + html::escaped(
            lines_or_empty(cfg, f.key),
        ) + "</textarea>"@,
        KindRule::Complex => Seq::empty(),
    }
}

fn named_element(element: &str, key: &str) -> (r: String)
    ensures
        r@ == named(element@, key@),
{
    let mut out = element.to_owned();
    out.push_str(" id=\"");
    out.push_str(key);
    out.push_str("\" name=\"");
    out.push_str(key);
    out.push_str("\"");
    out
}

fn bound_attr(name: &str, bound: Option<i64>) -> (r: String)
    ensures
        r@ == bound_text(name@, bound),
{
    match bound {
        Some(n) => {
            let mut out = " ".to_owned();
            out.push_str(name);
            out.push_str("=\"");
            out.push_str(text::signed_decimal(n).as_str());
            out.push_str("\"");
            out
        },
        None => String::new(),
    }
}

fn option_elements(allowed: &[&str], current: &str) -> (r: String)
    ensures
        r@ == options_text(words_said(allowed@), current@),
{
    let mut out = String::new();
    let ghost all = words_said(allowed@);
    let mut i: usize = 0;
    assert(all.take(0) =~= Seq::empty());
    while i < allowed.len()
        invariant
            i <= allowed.len(),
            all == words_said(allowed@),
            out@ == options_text(all.take(i as int), current@),
        decreases allowed.len() - i,
    {
        let ghost next = all.take(i + 1);
        assert(next.drop_last() =~= all.take(i as int));
        let o = esc(allowed[i]);
        let mut element = "<option value=\"".to_owned();
        element.push_str(o.as_str());
        element.push_str("\"");
        if text::same_text(allowed[i], current) {
            element.push_str(" selected");
        } else {
            assert(element@ + Seq::<char>::empty() =~= element@);
        }
        element.push_str(">");
        element.push_str(o.as_str());
        element.push_str("</option>");
        out.push_str(element.as_str());
        i += 1;
    }
    assert(all.take(i as int) =~= all);
    out
}

fn text_at_or(cfg: &Json, key: &str, default: &str) -> (r: String)
    ensures
        r@ == text_or(cfg@, key@, default@),
{
    match cfg.get(key) {
        Some(Json::Text(s)) => s.clone(),
        _ => default.to_owned(),
    }
}

fn number_at_or(cfg: &Json, key: &str, default: &str) -> (r: String)
    ensures
        r@ == number_or(cfg@, key@, default@),
{
    match cfg.get(key) {
        Some(Json::Number(n)) => match n.signed {
            Some(i) => text::signed_decimal(i),
            None => default.to_owned(),
        },
        _ => default.to_owned(),
    }
}

fn lines_at(cfg: &Json, key: &str) -> (r: String)
    ensures
        r@ == lines_or_empty(cfg@, key@),
{
    match cfg.get(key) {
        Some(v) => match v {
            Json::Array(items) => {
                proof {
                    json::lemma_said(*v);
                }
                let ghost all = json::items_said(items@);
                let mut texts: Vec<String> = Vec::new();
                let mut i: usize = 0;
                assert(all.take(0) =~= Seq::empty());
                assert(text::views(texts@) =~= Seq::empty());
                while i < items.len()
                    invariant
                        i <= items.len(),
                        all == json::items_said(items@),
                        text::views(texts@) == texts_in(all.take(i as int)),
                    decreases items.len() - i,
                {
                    let ghost next = all.take(i + 1);
                    assert(next.drop_last() =~= all.take(i as int));
                    assert(next.last() == items@[i as int]@);
                    match &items[i] {
                        Json::Text(s) => {
                            let t = s.clone();
                            proof {
                                text::lemma_views_push(texts@, t);
                            }
                            texts.push(t);
                        },
                        _ => {},
                    }
                    i += 1;
                }
                assert(all.take(i as int) =~= all);
                text::join(&texts, "\n")
            },
            _ => String::new(),
        },
        None => String::new(),
    }
}

/// The form element of a setting, filled with its value in `cfg`, or with its
/// default where `cfg` has none of its type.
pub fn render_input(f: &SettingField, cfg: &Json) -> (r: String)
    ensures
        r@ == input_text(f@, cfg@),
{
    match f.kind {
        FieldKind::Bool => {
            let mut out = named_element("<input type=\"checkbox\"", f.key);
            if cfg.bool_at(f.key, text::same_text(f.default, "true")) {
                out.push_str(" checked");
            } else {
                assert(out@ + Seq::<char>::empty() =~= out@);
            }
            out.push_str(">");
            out
        },
        FieldKind::Enum(allowed) => {
            let current = text_at_or(cfg, f.key, f.default);
            let mut out = named_element("<select", f.key);
            out.push_str(">");
            out.push_str(option_elements(allowed, current.as_str()).as_str());
            out.push_str("</select>");
            out
        },
        FieldKind::Int { min, max } => {
            let current = number_at_or(cfg, f.key, f.default);
            let mut out = named_element("<input type=\"number\"", f.key);
            out.push_str(" value=\"");
            out.push_str(esc(current.as_str()).as_str());
            out.push_str("\"");
            out.push_str(bound_attr("min", min).as_str());
            out.push_str(bound_attr("max", max).as_str());
            out.push_str(">");
            out
        },
        FieldKind::Float => {
            let current = cfg.shown_at(f.key, f.default);
            let mut out = named_element("<input type=\"number\" step=\"0.01\"", f.key);
            out.push_str(" value=\"");
            out.push_str(esc(current.as_str()).as_str());
            out.push_str("\">");
            out
        },
        FieldKind::Str => {
            let current = text_at_or(cfg, f.key, f.default);
            let mut out = named_element("<input type=\"text\"", f.key);
            out.push_str(" value=\"");
            out.push_str(esc(current.as_str()).as_str());
            out.push_str("\">");
            out
        },
        FieldKind::StrList => {
            let current = lines_at(cfg, f.key);
            let mut out = named_element("<textarea", f.key);
            out.push_str(" rows=\"3\">");
            out.push_str(esc(current.as_str()).as_str());
            out.push_str("</textarea>");
            out
        },
        FieldKind::Complex => String::new(),
    }
}

/// A setting as a form shows it.
#[derive(Debug, Clone, PartialEq, Eq)]
pub struct FieldView {
    pub key: &'static str,
    pub label: &'static str,
    pub input_html: String,
}

/// The settings of a group as a form shows them.
#[derive(Debug, Clone, PartialEq, Eq)]
pub struct GroupView {
    pub name: &'static str,
    pub fields: Vec<FieldView>,
}

/// What a [`FieldView`] says: key, label and element.
pub type FieldShown = (Seq<char>, Seq<char>, Seq<char>);

/// What fields of a form say.
pub open spec fn fields_shown(fields: Seq<FieldView>) -> Seq<FieldShown> {
    Seq::new(fields.len(), |i: int| (fields[i].key@, fields[i].label@, fields[i].input_html@))
}

/// What groups of a form say.
pub open spec fn groups_shown(groups: Seq<GroupView>) -> Seq<(Seq<char>, Seq<FieldShown>)> {
    Seq::new(groups.len(), |i: int| (groups[i].name@, fields_shown(groups[i].fields@)))
}

/// Whether a setting is shown in a form for the groups of `scope`.
pub open spec fn is_shown(f: FieldRule, scope: Seq<Seq<char>>) -> bool {
    !(f.kind is Complex) && scope.contains(f.group)
}

/// The place of the group `name`, or their number.
pub open spec fn group_at(groups: Seq<(Seq<char>, Seq<FieldShown>)>, name: Seq<char>) -> int
    decreases groups.len(),
{
    if groups.len() == 0 || groups[0].0 == name {
        0
    } else {
        1 + group_at(groups.skip(1), name)
    }
}

/// The groups with one setting more: at the end of its group, which is new at the
/// end if there is none yet.
pub open spec fn with_field(
    groups: Seq<(Seq<char>, Seq<FieldShown>)>,
    name: Seq<char>,
    field: FieldShown,
) -> Seq<(Seq<char>, Seq<FieldShown>)> {
    let i = group_at(groups, name);
    if i < groups.len() {
        groups.update(i, (groups[i].0, groups[i].1.push(field)))
    } else {
        groups.push((name, seq![field]))
    }
}

/// The form for the groups of `scope`: their settings in the order of the schema.
pub open spec fn form_groups(
    rules: Seq<FieldRule>,
    cfg: json::JsonView,
    scope: Seq<Seq<char>>,
) -> Seq<(Seq<char>, Seq<FieldShown>)>
    decreases rules.len(),
{
    if rules.len() == 0 {
        Seq::empty()
    } else {
        let f = rules.last();
        let before = form_groups(rules.drop_last(), cfg, scope);
        if is_shown(f, scope) {
            with_field(before, f.group, (f.key, f.label, input_text(f, cfg)))
        } else {
            before
        }
    }
}

proof fn lemma_group_at(groups: Seq<(Seq<char>, Seq<FieldShown>)>, name: Seq<char>, n: int)
    requires
        0 <= n <= groups.len(),
        forall|i: int| 0 <= i < n ==> (#[trigger] groups[i]).0 != name,
        n < groups.len() ==> groups[n].0 == name,
    ensures
        group_at(groups, name) == n,
    decreases n,
{
    if n > 0 {
        assert(groups[0].0 != name);
        let t = groups.skip(1);
        assert forall|i: int| 0 <= i < n - 1 implies (#[trigger] t[i]).0 != name by {
            assert(t[i] == groups[i + 1]);
        }
        lemma_group_at(t, name, n - 1);
    }
}

fn add_field(groups: &mut Vec<GroupView>, name: &'static str, field: FieldView)
    ensures
        groups_shown(final(groups)@) == with_field(
            groups_shown(old(groups)@),
            name@,
            (field.key@, field.label@, field.input_html@),
        ),
{
    let ghost before = groups_shown(groups@);
    let ghost shown = (field.key@, field.label@, field.input_html@);
    let mut i: usize = 0;
    while i < groups.len() && !text::same_text(groups[i].name, name)
        invariant
            i <= groups.len(),
            before == groups_shown(groups@),
            forall|k: int| 0 <= k < i ==> (#[trigger] before[k]).0 != name@,
        decreases groups.len() - i,
    {
        i += 1;
    }
    proof {
        lemma_group_at(before, name@, i as int);
    }
    if i < groups.len() {
        let ghost old_fields = groups@[i as int].fields@;
        groups[i].fields.push(field);
        assert(fields_shown(groups@[i as int].fields@) =~= fields_shown(old_fields).push(shown));
        assert(groups_shown(groups@) =~= with_field(before, name@, shown));
    } else {
        let mut fields: Vec<FieldView> = Vec::new();
        fields.push(field);
        assert(fields_shown(fields@) =~= seq![shown]);
        groups.push(GroupView { name, fields });
        assert(groups_shown(groups@) =~= with_field(before, name@, shown));
    }
}

/// The form for the groups of `scope`, filled from `cfg`.
pub fn build_groups(cfg: &Json, scope: &[&str]) -> (r: Vec<GroupView>)
    ensures
        groups_shown(r@) == form_groups(schema_rules(), cfg@, words_said(scope@)),
{
    let fields = schema();
    let ghost rules = rules_of(fields@);
    let ghost names = words_said(scope@);
    let mut groups: Vec<GroupView> = Vec::new();
    let mut i: usize = 0;
    assert(rules.take(0) =~= Seq::empty());
    assert(groups_shown(groups@) =~= Seq::empty());
    while i < fields.len()
        invariant
            i <= fields.len(),
            rules == rules_of(fields@),
            names == words_said(scope@),
            groups_shown(groups@) == form_groups(rules.take(i as int), cfg@, names),
        decreases fields.len() - i,
    {
        let f = fields[i];
        let ghost next = rules.take(i + 1);
        assert(next.drop_last() =~= rules.take(i as int));
        assert(next.last() == f@);
        let complex = matches!(f.kind, FieldKind::Complex);
        let within = text::text_in(scope, f.group);
        proof {
            lemma_words(scope@, f.group@);
        }
        if !complex && within {
            let field = FieldView { key: f.key, label: f.label, input_html: render_input(&f, cfg) };
            add_field(&mut groups, f.group, field);
        }
        i += 1;
    }
    assert(rules.take(i as int) =~= rules);
    groups
}

proof fn lemma_words(words: Seq<&str>, s: Seq<char>)
    ensures
        words_said(words).contains(s) <==> exists|i: int|
            0 <= i < words.len() && (#[trigger] words[i])@ == s,
{
    let said = words_said(words);
    if said.contains(s) {
        let i = choose|i: int| 0 <= i < said.len() && said[i] == s;
        assert(words[i]@ == s);
    }
    if exists|i: int| 0 <= i < words.len() && (#[trigger] words[i])@ == s {
        let i = choose|i: int| 0 <= i < words.len() && (#[trigger] words[i])@ == s;
        assert(said[i] == s);
    }
}

// ---------------------------------------------------------------------------
// Notes for the page with everything
// ---------------------------------------------------------------------------

/// The keys that no form field can show, each as code.
pub open spec fn complex_keys(rules: Seq<FieldRule>) -> Seq<Seq<char>>
    decreases rules.len(),
{
    if rules.len() == 0 {
        Seq::empty()
    } else if rules.last().kind is Complex {
        complex_keys(rules.drop_last()).push(
            "<code>"@ + html::escaped(rules.last().key) + "</code>"@,
        )
    } else {
        complex_keys(rules.drop_last())
    }
}

/// The keys that no form field can show, as HTML.
pub fn complex_notes_html() -> (r: String)
    ensures
        r@ == text::joined(complex_keys(schema_rules()), ", "@),
{
    let fields = schema();
    let ghost rules = rules_of(fields@);
    let mut keys: Vec<String> = Vec::new();
    let mut i: usize = 0;
    assert(rules.take(0) =~= Seq::empty());
    assert(text::views(keys@) =~= Seq::empty());
    while i < fields.len()
        invariant
            i <= fields.len(),
            rules == rules_of(fields@),
            text::views(keys@) == complex_keys(rules.take(i as int)),
        decreases fields.len() - i,
    {
        let f = fields[i];
        let ghost next = rules.take(i + 1);
        assert(next.drop_last() =~= rules.take(i as int));
        assert(next.last() == f@);
        if matches!(f.kind, FieldKind::Complex) {
            let mut key = "<code>".to_owned();
            key.push_str(esc(f.key).as_str());
            key.push_str("</code>");
            proof {
                text::lemma_views_push(keys@, key);
            }
            keys.push(key);
        }
        i += 1;
    }
    assert(rules.take(i as int) =~= rules);
    text::join(&keys, ", ")
}

/// The entries of `cfg` for some keys, as far as it has them.
pub open spec fn entries_for(cfg: json::JsonView, keys: Seq<Seq<char>>) -> Seq<
    (Seq<char>, json::JsonView),
>
    decreases keys.len(),
{
    if keys.len() == 0 {
        Seq::empty()
    } else {
        match json::member(cfg, keys.last()) {
            Some(v) => json::put(entries_for(cfg, keys.drop_last()), keys.last(), v),
            None => entries_for(cfg, keys.drop_last()),
        }
    }
}

/// The entries of `cfg` that the daemon writes, as pretty JSON.
pub fn daemon_owned_json(cfg: &Json) -> (r: String)
    ensures
        r@ == json::pretty(
            json::JsonView::Object(entries_for(cfg@, words_said(DAEMON_OWNED_KEYS@))),
            0,
        ),
{
    let ghost keys = words_said(DAEMON_OWNED_KEYS@);
    let mut fields = Fields::new();
    let mut i: usize = 0;
    assert(keys.take(0) =~= Seq::empty());
    while i < 4
        invariant
            i <= 4,
            keys.len() == 4,
            keys == words_said(DAEMON_OWNED_KEYS@),
            fields@ == entries_for(cfg@, keys.take(i as int)),
        decreases 4 - i,
    {
        let key = DAEMON_OWNED_KEYS[i];
        let ghost next = keys.take(i + 1);
        assert(next.drop_last() =~= keys.take(i as int));
        assert(next.last() == key@);
        match cfg.get(key) {
            Some(v) => {
                fields = fields.put(key, v.copy());
            },
            None => {},
        }
        i += 1;
    }
    assert(keys.take(4) =~= keys);
    fields.object().to_pretty()
}

// ---------------------------------------------------------------------------
// The patch of a form
// ---------------------------------------------------------------------------

/// How the text of a form field reads as a floating-point number.
#[derive(Debug, Clone, PartialEq, Eq)]
pub enum FloatReading {
    /// It is no number.
    Unreadable,
    /// It is infinite or not a number, which JSON cannot hold.
    NotFinite,
    /// The number, as JSON spells it.
    Finite(String),
}

impl FloatReading {
    /// The number is spelled as one.
    pub open spec fn wf(self) -> bool {
        self matches FloatReading::Finite(n) ==> json::is_number_text(n@)
    }
}

/// What the pairs of a form say.
pub open spec fn pairs_said(pairs: Seq<(String, String)>) -> Seq<(Seq<char>, Seq<char>)> {
    Seq::new(pairs.len(), |i: int| (pairs[i].0@, pairs[i].1@))
}

/// Whether a setting of the schema belongs to the group `name`.
pub open spec fn is_group(rules: Seq<FieldRule>, name: Seq<char>) -> bool {
    exists|i: int| 0 <= i < rules.len() && (#[trigger] rules[i]).group == name
}

/// The groups that a form declares, or what is wrong with the first that is wrong:
/// it must be a group of the schema, and one that the form owns.
pub open spec fn declared(owned: Seq<Seq<char>>, pairs: Seq<(Seq<char>, Seq<char>)>) -> Result<
    Seq<Seq<char>>,
    Seq<char>,
>
    decreases pairs.len(),
{
    if pairs.len() == 0 {
        Ok(Seq::empty())
    } else {
        match declared(owned, pairs.drop_last()) {
            Err(e) => Err(e),
            Ok(groups) => {
                let (key, value) = pairs.last();
                let name = text::trimmed(value);
                if key != GROUP_FIELD@ {
                    Ok(groups)
                } else if !is_group(schema_rules(), name) {
                    Err(
                        "unknown settings group "@ + text::debugged(name)
                            + " — not a group in the settings schema"@,
                    )
                } else if !owned.contains(name) {
                    Err(
                        "settings group "@ + text::debugged(name)
                            + " is not owned by the form that was submitted"@,
                    )
                } else if groups.contains(name) {
                    Ok(groups)
                } else {
                    Ok(groups.push(name))
                }
            },
        }
    }
}

/// The place of the last pair with `key`, or -1.
pub open spec fn pair_at(pairs: Seq<(Seq<char>, Seq<char>)>, key: Seq<char>) -> int
    decreases pairs.len(),
{
    if pairs.len() == 0 {
        -1
    } else if pairs.last().0 == key {
        pairs.len() - 1
    } else {
        pair_at(pairs.drop_last(), key)
    }
}

/// The lines of a text that hold more than white space, without the white space
/// around them.
pub open spec fn full_lines(lines: Seq<Seq<char>>) -> Seq<json::JsonView>
    decreases lines.len(),
{
    if lines.len() == 0 {
        Seq::empty()
    } else if text::trimmed(lines.last()).len() == 0 {
        full_lines(lines.drop_last())
    } else {
        full_lines(lines.drop_last()).push(json::JsonView::Text(text::trimmed(lines.last())))
    }
}

/// A form as it was submitted: its pairs, and how each value reads as a
/// floating-point number.
pub struct FormView {
    pub pairs: Seq<(Seq<char>, Seq<char>)>,
    pub numbers: Seq<FloatReading>,
}

impl FormView {
    /// Every value has a reading as a number, in which a number is spelled as one.
    pub open spec fn wf(self) -> bool {
        &&& self.numbers.len() == self.pairs.len()
        &&& forall|i: int| 0 <= i < self.numbers.len() ==> (#[trigger] self.numbers[i]).wf()
    }
}

/// What a form makes of a setting: nothing, a value, or an error. A truth value is
/// always set, by whether its key was submitted; another setting is set only if
/// its key was submitted. Of two pairs with one key the last counts.
pub open spec fn field_patch(f: FieldRule, form: FormView) -> Result<
    Option<json::JsonView>,
    Seq<char>,
> {
    let at = pair_at(form.pairs, f.key);
    let value = form.pairs[at].1;
    match f.kind {
        KindRule::Complex => Ok(None),
        KindRule::Bool => Ok(Some(json::JsonView::Bool(at >= 0))),
        KindRule::Enum(allowed) => if at < 0 {
            Ok(None)
        } else if allowed.contains(value) {
            Ok(Some(json::JsonView::Text(value)))
        } else {
            Err(
                "invalid value for "@ + f.key + ": "@ + text::debugged(value) + " (allowed: "@
                    + text::joined(allowed, ", "@) + ")"@,
            )
        },
        KindRule::Int { min, max } => if at < 0 {
            Ok(None)
        } else {
            match text::parsed_int(text::trimmed(value)) {
                None => Err("invalid integer for "@ + f.key + ": "@ + text::debugged(value)),
                Some(n) => if min is Some && n < min->Some_0 {
                    Err(f.key + " must be >= "@ + text::int_text(min->Some_0 as int))
                } else if max is Some && n > max->Some_0 {
                    Err(f.key + " must be <= "@ + text::int_text(max->Some_0 as int))
                } else {
                    Ok(Some(json::whole(n)))
                },
            }
        },
        KindRule::Float => if at < 0 {
            Ok(None)
        } else {
            match form.numbers[at] {
                FloatReading::Unreadable => Err(
                    "invalid number for "@ + f.key + ": "@ + text::debugged(value),
                ),
                FloatReading::NotFinite => Err("invalid number for "@ + f.key),
                FloatReading::Finite(n) => Ok(Some(json::spelled(n@))),
            }
        },
        KindRule::Str => if at < 0 {
            Ok(None)
        } else {
            Ok(Some(json::JsonView::Text(value)))
        },
        KindRule::StrList => if at < 0 {
            Ok(None)
        } else {
            Ok(Some(json::JsonView::Array(full_lines(text::lines_of(value)))))
        },
    }
}

/// The entries that a form sets for some settings, or the first error. Settings
/// outside the declared groups are passed over.
pub open spec fn fields_patch(
    rules: Seq<FieldRule>,
    groups: Seq<Seq<char>>,
    form: FormView,
) -> Result<Seq<(Seq<char>, json::JsonView)>, Seq<char>>
    decreases rules.len(),
{
    if rules.len() == 0 {
        Ok(Seq::empty())
    } else {
        let f = rules.last();
        match fields_patch(rules.drop_last(), groups, form) {
            Err(e) => Err(e),
            Ok(entries) => if !groups.contains(f.group) {
                Ok(entries)
            } else {
                match field_patch(f, form) {
                    Err(e) => Err(e),
                    Ok(None) => Ok(entries),
                    Ok(Some(v)) => Ok(json::put(entries, f.key, v)),
                }
            },
        }
    }
}

/// What is said of a form that declares no group.
pub open spec fn no_group() -> Seq<char> {
    "no __group submitted — a settings form must declare the schema groups it owns; refusing to patch every group"@
}

/// The patch that a form makes, or what is wrong with it.
pub open spec fn form_patch(owned: Seq<Seq<char>>, form: FormView) -> Result<
    json::JsonView,
    Seq<char>,
> {
    match declared(owned, form.pairs) {
        Err(e) => Err(e),
        Ok(groups) => if groups.len() == 0 {
            Err(no_group())
        } else {
            match fields_patch(schema_rules(), groups, form) {
                Err(e) => Err(e),
                Ok(entries) => Ok(json::JsonView::Object(entries)),
            }
        },
    }
}

fn group_exists(fields: &Vec<SettingField>, name: &str) -> (r: bool)
    ensures
        r == is_group(rules_of(fields@), name@),
{
    let ghost rules = rules_of(fields@);
    let mut i: usize = 0;
    while i < fields.len()
        invariant
            i <= fields.len(),
            rules == rules_of(fields@),
            forall|k: int| 0 <= k < i ==> (#[trigger] rules[k]).group != name@,
        decreases fields.len() - i,
    {
        if text::same_text(fields[i].group, name) {
            assert(rules[i as int].group == name@);
            return true;
        }
        i += 1;
    }
    false
}

fn string_in(list: &Vec<String>, s: &str) -> (r: bool)
    ensures
        r == text::views(list@).contains(s@),
{
    let ghost all = text::views(list@);
    let mut i: usize = 0;
    while i < list.len()
        invariant
            i <= list.len(),
            all == text::views(list@),
            forall|k: int| 0 <= k < i ==> #[trigger] all[k] != s@,
        decreases list.len() - i,
    {
        if text::same_text(list[i].as_str(), s) {
            assert(all[i as int] == s@);
            return true;
        }
        i += 1;
    }
    false
}

/// The groups that a form declares, or what is wrong with the first that is wrong.
fn declared_groups(owned: &[&str], pairs: &[(String, String)]) -> (r: Result<Vec<String>, String>)
    ensures
        r is Ok <==> declared(words_said(owned@), pairs_said(pairs@)) is Ok,
        r is Ok ==> text::views(r->Ok_0@) == declared(words_said(owned@), pairs_said(pairs@))->Ok_0,
        r is Err ==> r->Err_0@ == declared(words_said(owned@), pairs_said(pairs@))->Err_0,
{
    let fields = schema();
    let ghost names = words_said(owned@);
    let ghost all = pairs_said(pairs@);
    let mut groups: Vec<String> = Vec::new();
    let mut i: usize = 0;
    assert(all.take(0) =~= Seq::empty());
    assert(text::views(groups@) =~= Seq::empty());
    while i < pairs.len()
        invariant
            i <= pairs.len(),
            names == words_said(owned@),
            all == pairs_said(pairs@),
            rules_of(fields@) == schema_rules(),
            declared(names, all.take(i as int)) == Ok::<Seq<Seq<char>>, Seq<char>>(
                text::views(groups@),
            ),
        decreases pairs.len() - i,
    {
        let ghost next = all.take(i + 1);
        assert(next.drop_last() =~= all.take(i as int));
        assert(next.last() == (pairs@[i as int].0@, pairs@[i as int].1@));
        if text::same_text(pairs[i].0.as_str(), GROUP_FIELD) {
            let name = text::trim(pairs[i].1.as_str());
            if !group_exists(&fields, name.as_str()) {
                let mut e = "unknown settings group ".to_owned();
                e.push_str(text::debug_text(name.as_str()).as_str());
                e.push_str(" — not a group in the settings schema");
                proof {
                    lemma_declared_error(names, all, i + 1);
                }
                return Err(e);
            }
            proof {
                lemma_words(owned@, name@);
            }
            if !text::text_in(owned, name.as_str()) {
                let mut e = "settings group ".to_owned();
                e.push_str(text::debug_text(name.as_str()).as_str());
                e.push_str(" is not owned by the form that was submitted");
                proof {
                    lemma_declared_error(names, all, i + 1);
                }
                return Err(e);
            }
            if !string_in(&groups, name.as_str()) {
                proof {
                    text::lemma_views_push(groups@, name);
                }
                groups.push(name);
            }
        }
        i += 1;
    }
    assert(all.take(i as int) =~= all);
    Ok(groups)
}

/// An error stays, whatever pairs follow.
proof fn lemma_declared_error(
    owned: Seq<Seq<char>>,
    pairs: Seq<(Seq<char>, Seq<char>)>,
    n: int,
)
    requires
        0 <= n <= pairs.len(),
        declared(owned, pairs.take(n)) is Err,
    ensures
        declared(owned, pairs) == declared(owned, pairs.take(n)),
    decreases pairs.len(),
{
    if n < pairs.len() {
        assert(pairs.drop_last().take(n) =~= pairs.take(n));
        lemma_declared_error(owned, pairs.drop_last(), n);
    } else {
        assert(pairs.take(n) =~= pairs);
    }
}

/// The groups that a form declares. It must declare one at least.
pub fn submitted_groups(owned: &[&str], pairs: &[(String, String)]) -> (r: Result<
    Vec<String>,
    String,
>)
    ensures
        match declared(words_said(owned@), pairs_said(pairs@)) {
            Err(e) => r matches Err(m) && m@ == e,
            Ok(groups) => if groups.len() == 0 {
                r matches Err(m) && m@ == no_group()
            } else {
                r matches Ok(g) && text::views(g@) == groups
            },
        },
{
    match declared_groups(owned, pairs) {
        Err(e) => Err(e),
        Ok(groups) => if groups.len() == 0 {
            Err(
                "no __group submitted — a settings form must declare the schema groups it owns; refusing to patch every group".to_owned(),
            )
        } else {
            Ok(groups)
        },
    }
}

fn last_pair(pairs: &[(String, String)], key: &str) -> (r: Option<usize>)
    ensures
        r is None <==> pair_at(pairs_said(pairs@), key@) < 0,
        r matches Some(i) ==> i == pair_at(pairs_said(pairs@), key@) && i < pairs@.len(),
{
    let ghost all = pairs_said(pairs@);
    let mut i: usize = pairs.len();
    assert(all.take(i as int) =~= all);
    while i > 0
        invariant
            i <= pairs.len(),
            all == pairs_said(pairs@),
            pair_at(all, key@) == pair_at(all.take(i as int), key@),
        decreases i,
    {
        assert(all.take(i as int).drop_last() =~= all.take(i - 1));
        assert(all.take(i as int).last() == all[i - 1]);
        if text::same_text(pairs[i - 1].0.as_str(), key) {
            return Some(i - 1);
        }
        i -= 1;
    }
    None
}

fn list_value(value: &str) -> (r: Json)
    ensures
        r@ == json::JsonView::Array(full_lines(text::lines_of(value@))),
{
    let lines = text::lines(value);
    let ghost all = text::views(lines@);
    let mut items: Vec<Json> = Vec::new();
    let mut i: usize = 0;
    assert(all.take(0) =~= Seq::empty());
    assert(json::items_said(items@) =~= Seq::empty());
    while i < lines.len()
        invariant
            i <= lines.len(),
            all == text::views(lines@),
            json::items_said(items@) == full_lines(all.take(i as int)),
        decreases lines.len() - i,
    {
        let ghost next = all.take(i + 1);
        assert(next.drop_last() =~= all.take(i as int));
        assert(next.last() == lines@[i as int]@);
        let line = text::trim(lines[i].as_str());
        if !line.as_str().is_empty() {
            let ghost before = items@;
            items.push(Json::Text(line));
            assert(json::items_said(items@) =~= json::items_said(before).push(
                json::JsonView::Text(text::trimmed(lines@[i as int]@)),
            ));
        }
        i += 1;
    }
    assert(all.take(i as int) =~= all);
    let r = Json::Array(items);
    proof {
        json::lemma_said(r);
    }
    r
}

fn words_joined(words: &[&str], sep: &str) -> (r: String)
    ensures
        r@ == text::joined(words_said(words@), sep@),
{
    let ghost all = words_said(words@);
    let mut parts: Vec<String> = Vec::new();
    let mut i: usize = 0;
    while i < words.len()
        invariant
            i <= words.len(),
            all == words_said(words@),
            parts@.len() == i,
            forall|k: int| 0 <= k < i ==> (#[trigger] parts@[k])@ == all[k],
        decreases words.len() - i,
    {
        parts.push(words[i].to_owned());
        i += 1;
    }
    assert(text::views(parts@) =~= all);
    text::join(&parts, sep)
}

/// What a form makes of a setting.
fn patch_field(f: &SettingField, pairs: &[(String, String)], numbers: &[FloatReading]) -> (r: Result<
    Option<Json>,
    String,
>)
    requires
        numbers@.len() == pairs@.len(),
    ensures
        match field_patch(
            f@,
            (FormView { pairs: pairs_said(pairs@), numbers: numbers@ }),
        ) {
            Err(e) => r matches Err(m) && m@ == e,
            Ok(None) => r matches Ok(v) && v is None,
            Ok(Some(j)) => r matches Ok(v) && v is Some && v->Some_0@ == j,
        },
{
    let at = last_pair(pairs, f.key);
    match f.kind {
        FieldKind::Complex => Ok(None),
        FieldKind::Bool => Ok(Some(Json::Bool(at.is_some()))),
        FieldKind::Enum(allowed) => match at {
            None => Ok(None),
            Some(i) => {
                let value = pairs[i].1.as_str();
                proof {
                    lemma_words(allowed@, value@);
                }
                if text::text_in(allowed, value) {
                    Ok(Some(json::text_json(value)))
                } else {
                    let mut e = "invalid value for ".to_owned();
                    e.push_str(f.key);
                    e.push_str(": ");
                    e.push_str(text::debug_text(value).as_str());
                    e.push_str(" (allowed: ");
                    e.push_str(words_joined(allowed, ", ").as_str());
                    e.push_str(")");
                    Err(e)
                }
            },
        },
        FieldKind::Int { min, max } => match at {
            None => Ok(None),
            Some(i) => {
                let value = pairs[i].1.as_str();
                match text::parse_int(text::trim(value).as_str()) {
                    None => {
                        let mut e = "invalid integer for ".to_owned();
                        e.push_str(f.key);
                        e.push_str(": ");
                        e.push_str(text::debug_text(value).as_str());
                        Err(e)
                    },
                    Some(n) => {
                        if let Some(least) = min {
                            if n < least {
                                let mut e = f.key.to_owned();
                                e.push_str(" must be >= ");
                                e.push_str(text::signed_decimal(least).as_str());
                                return Err(e);
                            }
                        }
                        if let Some(most) = max {
                            if n > most {
                                let mut e = f.key.to_owned();
                                e.push_str(" must be <= ");
                                e.push_str(text::signed_decimal(most).as_str());
                                return Err(e);
                            }
                        }
                        Ok(Some(signed_json(n)))
                    },
                }
            },
        },
        FieldKind::Float => match at {
            None => Ok(None),
            Some(i) => match &numbers[i] {
                FloatReading::Unreadable => {
                    let mut e = "invalid number for ".to_owned();
                    e.push_str(f.key);
                    e.push_str(": ");
                    e.push_str(text::debug_text(pairs[i].1.as_str()).as_str());
                    Err(e)
                },
                FloatReading::NotFinite => {
                    let mut e = "invalid number for ".to_owned();
                    e.push_str(f.key);
                    Err(e)
                },
                FloatReading::Finite(n) => Ok(Some(float_json(n.as_str()))),
            },
        },
        FieldKind::Str => match at {
            None => Ok(None),
            Some(i) => Ok(Some(json::text_json(pairs[i].1.as_str()))),
        },
        FieldKind::StrList => match at {
            None => Ok(None),
            Some(i) => Ok(Some(list_value(pairs[i].1.as_str()))),
        },
    }
}

/// An error stays, whatever settings follow.
proof fn lemma_fields_error(
    rules: Seq<FieldRule>,
    groups: Seq<Seq<char>>,
    form: FormView,
    n: int,
)
    requires
        0 <= n <= rules.len(),
        fields_patch(rules.take(n), groups, form) is Err,
    ensures
        fields_patch(rules, groups, form) == fields_patch(rules.take(n), groups, form),
    decreases rules.len(),
{
    if n < rules.len() {
        assert(rules.drop_last().take(n) =~= rules.take(n));
        lemma_fields_error(rules.drop_last(), groups, form, n);
    } else {
        assert(rules.take(n) =~= rules);
    }
}

/// The patch that a form makes, or what is wrong with it. `owned` are the groups
/// that the form may declare; `numbers` says of each value how it reads as a
/// floating-point number once the white space around it is dropped.
pub fn build_patch(owned: &[&str], pairs: &[(String, String)], numbers: &[FloatReading]) -> (r:
    Result<Json, String>)
    requires
        numbers@.len() == pairs@.len(),
    ensures
        match form_patch(
            words_said(owned@),
            (FormView { pairs: pairs_said(pairs@), numbers: numbers@ }),
        ) {
            Err(e) => r matches Err(m) && m@ == e,
            Ok(v) => r matches Ok(j) && j@ == v,
        },
{
    let ghost form = FormView { pairs: pairs_said(pairs@), numbers: numbers@ };
    let groups = match submitted_groups(owned, pairs) {
        Ok(g) => g,
        Err(e) => {
            return Err(e);
        },
    };
    let ghost names = text::views(groups@);
    let fields = schema();
    let ghost rules = rules_of(fields@);
    let mut entries = Fields::new();
    let mut i: usize = 0;
    assert(rules.take(0) =~= Seq::empty());
    while i < fields.len()
        invariant
            i <= fields.len(),
            rules == rules_of(fields@),
            rules == schema_rules(),
            names == text::views(groups@),
            numbers@.len() == pairs@.len(),
            form == (FormView { pairs: pairs_said(pairs@), numbers: numbers@ }),
            declared(words_said(owned@), form.pairs) == Ok::<Seq<Seq<char>>, Seq<char>>(names),
            names.len() > 0,
            fields_patch(rules.take(i as int), names, form) == Ok::<
                Seq<(Seq<char>, json::JsonView)>,
                Seq<char>,
            >(entries@),
        decreases fields.len() - i,
    {
        let f = fields[i];
        let ghost next = rules.take(i + 1);
        assert(next.drop_last() =~= rules.take(i as int));
        assert(next.last() == f@);
        if string_in(&groups, f.group) {
            match patch_field(&f, pairs, numbers) {
                Err(e) => {
                    proof {
                        lemma_fields_error(rules, names, form, i + 1);
                    }
                    return Err(e);
                },
                Ok(None) => {},
                Ok(Some(v)) => {
                    entries = entries.put(f.key, v);
                },
            }
        }
        i += 1;
    }
    assert(rules.take(i as int) =~= rules);
    Ok(entries.object())
}

// ---------------------------------------------------------------------------
// Saving
// ---------------------------------------------------------------------------

/// What is said after a form was submitted.
#[derive(Debug, Clone, PartialEq, Eq)]
pub struct SettingsResult {
    pub ok: bool,
    pub message: String,
}

/// What is said after a form was submitted.
pub fn result_html(ok: bool, message: &str) -> (r: SettingsResult)
    ensures
        r.ok == ok,
        r.message@ == message@,
{
    SettingsResult { ok, message: message.to_owned() }
}

fn save_failed(error: &str) -> (r: SettingsResult)
    ensures
        !r.ok,
        r.message@ == "Save failed: "@ + error@,
{
    let mut message = "Save failed: ".to_owned();
    message.push_str(error);
    SettingsResult { ok: false, message }
}

/// The line that hands the daemon a patch of the settings.
pub fn config_line(patch: &Json) -> (r: String)
    ensures
        r@ == "set-config "@ + json::compact(patch@),
{
    let mut line = "set-config ".to_owned();
    line.push_str(patch.to_compact().as_str());
    line
}

/// What is said once the daemon was handed the patch of a form; `sent` is the
/// error with which it refused.
pub fn saved(sent: Result<(), String>) -> (r: SettingsResult)
    ensures
        match sent {
            Ok(_) => r.ok && r.message@ == "Settings saved."@,
            Err(e) => !r.ok && r.message@ == "Save failed: "@ + e@,
        },
{
    match sent {
        Ok(_) => result_html(true, "Settings saved."),
        Err(e) => save_failed(e.as_str()),
    }
}

/// What is said of raw JSON that was read as `read`: the object to be handed to
/// the daemon, or why there is none.
pub fn checked_raw(read: Result<Json, String>) -> (r: Result<Json, SettingsResult>)
    ensures
        match read {
            Ok(v) => if v@ is Object {
                r == Ok::<Json, SettingsResult>(v)
            } else {
                r matches Err(s) && !s.ok && s.message@
                    == "Invalid: raw JSON must be an object, e.g. {\"key\":value} — not an array or scalar."@
            },
            Err(e) => r matches Err(s) && !s.ok && s.message@ == "Invalid JSON: "@ + e@,
        },
{
    match read {
        Ok(v) => {
            proof {
                json::lemma_said(v);
            }
            if matches!(v, Json::Object(_)) {
                Ok(v)
            } else {
                Err(
                    result_html(
                        false,
                        "Invalid: raw JSON must be an object, e.g. {\"key\":value} — not an array or scalar.",
                    ),
                )
            }
        },
        Err(e) => {
            let mut message = "Invalid JSON: ".to_owned();
            message.push_str(e.as_str());
            Err(SettingsResult { ok: false, message })
        },
    }
}

/// Reads raw JSON that is to be merged into the settings: an object, or what is
/// said instead.
pub fn read_raw(raw: &str) -> (r: Result<Json, SettingsResult>)
    ensures
        match json::json_read(raw@) {
            Ok(v) => if v is Object {
                r matches Ok(j) && j@ == v
            } else {
                r matches Err(s) && !s.ok && s.message@
                    == "Invalid: raw JSON must be an object, e.g. {\"key\":value} — not an array or scalar."@
            },
            Err(e) => r matches Err(s) && !s.ok && s.message@ == "Invalid JSON: "@ + e,
        },
        r is Ok ==> json::well_spelled(r->Ok_0@),
        forall|v: json::JsonView|
            json::plain(v, json::DEPTH as nat) && v is Object && #[trigger] json::spells(raw@, v)
                ==> r is Ok && json::alike(r->Ok_0@, v),
{
    checked_raw(json::parse_json(raw))
}

/// What is said once the daemon was handed raw JSON.
pub fn raw_saved(sent: Result<(), String>) -> (r: SettingsResult)
    ensures
        match sent {
            Ok(_) => r.ok && r.message@ == "Raw JSON merged into settings.json."@,
            Err(e) => !r.ok && r.message@ == "Save failed: "@ + e@,
        },
{
    match sent {
        Ok(_) => result_html(true, "Raw JSON merged into settings.json."),
        Err(e) => save_failed(e.as_str()),
    }
}

// ---------------------------------------------------------------------------
// The pages that save settings
// ---------------------------------------------------------------------------

/// A page with a form of settings.
#[derive(Debug, Clone, Copy, PartialEq, Eq, Structural)]
pub enum SettingsPage {
    Appearance,
    Apps,
    /// What comes out of the box: picture, sound and when they stop.
    DisplayAudio,
}

/// The groups of settings that the form of a page owns.
pub open spec fn owned_by(page: SettingsPage) -> Seq<Seq<char>> {
    match page {
        SettingsPage::Appearance => seq!["Appearance"@],
        SettingsPage::Apps => seq!["Apps"@],
        SettingsPage::DisplayAudio => seq!["Display"@, "Night Light"@, "Power"@, "Audio"@],
    }
}

impl SettingsPage {
    /// The groups of settings that the form of the page owns.
    pub fn owned(self) -> (r: Vec<&'static str>)
        ensures
            words_said(r@) == owned_by(self),
    {
        let r: Vec<&'static str> = match self {
            SettingsPage::Appearance => vec!["Appearance"],
            SettingsPage::Apps => vec!["Apps"],
            SettingsPage::DisplayAudio => vec!["Display", "Night Light", "Power", "Audio"],
        };
        assert(words_said(r@) =~= owned_by(self));
        r
    }

    /// The form of the page: its groups with their fields.
    pub fn groups(self, cfg: &Json) -> (r: Vec<GroupView>)
        ensures
            groups_shown(r@) == form_groups(schema_rules(), cfg@, owned_by(self)),
    {
        build_groups(cfg, self.owned().as_slice())
    }

    /// The patch that a form of the page makes, or what is wrong with it.
    pub fn patch(self, pairs: &[(String, String)], numbers: &[FloatReading]) -> (r: Result<
        Json,
        String,
    >)
        requires
            numbers@.len() == pairs@.len(),
        ensures
            match form_patch(
                owned_by(self),
                (FormView { pairs: pairs_said(pairs@), numbers: numbers@ }),
            ) {
                Err(e) => r matches Err(m) && m@ == e,
                Ok(v) => r matches Ok(j) && j@ == v,
            },
    {
        build_patch(self.owned().as_slice(), pairs, numbers)
    }
}

// ---------------------------------------------------------------------------
// Laws
// ---------------------------------------------------------------------------

/// The groups that a form declares are groups that it owns.
pub proof fn law_declared_are_owned(
    owned: Seq<Seq<char>>,
    pairs: Seq<(Seq<char>, Seq<char>)>,
    name: Seq<char>,
)
    requires
        declared(owned, pairs) is Ok,
        declared(owned, pairs)->Ok_0.contains(name),
    ensures
        owned.contains(name),
        is_group(schema_rules(), name),
    decreases pairs.len(),
{
    if pairs.len() > 0 {
        let before = declared(owned, pairs.drop_last())->Ok_0;
        if before.contains(name) {
            law_declared_are_owned(owned, pairs.drop_last(), name);
        } else {
            let groups = declared(owned, pairs)->Ok_0;
            let i = choose|i: int| 0 <= i < groups.len() && groups[i] == name;
            if i < before.len() {
                assert(before.contains(groups[i]));
            }
        }
    }
}

/// A form that declares no group changes nothing.
pub proof fn law_no_group_no_patch(owned: Seq<Seq<char>>, form: FormView)
    requires
        forall|i: int| 0 <= i < form.pairs.len() ==> (#[trigger] form.pairs[i]).0 != GROUP_FIELD@,
    ensures
        form_patch(owned, form) == Err::<json::JsonView, Seq<char>>(no_group()),
{
    lemma_undeclared(owned, form.pairs);
}

proof fn lemma_undeclared(owned: Seq<Seq<char>>, pairs: Seq<(Seq<char>, Seq<char>)>)
    requires
        forall|i: int| 0 <= i < pairs.len() ==> (#[trigger] pairs[i]).0 != GROUP_FIELD@,
    ensures
        declared(owned, pairs) == Ok::<Seq<Seq<char>>, Seq<char>>(Seq::empty()),
    decreases pairs.len(),
{
    if pairs.len() > 0 {
        lemma_undeclared(owned, pairs.drop_last());
    }
}

/// Whether a setting with this key is among the rules, in one of the groups, and
/// can be shown in a form.
pub open spec fn patchable(rules: Seq<FieldRule>, groups: Seq<Seq<char>>, key: Seq<char>) -> bool {
    exists|i: int|
        0 <= i < rules.len() && (#[trigger] rules[i]).key == key && groups.contains(rules[i].group)
            && !(rules[i].kind is Complex)
}

proof fn lemma_patch_scope(rules: Seq<FieldRule>, groups: Seq<Seq<char>>, form: FormView, i: int)
    requires
        fields_patch(rules, groups, form) is Ok,
    ensures
        json::in_order(fields_patch(rules, groups, form)->Ok_0),
        0 <= i < fields_patch(rules, groups, form)->Ok_0.len() ==> patchable(
            rules,
            groups,
            fields_patch(rules, groups, form)->Ok_0[i].0,
        ),
    decreases rules.len(),
{
    if rules.len() > 0 {
        let f = rules.last();
        let before = fields_patch(rules.drop_last(), groups, form)->Ok_0;
        lemma_patch_scope(rules.drop_last(), groups, form, i);
        let all = fields_patch(rules, groups, form)->Ok_0;
        if groups.contains(f.group) && field_patch(f, form)->Ok_0 is Some {
            let v = field_patch(f, form)->Ok_0->Some_0;
            json::lemma_put(before, f.key, v, f.key);
            assert(all == json::put(before, f.key, v));
            if 0 <= i < all.len() {
                if all[i] == (f.key, v) {
                    assert(rules[rules.len() - 1] == f);
                } else {
                    let k = choose|k: int| 0 <= k < before.len() && before[k] == all[i];
                    lemma_patch_scope(rules.drop_last(), groups, form, k);
                    let j = choose|j: int|
                        0 <= j < rules.drop_last().len() && (#[trigger] rules.drop_last()[j]).key
                            == before[k].0 && groups.contains(rules.drop_last()[j].group) && !(
                        rules.drop_last()[j].kind is Complex);
                    assert(rules[j] == rules.drop_last()[j]);
                }
            }
        } else {
            assert(all == before);
            if 0 <= i < all.len() {
                let j = choose|j: int|
                    0 <= j < rules.drop_last().len() && (#[trigger] rules.drop_last()[j]).key
                        == before[i].0 && groups.contains(rules.drop_last()[j].group) && !(
                    rules.drop_last()[j].kind is Complex);
                assert(rules[j] == rules.drop_last()[j]);
            }
        }
    }
}

/// A patch touches only settings of groups that the form declared, which it owns,
/// and none that a form field cannot show. Its keys stand in order, each once.
pub proof fn law_patch_stays_in_scope(owned: Seq<Seq<char>>, form: FormView, i: int)
    requires
        form_patch(owned, form) is Ok,
        0 <= i < form_patch(owned, form)->Ok_0->Object_0.len(),
    ensures
        json::in_order(form_patch(owned, form)->Ok_0->Object_0),
        patchable(
            schema_rules(),
            declared(owned, form.pairs)->Ok_0,
            form_patch(owned, form)->Ok_0->Object_0[i].0,
        ),
        patchable(schema_rules(), owned, form_patch(owned, form)->Ok_0->Object_0[i].0),
{
    let groups = declared(owned, form.pairs)->Ok_0;
    let key = form_patch(owned, form)->Ok_0->Object_0[i].0;
    lemma_patch_scope(schema_rules(), groups, form, i);
    let rules = schema_rules();
    let j = choose|j: int|
        0 <= j < rules.len() && (#[trigger] rules[j]).key == key && groups.contains(rules[j].group)
            && !(rules[j].kind is Complex);
    law_declared_are_owned(owned, form.pairs, rules[j].group);
    assert(patchable(rules, owned, key));
}

/// No two settings of the schema have one key, and none has a key that the daemon
/// writes or that declares a group.
pub proof fn law_schema_keys(i: int, j: int)
    requires
        0 <= i < j < schema_rules().len(),
    ensures
        schema_rules()[i].key != schema_rules()[j].key,
        schema_rules()[i].key != GROUP_FIELD@,
        schema_rules()[j].key != GROUP_FIELD@,
        !words_said(DAEMON_OWNED_KEYS@).contains(schema_rules()[i].key),
        !words_said(DAEMON_OWNED_KEYS@).contains(schema_rules()[j].key),
{
    lemma_schema_keys(i);
    lemma_schema_keys(j);
}

/// A place in the schema that the spelling of a key gives away.
spec fn place_of(key: Seq<char>) -> int {
    if key.len() == 9 && key[0] == 't' && key[3] == 'm' && key[4] == 'e' {
        0
    } else if key.len() == 18 && key[0] == 'a' && key[3] == 'o' && key[4] == 'T' {
        1
    } else if key.len() == 19 && key[0] == 'a' && key[3] == 'o' && key[4] == 'T' {
        2
    } else if key.len() == 12 && key[0] == 'r' && key[3] == 'u' && key[4] == 'c' {
        3
    } else if key.len() == 9 && key[0] == 't' && key[3] == 't' && key[4] == 'S' {
        4
    } else if key.len() == 15 && key[0] == 'c' && key[3] == 't' && key[4] == 'r' {
        5
    } else if key.len() == 13 && key[0] == 'r' && key[3] == 'b' && key[4] == 'l' {
        6
    } else if key.len() == 7 && key[0] == 'w' && key[3] == 'g' && key[4] == 'e' {
        7
    } else if key.len() == 10 && key[0] == 'h' && key[3] == 'E' && key[4] == 'n' {
        8
    } else if key.len() == 8 && key[0] == 'o' && key[3] == 'r' && key[4] == 's' {
        9
    } else if key.len() == 14 && key[0] == 'a' && key[3] == 'o' && key[4] == 'D' {
        10
    } else if key.len() == 19 && key[0] == 'a' && key[3] == 'o' && key[4] == 'D' {
        11
    } else if key.len() == 13 && key[0] == 'w' && key[3] == 'l' && key[4] == 'p' {
        12
    } else if key.len() == 17 && key[0] == 'n' && key[3] == 'h' && key[4] == 't' {
        13
    } else if key.len() == 14 && key[0] == 'n' && key[3] == 'h' && key[4] == 't' {
        14
    } else if key.len() == 17 && key[0] == 's' && key[3] == 'e' && key[4] == 'p' {
        15
    } else if key.len() == 16 && key[0] == 'w' && key[3] == 'e' && key[4] == 'O' {
        16
    } else if key.len() == 11 && key[0] == 'd' && key[3] == 'a' && key[4] == 'u' {
        17
    } else if key.len() == 16 && key[0] == 'a' && key[3] == 'i' && key[4] == 'o' {
        18
    } else if key.len() == 17 && key[0] == 'c' && key[3] == 'F' && key[4] == 'o' {
        19
    } else if key.len() == 14 && key[0] == 'c' && key[3] == 'F' && key[4] == 'o' {
        20
    } else if key.len() == 22 && key[0] == 'c' && key[3] == 'A' && key[4] == 'u' {
        21
    } else if key.len() == 15 && key[0] == 'c' && key[3] == 'D' && key[4] == 'e' {
        22
    } else if key.len() == 14 && key[0] == 'c' && key[3] == 'D' && key[4] == 'e' {
        23
    } else if key.len() == 11 && key[0] == 'p' && key[3] == 'w' && key[4] == 'a' {
        24
    } else {
        -1
    }
}

proof fn lemma_schema_keys(i: int)
    requires
        0 <= i < schema_rules().len(),
    ensures
        place_of(schema_rules()[i].key) == i,
        place_of(GROUP_FIELD@) == -1,
        forall|k: int| 0 <= k < 4 ==> place_of(#[trigger] words_said(DAEMON_OWNED_KEYS@)[k]) == -1,
        words_said(DAEMON_OWNED_KEYS@).len() == 4,
{
    reveal(schema_rules);
    reveal_strlit("__group");
    reveal_strlit("keyBindings");
    reveal_strlit("perGameBindings");
    reveal_strlit("perPlayerBindings");
    reveal_strlit("webApps");
    let rules = schema_rules();
    let owned = words_said(DAEMON_OWNED_KEYS@);
    assert(owned[0] == "keyBindings"@);
    assert(place_of(owned[0]) == -1);
    assert(owned[1] == "perGameBindings"@);
    assert(place_of(owned[1]) == -1);
    assert(owned[2] == "perPlayerBindings"@);
    assert(place_of(owned[2]) == -1);
    assert(owned[3] == "webApps"@);
    assert(place_of(owned[3]) == -1);
    if i == 0 {
        reveal_strlit("themeMode");
        assert(rules[0].key == "themeMode"@);
    } else if i == 1 {
        reveal_strlit("autoThemeDarkStart");
        assert(rules[1].key == "autoThemeDarkStart"@);
    } else if i == 2 {
        reveal_strlit("autoThemeLightStart");
        assert(rules[2].key == "autoThemeLightStart"@);
    } else if i == 3 {
        reveal_strlit("reduceMotion");
        assert(rules[3].key == "reduceMotion"@);
    } else if i == 4 {
        reveal_strlit("textScale");
        assert(rules[4].key == "textScale"@);
    } else if i == 5 {
        reveal_strlit("controllerDebug");
        assert(rules[5].key == "controllerDebug"@);
    } else if i == 6 {
        reveal_strlit("rumbleEnabled");
        assert(rules[6].key == "rumbleEnabled"@);
    } else if i == 7 {
        reveal_strlit("widgets");
        assert(rules[7].key == "widgets"@);
    } else if i == 8 {
        reveal_strlit("hdrEnabled");
        assert(rules[8].key == "hdrEnabled"@);
    } else if i == 9 {
        reveal_strlit("overscan");
        assert(rules[9].key == "overscan"@);
    } else if i == 10 {
        reveal_strlit("autoDimEnabled");
        assert(rules[10].key == "autoDimEnabled"@);
    } else if i == 11 {
        reveal_strlit("autoDimDelayMinutes");
        assert(rules[11].key == "autoDimDelayMinutes"@);
    } else if i == 12 {
        reveal_strlit("wallpaperPath");
        assert(rules[12].key == "wallpaperPath"@);
    } else if i == 13 {
        reveal_strlit("nightLightEnabled");
        assert(rules[13].key == "nightLightEnabled"@);
    } else if i == 14 {
        reveal_strlit("nightLightTemp");
        assert(rules[14].key == "nightLightTemp"@);
    } else if i == 15 {
        reveal_strlit("sleepTimerMinutes");
        assert(rules[15].key == "sleepTimerMinutes"@);
    } else if i == 16 {
        reveal_strlit("wakeOnController");
        assert(rules[16].key == "wakeOnController"@);
    } else if i == 17 {
        reveal_strlit("defaultSink");
        assert(rules[17].key == "defaultSink"@);
    } else if i == 18 {
        reveal_strlit("audioCardProfile");
        assert(rules[18].key == "audioCardProfile"@);
    } else if i == 19 {
        reveal_strlit("cecFocusOnStartup");
        assert(rules[19].key == "cecFocusOnStartup"@);
    } else if i == 20 {
        reveal_strlit("cecFocusOnWake");
        assert(rules[20].key == "cecFocusOnWake"@);
    } else if i == 21 {
        reveal_strlit("cecAutoSwitchOnPowerOn");
        assert(rules[21].key == "cecAutoSwitchOnPowerOn"@);
    } else if i == 22 {
        reveal_strlit("cecDefaultInput");
        assert(rules[22].key == "cecDefaultInput"@);
    } else if i == 23 {
        reveal_strlit("cecDeviceNames");
        assert(rules[23].key == "cecDeviceNames"@);
    } else if i == 24 {
        reveal_strlit("prewarmApps");
        assert(rules[24].key == "prewarmApps"@);
    }
}

/// A patch never holds a key that the daemon writes.
pub proof fn law_daemon_keys_are_not_patched(owned: Seq<Seq<char>>, form: FormView, i: int)
    requires
        form_patch(owned, form) is Ok,
        0 <= i < form_patch(owned, form)->Ok_0->Object_0.len(),
    ensures
        !words_said(DAEMON_OWNED_KEYS@).contains(form_patch(owned, form)->Ok_0->Object_0[i].0),
{
    law_patch_stays_in_scope(owned, form, i);
    let key = form_patch(owned, form)->Ok_0->Object_0[i].0;
    let rules = schema_rules();
    let j = choose|j: int|
        0 <= j < rules.len() && (#[trigger] rules[j]).key == key && owned.contains(rules[j].group)
            && !(rules[j].kind is Complex);
    lemma_schema_keys(j);
}

/// Whether no two of the settings have one key.
spec fn distinct_keys(rules: Seq<FieldRule>) -> bool {
    forall|i: int, j: int|
        0 <= i < j < rules.len() ==> (#[trigger] rules[i]).key != (#[trigger] rules[j]).key
}

proof fn lemma_patch_value(rules: Seq<FieldRule>, groups: Seq<Seq<char>>, form: FormView, i: int)
    requires
        fields_patch(rules, groups, form) is Ok,
        distinct_keys(rules),
        0 <= i < rules.len(),
    ensures
        json::member(
            json::JsonView::Object(fields_patch(rules, groups, form)->Ok_0),
            rules[i].key,
        ) == (if groups.contains(rules[i].group) {
            field_patch(rules[i], form)->Ok_0
        } else {
            None
        }),
        groups.contains(rules[i].group) ==> field_patch(rules[i], form) is Ok,
    decreases rules.len(),
{
    let f = rules.last();
    let rest = rules.drop_last();
    let before = fields_patch(rest, groups, form)->Ok_0;
    let key = rules[i].key;
    assert(distinct_keys(rest)) by {
        assert forall|a: int, b: int| 0 <= a < b < rest.len() implies (#[trigger] rest[a]).key != (
        #[trigger] rest[b]).key by {
            assert(rest[a] == rules[a] && rest[b] == rules[b]);
        }
    }
    if rest.len() > 0 {
        lemma_patch_scope(rest, groups, form, 0);
    }
    if i < rules.len() - 1 {
        lemma_patch_value(rest, groups, form, i);
        assert(rest[i] == rules[i]);
        assert(rules[i].key != rules[rules.len() - 1].key);
    } else {
        lemma_absent(rest, groups, form, key);
    }
    if groups.contains(f.group) && field_patch(f, form)->Ok_0 is Some {
        json::lemma_put(before, f.key, field_patch(f, form)->Ok_0->Some_0, key);
    }
}

proof fn lemma_absent(rules: Seq<FieldRule>, groups: Seq<Seq<char>>, form: FormView, key: Seq<char>)
    requires
        fields_patch(rules, groups, form) is Ok,
        forall|i: int| 0 <= i < rules.len() ==> (#[trigger] rules[i]).key != key,
    ensures
        json::in_order(fields_patch(rules, groups, form)->Ok_0),
        json::member(json::JsonView::Object(fields_patch(rules, groups, form)->Ok_0), key) is None,
    decreases rules.len(),
{
    if rules.len() > 0 {
        let f = rules.last();
        let rest = rules.drop_last();
        assert forall|i: int| 0 <= i < rest.len() implies (#[trigger] rest[i]).key != key by {
            assert(rest[i] == rules[i]);
        }
        lemma_absent(rest, groups, form, key);
        assert(rules[rules.len() - 1].key != key);
        if groups.contains(f.group) && field_patch(f, form)->Ok_0 is Some {
            json::lemma_put(
                fields_patch(rest, groups, form)->Ok_0,
                f.key,
                field_patch(f, form)->Ok_0->Some_0,
                key,
            );
        }
    }
}

/// A patch says of every setting what the form says of it, if the form declared
/// its group, and nothing otherwise. In particular every truth value of a declared
/// group is set, to false if it was not submitted, and the settings of other
/// groups stay as they are.
pub proof fn law_patch_says_what_the_form_says(owned: Seq<Seq<char>>, form: FormView, i: int)
    requires
        form_patch(owned, form) is Ok,
        0 <= i < schema_rules().len(),
    ensures
        json::member(form_patch(owned, form)->Ok_0, schema_rules()[i].key) == (if declared(
            owned,
            form.pairs,
        )->Ok_0.contains(schema_rules()[i].group) {
            field_patch(schema_rules()[i], form)->Ok_0
        } else {
            None
        }),
        schema_rules()[i].kind is Bool && declared(owned, form.pairs)->Ok_0.contains(
            schema_rules()[i].group,
        ) ==> json::member(form_patch(owned, form)->Ok_0, schema_rules()[i].key) == Some(
            json::JsonView::Bool(pair_at(form.pairs, schema_rules()[i].key) >= 0),
        ),
{
    let rules = schema_rules();
    assert forall|a: int, b: int| 0 <= a < b < rules.len() implies (#[trigger] rules[a]).key != (
    #[trigger] rules[b]).key by {
        lemma_schema_keys(a);
        lemma_schema_keys(b);
    }
    lemma_patch_value(rules, declared(owned, form.pairs)->Ok_0, form, i);
}

proof fn lemma_pair_at(pairs: Seq<(Seq<char>, Seq<char>)>, key: Seq<char>)
    ensures
        -1 <= pair_at(pairs, key) < pairs.len(),
    decreases pairs.len(),
{
    if pairs.len() > 0 {
        lemma_pair_at(pairs.drop_last(), key);
    }
}

proof fn lemma_full_lines_spelled(lines: Seq<Seq<char>>)
    ensures
        forall|i: int|
            0 <= i < full_lines(lines).len() ==> json::well_spelled(#[trigger] full_lines(lines)[i]),
    decreases lines.len(),
{
    if lines.len() > 0 {
        let front = full_lines(lines.drop_last());
        lemma_full_lines_spelled(lines.drop_last());
        assert forall|i: int| 0 <= i < full_lines(lines).len() implies json::well_spelled(
            #[trigger] full_lines(lines)[i],
        ) by {
            if i < front.len() {
                assert(full_lines(lines)[i] == front[i]);
            }
        }
    }
}

proof fn lemma_field_spelled(f: FieldRule, form: FormView)
    requires
        form.wf(),
        field_patch(f, form) is Ok,
        field_patch(f, form)->Ok_0 is Some,
    ensures
        json::well_spelled(field_patch(f, form)->Ok_0->Some_0),
{
    let at = pair_at(form.pairs, f.key);
    let value = form.pairs[at].1;
    lemma_pair_at(form.pairs, f.key);
    match f.kind {
        KindRule::Int { .. } => {
            json::lemma_whole_spelled(text::parsed_int(text::trimmed(value))->Some_0);
        },
        KindRule::Float => {
            assert(form.numbers[at].wf());
        },
        KindRule::StrList => {
            lemma_full_lines_spelled(text::lines_of(value));
        },
        _ => {},
    }
}

proof fn lemma_patch_spelled(rules: Seq<FieldRule>, groups: Seq<Seq<char>>, form: FormView)
    requires
        form.wf(),
        fields_patch(rules, groups, form) is Ok,
    ensures
        forall|i: int|
            0 <= i < fields_patch(rules, groups, form)->Ok_0.len() ==> json::well_spelled(
                (#[trigger] fields_patch(rules, groups, form)->Ok_0[i]).1,
            ),
    decreases rules.len(),
{
    if rules.len() > 0 {
        let f = rules.last();
        let before = fields_patch(rules.drop_last(), groups, form)->Ok_0;
        lemma_patch_spelled(rules.drop_last(), groups, form);
        let all = fields_patch(rules, groups, form)->Ok_0;
        if groups.contains(f.group) && field_patch(f, form)->Ok_0 is Some {
            let v = field_patch(f, form)->Ok_0->Some_0;
            lemma_field_spelled(f, form);
            lemma_patch_scope(rules.drop_last(), groups, form, 0);
            json::lemma_put(before, f.key, v, f.key);
            assert forall|i: int| 0 <= i < all.len() implies json::well_spelled(
                (#[trigger] all[i]).1,
            ) by {
                if all[i] != (f.key, v) {
                    let k = choose|k: int| 0 <= k < before.len() && before[k] == all[i];
                    assert(json::well_spelled(before[k].1));
                }
            }
        }
    }
}

/// What a form makes is handed to the daemon in one line, whatever was submitted.
pub proof fn law_patch_is_one_line(owned: Seq<Seq<char>>, form: FormView)
    requires
        form.wf(),
        form_patch(owned, form) is Ok,
    ensures
        json::well_spelled(form_patch(owned, form)->Ok_0),
        !("set-config "@ + json::compact(form_patch(owned, form)->Ok_0)).contains('\n'),
{
    lemma_patch_spelled(schema_rules(), declared(owned, form.pairs)->Ok_0, form);
    law_config_line_is_one_line(form_patch(owned, form)->Ok_0);
}

/// A patch whose numbers are spelled as numbers is handed to the daemon in one line.
pub proof fn law_config_line_is_one_line(patch: json::JsonView)
    requires
        json::well_spelled(patch),
    ensures
        !("set-config "@ + json::compact(patch)).contains('\n'),
{
    reveal_strlit("set-config ");
    json::law_compact_is_one_line(patch);
    let line = "set-config "@ + json::compact(patch);
    assert forall|i: int| 0 <= i < line.len() implies line[i] != '\n' by {
        if i >= "set-config "@.len() {
            let k = i - "set-config "@.len();
            assert(json::compact(patch).contains(json::compact(patch)[k]));
        }
    }
}

/// No two pages own one group, and what a page owns is a group of the schema.
pub proof fn law_pages_own_different_groups(a: SettingsPage, b: SettingsPage, name: Seq<char>)
    requires
        owned_by(a).contains(name),
    ensures
        is_group(schema_rules(), name),
        a != b ==> !owned_by(b).contains(name),
{
    reveal_strlit("Appearance");
    reveal_strlit("Apps");
    reveal_strlit("Display");
    reveal_strlit("Night Light");
    reveal_strlit("Power");
    reveal_strlit("Audio");
    lemma_page_groups();
    let i = choose|i: int| 0 <= i < owned_by(a).len() && owned_by(a)[i] == name;
    assert(is_group(schema_rules(), owned_by(a)[i]));
    if a != b && owned_by(b).contains(name) {
        let j = choose|j: int| 0 <= j < owned_by(b).len() && owned_by(b)[j] == name;
        assert(owned_by(a)[i].len() == owned_by(b)[j].len());
        assert(owned_by(a)[i][0] == owned_by(b)[j][0]);
    }
}

proof fn lemma_page_groups()
    ensures
        is_group(schema_rules(), "Appearance"@),
        is_group(schema_rules(), "Apps"@),
        is_group(schema_rules(), "Display"@),
        is_group(schema_rules(), "Night Light"@),
        is_group(schema_rules(), "Power"@),
        is_group(schema_rules(), "Audio"@),
{
    reveal(schema_rules);
    assert(schema_rules()[0].group == "Appearance"@);
    assert(schema_rules()[24].group == "Apps"@);
    assert(schema_rules()[8].group == "Display"@);
    assert(schema_rules()[13].group == "Night Light"@);
    assert(schema_rules()[15].group == "Power"@);
    assert(schema_rules()[17].group == "Audio"@);
}

/// A page saves its own settings only: whatever form is sent to it, the patch holds
/// no key of a setting that another page owns.
pub proof fn law_page_saves_its_own(
    page: SettingsPage,
    other: SettingsPage,
    form: FormView,
    i: int,
    j: int,
)
    requires
        page != other,
        form_patch(owned_by(page), form) is Ok,
        0 <= i < form_patch(owned_by(page), form)->Ok_0->Object_0.len(),
        0 <= j < schema_rules().len(),
        owned_by(other).contains(schema_rules()[j].group),
    ensures
        form_patch(owned_by(page), form)->Ok_0->Object_0[i].0 != schema_rules()[j].key,
{
    let rules = schema_rules();
    let owned = owned_by(page);
    let key = form_patch(owned, form)->Ok_0->Object_0[i].0;
    law_patch_stays_in_scope(owned, form, i);
    let k = choose|k: int|
        0 <= k < rules.len() && (#[trigger] rules[k]).key == key && owned.contains(rules[k].group)
            && !(rules[k].kind is Complex);
    law_pages_own_different_groups(other, page, rules[j].group);
    if key == rules[j].key {
        lemma_schema_keys(j);
        lemma_schema_keys(k);
    }
}

// ---------------------------------------------------------------------------
// Laws of what a form shows and sends back
// ---------------------------------------------------------------------------

/// Whether a form sends `value` for `key`: it is that of the last pair with the key.
pub open spec fn sends(form: FormView, key: Seq<char>, value: Seq<char>) -> bool {
    exists|at: int|
        0 <= at < form.pairs.len() && #[trigger] form.pairs[at] == (key, value) && forall|j: int|
            at < j < form.pairs.len() ==> (#[trigger] form.pairs[j]).0 != key
}

/// Whether a form sends nothing for `key`.
pub open spec fn is_silent(form: FormView, key: Seq<char>) -> bool {
    forall|j: int| 0 <= j < form.pairs.len() ==> (#[trigger] form.pairs[j]).0 != key
}

proof fn lemma_last_pair(pairs: Seq<(Seq<char>, Seq<char>)>, key: Seq<char>, at: int)
    requires
        -1 <= at < pairs.len(),
        at >= 0 ==> pairs[at].0 == key,
        forall|j: int| at < j < pairs.len() ==> (#[trigger] pairs[j]).0 != key,
    ensures
        pair_at(pairs, key) == at,
    decreases pairs.len(),
{
    if pairs.len() > 0 && at < pairs.len() - 1 {
        let rest = pairs.drop_last();
        assert(pairs[pairs.len() - 1].0 != key);
        assert forall|j: int| at < j < rest.len() implies (#[trigger] rest[j]).0 != key by {
            assert(rest[j] == pairs[j]);
        }
        lemma_last_pair(rest, key, at);
    }
}

proof fn lemma_sends(form: FormView, key: Seq<char>, value: Seq<char>) -> (at: int)
    requires
        sends(form, key, value),
    ensures
        0 <= at < form.pairs.len(),
        pair_at(form.pairs, key) == at,
        form.pairs[at].1 == value,
{
    let at = choose|at: int|
        0 <= at < form.pairs.len() && #[trigger] form.pairs[at] == (key, value) && forall|j: int|
            at < j < form.pairs.len() ==> (#[trigger] form.pairs[j]).0 != key;
    lemma_last_pair(form.pairs, key, at);
    at
}

/// A text that is stored is what its form element holds, and what the element sends back is
/// stored as it is. Where no text is stored, the element holds the default.
pub proof fn law_stored_text_survives_its_form(
    f: FieldRule,
    cfg: json::JsonView,
    form: FormView,
    s: Seq<char>,
)
    requires
        f.kind is Str,
    ensures
        json::member(cfg, f.key) == Some(json::JsonView::Text(s)) ==> input_text(f, cfg)
            == "<input type=\"text\""@ + " id=\""@ + f.key + "\" name=\""@ + f.key + "\""@
            + " value=\""@ + html::escaped(s) + "\">"@,
        !(json::member(cfg, f.key) matches Some(json::JsonView::Text(_))) ==> input_text(f, cfg)
            == "<input type=\"text\""@ + " id=\""@ + f.key + "\" name=\""@ + f.key + "\""@
            + " value=\""@ + html::escaped(f.default) + "\">"@,
        html::read(html::escaped(s)) == s,
        sends(form, f.key, s) ==> field_patch(f, form) == Ok::<Option<json::JsonView>, Seq<char>>(
            Some(json::JsonView::Text(s)),
        ),
        is_silent(form, f.key) ==> field_patch(f, form) == Ok::<Option<json::JsonView>, Seq<char>>(
            None,
        ),
{
    html::law_escaped_reads_back(s);
    if sends(form, f.key, s) {
        let at = lemma_sends(form, f.key, s);
    }
    if is_silent(form, f.key) {
        lemma_last_pair(form.pairs, f.key, -1);
    }
}

/// A whole number that is stored is what its form element holds, and what the element sends
/// back is stored as the same number, as far as it is within the bounds of the setting. A
/// number outside them, and what is no number, is refused.
pub proof fn law_stored_number_survives_its_form(
    f: FieldRule,
    min: Option<i64>,
    max: Option<i64>,
    cfg: json::JsonView,
    n: json::NumberView,
    i: i64,
    form: FormView,
    value: Seq<char>,
)
    requires
        f.kind == (KindRule::Int { min, max }),
    ensures
        json::member(cfg, f.key) == Some(json::JsonView::Number(n)) && n.signed == Some(i)
            ==> input_text(f, cfg) == "<input type=\"number\""@ + " id=\""@ + f.key + "\" name=\""@
            + f.key + "\""@ + " value=\""@ + html::escaped(text::int_text(i as int)) + "\""@
            + bound_text("min"@, min) + bound_text("max"@, max) + ">"@,
        !(json::member(cfg, f.key) matches Some(json::JsonView::Number(m)) && m.signed is Some)
            ==> input_text(f, cfg) == "<input type=\"number\""@ + " id=\""@ + f.key + "\" name=\""@
            + f.key + "\""@ + " value=\""@ + html::escaped(f.default) + "\""@ + bound_text(
            "min"@,
            min,
        ) + bound_text("max"@, max) + ">"@,
        html::read(html::escaped(text::int_text(i as int))) == text::int_text(i as int),
        sends(form, f.key, text::int_text(i as int)) ==> {
            let low = min is Some && i < min->0;
            let high = max is Some && i > max->0;
            &&& !low && !high ==> (field_patch(f, form) matches Ok(Some(json::JsonView::Number(m)))
                && m.signed == Some(i) && m.json == text::int_text(i as int))
            &&& low || high ==> field_patch(f, form) is Err
        },
        sends(form, f.key, value) && text::parsed_int(text::trimmed(value)) is None ==> field_patch(
            f,
            form,
        ) is Err,
        is_silent(form, f.key) ==> field_patch(f, form) == Ok::<Option<json::JsonView>, Seq<char>>(
            None,
        ),
{
    let t = text::int_text(i as int);
    html::law_escaped_reads_back(t);
    text::law_ints_read_back(i as int);
    if i < 0 {
        text::lemma_dec((-(i as int)) as nat);
        assert(t.last() == text::dec((-(i as int)) as nat).last());
    } else {
        text::lemma_dec(i as nat);
    }
    text::lemma_trimmed_fixed(t);
    if sends(form, f.key, t) {
        let at = lemma_sends(form, f.key, t);
    }
    if sends(form, f.key, value) {
        let at = lemma_sends(form, f.key, value);
    }
    if is_silent(form, f.key) {
        lemma_last_pair(form.pairs, f.key, -1);
    }
}

/// A bound is an attribute with the number, and no attribute where there is none.
pub proof fn law_bounds_are_attributes(bound: i64)
    ensures
        bound_text("min"@, Some(bound)) == " "@ + "min"@ + "=\""@ + text::int_text(bound as int)
            + "\""@,
        bound_text("max"@, Some(bound)) == " "@ + "max"@ + "=\""@ + text::int_text(bound as int)
            + "\""@,
        bound_text("min"@, None).len() == 0,
        bound_text("max"@, None).len() == 0,
{
}

/// A switch that is stored is checked exactly if it is on. A form sends the key of a
/// checked box and stays silent of an unchecked one, and stores the switch as it stood.
pub proof fn law_stored_switch_survives_its_form(
    f: FieldRule,
    cfg: json::JsonView,
    form: FormView,
    value: Seq<char>,
)
    requires
        f.kind is Bool,
    ensures
        ({
            let head = "<input type=\"checkbox\""@ + " id=\""@ + f.key + "\" name=\""@ + f.key
                + "\""@;
            let on = match json::member(cfg, f.key) {
                Some(json::JsonView::Bool(b)) => b,
                _ => f.default == "true"@,
            };
            &&& on ==> input_text(f, cfg) == head + " checked"@ + ">"@
            &&& !on ==> input_text(f, cfg) == head + ">"@
        }),
        sends(form, f.key, value) ==> field_patch(f, form) == Ok::<
            Option<json::JsonView>,
            Seq<char>,
        >(Some(json::JsonView::Bool(true))),
        is_silent(form, f.key) ==> field_patch(f, form) == Ok::<Option<json::JsonView>, Seq<char>>(
            Some(json::JsonView::Bool(false)),
        ),
{
    let head = "<input type=\"checkbox\""@ + " id=\""@ + f.key + "\" name=\""@ + f.key + "\""@;
    assert(head + Seq::<char>::empty() =~= head);
    if sends(form, f.key, value) {
        let at = lemma_sends(form, f.key, value);
    }
    if is_silent(form, f.key) {
        lemma_last_pair(form.pairs, f.key, -1);
    }
}

/// The choice `o`, as it stands in a list of choices.
pub open spec fn choice(o: Seq<char>, selected: bool) -> Seq<char> {
    if selected {
        "<option value=\""@ + html::escaped(o) + "\""@ + " selected"@ + ">"@ + html::escaped(o)
            + "</option>"@
    } else {
        "<option value=\""@ + html::escaped(o) + "\""@ + ">"@ + html::escaped(o) + "</option>"@
    }
}

proof fn lemma_options(allowed: Seq<Seq<char>>, current: Seq<char>)
    ensures
        options_text(allowed, current) == text::joined(
            Seq::new(allowed.len(), |i: int| choice(allowed[i], allowed[i] == current)),
            Seq::empty(),
        ),
    decreases allowed.len(),
{
    let all = Seq::new(allowed.len(), |i: int| choice(allowed[i], allowed[i] == current));
    if allowed.len() > 0 {
        let rest = allowed.drop_last();
        lemma_options(rest, current);
        let o = allowed.last();
        assert(all.drop_last() =~= Seq::new(
            rest.len(),
            |i: int| choice(rest[i], rest[i] == current),
        ));
        assert(("<option value=\""@ + html::escaped(o) + "\""@ + Seq::<char>::empty() + ">"@
            + html::escaped(o) + "</option>"@) =~= ("<option value=\""@ + html::escaped(o) + "\""@
            + ">"@ + html::escaped(o) + "</option>"@));
        assert(options_text(allowed, current) == options_text(rest, current) + all.last());
        if allowed.len() == 1 {
            assert(options_text(rest, current) =~= Seq::empty());
            assert(options_text(allowed, current) =~= all[0]);
        } else {
            assert(text::joined(all, Seq::empty()) =~= text::joined(all.drop_last(), Seq::empty())
                + all.last());
        }
    }
}

/// The choices of a setting are all shown, in their order, and the stored one is selected,
/// or the default where none is stored. A choice that is sent back is stored, and anything
/// else is refused.
pub proof fn law_stored_choice_survives_its_form(
    f: FieldRule,
    allowed: Seq<Seq<char>>,
    cfg: json::JsonView,
    form: FormView,
    value: Seq<char>,
)
    requires
        f.kind == KindRule::Enum(allowed),
    ensures
        ({
            let current = match json::member(cfg, f.key) {
                Some(json::JsonView::Text(s)) => s,
                _ => f.default,
            };
            input_text(f, cfg) == "<select"@ + " id=\""@ + f.key + "\" name=\""@ + f.key + "\""@
                + ">"@ + text::joined(
                Seq::new(allowed.len(), |i: int| choice(allowed[i], allowed[i] == current)),
                Seq::empty(),
            ) + "</select>"@
        }),
        sends(form, f.key, value) && allowed.contains(value) ==> field_patch(f, form) == Ok::<
            Option<json::JsonView>,
            Seq<char>,
        >(Some(json::JsonView::Text(value))),
        sends(form, f.key, value) && !allowed.contains(value) ==> field_patch(f, form) is Err,
        is_silent(form, f.key) ==> field_patch(f, form) == Ok::<Option<json::JsonView>, Seq<char>>(
            None,
        ),
{
    let current = match json::member(cfg, f.key) {
        Some(json::JsonView::Text(s)) => s,
        _ => f.default,
    };
    lemma_options(allowed, current);
    if sends(form, f.key, value) {
        let at = lemma_sends(form, f.key, value);
    }
    if is_silent(form, f.key) {
        lemma_last_pair(form.pairs, f.key, -1);
    }
}

/// A fraction that is stored is what its form element holds, as people write it. What is
/// sent back is stored as the number that it reads as, and refused where it is none.
pub proof fn law_stored_fraction_is_shown(
    f: FieldRule,
    cfg: json::JsonView,
    n: json::NumberView,
    shown: Seq<char>,
    form: FormView,
    at: int,
)
    requires
        f.kind is Float,
        -1 <= at < form.pairs.len(),
        at >= 0 ==> form.pairs[at].0 == f.key,
        forall|j: int| at < j < form.pairs.len() ==> (#[trigger] form.pairs[j]).0 != f.key,
    ensures
        json::member(cfg, f.key) == Some(json::JsonView::Number(n)) && n.shown == Some(shown)
            ==> input_text(f, cfg) == "<input type=\"number\" step=\"0.01\""@ + " id=\""@ + f.key
            + "\" name=\""@ + f.key + "\""@ + " value=\""@ + html::escaped(shown) + "\">"@,
        !(json::member(cfg, f.key) is Some && json::member(cfg, f.key)->0 is Number)
            ==> input_text(f, cfg) == "<input type=\"number\" step=\"0.01\""@ + " id=\""@ + f.key
            + "\" name=\""@ + f.key + "\""@ + " value=\""@ + html::escaped(f.default) + "\">"@,
        at >= 0 && form.numbers[at] is Finite ==> (field_patch(f, form) matches Ok(
            Some(json::JsonView::Number(m)),
        ) && m.json == form.numbers[at]->Finite_0@),
        at >= 0 && !(form.numbers[at] is Finite) ==> field_patch(f, form) is Err,
        at < 0 ==> field_patch(f, form) == Ok::<Option<json::JsonView>, Seq<char>>(None),
{
    lemma_last_pair(form.pairs, f.key, at);
}

/// The texts of a list in the order in which they are stored.
spec fn as_texts(texts: Seq<Seq<char>>) -> Seq<json::JsonView> {
    Seq::new(texts.len(), |i: int| json::JsonView::Text(texts[i]))
}

proof fn lemma_texts_back(texts: Seq<Seq<char>>)
    ensures
        texts_in(as_texts(texts)) == texts,
    decreases texts.len(),
{
    if texts.len() > 0 {
        lemma_texts_back(texts.drop_last());
        assert(as_texts(texts).drop_last() =~= as_texts(texts.drop_last()));
        assert(texts_in(as_texts(texts)) =~= texts);
    } else {
        assert(texts_in(as_texts(texts)) =~= texts);
    }
}

proof fn lemma_full_lines_back(texts: Seq<Seq<char>>)
    requires
        forall|i: int|
            0 <= i < texts.len() ==> (#[trigger] texts[i]).len() > 0 && text::trimmed(texts[i])
                == texts[i],
    ensures
        full_lines(texts) == as_texts(texts),
    decreases texts.len(),
{
    if texts.len() > 0 {
        let rest = texts.drop_last();
        assert forall|i: int| 0 <= i < rest.len() implies (#[trigger] rest[i]).len() > 0
            && text::trimmed(rest[i]) == rest[i] by {
            assert(rest[i] == texts[i]);
        }
        lemma_full_lines_back(rest);
        assert(texts[texts.len() - 1].len() > 0);
        assert(full_lines(texts) =~= as_texts(texts));
    } else {
        assert(full_lines(texts) =~= as_texts(texts));
    }
}

/// A list of texts that is stored is shown one to a line, and what is sent back is stored as
/// the same list, where no text of it is blank, has white space around it or breaks its
/// line.
pub proof fn law_stored_list_survives_its_form(
    f: FieldRule,
    cfg: json::JsonView,
    texts: Seq<Seq<char>>,
    form: FormView,
)
    requires
        f.kind is StrList,
        json::member(cfg, f.key) matches Some(json::JsonView::Array(items)) && items.len()
            == texts.len() && forall|i: int|
            0 <= i < items.len() ==> items[i] == json::JsonView::Text(#[trigger] texts[i]),
        forall|i: int|
            0 <= i < texts.len() ==> (#[trigger] texts[i]).len() > 0 && text::trimmed(texts[i])
                == texts[i] && !texts[i].contains('\n'),
    ensures
        input_text(f, cfg) == "<textarea"@ + " id=\""@ + f.key + "\" name=\""@ + f.key + "\""@
            + " rows=\"3\">"@ + html::escaped(text::joined(texts, "\n"@)) + "</textarea>"@,
        html::read(html::escaped(text::joined(texts, "\n"@))) == text::joined(texts, "\n"@),
        sends(form, f.key, text::joined(texts, "\n"@)) ==> field_patch(f, form) == Ok::<
            Option<json::JsonView>,
            Seq<char>,
        >(json::member(cfg, f.key)),
{
    let joined = text::joined(texts, "\n"@);
    let items = json::member(cfg, f.key)->0->Array_0;
    assert(items =~= as_texts(texts));
    lemma_texts_back(texts);
    html::law_escaped_reads_back(joined);
    reveal_strlit("\n");
    assert("\n"@ =~= seq!['\n']);
    text::lemma_lines_of_joined(texts);
    lemma_full_lines_back(texts);
    if sends(form, f.key, joined) {
        let at = lemma_sends(form, f.key, joined);
    }
}

/// Whether a form shows a setting under its group, with its key, its label and its element.
pub open spec fn shows(
    groups: Seq<(Seq<char>, Seq<FieldShown>)>,
    f: FieldRule,
    cfg: json::JsonView,
) -> bool {
    exists|g: int, i: int|
        0 <= g < groups.len() && 0 <= i < groups[g].1.len() && groups[g].0 == f.group
            && #[trigger] groups[g].1[i] == (f.key, f.label, input_text(f, cfg))
}

/// Whether what a form shows under a group is a setting of that group.
pub open spec fn stems_from(
    rules: Seq<FieldRule>,
    cfg: json::JsonView,
    group: Seq<char>,
    shown: FieldShown,
) -> bool {
    exists|k: int|
        0 <= k < rules.len() && (#[trigger] rules[k]).group == group && !(rules[k].kind is Complex)
            && shown == (rules[k].key, rules[k].label, input_text(rules[k], cfg))
}

/// What a form for some groups shows is every setting of them that a form field can show,
/// under its group, with its key, its label and its element; and nothing else. No group is
/// shown twice.
pub proof fn law_form_shows_its_settings(
    rules: Seq<FieldRule>,
    cfg: json::JsonView,
    scope: Seq<Seq<char>>,
)
    ensures
        ({
            let groups = form_groups(rules, cfg, scope);
            &&& forall|k: int|
                0 <= k < rules.len() && !((#[trigger] rules[k]).kind is Complex) && scope.contains(
                    rules[k].group,
                ) ==> shows(groups, rules[k], cfg)
            &&& forall|g: int, i: int|
                0 <= g < groups.len() && 0 <= i < groups[g].1.len() ==> stems_from(
                    rules,
                    cfg,
                    groups[g].0,
                    #[trigger] groups[g].1[i],
                )
            &&& forall|g: int|
                0 <= g < groups.len() ==> scope.contains((#[trigger] groups[g]).0)
            &&& forall|g: int, h: int|
                0 <= g < h < groups.len() ==> (#[trigger] groups[g]).0 != (#[trigger] groups[h]).0
        }),
    decreases rules.len(),
{
    if rules.len() > 0 {
        let rest = rules.drop_last();
        let f = rules.last();
        let before = form_groups(rest, cfg, scope);
        let groups = form_groups(rules, cfg, scope);
        law_form_shows_its_settings(rest, cfg, scope);
        lemma_group_found(before, f.group);
        if is_shown(f, scope) {
            lemma_one_more_shown(before, f, cfg);
        }
        assert forall|k: int|
            0 <= k < rules.len() && !((#[trigger] rules[k]).kind is Complex) && scope.contains(
                rules[k].group,
            ) implies shows(groups, rules[k], cfg) by {
            if k < rest.len() {
                assert(rest[k] == rules[k]);
                assert(shows(before, rest[k], cfg));
            }
        }
        assert forall|g: int, i: int|
            0 <= g < groups.len() && 0 <= i < groups[g].1.len() implies stems_from(
            rules,
            cfg,
            groups[g].0,
            #[trigger] groups[g].1[i],
        ) by {
            if g < before.len() && i < before[g].1.len() {
                assert(groups[g].1[i] == before[g].1[i]);
                assert(stems_from(rest, cfg, before[g].0, before[g].1[i]));
                let k = choose|k: int|
                    0 <= k < rest.len() && (#[trigger] rest[k]).group == before[g].0 && !(
                    rest[k].kind is Complex) && before[g].1[i] == (
                        rest[k].key,
                        rest[k].label,
                        input_text(rest[k], cfg),
                    );
                assert(rules[k] == rest[k]);
            } else {
                assert(rules[rules.len() - 1].group == groups[g].0);
            }
        }
        assert forall|g: int, h: int| 0 <= g < h < groups.len() implies (#[trigger] groups[g]).0 != (
        #[trigger] groups[h]).0 by {
            assert(before[g].0 == groups[g].0);
        }
    }
}

proof fn lemma_one_more_shown(
    before: Seq<(Seq<char>, Seq<FieldShown>)>,
    f: FieldRule,
    cfg: json::JsonView,
)
    ensures
        ({
            let groups = with_field(before, f.group, (f.key, f.label, input_text(f, cfg)));
            &&& shows(groups, f, cfg)
            &&& forall|other: FieldRule| #[trigger]
                shows(before, other, cfg) ==> shows(groups, other, cfg)
        }),
{
    let groups = with_field(before, f.group, (f.key, f.label, input_text(f, cfg)));
    lemma_group_found(before, f.group);
    let n = group_at(before, f.group);
    if n < before.len() {
        assert(groups[n].1[before[n].1.len() as int] == (f.key, f.label, input_text(f, cfg)));
    } else {
        assert(groups[n].1[0] == (f.key, f.label, input_text(f, cfg)));
    }
    assert forall|other: FieldRule| #[trigger] shows(before, other, cfg) implies shows(
        groups,
        other,
        cfg,
    ) by {
        let (g, i) = choose|g: int, i: int|
            0 <= g < before.len() && 0 <= i < before[g].1.len() && before[g].0 == other.group
                && #[trigger] before[g].1[i] == (other.key, other.label, input_text(other, cfg));
        assert(groups[g].1[i] == before[g].1[i]);
        assert(groups[g].0 == before[g].0);
    }
}

proof fn lemma_group_found(groups: Seq<(Seq<char>, Seq<FieldShown>)>, name: Seq<char>)
    ensures
        0 <= group_at(groups, name) <= groups.len(),
        group_at(groups, name) < groups.len() ==> groups[group_at(groups, name)].0 == name,
        forall|i: int| 0 <= i < group_at(groups, name) ==> (#[trigger] groups[i]).0 != name,
    decreases groups.len(),
{
    if groups.len() > 0 && groups[0].0 != name {
        let t = groups.skip(1);
        lemma_group_found(t, name);
        assert forall|i: int| 0 <= i < group_at(groups, name) implies (#[trigger] groups[i]).0
            != name by {
            if i > 0 {
                assert(groups[i] == t[i - 1]);
            }
        }
    }
}

/// A form declares the groups that its `__group` pairs name, white space aside, each once.
/// It is refused exactly if one of them is no group of the schema, or is not its own.
pub proof fn law_declared_are_named(
    owned: Seq<Seq<char>>,
    pairs: Seq<(Seq<char>, Seq<char>)>,
    name: Seq<char>,
)
    ensures
        declared(owned, pairs) is Err <==> exists|i: int|
            0 <= i < pairs.len() && (#[trigger] pairs[i]).0 == "__group"@ && !(is_group(
                schema_rules(),
                text::trimmed(pairs[i].1),
            ) && owned.contains(text::trimmed(pairs[i].1))),
        declared(owned, pairs) matches Ok(groups) ==> (groups.contains(name) <==> exists|i: int|
            0 <= i < pairs.len() && (#[trigger] pairs[i]).0 == "__group"@ && text::trimmed(
                pairs[i].1,
            ) == name),
    decreases pairs.len(),
{
    if pairs.len() > 0 {
        let rest = pairs.drop_last();
        let n = pairs.len() - 1;
        law_declared_are_named(owned, rest, name);
        law_declared_are_named(owned, rest, text::trimmed(pairs[n].1));
        assert forall|i: int| 0 <= i < n implies rest[i] == #[trigger] pairs[i] by {}
        if declared(owned, rest) is Err {
            let i = choose|i: int|
                0 <= i < rest.len() && (#[trigger] rest[i]).0 == "__group"@ && !(is_group(
                    schema_rules(),
                    text::trimmed(rest[i].1),
                ) && owned.contains(text::trimmed(rest[i].1)));
            assert(pairs[i] == rest[i]);
        } else {
            assert forall|i: int| 0 <= i < n && (#[trigger] pairs[i]).0 == "__group"@ implies is_group(
                schema_rules(),
                text::trimmed(pairs[i].1),
            ) && owned.contains(text::trimmed(pairs[i].1)) by {
                assert(rest[i] == pairs[i]);
            }
            if pairs[n].0 == "__group"@ && !(is_group(schema_rules(), text::trimmed(pairs[n].1))
                && owned.contains(text::trimmed(pairs[n].1))) {
                assert(declared(owned, pairs) is Err);
            }
            if declared(owned, pairs) is Ok {
                let before = declared(owned, rest)->Ok_0;
                let groups = declared(owned, pairs)->Ok_0;
                if before.contains(name) {
                    let k = choose|k: int| 0 <= k < before.len() && before[k] == name;
                    assert(groups[k] == name);
                    let i = choose|i: int|
                        0 <= i < rest.len() && (#[trigger] rest[i]).0 == "__group"@
                            && text::trimmed(rest[i].1) == name;
                    assert(pairs[i] == rest[i]);
                }
                if pairs[n].0 == "__group"@ && text::trimmed(pairs[n].1) == name
                    && !before.contains(name) {
                    assert(groups[groups.len() - 1] == name);
                }
                if groups.contains(name) && !before.contains(name) {
                    let k = choose|k: int| 0 <= k < groups.len() && groups[k] == name;
                    assert(pairs[n].0 == "__group"@);
                }
                if exists|i: int|
                    0 <= i < pairs.len() && (#[trigger] pairs[i]).0 == "__group"@ && text::trimmed(
                        pairs[i].1,
                    ) == name {
                    let i = choose|i: int|
                        0 <= i < pairs.len() && (#[trigger] pairs[i]).0 == "__group"@
                            && text::trimmed(pairs[i].1) == name;
                    if i < n {
                        assert(rest[i] == pairs[i]);
                    }
                }
            }
        }
    }
}

/// What is shown of the settings that the daemon writes is what the document has under
/// their keys, and nothing else.
pub proof fn law_entries_are_those_of_the_document(
    cfg: json::JsonView,
    keys: Seq<Seq<char>>,
    key: Seq<char>,
)
    ensures
        json::in_order(entries_for(cfg, keys)),
        json::member(json::JsonView::Object(entries_for(cfg, keys)), key) == (if keys.contains(
            key,
        ) {
            json::member(cfg, key)
        } else {
            None
        }),
    decreases keys.len(),
{
    if keys.len() > 0 {
        let rest = keys.drop_last();
        law_entries_are_those_of_the_document(cfg, rest, key);
        law_entries_are_those_of_the_document(cfg, rest, keys.last());
        if let Some(v) = json::member(cfg, keys.last()) {
            json::lemma_put(entries_for(cfg, rest), keys.last(), v, key);
        }
        if rest.contains(key) {
            let i = choose|i: int| 0 <= i < rest.len() && rest[i] == key;
            assert(keys[i] == key);
        }
        if keys.contains(key) && key != keys.last() {
            let i = choose|i: int| 0 <= i < keys.len() && keys[i] == key;
            assert(rest[i] == key);
        }
        assert(keys[keys.len() - 1] == keys.last());
    } else {
        json::law_first_entry_counts(entries_for(cfg, keys), key, 0);
    }
}

// ---------------------------------------------------------------------------
// Laws of the schema
// ---------------------------------------------------------------------------

proof fn lemma_places()
    ensures
        place_of("themeMode"@) == 0,
        place_of("autoThemeDarkStart"@) == 1,
        place_of("autoThemeLightStart"@) == 2,
        place_of("reduceMotion"@) == 3,
        place_of("textScale"@) == 4,
        place_of("controllerDebug"@) == 5,
        place_of("rumbleEnabled"@) == 6,
        place_of("widgets"@) == 7,
        place_of("hdrEnabled"@) == 8,
        place_of("overscan"@) == 9,
        place_of("autoDimEnabled"@) == 10,
        place_of("autoDimDelayMinutes"@) == 11,
        place_of("wallpaperPath"@) == 12,
        place_of("nightLightEnabled"@) == 13,
        place_of("nightLightTemp"@) == 14,
        place_of("sleepTimerMinutes"@) == 15,
        place_of("wakeOnController"@) == 16,
        place_of("defaultSink"@) == 17,
        place_of("audioCardProfile"@) == 18,
        place_of("cecFocusOnStartup"@) == 19,
        place_of("cecFocusOnWake"@) == 20,
        place_of("cecAutoSwitchOnPowerOn"@) == 21,
        place_of("cecDefaultInput"@) == 22,
        place_of("cecDeviceNames"@) == 23,
        place_of("prewarmApps"@) == 24,
{
    reveal_strlit("themeMode");
    reveal_strlit("autoThemeDarkStart");
    reveal_strlit("autoThemeLightStart");
    reveal_strlit("reduceMotion");
    reveal_strlit("textScale");
    reveal_strlit("controllerDebug");
    reveal_strlit("rumbleEnabled");
    reveal_strlit("widgets");
    reveal_strlit("hdrEnabled");
    reveal_strlit("overscan");
    reveal_strlit("autoDimEnabled");
    reveal_strlit("autoDimDelayMinutes");
    reveal_strlit("wallpaperPath");
    reveal_strlit("nightLightEnabled");
    reveal_strlit("nightLightTemp");
    reveal_strlit("sleepTimerMinutes");
    reveal_strlit("wakeOnController");
    reveal_strlit("defaultSink");
    reveal_strlit("audioCardProfile");
    reveal_strlit("cecFocusOnStartup");
    reveal_strlit("cecFocusOnWake");
    reveal_strlit("cecAutoSwitchOnPowerOn");
    reveal_strlit("cecDefaultInput");
    reveal_strlit("cecDeviceNames");
    reveal_strlit("prewarmApps");
}

/// Each setting is of the kind that its key stands for.
#[verifier::spinoff_prover]
pub proof fn law_settings_are_of_their_kind(f: FieldRule)
    requires
        schema_rules().contains(f),
    ensures
        f.kind is Bool <==> (f.key == "reduceMotion"@ || f.key == "controllerDebug"@ || f.key == "rumbleEnabled"@ || f.key == "hdrEnabled"@ || f.key == "autoDimEnabled"@ || f.key == "nightLightEnabled"@ || f.key == "wakeOnController"@ || f.key == "cecFocusOnStartup"@ || f.key == "cecFocusOnWake"@ || f.key == "cecAutoSwitchOnPowerOn"@),
        f.kind is Enum <==> (f.key == "themeMode"@),
        f.kind is Int <==> (f.key == "autoThemeDarkStart"@ || f.key == "autoThemeLightStart"@ || f.key == "overscan"@ || f.key == "autoDimDelayMinutes"@ || f.key == "nightLightTemp"@ || f.key == "sleepTimerMinutes"@ || f.key == "cecDefaultInput"@),
        f.kind is Float <==> (f.key == "textScale"@),
        f.kind is Str <==> (f.key == "wallpaperPath"@ || f.key == "defaultSink"@ || f.key == "audioCardProfile"@),
        f.kind is StrList <==> (f.key == "prewarmApps"@),
        f.kind is Complex <==> (f.key == "widgets"@ || f.key == "cecDeviceNames"@),
{
    let i = choose|i: int| 0 <= i < schema_rules().len() && schema_rules()[i] == f;
    lemma_schema_keys(i);
    lemma_places();
    reveal(schema_rules);
}

/// A number keeps to the range of what it stands for: the hours of a day, a part of the
/// screen, a colour temperature, minutes, the addresses of the bus and one for none.
#[verifier::spinoff_prover]
pub proof fn law_numbers_keep_to_their_range(f: FieldRule)
    requires
        schema_rules().contains(f),
    ensures
        f.key == "autoThemeDarkStart"@ || f.key == "autoThemeLightStart"@ ==> f.kind
            == (KindRule::Int { min: Some(0), max: Some(23) }),
        f.key == "overscan"@ ==> f.kind == (KindRule::Int { min: Some(0), max: Some(10) }),
        f.key == "nightLightTemp"@ ==> f.kind == (KindRule::Int {
            min: Some(1000),
            max: Some(10000),
        }),
        f.key == "autoDimDelayMinutes"@ || f.key == "sleepTimerMinutes"@ ==> f.kind
            == (KindRule::Int { min: Some(0), max: None }),
        f.key == "cecDefaultInput"@ ==> f.kind == (KindRule::Int {
            min: Some((-1) as i64),
            max: Some(15),
        }),
        f.key == "themeMode"@ ==> f.kind == KindRule::Enum(seq!["auto"@, "light"@, "dark"@]),
{
    let i = choose|i: int| 0 <= i < schema_rules().len() && schema_rules()[i] == f;
    lemma_schema_keys(i);
    lemma_places();
    reveal(schema_rules);
}

/// A group is that of the settings that it is about.
#[verifier::spinoff_prover]
pub proof fn law_groups_hold_their_settings(f: FieldRule)
    requires
        schema_rules().contains(f),
    ensures
        f.group == "Appearance"@ <==> (f.key == "themeMode"@ || f.key == "autoThemeDarkStart"@ || f.key == "autoThemeLightStart"@ || f.key == "reduceMotion"@ || f.key == "textScale"@),
        f.group == "Input"@ <==> (f.key == "controllerDebug"@ || f.key == "rumbleEnabled"@),
        f.group == "Widgets"@ <==> (f.key == "widgets"@),
        f.group == "Display"@ <==> (f.key == "hdrEnabled"@ || f.key == "overscan"@ || f.key == "autoDimEnabled"@ || f.key == "autoDimDelayMinutes"@ || f.key == "wallpaperPath"@),
        f.group == "Night Light"@ <==> (f.key == "nightLightEnabled"@ || f.key == "nightLightTemp"@),
        f.group == "Power"@ <==> (f.key == "sleepTimerMinutes"@ || f.key == "wakeOnController"@),
        f.group == "Audio"@ <==> (f.key == "defaultSink"@ || f.key == "audioCardProfile"@),
        f.group == "CEC"@ <==> (f.key == "cecFocusOnStartup"@ || f.key == "cecFocusOnWake"@ || f.key == "cecAutoSwitchOnPowerOn"@ || f.key == "cecDefaultInput"@ || f.key == "cecDeviceNames"@),
        f.group == "Apps"@ <==> (f.key == "prewarmApps"@),
{
    let i = choose|i: int| 0 <= i < schema_rules().len() && schema_rules()[i] == f;
    lemma_schema_keys(i);
    lemma_places();
    reveal(schema_rules);
    reveal_strlit("Appearance");
    reveal_strlit("Input");
    reveal_strlit("Widgets");
    reveal_strlit("Display");
    reveal_strlit("Night Light");
    reveal_strlit("Power");
    reveal_strlit("Audio");
    reveal_strlit("CEC");
    reveal_strlit("Apps");
    assert("Appearance"@.len() == 10 && "Appearance"@[0] == 'A' && "Input"@.len() == 5 && "Input"@[0] == 'I' && "Widgets"@.len() == 7 && "Widgets"@[0] == 'W' && "Display"@.len() == 7 && "Display"@[0] == 'D' && "Night Light"@.len() == 11 && "Night Light"@[0] == 'N' && "Power"@.len() == 5 && "Power"@[0] == 'P' && "Audio"@.len() == 5 && "Audio"@[0] == 'A' && "CEC"@.len() == 3 && "CEC"@[0] == 'C' && "Apps"@.len() == 4 && "Apps"@[0] == 'A');
}

/// What holds where nothing is stored is a value that the setting may have.
#[verifier::spinoff_prover]
pub proof fn law_defaults_are_values(f: FieldRule)
    requires
        schema_rules().contains(f),
    ensures
        f.kind is Bool && (f.key == "rumbleEnabled"@ || f.key == "hdrEnabled"@ || f.key == "wakeOnController"@ || f.key == "cecFocusOnWake"@) ==> f.default == "true"@,
        f.kind is Bool && !(f.key == "rumbleEnabled"@ || f.key == "hdrEnabled"@ || f.key == "wakeOnController"@ || f.key == "cecFocusOnWake"@) ==> f.default == "false"@,
        f.kind matches KindRule::Enum(allowed) ==> allowed.contains(f.default) && f.default == "dark"@,
        f.kind is Int ==> f.default == text::int_text(
            if f.key == "autoThemeDarkStart"@ {
                20
            } else if f.key == "autoThemeLightStart"@ {
                7
            } else if f.key == "autoDimDelayMinutes"@ {
                2
            } else if f.key == "nightLightTemp"@ {
                4500
            } else if f.key == "cecDefaultInput"@ {
                -1
            } else {
                0
            },
        ),
        f.kind is Float ==> f.default == "1.0"@,
        f.kind is Str || f.kind is StrList ==> f.default.len() == 0,
        f.kind is Complex ==> f.default == "{}"@,
{
    let i = choose|i: int| 0 <= i < schema_rules().len() && schema_rules()[i] == f;
    lemma_schema_keys(i);
    lemma_places();
    reveal(schema_rules);
    reveal_strlit("");
    if let KindRule::Enum(allowed) = f.kind {
        assert(allowed[2] == "dark"@);
    }
    reveal_strlit("20");
    reveal_strlit("7");
    reveal_strlit("2");
    reveal_strlit("4500");
    reveal_strlit("-1");
    reveal_strlit("0");
    reveal_with_fuel(text::dec, 4);
    assert(text::int_text(20) =~= "20"@);
    assert(text::int_text(7) =~= "7"@);
    assert(text::int_text(2) =~= "2"@);
    assert(text::int_text(4500) =~= "4500"@);
    assert(text::int_text(-1) =~= "-1"@);
    assert(text::int_text(0) =~= "0"@);
}

/// A setting that the configuration does not hold, or holds as something else, is shown as if
/// it were stored with its default.
pub proof fn law_missing_values_show_the_default(
    f: FieldRule,
    cfg: json::JsonView,
    stored: json::JsonView,
    n: json::NumberView,
)
    ensures
        f.kind is Str || f.kind is Enum ==> (!(json::member(cfg, f.key) matches Some(
            json::JsonView::Text(_),
        )) && json::member(stored, f.key) == Some(json::JsonView::Text(f.default)) ==> input_text(
            f,
            cfg,
        ) == input_text(f, stored)),
        f.kind is Bool && f.default == "true"@ ==> (!(json::member(cfg, f.key) matches Some(
            json::JsonView::Bool(_),
        )) && json::member(stored, f.key) == Some(json::JsonView::Bool(true)) ==> input_text(f, cfg)
            == input_text(f, stored)),
        f.kind is Bool && f.default == "false"@ ==> (!(json::member(cfg, f.key) matches Some(
            json::JsonView::Bool(_),
        )) && json::member(stored, f.key) == Some(json::JsonView::Bool(false)) ==> input_text(
            f,
            cfg,
        ) == input_text(f, stored)),
        f.kind is Int && n.signed is Some && f.default == text::int_text(n.signed->0 as int) ==> (!(
        json::member(cfg, f.key) matches Some(json::JsonView::Number(_))) && json::member(
            stored,
            f.key,
        ) == Some(json::JsonView::Number(n)) ==> input_text(f, cfg) == input_text(f, stored)),
        f.kind is Float && n.shown == Some(f.default) ==> (!(json::member(cfg, f.key) matches Some(
            json::JsonView::Number(_),
        )) && json::member(stored, f.key) == Some(json::JsonView::Number(n)) ==> input_text(f, cfg)
            == input_text(f, stored)),
        f.kind is StrList ==> (!(json::member(cfg, f.key) matches Some(json::JsonView::Array(_)))
            && json::member(stored, f.key) == Some(json::JsonView::Array(Seq::empty()))
            ==> input_text(f, cfg) == input_text(f, stored)),
{
    reveal_strlit("true");
    reveal_strlit("false");
    assert("true"@.len() == 4 && "false"@.len() == 5);
}

/// A page owns the groups that it is named after: the looks, the apps, and what has to do with
/// the screen, the power and the sound.
pub proof fn law_pages_own_their_groups(page: SettingsPage, group: Seq<char>)
    ensures
        page == SettingsPage::Appearance ==> (owned_by(page).contains(group) <==> group
            == "Appearance"@),
        page == SettingsPage::Apps ==> (owned_by(page).contains(group) <==> group == "Apps"@),
        page == SettingsPage::DisplayAudio ==> (owned_by(page).contains(group) <==> group
            == "Display"@ || group == "Night Light"@ || group == "Power"@ || group == "Audio"@),
{
    let all = owned_by(page);
    if page == SettingsPage::DisplayAudio {
        assert(all[0] == "Display"@ && all[1] == "Night Light"@ && all[2] == "Power"@ && all[3]
            == "Audio"@);
    } else if page == SettingsPage::Apps {
        assert(all[0] == "Apps"@);
    } else {
        assert(all[0] == "Appearance"@);
    }
}

/// What a form sends that a setting cannot be is refused, and the refusal names the setting and
/// what was sent or the bound that it passes.
pub proof fn law_refused_values_are_named(f: FieldRule, form: FormView, value: Seq<char>, n: int)
    requires
        sends(form, f.key, value),
    ensures
        f.kind matches KindRule::Enum(allowed) ==> (!allowed.contains(value) ==> field_patch(f, form)
            == Err::<Option<json::JsonView>, Seq<char>>(
            "invalid value for "@ + f.key + ": "@ + text::debugged(value) + " (allowed: "@
                + text::joined(allowed, ", "@) + ")"@,
        )),
        f.kind is Int && text::parsed_int(text::trimmed(value)) is None ==> field_patch(f, form)
            == Err::<Option<json::JsonView>, Seq<char>>(
            "invalid integer for "@ + f.key + ": "@ + text::debugged(value),
        ),
        text::parsed_int(text::trimmed(value)) == Some(n) ==> {
            &&& f.kind matches KindRule::Int { min, max } ==> (min is Some && n < min->0 ==> field_patch(
                f,
                form,
            ) == Err::<Option<json::JsonView>, Seq<char>>(
                f.key + " must be >= "@ + text::int_text(min->0 as int),
            ))
            &&& f.kind matches KindRule::Int { min, max } ==> (max is Some && n > max->0 && !(
            min is Some && n < min->0) ==> field_patch(f, form) == Err::<
                Option<json::JsonView>,
                Seq<char>,
            >(f.key + " must be <= "@ + text::int_text(max->0 as int)))
            &&& f.kind matches KindRule::Int { min, max } ==> (!(min is Some && n < min->0) && !(
            max is Some && n > max->0) ==> field_patch(f, form) == Ok::<
                Option<json::JsonView>,
                Seq<char>,
            >(Some(json::whole(n))))
        },
{
    let at = lemma_sends(form, f.key, value);
}

/// A group that a form declares, and that is none of the schema or none of the form's own, is
/// refused by its name.
pub proof fn law_foreign_groups_are_named(
    owned: Seq<Seq<char>>,
    pairs: Seq<(Seq<char>, Seq<char>)>,
    name: Seq<char>,
)
    requires
        declared(owned, pairs) is Ok,
        text::trimmed(name) == name,
    ensures
        ({
            let more = pairs.push((GROUP_FIELD@, name));
            &&& GROUP_FIELD@ == "__group"@
            &&& !is_group(schema_rules(), name) ==> declared(owned, more) == Err::<
                Seq<Seq<char>>,
                Seq<char>,
            >(
                "unknown settings group "@ + text::debugged(name)
                    + " — not a group in the settings schema"@,
            )
            &&& is_group(schema_rules(), name) && !owned.contains(name) ==> declared(owned, more)
                == Err::<Seq<Seq<char>>, Seq<char>>(
                "settings group "@ + text::debugged(name)
                    + " is not owned by the form that was submitted"@,
            )
            &&& is_group(schema_rules(), name) && owned.contains(name) ==> declared(owned, more)
                is Ok && declared(owned, more)->Ok_0.contains(name)
        }),
{
    let more = pairs.push((GROUP_FIELD@, name));
    assert(more.drop_last() =~= pairs);
    assert(more.last() == (GROUP_FIELD@, name));
    let groups = declared(owned, pairs)->Ok_0;
    if !groups.contains(name) {
        assert(groups.push(name)[groups.len() as int] == name);
    }
}

} // verus!
