//! The display controls of the panel: what they show, and the lines that they send.

use crate::display_change;
use crate::ipc_console;
use crate::ipc_console::validate_token;
use crate::json;
use crate::json::{parse_json, Json};
use crate::text;
use vstd::prelude::*;

verus! {

// ---------------------------------------------------------------------------
// What the daemon says
// ---------------------------------------------------------------------------

/// A mode of a display.
#[derive(Debug, Clone, PartialEq, Eq)]
pub struct ModeView {
    pub value: String,
    pub label: String,
    pub current: bool,
}

/// A display, as the daemon tells of it.
#[derive(Debug, Clone, PartialEq, Eq)]
pub struct DisplayState {
    pub name: String,
    pub description: String,
    pub current_label: Option<String>,
    pub current_format: String,
    pub hdr: bool,
    pub vrr_active: bool,
    pub configured_line: Option<String>,
    pub configured_vrr: Option<u8>,
    pub modes: Vec<ModeView>,
}

/// A change that waits to be confirmed.
#[derive(Debug, Clone, PartialEq, Eq)]
pub struct PendingState {
    pub monitor: String,
    pub applied: String,
    pub previous: String,
    pub seconds_remaining: u64,
}

/// The displays, as the daemon tells of them.
#[derive(Debug, Clone, PartialEq, Eq)]
pub struct DisplaysState {
    pub displays: Vec<DisplayState>,
    pub pending: Option<PendingState>,
    pub revert_seconds: u64,
    pub config_path: String,
    pub config_present: bool,
}

// ---------------------------------------------------------------------------
// What the section shows
// ---------------------------------------------------------------------------

/// A display, as the section shows it.
#[derive(Debug, Clone, PartialEq, Eq)]
pub struct DisplayView {
    pub name: String,
    pub description: String,
    pub current_label: String,
    pub current_format: String,
    pub hdr: bool,
    /// Whether the refresh rate varies right now.
    pub vrr_active: bool,
    /// The setting to be shown as chosen.
    pub vrr_selected: u8,
    /// Whether that setting was configured; otherwise it is a guess.
    pub vrr_from_config: bool,
    pub configured_line: String,
    pub has_config_line: bool,
    pub modes: Vec<ModeView>,
    pub no_modes: bool,
}

/// What the section shows.
#[derive(Debug, Clone, PartialEq, Eq)]
pub struct DisplayModeTemplate {
    /// Whether the daemon answered.
    pub available: bool,
    pub error: String,
    pub notice_shown: bool,
    pub notice_ok: bool,
    pub notice_text: String,
    pub pending: bool,
    pub pending_monitor: String,
    pub pending_applied: String,
    pub pending_previous: String,
    pub pending_seconds: u64,
    pub revert_seconds: u64,
    pub config_path: String,
    pub config_present: bool,
    pub displays: Vec<DisplayView>,
}

/// What is said on top of the section: whether something went well, and what.
pub type Notice = (bool, String);

/// What the section says on top.
pub open spec fn says(t: DisplayModeTemplate, notice: Option<Notice>) -> bool {
    match notice {
        Some((ok, s)) => t.notice_shown && t.notice_ok == ok && t.notice_text@ == s@,
        None => !t.notice_shown && !t.notice_ok && t.notice_text@.len() == 0,
    }
}

/// Whether a section shows no display and no change, for want of an answer.
pub open spec fn is_unavailable(t: DisplayModeTemplate) -> bool {
    &&& !t.available
    &&& !t.pending
    &&& t.pending_monitor@.len() == 0
    &&& t.pending_applied@.len() == 0
    &&& t.pending_previous@.len() == 0
    &&& t.pending_seconds == 0
    &&& t.revert_seconds == 0
    &&& t.config_path@.len() == 0
    &&& !t.config_present
    &&& t.displays@.len() == 0
}

impl DisplayModeTemplate {
    /// The section without an answer of the daemon.
    pub fn unavailable(error: String, notice: Option<Notice>) -> (r: DisplayModeTemplate)
        ensures
            is_unavailable(r),
            r.error == error,
            says(r, notice),
    {
        let (notice_shown, notice_ok, notice_text) = match notice {
            Some((ok, s)) => (true, ok, s),
            None => (false, false, String::new()),
        };
        DisplayModeTemplate {
            available: false,
            error,
            notice_shown,
            notice_ok,
            notice_text,
            pending: false,
            pending_monitor: String::new(),
            pending_applied: String::new(),
            pending_previous: String::new(),
            pending_seconds: 0,
            revert_seconds: 0,
            config_path: String::new(),
            config_present: false,
            displays: Vec::new(),
        }
    }
}

/// The setting to be shown as chosen: the configured one, else on or off by what
/// is the case.
pub open spec fn selected(d: DisplayState) -> u8 {
    match d.configured_vrr {
        Some(v) => v,
        None => if d.vrr_active {
            1
        } else {
            0
        },
    }
}

/// Whether modes are the same.
pub open spec fn same_modes(a: Seq<ModeView>, b: Seq<ModeView>) -> bool {
    a.len() == b.len() && forall|i: int|
        0 <= i < a.len() ==> (#[trigger] a[i]).value@ == b[i].value@ && a[i].label@ == b[i].label@
            && a[i].current == b[i].current
}

/// Whether a display is shown as the daemon tells of it.
pub open spec fn shows(v: DisplayView, d: DisplayState) -> bool {
    &&& v.name@ == d.name@
    &&& v.description@ == d.description@
    &&& v.current_label@ == (match d.current_label {
        Some(s) => s@,
        None => "unknown"@,
    })
    &&& v.current_format@ == d.current_format@
    &&& v.hdr == d.hdr
    &&& v.vrr_active == d.vrr_active
    &&& v.vrr_selected == selected(d)
    &&& v.vrr_from_config == d.configured_vrr is Some
    &&& v.has_config_line == d.configured_line is Some
    &&& v.configured_line@ == (match d.configured_line {
        Some(s) => s@,
        None => Seq::empty(),
    })
    &&& v.no_modes == (d.modes@.len() == 0)
    &&& same_modes(v.modes@, d.modes@)
}

fn copy_modes(modes: &Vec<ModeView>) -> (r: Vec<ModeView>)
    ensures
        same_modes(r@, modes@),
{
    let mut out: Vec<ModeView> = Vec::new();
    let mut i: usize = 0;
    while i < modes.len()
        invariant
            i <= modes.len(),
            out@.len() == i,
            forall|k: int|
                0 <= k < i ==> (#[trigger] out@[k]).value@ == modes@[k].value@ && out@[k].label@
                    == modes@[k].label@ && out@[k].current == modes@[k].current,
        decreases modes.len() - i,
    {
        out.push(
            ModeView {
                value: modes[i].value.clone(),
                label: modes[i].label.clone(),
                current: modes[i].current,
            },
        );
        i += 1;
    }
    out
}

fn show_display(d: &DisplayState) -> (r: DisplayView)
    ensures
        shows(r, *d),
{
    DisplayView {
        name: d.name.clone(),
        description: d.description.clone(),
        current_label: match &d.current_label {
            Some(s) => s.clone(),
            None => "unknown".to_owned(),
        },
        current_format: d.current_format.clone(),
        hdr: d.hdr,
        vrr_active: d.vrr_active,
        vrr_selected: match d.configured_vrr {
            Some(v) => v,
            None => if d.vrr_active {
                1
            } else {
                0
            },
        },
        vrr_from_config: d.configured_vrr.is_some(),
        has_config_line: d.configured_line.is_some(),
        configured_line: match &d.configured_line {
            Some(s) => s.clone(),
            None => String::new(),
        },
        no_modes: d.modes.len() == 0,
        modes: copy_modes(&d.modes),
    }
}

/// How the state of the displays read.
#[derive(Debug, Clone, PartialEq, Eq)]
pub enum StateReply {
    Read(DisplaysState),
    /// It could not be read, for this reason.
    Unreadable(String),
    /// There was none, for this reason.
    Failed(String),
}

/// The section for what the daemon said.
pub fn render_section(reply: &StateReply, notice: Option<Notice>) -> (r: DisplayModeTemplate)
    ensures
        says(r, notice),
        match *reply {
            StateReply::Failed(e) => is_unavailable(r) && r.error@ == e@,
            StateReply::Unreadable(e) => is_unavailable(r) && r.error@
                == "could not parse the daemon's display state: "@ + e@,
            StateReply::Read(s) => {
                &&& r.available
                &&& r.error@.len() == 0
                &&& r.revert_seconds == s.revert_seconds
                &&& r.config_path@ == s.config_path@
                &&& r.config_present == s.config_present
                &&& r.displays@.len() == s.displays@.len()
                &&& forall|i: int|
                    0 <= i < r.displays@.len() ==> shows(#[trigger] r.displays@[i], s.displays@[i])
                &&& match s.pending {
                    Some(p) => r.pending && r.pending_monitor@ == p.monitor@ && r.pending_applied@
                        == p.applied@ && r.pending_previous@ == p.previous@ && r.pending_seconds
                        == p.seconds_remaining,
                    None => !r.pending && r.pending_monitor@.len() == 0
                        && r.pending_applied@.len() == 0 && r.pending_previous@.len() == 0
                        && r.pending_seconds == 0,
                }
            },
        },
{
    let s = match reply {
        StateReply::Read(s) => s,
        StateReply::Unreadable(e) => {
            let mut m = "could not parse the daemon's display state: ".to_owned();
            m.push_str(e.as_str());
            return DisplayModeTemplate::unavailable(m, notice);
        },
        StateReply::Failed(e) => {
            return DisplayModeTemplate::unavailable(e.clone(), notice);
        },
    };
    let mut displays: Vec<DisplayView> = Vec::new();
    let mut i: usize = 0;
    while i < s.displays.len()
        invariant
            i <= s.displays.len(),
            displays@.len() == i,
            forall|k: int| 0 <= k < i ==> shows(#[trigger] displays@[k], s.displays@[k]),
        decreases s.displays.len() - i,
    {
        displays.push(show_display(&s.displays[i]));
        i += 1;
    }
    let (notice_shown, notice_ok, notice_text) = match notice {
        Some((ok, t)) => (true, ok, t),
        None => (false, false, String::new()),
    };
    let (pending, pending_monitor, pending_applied, pending_previous, pending_seconds) =
        match &s.pending {
        Some(p) => (
            true,
            p.monitor.clone(),
            p.applied.clone(),
            p.previous.clone(),
            p.seconds_remaining,
        ),
        None => (false, String::new(), String::new(), String::new(), 0u64),
    };
    DisplayModeTemplate {
        available: true,
        error: String::new(),
        notice_shown,
        notice_ok,
        notice_text,
        pending,
        pending_monitor,
        pending_applied,
        pending_previous,
        pending_seconds,
        revert_seconds: s.revert_seconds,
        config_path: s.config_path.clone(),
        config_present: s.config_present,
        displays,
    }
}

// ---------------------------------------------------------------------------
// What the controls do
// ---------------------------------------------------------------------------

/// A form with a display and a mode.
#[derive(Debug, Clone, PartialEq, Eq)]
pub struct ApplyForm {
    pub monitor: String,
    pub mode: String,
}

/// A form with a display and how its refresh rate may vary.
#[derive(Debug, Clone, PartialEq, Eq)]
pub struct VrrForm {
    pub monitor: String,
    pub vrr: String,
}

/// What a form comes to.
#[derive(Debug, Clone, PartialEq, Eq)]
pub enum Control {
    /// A line to be sent, and what is said once it was.
    Send { line: String, done: String },
    /// What is wrong with the form.
    Wrong(String),
}

/// What a form comes to.
pub enum ControlView {
    Send { line: Seq<char>, done: Seq<char> },
    Wrong(Seq<char>),
}

impl View for Control {
    type V = ControlView;

    open spec fn view(&self) -> ControlView {
        match *self {
            Control::Send { line, done } => ControlView::Send { line: line@, done: done@ },
            Control::Wrong(e) => ControlView::Wrong(e@),
        }
    }
}

/// Applies a mode to a display.
pub fn render_apply(form: &ApplyForm) -> (r: Control)
    ensures
        r@ == (match (ipc_console::word_of(form.monitor@), ipc_console::word_of(form.mode@)) {
            (Ok(m), Ok(v)) => ControlView::Send {
                line: "hypr-set-mode "@ + m + " "@ + v,
                done: "Applied "@ + v + " to "@ + m + "."@,
            },
            (Err(e), _) => ControlView::Wrong(e),
            (Ok(_), Err(e)) => ControlView::Wrong(e),
        }),
{
    match (validate_token(form.monitor.as_str()), validate_token(form.mode.as_str())) {
        (Ok(m), Ok(v)) => {
            let mut line = "hypr-set-mode ".to_owned();
            line.push_str(m.as_str());
            line.push_str(" ");
            line.push_str(v.as_str());
            let mut done = "Applied ".to_owned();
            done.push_str(v.as_str());
            done.push_str(" to ");
            done.push_str(m.as_str());
            done.push_str(".");
            Control::Send { line, done }
        },
        (Err(e), _) => Control::Wrong(e),
        (Ok(_), Err(e)) => Control::Wrong(e),
    }
}

/// The word for how a refresh rate may vary.
pub open spec fn vrr_word(vrr: nat) -> Seq<char> {
    if vrr == 0 {
        "off"@
    } else if vrr == 1 {
        "on"@
    } else {
        "fullscreen only"@
    }
}

/// The word for how a refresh rate may vary.
pub fn vrr_label(vrr: u8) -> (r: &'static str)
    ensures
        r@ == vrr_word(vrr as nat),
{
    match vrr {
        0 => "off",
        1 => "on",
        _ => "fullscreen only",
    }
}

/// Sets how the refresh rate of a display may vary.
pub fn render_vrr(form: &VrrForm) -> (r: Control)
    ensures
        r@ == (match (
            ipc_console::word_of(form.monitor@),
            text::parsed_uint(text::trimmed(form.vrr@), 10, 255),
        ) {
            (Err(e), _) => ControlView::Wrong(e),
            (Ok(m), Some(v)) => if v <= 2 {
                ControlView::Send {
                    line: "hypr-set-vrr "@ + m + " "@ + text::dec(v),
                    done: "Set VRR to "@ + vrr_word(v) + " on "@ + m + "."@,
                }
            } else {
                ControlView::Wrong(
                    "invalid VRR mode "@ + text::debugged(form.vrr@) + " — expected 0, 1 or 2"@,
                )
            },
            (Ok(_), None) => ControlView::Wrong(
                "invalid VRR mode "@ + text::debugged(form.vrr@) + " — expected 0, 1 or 2"@,
            ),
        }),
{
    match validate_token(form.monitor.as_str()) {
        Err(e) => Control::Wrong(e),
        Ok(m) => {
            match text::parse_uint(text::trim(form.vrr.as_str()).as_str(), 10, 255) {
                Some(v) => {
                    if v <= 2 {
                        let mut line = "hypr-set-vrr ".to_owned();
                        line.push_str(m.as_str());
                        line.push_str(" ");
                        line.push_str(text::decimal(v).as_str());
                        let mut done = "Set VRR to ".to_owned();
                        done.push_str(vrr_label(v as u8));
                        done.push_str(" on ");
                        done.push_str(m.as_str());
                        done.push_str(".");
                        return Control::Send { line, done };
                    }
                },
                None => {},
            }
            let mut e = "invalid VRR mode ".to_owned();
            e.push_str(text::debug_text(form.vrr.as_str()).as_str());
            e.push_str(" — expected 0, 1 or 2");
            Control::Wrong(e)
        },
    }
}

/// Takes a change back.
pub fn render_revert() -> (r: Control)
    ensures
        r@ == (ControlView::Send {
            line: "hypr-display-revert"@,
            done: "Reverted to the previous display settings."@,
        }),
{
    Control::Send {
        line: "hypr-display-revert".to_owned(),
        done: "Reverted to the previous display settings.".to_owned(),
    }
}

/// What is said once a line was sent.
pub fn command_notice(reply: Result<String, String>, done: &str) -> (r: Notice)
    ensures
        match reply {
            Ok(_) => r.0 && r.1@ == done@,
            Err(e) => !r.0 && r.1@ == e@,
        },
{
    match reply {
        Ok(_) => (true, done.to_owned()),
        Err(e) => (false, e),
    }
}

/// What is said of the daemon's answer to a confirmation: whether the change was
/// kept for good, and where.
pub open spec fn confirmed(answer: json::JsonView) -> (bool, Seq<char>) {
    let path = match json::member(answer, "configPath"@) {
        Some(json::JsonView::Text(p)) => p,
        _ => "the local Hyprland config"@,
    };
    let error = match json::member(answer, "persistError"@) {
        Some(json::JsonView::Text(e)) => e,
        _ => "unknown error"@,
    };
    if json::bool_or(answer, "persisted"@, false) {
        (true, "Kept, and written to "@ + path + "."@)
    } else {
        (
            false,
            "Kept for this session, but could NOT be written to "@ + path + ": "@ + error
                + ". It will revert when Hyprland restarts."@,
        )
    }
}

fn text_at_or(v: &Json, key: &str, default: &str) -> (r: String)
    ensures
        r@ == (match json::member(v@, key@) {
            Some(json::JsonView::Text(s)) => s,
            _ => default@,
        }),
{
    match v.get(key) {
        Some(Json::Text(s)) => s.clone(),
        _ => default.to_owned(),
    }
}

/// What is said of the daemon's answer to a confirmation.
pub fn confirm_notice(answer: &Json) -> (r: Notice)
    ensures
        (r.0, r.1@) == confirmed(answer@),
{
    let path = text_at_or(answer, "configPath", "the local Hyprland config");
    if answer.bool_at("persisted", false) {
        let mut m = "Kept, and written to ".to_owned();
        m.push_str(path.as_str());
        m.push_str(".");
        (true, m)
    } else {
        let mut m = "Kept for this session, but could NOT be written to ".to_owned();
        m.push_str(path.as_str());
        m.push_str(": ");
        m.push_str(text_at_or(answer, "persistError", "unknown error").as_str());
        m.push_str(". It will revert when Hyprland restarts.");
        (false, m)
    }
}

/// What is said of a change that was kept, where its line stands in the file at
/// `path`, or does not for the reason `error`.
pub open spec fn kept(path: Seq<char>, error: Option<Seq<char>>) -> (bool, Seq<char>) {
    match error {
        None => (true, "Kept, and written to "@ + path + "."@),
        Some(e) => (
            false,
            "Kept for this session, but could NOT be written to "@ + path + ": "@ + e
                + ". It will revert when Hyprland restarts."@,
        ),
    }
}

proof fn lemma_confirmation(
    s: Seq<char>,
    p: display_change::PendingView,
    path: Seq<char>,
    error: Option<Seq<char>>,
)
    requires
        json::reads_back(s),
        s == json::compact(display_change::confirmed_view(p, path, error)),
    ensures
        json::json_read(s) is Ok,
        confirmed(json::json_read(s)->Ok_0) == kept(path, error),
{
    let v = display_change::confirmed_view(p, path, error);
    let entries = v->Object_0;
    reveal_strlit("configPath");
    reveal_strlit("line");
    reveal_strlit("monitor");
    reveal_strlit("ok");
    reveal_strlit("persistError");
    reveal_strlit("persisted");
    let a = "persistError"@;
    let b = "persisted"@;
    assert(text::precedes(a, b)) by {
        assert(a[7] == 'E' && b[7] == 'e');
        reveal_with_fuel(text::precedes, 9);
    }
    assert forall|i: int, j: int| 0 <= i < j < entries.len() implies text::precedes(
        (#[trigger] entries[i]).0,
        (#[trigger] entries[j]).0,
    ) by {}
    assert forall|i: int| 0 <= i < entries.len() implies json::plain(
        (#[trigger] entries[i]).1,
        (json::DEPTH - 1) as nat,
    ) by {}
    reveal_strlit("$serde_json::private::RawValue");
    reveal_strlit("$serde_json::private::Number");
    assert(entries[0].0[0] == 'c');
    assert(json::plain(v, json::DEPTH as nat));
    assert(json::spells(s, v));
    let read = json::json_read(s)->Ok_0;
    json::lemma_alike_member(read, v, "configPath"@);
    json::lemma_alike_member(read, v, "persistError"@);
    json::lemma_alike_member(read, v, "persisted"@);
    json::lemma_ordered_entry(entries, 0);
    if error is None {
        json::lemma_ordered_entry(entries, 4);
    } else {
        json::lemma_ordered_entry(entries, 4);
        json::lemma_ordered_entry(entries, 5);
    }
}

/// What is said once a change was confirmed. An answer that is no JSON says
/// nothing.
pub fn render_confirm(reply: Result<String, String>) -> (r: Notice)
    ensures
        match reply {
            Err(e) => !r.0 && r.1@ == e@,
            Ok(s) => (r.0, r.1@) == confirmed(
                match json::json_read(s@) {
                    Ok(v) => v,
                    Err(_) => json::JsonView::Null,
                },
            ),
        },
        forall|p: display_change::PendingView, path: Seq<char>, error: Option<Seq<char>>|
            (reply matches Ok(s) && s@ == #[trigger] json::compact(
                display_change::confirmed_view(p, path, error),
            )) ==> (r.0, r.1@) == kept(path, error),
{
    match reply {
        Err(e) => (false, e),
        Ok(s) => {
            let answer = match parse_json(s.as_str()) {
                Ok(v) => v,
                Err(_) => Json::Null,
            };
            assert forall|
                p: display_change::PendingView,
                path: Seq<char>,
                error: Option<Seq<char>>,
            | s@ == #[trigger] json::compact(display_change::confirmed_view(p, path, error))
                implies confirmed(answer@) == kept(path, error) by {
                lemma_confirmation(s@, p, path, error);
            }
            confirm_notice(&answer)
        },
    }
}

/// A change is called kept only if the daemon says that it was written.
pub proof fn law_kept_means_written(answer: json::JsonView)
    ensures
        confirmed(answer).0 <==> json::member(answer, "persisted"@) == Some(
            json::JsonView::Bool(true),
        ),
{
}

// ---------------------------------------------------------------------------
// Laws
// ---------------------------------------------------------------------------

/// A display is shown as the daemon tells of it: its texts, its switches and its modes in
/// their order. The setting for the rate is the configured one, and where none is, what is
/// the case, which is told apart.
pub proof fn law_displays_are_shown_as_told(v: DisplayView, d: DisplayState, i: int)
    requires
        shows(v, d),
    ensures
        v.name@ == d.name@ && v.description@ == d.description@ && v.current_format@
            == d.current_format@,
        v.hdr == d.hdr && v.vrr_active == d.vrr_active,
        d.current_label matches Some(s) ==> v.current_label@ == s@,
        d.current_label is None ==> v.current_label@ == "unknown"@,
        d.configured_vrr matches Some(n) ==> v.vrr_selected == n && v.vrr_from_config,
        d.configured_vrr is None ==> v.vrr_selected == (if d.vrr_active {
            1u8
        } else {
            0u8
        }) && !v.vrr_from_config,
        d.configured_line matches Some(s) ==> v.configured_line@ == s@ && v.has_config_line,
        d.configured_line is None ==> v.configured_line@.len() == 0 && !v.has_config_line,
        v.modes@.len() == d.modes@.len(),
        v.no_modes <==> d.modes@.len() == 0,
        0 <= i < d.modes@.len() ==> v.modes@[i].value@ == d.modes@[i].value@ && v.modes@[i].label@
            == d.modes@[i].label@ && v.modes@[i].current == d.modes@[i].current,
{
}

/// A notice is shown as it is, and nothing is shown where there is none. Without an answer
/// of the daemon no display and no change is shown.
pub proof fn law_notices_are_shown(t: DisplayModeTemplate, ok: bool, s: String)
    ensures
        says(t, Some((ok, s))) ==> t.notice_shown && t.notice_ok == ok && t.notice_text@ == s@,
        says(t, None) ==> !t.notice_shown && t.notice_text@.len() == 0,
        is_unavailable(t) ==> !t.available && !t.pending && t.displays@.len() == 0,
{
}

/// The three settings of the rate have words of their own.
pub proof fn law_settings_have_words(vrr: nat)
    ensures
        vrr == 0 ==> vrr_word(vrr) == "off"@,
        vrr == 1 ==> vrr_word(vrr) == "on"@,
        vrr == 2 ==> vrr_word(vrr) == "fullscreen only"@,
{
}

/// What is said of a confirmation names the file, and the error where it was not written.
pub proof fn law_confirmations_name_the_file(
    answer: json::JsonView,
    path: Seq<char>,
    error: Seq<char>,
)
    requires
        json::member(answer, "configPath"@) == Some(json::JsonView::Text(path)),
    ensures
        json::member(answer, "persisted"@) == Some(json::JsonView::Bool(true)) ==> confirmed(answer)
            == (true, "Kept, and written to "@ + path + "."@),
        json::member(answer, "persisted"@) == Some(json::JsonView::Bool(false)) && json::member(
            answer,
            "persistError"@,
        ) == Some(json::JsonView::Text(error)) ==> confirmed(answer) == (
            false,
            "Kept for this session, but could NOT be written to "@ + path + ": "@ + error
                + ". It will revert when Hyprland restarts."@,
        ),
        kept(path, None) == (true, "Kept, and written to "@ + path + "."@),
        kept(path, Some(error)) == (
            false,
            "Kept for this session, but could NOT be written to "@ + path + ": "@ + error
                + ". It will revert when Hyprland restarts."@,
        ),
{
}

} // verus!
