//! What the compositor says, and what follows from it.
//!
//! The compositor answers queries with JSON and reports changes as lines of the
//! form `EVENT>>DATA`. The functions here reduce both to what the shell needs,
//! decide where windows go, and keep account of the windows across the loss of
//! an output.

use crate::config::join_path;
use crate::json::{parse_json, signed_json, text_json, Fields, Json};
use crate::text;
use crate::workspaces;
use vstd::prelude::*;

verus! {

/// Milliseconds after which a query is given up.
pub const REQUEST_TIMEOUT_MS: u64 = 3_000;

/// Milliseconds after which a change of the display is given up. It waits for
/// the display itself, so it takes far longer than a query.
pub const KEYWORD_TIMEOUT_MS: u64 = 60_000;

/// Milliseconds after which the parking of one window is given up.
pub const PARK_TIMEOUT_MS: u64 = 60_000;

/// How often the class of a new window is looked up.
pub const CLASS_ATTEMPTS: u32 = 10;

/// Milliseconds before each of those lookups.
pub const CLASS_INTERVAL_MS: u64 = 100;

/// Consecutive failures to connect from which on each is reported as an error.
pub const ESCALATE_AFTER: u32 = 5;

/// Requests to the part of the daemon that talks to the compositor.
#[derive(Debug, PartialEq, Eq)]
pub enum HyprReq {
    /// The active window.
    Active,
    /// All windows.
    Clients,
    /// All outputs.
    Monitors,
    /// Outputs, their modes and the change that awaits confirmation.
    DisplayState,
    /// Apply a mode and arm the revert timer.
    SetMode { monitor: String, mode: String },
    /// Apply a VRR setting and arm the revert timer.
    SetVrr { monitor: String, vrr: u8 },
    /// Keep the pending change and write it down.
    DisplayConfirm,
    /// Put the previous line back now.
    DisplayRevert,
}

// ---------------------------------------------------------------------------
// Reconnecting
// ---------------------------------------------------------------------------

/// How loudly a failure to connect is reported.
#[derive(Debug, Clone, Copy, PartialEq, Eq, Structural)]
pub enum ReconnectSeverity {
    /// A routine failure.
    Warn,
    /// One of a long row of failures.
    Escalate,
}

/// A row of failures with one more.
pub open spec fn longer(failures: u32) -> u32 {
    if failures == u32::MAX {
        u32::MAX
    } else {
        (failures + 1) as u32
    }
}

/// How a failure is reported that ends a row of so many.
pub open spec fn severity(failures: u32, threshold: u32) -> ReconnectSeverity {
    if failures >= threshold {
        ReconnectSeverity::Escalate
    } else {
        ReconnectSeverity::Warn
    }
}

/// The row of failures after `n` attempts that all failed, the first of them after a
/// success.
pub open spec fn row(n: nat) -> u32
    decreases n,
{
    if n == 0 {
        0
    } else {
        longer(row((n - 1) as nat))
    }
}

/// Counts one attempt to connect: a success ends the row of failures, a failure
/// prolongs it and is reported by its length.
pub fn note_reconnect(failures: &mut u32, ok: bool, threshold: u32) -> (r: Option<
    ReconnectSeverity,
>)
    ensures
        ok ==> *final(failures) == 0 && r is None,
        !ok ==> *final(failures) == longer(*old(failures)),
        !ok ==> r == Some(severity(*final(failures), threshold)),
{
    if ok {
        *failures = 0;
        return None;
    }
    if *failures < u32::MAX {
        *failures = *failures + 1;
    }
    if *failures >= threshold {
        Some(ReconnectSeverity::Escalate)
    } else {
        Some(ReconnectSeverity::Warn)
    }
}

/// The failures before the threshold are routine; that one and every later one is
/// escalated, until an attempt succeeds.
pub proof fn law_lasting_failure_is_escalated(n: nat, threshold: u32)
    ensures
        severity(row(n), threshold) == (if n >= threshold {
            ReconnectSeverity::Escalate
        } else {
            ReconnectSeverity::Warn
        }),
        n <= u32::MAX ==> row(n) == n,
        n > u32::MAX ==> row(n) == u32::MAX,
    decreases n,
{
    if n > 0 {
        law_lasting_failure_is_escalated((n - 1) as nat, threshold);
    }
}

/// Seconds to wait before the next attempt, and before the one after that if it
/// fails too: twice as long, half a minute at most. A clean end starts over at
/// one second.
pub fn backoff(seconds: u64, ok: bool) -> (r: (u64, u64))
    ensures
        r.0 == (if ok {
            1u64
        } else {
            seconds
        }),
        r.1 == (if r.0 >= 15 {
            30u64
        } else {
            (r.0 * 2) as u64
        }),
{
    let now: u64 = if ok {
        1
    } else {
        seconds
    };
    if now >= 15 {
        (now, 30)
    } else {
        (now, now * 2)
    }
}

// ---------------------------------------------------------------------------
// Queries
// ---------------------------------------------------------------------------

/// The text under `key` of the object under `outer`, or an empty one.
pub open spec fn inner_text(v: crate::json::JsonView, outer: Seq<char>, key: Seq<char>) -> Seq<char> {
    match crate::json::member(v, outer) {
        Some(w) => crate::json::text_or_empty(w, key),
        None => Seq::empty(),
    }
}

fn inner_text_at(v: &Json, outer: &str, key: &str) -> (r: String)
    ensures
        r@ == inner_text(v@, outer@, key@),
{
    match v.get(outer) {
        Some(w) => w.text_at(key),
        None => String::new(),
    }
}

/// Whether a window fills the screen: `true`, or a whole number other than zero.
pub open spec fn fullscreen_in(v: crate::json::JsonView) -> bool {
    match crate::json::member(v, "fullscreen"@) {
        Some(crate::json::JsonView::Bool(b)) => b,
        Some(crate::json::JsonView::Number(n)) => n.signed matches Some(i) && i != 0,
        _ => false,
    }
}

/// Whether a window fills the screen. The compositor says so with a truth value
/// or with a mode, of which zero is none.
pub fn is_fullscreen(v: &Json) -> (r: bool)
    ensures
        r == fullscreen_in(v@),
{
    match v.get("fullscreen") {
        Some(Json::Bool(b)) => *b,
        Some(Json::Number(n)) => match n.signed {
            Some(i) => i != 0,
            None => false,
        },
        _ => false,
    }
}

/// What is kept of the active window.
pub open spec fn active_view(v: crate::json::JsonView) -> crate::json::JsonView {
    crate::json::JsonView::Object(
        seq![
            ("address"@, crate::json::JsonView::Text(crate::json::text_or_empty(v, "address"@))),
            ("class"@, crate::json::JsonView::Text(crate::json::text_or_empty(v, "class"@))),
            ("fullscreen"@, crate::json::JsonView::Bool(fullscreen_in(v))),
            ("title"@, crate::json::JsonView::Text(crate::json::text_or_empty(v, "title"@))),
        ],
    )
}

/// What is kept of the active window.
pub fn active_entry(v: &Json) -> (r: Json)
    ensures
        r@ == active_view(v@),
{
    let fields = Fields::new().with("address", text_json(v.text_at("address").as_str())).with(
        "class",
        text_json(v.text_at("class").as_str()),
    ).with("fullscreen", Json::Bool(is_fullscreen(v))).with(
        "title",
        text_json(v.text_at("title").as_str()),
    );
    assert(fields@ =~= active_view(v@)->Object_0);
    fields.object()
}

/// The reply about the active window.
pub open spec fn active_reply(body: Seq<char>) -> Seq<char> {
    let t = text::trimmed(body);
    match crate::json::json_read(t) {
        Ok(v) => if t.len() > 0 && crate::json::member(v, "class"@) is Some {
            crate::json::compact(active_view(v))
        } else {
            "{}"@
        },
        Err(_) => "{}"@,
    }
}

/// Reduces the compositor's answer on the active window to what is kept of it;
/// `{}` where there is none.
pub fn parse_active(body: &str) -> (r: String)
    ensures
        r@ == active_reply(body@),
{
    let t = text::trim(body);
    if t.as_str().is_empty() {
        return "{}".to_owned();
    }
    match parse_json(t.as_str()) {
        Ok(v) => if v.get("class").is_some() {
            active_entry(&v).to_compact()
        } else {
            "{}".to_owned()
        },
        Err(_) => "{}".to_owned(),
    }
}

/// What is kept of a window.
pub open spec fn client_view(v: crate::json::JsonView) -> crate::json::JsonView {
    crate::json::JsonView::Object(
        seq![
            ("address"@, crate::json::JsonView::Text(crate::json::text_or_empty(v, "address"@))),
            ("class"@, crate::json::JsonView::Text(crate::json::text_or_empty(v, "class"@))),
            (
                "focusHistoryId"@,
                crate::json::whole(crate::json::signed_or(v, "focusHistoryID"@, 9999) as int),
            ),
            ("title"@, crate::json::JsonView::Text(crate::json::text_or_empty(v, "title"@))),
            ("workspace"@, crate::json::JsonView::Text(inner_text(v, "workspace"@, "name"@))),
        ],
    )
}

/// What is kept of a window. One whose place in the order of focus is unknown is
/// placed last.
pub fn client_entry(v: &Json) -> (r: Json)
    ensures
        r@ == client_view(v@),
{
    let fields = Fields::new().with("address", text_json(v.text_at("address").as_str())).with(
        "class",
        text_json(v.text_at("class").as_str()),
    ).with("focusHistoryId", signed_json(v.signed_at("focusHistoryID", 9999))).with(
        "title",
        text_json(v.text_at("title").as_str()),
    ).with("workspace", text_json(inner_text_at(v, "workspace", "name").as_str()));
    assert(fields@ =~= client_view(v@)->Object_0);
    fields.object()
}

/// What is kept of each window of a list.
pub open spec fn client_views(items: Seq<crate::json::JsonView>) -> Seq<crate::json::JsonView> {
    Seq::new(items.len(), |i: int| client_view(items[i]))
}

/// What is kept of each output of a list.
pub open spec fn monitor_views(items: Seq<crate::json::JsonView>) -> Seq<crate::json::JsonView> {
    Seq::new(items.len(), |i: int| monitor_view(items[i]))
}

/// The reply about all windows.
pub open spec fn clients_reply(body: Seq<char>) -> Seq<char> {
    match crate::json::json_read(text::trimmed(body)) {
        Ok(crate::json::JsonView::Array(items)) => crate::json::compact(crate::json::JsonView::Array(client_views(items))),
        _ => "[]"@,
    }
}

/// Reduces the compositor's list of windows to what is kept of each; `[]` where
/// there is no list.
pub fn parse_clients(body: &str) -> (r: String)
    ensures
        r@ == clients_reply(body@),
{
    let t = text::trim(body);
    match parse_json(t.as_str()) {
        Ok(Json::Array(items)) => {
            let mut out: Vec<Json> = Vec::new();
            let mut i: usize = 0;
            while i < items.len()
                invariant
                    i <= items.len(),
                    out@.len() == i,
                    forall|k: int| 0 <= k < i ==> (#[trigger] out@[k])@ == client_view(items@[k]@),
                decreases items.len() - i,
            {
                out.push(client_entry(&items[i]));
                i += 1;
            }
            let ghost read = Json::Array(items);
            let doc = Json::Array(out);
            proof {
                crate::json::lemma_said(read);
                crate::json::lemma_said(doc);
                assert(crate::json::items_said(out@) =~= client_views(
                    crate::json::items_said(items@),
                ));
            }
            doc.to_compact()
        },
        _ => "[]".to_owned(),
    }
}

/// The modes that an output reports, as they came.
pub open spec fn modes_in(v: crate::json::JsonView) -> crate::json::JsonView {
    match crate::json::member(v, "availableModes"@) {
        Some(m) => m,
        None => crate::json::JsonView::Array(Seq::empty()),
    }
}

/// What is kept of an output. Ten bits for each colour stand for HDR, which the
/// compositor does not report.
pub open spec fn monitor_view(v: crate::json::JsonView) -> crate::json::JsonView {
    let format = crate::json::text_or_empty(v, "currentFormat"@);
    crate::json::JsonView::Object(
        seq![
            ("activeWorkspace"@, crate::json::JsonView::Text(inner_text(v, "activeWorkspace"@, "name"@))),
            ("availableModes"@, modes_in(v)),
            ("currentFormat"@, crate::json::JsonView::Text(format)),
            ("description"@, crate::json::JsonView::Text(crate::json::text_or_empty(v, "description"@))),
            ("dpmsStatus"@, crate::json::JsonView::Bool(crate::json::bool_or(v, "dpmsStatus"@, true))),
            ("hdr"@, crate::json::JsonView::Bool(text::has_text(format, "2101010"@))),
            ("height"@, crate::json::whole(crate::json::unsigned_or(v, "height"@, 0) as int)),
            ("name"@, crate::json::JsonView::Text(crate::json::text_or_empty(v, "name"@))),
            ("refreshRate"@, crate::json::spelled(crate::json::float_or(v, "refreshRate"@, "0.0"@))),
            ("scale"@, crate::json::spelled(crate::json::float_or(v, "scale"@, "1.0"@))),
            ("vrr"@, crate::json::JsonView::Bool(crate::json::bool_or(v, "vrr"@, false))),
            ("width"@, crate::json::whole(crate::json::unsigned_or(v, "width"@, 0) as int)),
            ("x"@, crate::json::whole(crate::json::signed_or(v, "x"@, 0) as int)),
            ("y"@, crate::json::whole(crate::json::signed_or(v, "y"@, 0) as int)),
        ],
    )
}

/// What is kept of an output.
pub fn monitor_entry(v: &Json) -> (r: Json)
    ensures
        r@ == monitor_view(v@),
{
    let format = v.text_at("currentFormat");
    let hdr = text::contains_text(format.as_str(), "2101010");
    let modes = match v.get("availableModes") {
        Some(m) => m.copy(),
        None => {
            let none = Json::Array(Vec::new());
            proof {
                crate::json::lemma_said(none);
                assert(none@->Array_0 =~= Seq::empty());
            }
            none
        },
    };
    let fields = Fields::new().with(
        "activeWorkspace",
        text_json(inner_text_at(v, "activeWorkspace", "name").as_str()),
    ).with("availableModes", modes).with("currentFormat", text_json(format.as_str())).with(
        "description",
        text_json(v.text_at("description").as_str()),
    ).with("dpmsStatus", Json::Bool(v.bool_at("dpmsStatus", true))).with(
        "hdr",
        Json::Bool(hdr),
    ).with("height", crate::json::unsigned_json(v.unsigned_at("height", 0))).with(
        "name",
        text_json(v.text_at("name").as_str()),
    ).with("refreshRate", crate::json::float_json(v.float_at("refreshRate", "0.0").as_str())).with(
        "scale",
        crate::json::float_json(v.float_at("scale", "1.0").as_str()),
    ).with("vrr", Json::Bool(v.bool_at("vrr", false))).with(
        "width",
        crate::json::unsigned_json(v.unsigned_at("width", 0)),
    ).with("x", signed_json(v.signed_at("x", 0))).with("y", signed_json(v.signed_at("y", 0)));
    assert(fields@ =~= monitor_view(v@)->Object_0);
    fields.object()
}

/// What is kept of the outputs that an answer lists.
pub open spec fn monitors_in(body: Seq<char>) -> Seq<crate::json::JsonView> {
    match crate::json::json_read(text::trimmed(body)) {
        Ok(crate::json::JsonView::Array(items)) => monitor_views(items),
        _ => Seq::empty(),
    }
}

/// The outputs of the compositor's answer, reduced to what is kept of each; none
/// where there is no list.
pub fn monitor_list(body: &str) -> (r: Vec<Json>)
    ensures
        crate::json::items_said(r@) == monitors_in(body@),
{
    let t = text::trim(body);
    let mut out: Vec<Json> = Vec::new();
    match parse_json(t.as_str()) {
        Ok(Json::Array(items)) => {
            let mut i: usize = 0;
            while i < items.len()
                invariant
                    i <= items.len(),
                    out@.len() == i,
                    forall|k: int| 0 <= k < i ==> (#[trigger] out@[k])@ == monitor_view(items@[k]@),
                decreases items.len() - i,
            {
                out.push(monitor_entry(&items[i]));
                i += 1;
            }
            let ghost read = Json::Array(items);
            proof {
                crate::json::lemma_said(read);
                assert(crate::json::items_said(out@) =~= monitor_views(
                    crate::json::items_said(items@),
                ));
            }
        },
        _ => {
            assert(crate::json::items_said(out@) =~= Seq::empty());
        },
    }
    out
}

/// The reply about all outputs.
pub fn parse_monitors(body: &str) -> (r: String)
    ensures
        r@ == crate::json::compact(crate::json::JsonView::Array(monitors_in(body@))),
{
    let doc = Json::Array(monitor_list(body));
    proof {
        crate::json::lemma_said(doc);
    }
    doc.to_compact()
}

// ---------------------------------------------------------------------------
// Events
// ---------------------------------------------------------------------------

/// The fields of the report on a new window: its address, its workspace, its
/// class and, as all that follows, its title.
pub open spec fn openwindow_fields(data: Seq<char>) -> (Seq<char>, Seq<char>, Seq<char>, Seq<char>) {
    let none = Seq::<char>::empty();
    match text::cut_at(data, ',') {
        None => (text::trimmed(data), none, none, none),
        Some(a) => match text::cut_at(a.1, ',') {
            None => (text::trimmed(a.0), text::trimmed(a.1), none, none),
            Some(b) => match text::cut_at(b.1, ',') {
                None => (text::trimmed(a.0), text::trimmed(b.0), text::trimmed(b.1), none),
                Some(c) => (
                    text::trimmed(a.0),
                    text::trimmed(b.0),
                    text::trimmed(c.0),
                    text::trimmed(c.1),
                ),
            },
        },
    }
}

fn split_openwindow(data: &str) -> (r: (String, String, String, String))
    ensures
        (r.0@, r.1@, r.2@, r.3@) == openwindow_fields(data@),
{
    match text::split_once(data, ',') {
        None => (text::trim(data), String::new(), String::new(), String::new()),
        Some((a, rest)) => match text::split_once(rest.as_str(), ',') {
            None => (text::trim(a.as_str()), text::trim(rest.as_str()), String::new(), String::new()),
            Some((b, rest)) => match text::split_once(rest.as_str(), ',') {
                None => (
                    text::trim(a.as_str()),
                    text::trim(b.as_str()),
                    text::trim(rest.as_str()),
                    String::new(),
                ),
                Some((c, d)) => (
                    text::trim(a.as_str()),
                    text::trim(b.as_str()),
                    text::trim(c.as_str()),
                    text::trim(d.as_str()),
                ),
            },
        },
    }
}

/// The document that reports a new window.
pub open spec fn openwindow_view(data: Seq<char>) -> crate::json::JsonView {
    let f = openwindow_fields(data);
    crate::json::JsonView::Object(
        seq![
            ("address"@, crate::json::JsonView::Text(f.0)),
            ("class"@, crate::json::JsonView::Text(f.2)),
            ("title"@, crate::json::JsonView::Text(f.3)),
            ("workspace"@, crate::json::JsonView::Text(f.1)),
        ],
    )
}

/// The report on a new window as a document. The title may hold commas.
pub fn parse_openwindow(data: &str) -> (r: String)
    ensures
        r@ == crate::json::compact(openwindow_view(data@)),
{
    let (address, workspace, class, title) = split_openwindow(data);
    let fields = Fields::new().with("address", text_json(address.as_str())).with(
        "class",
        text_json(class.as_str()),
    ).with("title", text_json(title.as_str())).with("workspace", text_json(workspace.as_str()));
    assert(fields@ =~= openwindow_view(data@)->Object_0);
    fields.object().to_compact()
}

/// The class that the report on a new window names: its third field, where that
/// is not empty.
pub open spec fn class_in(data: Seq<char>) -> Option<Seq<char>> {
    let parts = text::split_on(data, ',');
    if parts.len() >= 3 && text::trimmed(parts[2]).len() > 0 {
        Some(text::trimmed(parts[2]))
    } else {
        None
    }
}

/// The class of a new window, where the report names one.
pub fn openwindow_class(data: &str) -> (r: Option<String>)
    ensures
        r is Some <==> class_in(data@) is Some,
        r matches Some(c) ==> class_in(data@) == Some(c@),
{
    let parts = text::split_char(data, ',');
    assert(text::views(parts@).len() == parts@.len());
    if parts.len() < 3 {
        return None;
    }
    assert(text::views(parts@)[2] == parts@[2]@);
    let class = text::trim(parts[2].as_str());
    if class.as_str().is_empty() {
        None
    } else {
        Some(class)
    }
}

/// The address that the report on a new window names: its first field, where
/// that starts with `0x`.
pub open spec fn address_in(data: Seq<char>) -> Option<Seq<char>> {
    let a = text::trimmed(text::split_on(data, ',')[0]);
    if text::occurs_at(a, "0x"@, 0) {
        Some(a)
    } else {
        None
    }
}

/// The address of a new window, where the report names one.
pub fn openwindow_address(data: &str) -> (r: Option<String>)
    ensures
        r is Some <==> address_in(data@) is Some,
        r matches Some(a) ==> address_in(data@) == Some(a@),
{
    let parts = text::split_char(data, ',');
    assert(text::views(parts@)[0] == parts@[0]@);
    let address = text::trim(parts[0].as_str());
    match text::strip_prefix(address.as_str(), "0x") {
        Some(_) => Some(address),
        None => None,
    }
}

/// A change that the compositor reported.
#[derive(Debug, PartialEq, Eq)]
pub enum HyprEvent {
    /// The class of the window that has the focus; empty where none has.
    ActiveWindow(String),
    /// Whether a window fills the screen.
    Fullscreen(bool),
    /// A new window: where to find it, if it can be found, and its report.
    OpenWindow { park: Option<NewWindow>, document: String },
    /// The address of a window that closed.
    CloseWindow(String),
    /// An output that went away.
    MonitorRemoved(String),
    /// An output that came.
    MonitorAdded(String),
    /// Nothing that concerns the shell.
    Other,
}

/// A new window and the class that its report names, if any.
#[derive(Debug, PartialEq, Eq)]
pub struct NewWindow {
    pub address: String,
    pub hint: String,
}

/// What a [`HyprEvent`] says.
pub enum EventView {
    ActiveWindow(Seq<char>),
    Fullscreen(bool),
    OpenWindow { park: Option<(Seq<char>, Seq<char>)>, document: Seq<char> },
    CloseWindow(Seq<char>),
    MonitorRemoved(Seq<char>),
    MonitorAdded(Seq<char>),
    Other,
}

impl View for HyprEvent {
    type V = EventView;

    open spec fn view(&self) -> EventView {
        match self {
            HyprEvent::ActiveWindow(s) => EventView::ActiveWindow(s@),
            HyprEvent::Fullscreen(b) => EventView::Fullscreen(*b),
            HyprEvent::OpenWindow { park, document } => EventView::OpenWindow {
                park: match park {
                    Some(w) => Some((w.address@, w.hint@)),
                    None => None,
                },
                document: document@,
            },
            HyprEvent::CloseWindow(s) => EventView::CloseWindow(s@),
            HyprEvent::MonitorRemoved(s) => EventView::MonitorRemoved(s@),
            HyprEvent::MonitorAdded(s) => EventView::MonitorAdded(s@),
            HyprEvent::Other => EventView::Other,
        }
    }
}

/// The first place where `p` occurs in `s` from `from` on, or the length of `s`.
pub open spec fn first_place(s: Seq<char>, p: Seq<char>, from: int) -> int
    decreases s.len() - from,
{
    if from < 0 || from >= s.len() {
        s.len() as int
    } else if text::occurs_at(s, p, from) {
        from
    } else {
        first_place(s, p, from + 1)
    }
}

/// The name of an event and its data: what stands before the first `>>` of a
/// line and what stands behind it.
pub open spec fn event_parts(line: Seq<char>) -> Option<(Seq<char>, Seq<char>)> {
    let n = first_place(line, ">>"@, 0);
    if n < line.len() {
        Some((line.take(n), line.skip(n + 2)))
    } else {
        None
    }
}

/// The change that an event reports.
pub open spec fn event_in(name: Seq<char>, data: Seq<char>) -> EventView {
    if name == "activewindow"@ {
        EventView::ActiveWindow(
            match text::cut_at(data, ',') {
                Some(p) => p.0,
                None => data,
            },
        )
    } else if name == "fullscreen"@ {
        EventView::Fullscreen(text::trimmed(data) == "1"@)
    } else if name == "openwindow"@ {
        EventView::OpenWindow {
            park: match address_in(data) {
                Some(a) => Some(
                    (
                        a,
                        match class_in(data) {
                            Some(c) => c,
                            None => Seq::empty(),
                        },
                    ),
                ),
                None => None,
            },
            document: crate::json::compact(openwindow_view(data)),
        }
    } else if name == "closewindow"@ {
        EventView::CloseWindow(text::trimmed(data))
    } else if name == "monitorremoved"@ || name == "monitorremovedv2"@ {
        EventView::MonitorRemoved(text::trimmed(data))
    } else if name == "monitoradded"@ || name == "monitoraddedv2"@ {
        EventView::MonitorAdded(text::trimmed(data))
    } else {
        EventView::Other
    }
}

/// The change that a line of the event stream reports.
pub open spec fn event_on(line: Seq<char>) -> EventView {
    match event_parts(line) {
        Some(p) => event_in(p.0, p.1),
        None => EventView::Other,
    }
}

fn split_event(line: &str) -> (r: Option<(String, String)>)
    ensures
        r is Some <==> event_parts(line@) is Some,
        r matches Some(p) ==> event_parts(line@) == Some((p.0@, p.1@)),
{
    let v = text::chars_of(line);
    let arrows = text::chars_of(">>");
    let mut i: usize = 0;
    proof {
        reveal_strlit(">>");
    }
    while i < v.len() && !text::starts_at(&v, i, &arrows)
        invariant
            v@ == line@,
            arrows@ == ">>"@,
            i <= v.len(),
            first_place(line@, ">>"@, 0) == first_place(line@, ">>"@, i as int),
        decreases v.len() - i,
    {
        i += 1;
    }
    if i == v.len() {
        return None;
    }
    assert(i + 2 <= v.len());
    assert(v@.subrange(0, i as int) =~= v@.take(i as int));
    assert(v@.subrange(i + 2, v@.len() as int) =~= v@.skip(i + 2));
    Some((text::text_between(&v, 0, i), text::text_between(&v, i + 2, v.len())))
}

/// The change that a line of the event stream reports.
pub fn read_event(line: &str) -> (r: HyprEvent)
    ensures
        r@ == event_on(line@),
{
    match split_event(line) {
        Some((name, data)) => event_of(name.as_str(), data.as_str()),
        None => HyprEvent::Other,
    }
}

fn event_of(name: &str, data: &str) -> (r: HyprEvent)
    ensures
        r@ == event_in(name@, data@),
{
    if text::same_text(name, "activewindow") {
        match text::split_once(data, ',') {
            Some((class, _)) => HyprEvent::ActiveWindow(class),
            None => HyprEvent::ActiveWindow(data.to_owned()),
        }
    } else if text::same_text(name, "fullscreen") {
        HyprEvent::Fullscreen(text::same_text(text::trim(data).as_str(), "1"))
    } else if text::same_text(name, "openwindow") {
        let park = match openwindow_address(data) {
            Some(address) => {
                let hint = match openwindow_class(data) {
                    Some(class) => class,
                    None => String::new(),
                };
                Some(NewWindow { address, hint })
            },
            None => None,
        };
        HyprEvent::OpenWindow { park, document: parse_openwindow(data) }
    } else if text::same_text(name, "closewindow") {
        HyprEvent::CloseWindow(text::trim(data))
    } else if text::same_text(name, "monitorremoved") || text::same_text(name, "monitorremovedv2") {
        HyprEvent::MonitorRemoved(text::trim(data))
    } else if text::same_text(name, "monitoradded") || text::same_text(name, "monitoraddedv2") {
        HyprEvent::MonitorAdded(text::trim(data))
    } else {
        HyprEvent::Other
    }
}

// ---------------------------------------------------------------------------
// Windows and their workspaces
// ---------------------------------------------------------------------------

/// Whether the answer to a dispatch means that it was accepted: `ok`, or nothing
/// at all. A refusal is told in words.
pub fn dispatch_accepted(body: &str) -> (r: bool)
    ensures
        r == (text::trimmed(body@).len() == 0 || text::same_but_case(text::trimmed(body@), "ok"@)),
{
    let reply = text::trim(body);
    reply.as_str().is_empty() || text::eq_ignore_case(reply.as_str(), "ok")
}

/// The items of the list that an answer holds, if it holds one.
pub open spec fn list_in(body: Seq<char>) -> Seq<crate::json::JsonView> {
    match crate::json::json_read(text::trimmed(body)) {
        Ok(crate::json::JsonView::Array(items)) => items,
        _ => Seq::empty(),
    }
}

fn list_of(body: &str) -> (r: Vec<Json>)
    ensures
        crate::json::items_said(r@) == list_in(body@),
{
    let t = text::trim(body);
    match parse_json(t.as_str()) {
        Ok(Json::Array(items)) => {
            proof {
                crate::json::lemma_said(Json::Array(items));
            }
            items
        },
        _ => {
            let none: Vec<Json> = Vec::new();
            assert(crate::json::items_said(none@) =~= Seq::empty());
            none
        },
    }
}

/// The class of the first of `clients` at `address`, where it has one.
pub open spec fn class_among(clients: Seq<crate::json::JsonView>, address: Seq<char>) -> Option<
    Seq<char>,
>
    decreases clients.len(),
{
    if clients.len() == 0 {
        None
    } else if crate::json::member(clients[0], "address"@) == Some(
        crate::json::JsonView::Text(address),
    ) {
        let class = text::trimmed(crate::json::text_or_empty(clients[0], "class"@));
        if class.len() > 0 {
            Some(class)
        } else {
            None
        }
    } else {
        class_among(clients.skip(1), address)
    }
}

fn is_at(client: &Json, address: &str) -> (r: bool)
    ensures
        r == (crate::json::member(client@, "address"@) == Some(
            crate::json::JsonView::Text(address@),
        )),
{
    match client.get("address") {
        Some(Json::Text(a)) => text::same_text(a.as_str(), address),
        _ => false,
    }
}

/// The class of the window at `address` among `clients`, where it has one.
pub fn class_of(clients: &Vec<Json>, address: &str) -> (r: Option<String>)
    ensures
        r is Some <==> class_among(crate::json::items_said(clients@), address@) is Some,
        r matches Some(c) ==> class_among(crate::json::items_said(clients@), address@) == Some(c@),
{
    let ghost all = crate::json::items_said(clients@);
    let mut i: usize = 0;
    assert(all.skip(0) =~= all);
    while i < clients.len()
        invariant
            i <= clients.len(),
            all == crate::json::items_said(clients@),
            class_among(all, address@) == class_among(all.skip(i as int), address@),
        decreases clients.len() - i,
    {
        let c = &clients[i];
        assert(all.skip(i as int)[0] == c@);
        assert(all.skip(i as int).skip(1) =~= all.skip(i + 1));
        if is_at(c, address) {
            let class = text::trim(c.text_at("class").as_str());
            if class.as_str().is_empty() {
                return None;
            }
            return Some(class);
        }
        i += 1;
    }
    None
}

/// The class of the window at `address`, where an answer of the compositor
/// lists it with one.
pub fn client_class(body: &str, address: &str) -> (r: Option<String>)
    ensures
        r is Some <==> class_among(list_in(body@), address@) is Some,
        r matches Some(c) ==> class_among(list_in(body@), address@) == Some(c@),
{
    class_of(&list_of(body), address)
}

/// The windows of a list that can be told apart: address and class of each that
/// has an address.
pub open spec fn index_of(clients: Seq<crate::json::JsonView>) -> Seq<(Seq<char>, Seq<char>)>
    decreases clients.len(),
{
    if clients.len() == 0 {
        Seq::empty()
    } else {
        let rest = index_of(clients.drop_last());
        let address = text::trimmed(crate::json::text_or_empty(clients.last(), "address"@));
        let class = text::trimmed(crate::json::text_or_empty(clients.last(), "class"@));
        if address.len() > 0 {
            rest.push((address, class))
        } else {
            rest
        }
    }
}

/// The views of a list of pairs.
pub open spec fn pairs_said(v: Seq<(String, String)>) -> Seq<(Seq<char>, Seq<char>)> {
    Seq::new(v.len(), |i: int| (v[i].0@, v[i].1@))
}

/// Address and class of each of `clients` that has an address.
pub fn index_clients(clients: &Vec<Json>) -> (r: Vec<(String, String)>)
    ensures
        pairs_said(r@) == index_of(crate::json::items_said(clients@)),
{
    let ghost all = crate::json::items_said(clients@);
    let mut out: Vec<(String, String)> = Vec::new();
    let mut i: usize = 0;
    assert(all.take(0) =~= Seq::empty());
    assert(pairs_said(out@) =~= index_of(all.take(0)));
    while i < clients.len()
        invariant
            i <= clients.len(),
            all == crate::json::items_said(clients@),
            pairs_said(out@) == index_of(all.take(i as int)),
        decreases clients.len() - i,
    {
        let c = &clients[i];
        let ghost next = all.take(i + 1);
        assert(next.drop_last() =~= all.take(i as int));
        assert(next.last() == c@);
        let ghost before = out@;
        proof {
            assert(text::trimmed(Seq::<char>::empty()) =~= Seq::empty());
        }
        let address = text::trim(c.text_at("address").as_str());
        if !address.as_str().is_empty() {
            let class = text::trim(c.text_at("class").as_str());
            out.push((address, class));
            assert(pairs_said(out@) =~= pairs_said(before).push((address@, class@)));
        }
        i += 1;
    }
    assert(all.take(i as int) =~= all);
    out
}

/// Address and class of each window that an answer of the compositor lists. A
/// window without a class is kept, one without an address is not.
pub fn client_index(body: &str) -> (r: Vec<(String, String)>)
    ensures
        pairs_said(r@) == index_of(list_in(body@)),
{
    index_clients(&list_of(body))
}

/// Whether a window at `address` is among `windows`.
pub open spec fn is_there(windows: Seq<(Seq<char>, Seq<char>)>, address: Seq<char>) -> bool {
    exists|i: int| 0 <= i < windows.len() && (#[trigger] windows[i]).0 == address
}

/// The windows of `before` that are not among `after`, by their addresses.
pub open spec fn vanished(
    before: Seq<(Seq<char>, Seq<char>)>,
    after: Seq<(Seq<char>, Seq<char>)>,
) -> Seq<(Seq<char>, Seq<char>)>
    decreases before.len(),
{
    if before.len() == 0 {
        Seq::empty()
    } else {
        let rest = vanished(before.drop_last(), after);
        if is_there(after, before.last().0) {
            rest
        } else {
            rest.push(before.last())
        }
    }
}

/// The windows of `before` that are not among `after`. Windows are told apart by
/// their addresses: two of one class are two, and one that got its class later
/// is still the same.
pub fn vanished_windows(before: &[(String, String)], after: &[(String, String)]) -> (r: Vec<
    (String, String),
>)
    ensures
        pairs_said(r@) == vanished(pairs_said(before@), pairs_said(after@)),
{
    let ghost all = pairs_said(before@);
    let ghost seen = pairs_said(after@);
    let mut out: Vec<(String, String)> = Vec::new();
    let mut i: usize = 0;
    assert(all.take(0) =~= Seq::empty());
    assert(pairs_said(out@) =~= vanished(all.take(0), seen));
    while i < before.len()
        invariant
            i <= before.len(),
            all == pairs_said(before@),
            seen == pairs_said(after@),
            pairs_said(out@) == vanished(all.take(i as int), seen),
        decreases before.len() - i,
    {
        let ghost next = all.take(i + 1);
        assert(next.drop_last() =~= all.take(i as int));
        assert(next.last() == all[i as int]);
        let ghost kept = out@;
        let mut found = false;
        let mut k: usize = 0;
        while k < after.len()
            invariant
                k <= after.len(),
                i < before.len(),
                all == pairs_said(before@),
                seen == pairs_said(after@),
                found <==> exists|j: int|
                    0 <= j < k && (#[trigger] seen[j]).0 == all[i as int].0,
            decreases after.len() - k,
        {
            assert(seen[k as int].0 == after@[k as int].0@);
            if text::same_text(after[k].0.as_str(), before[i].0.as_str()) {
                found = true;
            }
            k += 1;
        }
        if !found {
            let w = (before[i].0.clone(), before[i].1.clone());
            out.push(w);
            assert(pairs_said(out@) =~= pairs_said(kept).push(all[i as int]));
        }
        i += 1;
    }
    assert(all.take(i as int) =~= all);
    out
}

/// A window and the workspace that it is parked on.
#[derive(Debug, PartialEq, Eq)]
pub struct Parking {
    pub class: String,
    pub address: String,
    pub workspace: u32,
    /// The dispatch that moves the window there.
    pub command: String,
}

/// What a [`Parking`] says.
pub struct ParkingView {
    pub class: Seq<char>,
    pub address: Seq<char>,
    pub workspace: u32,
}

/// What the dispatch says that moves the window at `address` to `workspace`.
pub open spec fn move_text(workspace: u32, address: Seq<char>) -> Seq<char> {
    "dispatch movetoworkspacesilent "@ + text::dec(workspace as nat) + ",address:"@ + address
}

/// Whether `p` says `v`.
pub open spec fn parks(p: Parking, v: ParkingView) -> bool {
    p.class@ == v.class && p.address@ == v.address && p.workspace == v.workspace && p.command@
        == move_text(v.workspace, v.address)
}

/// The state of a registry: the workspace of each class, and the next one.
pub struct Assigned {
    pub map: Map<Seq<char>, u32>,
    pub next: u32,
}

/// The state of `r`.
pub open spec fn assigned_in(r: workspaces::Registry) -> Assigned {
    Assigned { map: r@, next: r.next_free() }
}

/// The workspace of `class`, which is not empty.
pub open spec fn workspace_of(a: Assigned, class: Seq<char>) -> u32 {
    if a.map.contains_key(class) {
        a.map[class]
    } else {
        a.next
    }
}

/// `a` once `class`, which is not empty, has a workspace.
pub open spec fn with_class(a: Assigned, class: Seq<char>) -> Assigned {
    if a.map.contains_key(class) {
        a
    } else {
        Assigned {
            map: a.map.insert(class, a.next),
            next: if a.next == u32::MAX {
                u32::MAX
            } else {
                (a.next + 1) as u32
            },
        }
    }
}

/// Where the windows of a list are parked, and what is assigned then. A window
/// without a class or an address stays where it is.
pub open spec fn reconciled(clients: Seq<crate::json::JsonView>, a: Assigned) -> (
    Seq<ParkingView>,
    Assigned,
)
    decreases clients.len(),
{
    if clients.len() == 0 {
        (Seq::empty(), a)
    } else {
        let before = reconciled(clients.drop_last(), a);
        let class = text::trimmed(crate::json::text_or_empty(clients.last(), "class"@));
        let address = crate::json::text_or_empty(clients.last(), "address"@);
        if class.len() == 0 || address.len() == 0 {
            before
        } else {
            let workspace = workspace_of(before.1, class);
            (
                before.0.push(ParkingView { class, address, workspace }),
                with_class(before.1, class),
            )
        }
    }
}

/// Where the window at `address` of the class `class` is parked, which gives the
/// class a workspace if it has none. `None` for a window without a class.
pub fn park(registry: &mut workspaces::Registry, class: &str, address: &str) -> (r: Option<Parking>)
    requires
        old(registry).wf(),
    ensures
        final(registry).wf(),
        class@.len() == 0 ==> r is None && *final(registry) == *old(registry),
        class@.len() > 0 ==> (r matches Some(p) && parks(
            p,
            ParkingView {
                class: class@,
                address: address@,
                workspace: workspace_of(assigned_in(*old(registry)), class@),
            },
        )),
        class@.len() > 0 ==> assigned_in(*final(registry)) == with_class(
            assigned_in(*old(registry)),
            class@,
        ),
{
    match registry.assign(class) {
        Some(workspace) => Some(
            Parking {
                class: class.to_owned(),
                address: address.to_owned(),
                workspace,
                command: workspaces::move_command(workspace, address),
            },
        ),
        None => None,
    }
}

/// Where the windows of a list are parked, one after the other.
pub fn reconcile(registry: &mut workspaces::Registry, clients: &Vec<Json>) -> (r: Vec<Parking>)
    requires
        old(registry).wf(),
    ensures
        final(registry).wf(),
        ({
            let want = reconciled(crate::json::items_said(clients@), assigned_in(*old(registry)));
            &&& r@.len() == want.0.len()
            &&& forall|i: int| 0 <= i < r@.len() ==> parks(#[trigger] r@[i], want.0[i])
            &&& assigned_in(*final(registry)) == want.1
        }),
{
    let ghost all = crate::json::items_said(clients@);
    let ghost start = assigned_in(*registry);
    let mut out: Vec<Parking> = Vec::new();
    let mut i: usize = 0;
    assert(all.take(0) =~= Seq::empty());
    while i < clients.len()
        invariant
            i <= clients.len(),
            all == crate::json::items_said(clients@),
            registry.wf(),
            out@.len() == reconciled(all.take(i as int), start).0.len(),
            forall|k: int|
                0 <= k < out@.len() ==> parks(
                    #[trigger] out@[k],
                    reconciled(all.take(i as int), start).0[k],
                ),
            assigned_in(*registry) == reconciled(all.take(i as int), start).1,
        decreases clients.len() - i,
    {
        let c = &clients[i];
        let ghost next = all.take(i + 1);
        assert(next.drop_last() =~= all.take(i as int));
        assert(next.last() == c@);
        let class = text::trim(c.text_at("class").as_str());
        let address = c.text_at("address");
        if !class.as_str().is_empty() && !address.as_str().is_empty() {
            match park(registry, class.as_str(), address.as_str()) {
                Some(p) => {
                    out.push(p);
                },
                None => {},
            }
        }
        i += 1;
    }
    assert(all.take(i as int) =~= all);
    out
}

/// Where the windows that an answer of the compositor lists are parked.
pub fn reconcile_workspaces(registry: &mut workspaces::Registry, body: &str) -> (r: Vec<Parking>)
    requires
        old(registry).wf(),
    ensures
        final(registry).wf(),
        ({
            let want = reconciled(list_in(body@), assigned_in(*old(registry)));
            &&& r@.len() == want.0.len()
            &&& forall|i: int| 0 <= i < r@.len() ==> parks(#[trigger] r@[i], want.0[i])
            &&& assigned_in(*final(registry)) == want.1
        }),
{
    reconcile(registry, &list_of(body))
}

/// Parking the windows of a list gives each class one workspace: what a class
/// had, it keeps, and each window goes to the workspace that its class has then.
pub proof fn law_reconcile_is_sticky(clients: Seq<crate::json::JsonView>, a: Assigned)
    ensures
        ({
            let r = reconciled(clients, a);
            &&& forall|c: Seq<char>| #[trigger]
                a.map.contains_key(c) ==> r.1.map.contains_key(c) && r.1.map[c] == a.map[c]
            &&& forall|i: int|
                0 <= i < r.0.len() ==> r.1.map.contains_key((#[trigger] r.0[i]).class)
                    && r.1.map[r.0[i].class] == r.0[i].workspace
        }),
    decreases clients.len(),
{
    if clients.len() > 0 {
        law_reconcile_is_sticky(clients.drop_last(), a);
        let before = reconciled(clients.drop_last(), a);
        let r = reconciled(clients, a);
        assert forall|c: Seq<char>| #[trigger] a.map.contains_key(c) implies r.1.map.contains_key(c)
            && r.1.map[c] == a.map[c] by {
            assert(before.1.map.contains_key(c));
        }
        assert forall|i: int| 0 <= i < r.0.len() implies r.1.map.contains_key(
            (#[trigger] r.0[i]).class,
        ) && r.1.map[r.0[i].class] == r.0[i].workspace by {
            if i < before.0.len() {
                assert(r.0[i] == before.0[i]);
                assert(before.1.map.contains_key(before.0[i].class));
            }
        }
    }
}

/// Parking the windows of a list a second time changes nothing and moves each
/// window to where it is.
pub proof fn law_reconcile_is_idempotent(clients: Seq<crate::json::JsonView>, a: Assigned)
    ensures
        reconciled(clients, reconciled(clients, a).1) == reconciled(clients, a),
{
    let done = reconciled(clients, a).1;
    law_reconcile_is_sticky(clients, a);
    lemma_reconciled_again(clients, a, clients.len() as int);
    assert(clients.take(clients.len() as int) =~= clients);
}

proof fn lemma_reconciled_again(clients: Seq<crate::json::JsonView>, a: Assigned, n: int)
    requires
        0 <= n <= clients.len(),
    ensures
        ({
            let done = reconciled(clients, a).1;
            &&& reconciled(clients.take(n), done).0 == reconciled(clients.take(n), a).0
            &&& reconciled(clients.take(n), done).1 == done
        }),
    decreases n,
{
    let done = reconciled(clients, a).1;
    if n > 0 {
        lemma_reconciled_again(clients, a, n - 1);
        let s = clients.take(n);
        assert(s.drop_last() =~= clients.take(n - 1));
        law_reconcile_is_sticky(s, a);
        lemma_reconciled_grows(clients, a, n);
        let first = reconciled(s, a);
        let before = reconciled(s.drop_last(), a);
        let class = text::trimmed(crate::json::text_or_empty(s.last(), "class"@));
        let address = crate::json::text_or_empty(s.last(), "address"@);
        if class.len() > 0 && address.len() > 0 {
            let last = first.0[first.0.len() - 1];
            assert(last.class == class);
            assert(first.1.map.contains_key(class));
            assert(done.map.contains_key(class));
            assert(done.map[class] == last.workspace);
        }
    } else {
        assert(clients.take(0) =~= Seq::empty());
    }
}

proof fn lemma_reconciled_grows(clients: Seq<crate::json::JsonView>, a: Assigned, n: int)
    requires
        0 <= n <= clients.len(),
    ensures
        forall|c: Seq<char>| #[trigger]
            reconciled(clients.take(n), a).1.map.contains_key(c) ==> reconciled(
                clients,
                a,
            ).1.map.contains_key(c) && reconciled(clients, a).1.map[c] == reconciled(
                clients.take(n),
                a,
            ).1.map[c],
    decreases clients.len() - n,
{
    if n < clients.len() {
        lemma_reconciled_grows(clients, a, n + 1);
        assert(clients.take(n + 1).drop_last() =~= clients.take(n));
        let small = reconciled(clients.take(n), a).1;
        let next = reconciled(clients.take(n + 1), a).1;
        assert forall|c: Seq<char>| #[trigger] small.map.contains_key(c) implies reconciled(
            clients,
            a,
        ).1.map.contains_key(c) && reconciled(clients, a).1.map[c] == small.map[c] by {
            assert(next.map.contains_key(c) && next.map[c] == small.map[c]);
        }
    } else {
        assert(clients.take(n) =~= clients);
    }
}

// ---------------------------------------------------------------------------
// Windows across the loss of an output
// ---------------------------------------------------------------------------

/// Milliseconds for which the windows noted before a loss are compared with.
pub const MONITOR_SNAPSHOT_TTL_MS: u64 = 30_000;

/// Milliseconds between two rearrangements that outputs cause.
pub const MONITOR_RECONCILE_DEBOUNCE_MS: u64 = 1_000;

/// Account of the windows across the loss of an output. Times are milliseconds
/// of one clock.
#[derive(Debug)]
pub struct MonitorWatch {
    snapshot: Option<(u64, Vec<(String, String)>)>,
    last_reconcile: Option<u64>,
}

/// What a [`MonitorWatch`] holds.
pub struct WatchView {
    /// The windows before the loss, and when they were noted.
    pub snapshot: Option<(u64, Seq<(Seq<char>, Seq<char>)>)>,
    /// When windows were last rearranged.
    pub last_reconcile: Option<u64>,
}

impl View for MonitorWatch {
    type V = WatchView;

    closed spec fn view(&self) -> WatchView {
        WatchView {
            snapshot: match self.snapshot {
                Some(s) => Some((s.0, pairs_said(s.1@))),
                None => None,
            },
            last_reconcile: self.last_reconcile,
        }
    }
}

impl Default for MonitorWatch {
    fn default() -> (r: Self)
        ensures
            r@ == (WatchView { snapshot: None, last_reconcile: None }),
    {
        MonitorWatch { snapshot: None, last_reconcile: None }
    }
}

/// What is held after an output went away: the windows before the first of several
/// losses.
pub open spec fn after_loss(
    w: WatchView,
    now: u64,
    index: Seq<(Seq<char>, Seq<char>)>,
) -> WatchView {
    WatchView {
        snapshot: match w.snapshot {
            Some(s) => Some(s),
            None => Some((now, index)),
        },
        ..w
    }
}

/// The windows that are said to have vanished when an output came back, given the
/// windows that are there then; and what is noted afterwards.
pub open spec fn after_return(
    note: Option<(u64, Seq<(Seq<char>, Seq<char>)>)>,
    now: u64,
    after: Option<Seq<(Seq<char>, Seq<char>)>>,
) -> (Seq<(Seq<char>, Seq<char>)>, Option<(u64, Seq<(Seq<char>, Seq<char>)>)>) {
    match note {
        None => (Seq::empty(), None),
        Some((taken, before)) => if age_ms(taken, now) > MONITOR_SNAPSHOT_TTL_MS {
            (Seq::empty(), None)
        } else if after is None || after->Some_0.len() == 0 {
            (Seq::empty(), note)
        } else {
            (vanished(before, after->Some_0), None)
        },
    }
}

impl MonitorWatch {
    /// Notes the windows before a loss. The first of several losses counts: the
    /// windows lost with it are gone by the second.
    pub fn on_removed(&mut self, now: u64, index: Vec<(String, String)>)
        ensures
            final(self)@ == after_loss(old(self)@, now, pairs_said(index@)),
    {
        if self.snapshot.is_none() {
            self.snapshot = Some((now, index));
        }
    }

    /// The windows that did not survive, given the windows after an output came
    /// back. A list that could not be read, or is empty, tells nothing: the note
    /// is kept for the next time. A note that is too old is dropped.
    pub fn on_added(&mut self, now: u64, after: Option<&[(String, String)]>) -> (r: Vec<
        (String, String),
    >)
        ensures
            final(self)@.last_reconcile == old(self)@.last_reconcile,
            (pairs_said(r@), final(self)@.snapshot) == after_return(
                old(self)@.snapshot,
                now,
                match after {
                    Some(list) => Some(pairs_said(list@)),
                    None => None,
                },
            ),
    {
        match self.snapshot.take() {
            None => Vec::new(),
            Some((taken, before)) => {
                if now.saturating_sub(taken) > MONITOR_SNAPSHOT_TTL_MS {
                    return Vec::new();
                }
                match after {
                    Some(after) => {
                        if after.len() == 0 {
                            self.snapshot = Some((taken, before));
                            Vec::new()
                        } else {
                            vanished_windows(before.as_slice(), after)
                        }
                    },
                    None => {
                        self.snapshot = Some((taken, before));
                        Vec::new()
                    },
                }
            },
        }
    }

    /// Whether windows are rearranged now; a burst of outputs causes it once.
    pub fn should_reconcile(&mut self, now: u64) -> (r: bool)
        ensures
            r == (old(self)@.last_reconcile matches Some(last) ==> age_ms(last, now)
                >= MONITOR_RECONCILE_DEBOUNCE_MS),
            final(self)@ == (WatchView {
                last_reconcile: if r {
                    Some(now)
                } else {
                    old(self)@.last_reconcile
                },
                ..old(self)@
            }),
    {
        let due = match self.last_reconcile {
            Some(last) => now.saturating_sub(last) >= MONITOR_RECONCILE_DEBOUNCE_MS,
            None => true,
        };
        if due {
            self.last_reconcile = Some(now);
        }
        due
    }
}

/// Milliseconds from `since` to `now`; 0 where `now` is before.
pub open spec fn age_ms(since: u64, now: u64) -> u64 {
    if now >= since {
        (now - since) as u64
    } else {
        0
    }
}

/// No window that is still there is said to have vanished, and each that is said
/// so was there before.
pub proof fn law_vanished_are_gone(
    before: Seq<(Seq<char>, Seq<char>)>,
    after: Seq<(Seq<char>, Seq<char>)>,
)
    ensures
        forall|i: int|
            0 <= i < vanished(before, after).len() ==> !is_there(
                after,
                (#[trigger] vanished(before, after)[i]).0,
            ) && before.contains(vanished(before, after)[i]),
        forall|i: int|
            0 <= i < before.len() && !is_there(after, (#[trigger] before[i]).0) ==> vanished(
                before,
                after,
            ).contains(before[i]),
    decreases before.len(),
{
    if before.len() > 0 {
        let rest = vanished(before.drop_last(), after);
        let all = vanished(before, after);
        law_vanished_are_gone(before.drop_last(), after);
        assert forall|i: int| 0 <= i < all.len() implies !is_there(after, (#[trigger] all[i]).0)
            && before.contains(all[i]) by {
            if i < rest.len() {
                assert(all[i] == rest[i]);
                let k = choose|k: int|
                    0 <= k < before.drop_last().len() && before.drop_last()[k] == rest[i];
                assert(before[k] == all[i]);
            } else {
                assert(before[before.len() - 1] == all[i]);
            }
        }
        assert forall|i: int| 0 <= i < before.len() && !is_there(
            after,
            (#[trigger] before[i]).0,
        ) implies all.contains(before[i]) by {
            if i < before.len() - 1 {
                assert(before.drop_last()[i] == before[i]);
                assert(rest.contains(before[i]));
                let k = choose|k: int| 0 <= k < rest.len() && rest[k] == before[i];
                assert(all[k] == before[i]);
            } else {
                assert(all[all.len() - 1] == before[i]);
            }
        }
    }
}

/// Of several losses the first counts: what a second one finds does not change
/// which windows are said to have vanished.
pub proof fn law_first_loss_counts(
    w: WatchView,
    first: u64,
    before: Seq<(Seq<char>, Seq<char>)>,
    second: u64,
    between: Seq<(Seq<char>, Seq<char>)>,
    now: u64,
    after: Option<Seq<(Seq<char>, Seq<char>)>>,
)
    ensures
        after_return(
            after_loss(after_loss(w, first, before), second, between).snapshot,
            now,
            after,
        ) == after_return(after_loss(w, first, before).snapshot, now, after),
{
}

/// A list of windows that could not be read makes no window vanish: what a later
/// list tells is what it would have told.
pub proof fn law_unreadable_list_tells_nothing(
    note: Option<(u64, Seq<(Seq<char>, Seq<char>)>)>,
    now: u64,
    later: u64,
    after: Option<Seq<(Seq<char>, Seq<char>)>>,
)
    requires
        now <= later,
    ensures
        after_return(note, now, None).0 == Seq::<(Seq<char>, Seq<char>)>::empty(),
        after_return(after_return(note, now, None).1, later, after) == after_return(
            note,
            later,
            after,
        ),
{
}

// ---------------------------------------------------------------------------
// Talking to the compositor
// ---------------------------------------------------------------------------

/// The directory of an instance of the compositor below a runtime directory.
pub open spec fn runtime_path(runtime_dir: Seq<char>, signature: Seq<char>) -> Seq<char> {
    crate::config::path_below(crate::config::path_below(runtime_dir, "hypr"@), signature)
}

/// Where an instance of the compositor listens: below the runtime directory, or at
/// the place of older versions. What exists is preferred, and the newer place where
/// neither does. `in_runtime` and `in_legacy` say what exists.
pub fn socket_dir(
    signature: Option<&str>,
    runtime_dir: Option<&str>,
    in_runtime: bool,
    in_legacy: bool,
) -> (r: Result<String, String>)
    ensures
        match signature {
            None => r matches Err(m) && m@
                == "could not resolve Hyprland instance signature (env unset and no live socket dir in $XDG_RUNTIME_DIR/hypr)"@,
            Some(sig) => r matches Ok(path) && path@ == (match runtime_dir {
                Some(dir) => if !in_runtime && in_legacy {
                    "/tmp/hypr/"@ + sig@
                } else {
                    runtime_path(dir@, sig@)
                },
                None => "/tmp/hypr/"@ + sig@,
            }),
        },
{
    match signature {
        None => Err(
            "could not resolve Hyprland instance signature (env unset and no live socket dir in $XDG_RUNTIME_DIR/hypr)".to_owned(),
        ),
        Some(sig) => {
            let mut legacy = "/tmp/hypr/".to_owned();
            legacy.push_str(sig);
            match runtime_dir {
                Some(dir) => {
                    if !in_runtime && in_legacy {
                        return Ok(legacy);
                    }
                    let hypr = join_path(dir, "hypr");
                    Ok(join_path(hypr.as_str(), sig))
                },
                None => Ok(legacy),
            }
        },
    }
}

/// What is said of a query that took too long.
pub fn request_timed_out(cmd: &str) -> (r: String)
    ensures
        r@ == "hyprland request "@ + text::debugged(cmd@) + " timed out"@,
{
    let mut m = "hyprland request ".to_owned();
    m.push_str(text::debug_text(cmd).as_str());
    m.push_str(" timed out");
    m
}

/// The reply about the active window; without an answer of the compositor there is
/// none.
pub fn active_window_json(body: Option<&str>) -> (r: String)
    ensures
        r@ == (match body {
            Some(b) => active_reply(b@),
            None => "{}"@,
        }),
{
    match body {
        Some(b) => parse_active(b),
        None => "{}".to_owned(),
    }
}

/// The reply about the windows; without an answer of the compositor there are none.
pub fn clients_json(body: Option<&str>) -> (r: String)
    ensures
        r@ == (match body {
            Some(b) => clients_reply(b@),
            None => "[]"@,
        }),
{
    match body {
        Some(b) => parse_clients(b),
        None => "[]".to_owned(),
    }
}

/// The reply about the outputs; without an answer of the compositor there are none.
pub fn monitors_json(body: Option<&str>) -> (r: String)
    ensures
        r@ == (match body {
            Some(b) => crate::json::compact(crate::json::JsonView::Array(monitors_in(b@))),
            None => "[]"@,
        }),
{
    match body {
        Some(b) => parse_monitors(b),
        None => "[]".to_owned(),
    }
}

/// What follows in the search for the class of a new window.
#[derive(Debug, Clone, PartialEq, Eq)]
pub enum ClassStep {
    Found(String),
    /// The windows are to be asked for once more, in so many milliseconds.
    LookUp { after_ms: u64 },
    /// The window never said its class.
    Unknown,
}

/// What follows in the search for the class of a new window. What the window was
/// announced with counts if there is something; otherwise the windows are asked
/// for, so many times. `asked` says how often they were, and `found` what they
/// said last.
pub fn resolve_window_class(hint: &str, asked: u32, found: Option<String>) -> (r: ClassStep)
    ensures
        hint@.len() > 0 ==> (r matches ClassStep::Found(s) && s@ == hint@),
        hint@.len() == 0 ==> match found {
            Some(class) => r == ClassStep::Found(class),
            None => if asked < CLASS_ATTEMPTS {
                r == (ClassStep::LookUp { after_ms: CLASS_INTERVAL_MS })
            } else {
                r is Unknown
            },
        },
{
    if !hint.is_empty() {
        return ClassStep::Found(hint.to_owned());
    }
    match found {
        Some(class) => ClassStep::Found(class),
        None => if asked < CLASS_ATTEMPTS {
            ClassStep::LookUp { after_ms: CLASS_INTERVAL_MS }
        } else {
            ClassStep::Unknown
        },
    }
}

/// Takes note of an output that went away. `body` is the answer to the question for
/// the windows, where there was one; without it nothing is noted.
pub fn monitor_removed(watch: &mut MonitorWatch, now: u64, body: Option<&str>)
    ensures
        final(watch)@ == (match body {
            Some(b) => after_loss(old(watch)@, now, index_of(list_in(b@))),
            None => old(watch)@,
        }),
{
    if let Some(b) = body {
        watch.on_removed(now, client_index(b));
    }
}

/// What follows when an output came back: the windows that are gone, and whether
/// windows are rearranged. `body` is the list of windows, where it could be read.
pub fn monitor_added(watch: &mut MonitorWatch, now: u64, body: Option<&str>) -> (r: (
    Vec<(String, String)>,
    bool,
))
    ensures
        r.1 == (old(watch)@.last_reconcile matches Some(last) ==> age_ms(last, now)
            >= MONITOR_RECONCILE_DEBOUNCE_MS),
        final(watch)@.last_reconcile == (if r.1 {
            Some(now)
        } else {
            old(watch)@.last_reconcile
        }),
        (pairs_said(r.0@), final(watch)@.snapshot) == after_return(
            old(watch)@.snapshot,
            now,
            match body {
                Some(b) => Some(index_of(list_in(b@))),
                None => None,
            },
        ),
{
    let gone = match body {
        Some(b) => {
            let after = client_index(b);
            assert(pairs_said(after@).len() == after@.len());
            watch.on_added(now, Some(after.as_slice()))
        },
        None => watch.on_added(now, None),
    };
    let due = watch.should_reconcile(now);
    (gone, due)
}

// ---------------------------------------------------------------------------
// Laws of what is kept
// ---------------------------------------------------------------------------

/// The text that a report has under a key, or an empty one.
pub open spec fn text_under(v: crate::json::JsonView, key: Seq<char>) -> Seq<char> {
    match crate::json::member(v, key) {
        Some(crate::json::JsonView::Text(s)) => s,
        _ => Seq::empty(),
    }
}

/// What is kept of an output is what it reports under the same keys: its texts as they
/// are, its sizes and its place as the same numbers, its rate and its scale as the same
/// fractions, its switches as they stand. What it does not report is empty, zero, or what
/// an output has by itself: it is on, without adaptive sync, at a scale of one.
pub proof fn law_outputs_keep_what_they_report(v: crate::json::JsonView)
    ensures
        ({
            let out = monitor_view(v);
            let texts = |key: Seq<char>|
                crate::json::member(out, key) == Some(
                    crate::json::JsonView::Text(text_under(v, key)),
                );
            let sizes = |key: Seq<char>|
                {
                    let n: u64 = match crate::json::member(v, key) {
                        Some(crate::json::JsonView::Number(n)) => match n.unsigned {
                            Some(u) => u,
                            None => 0,
                        },
                        _ => 0,
                    };
                    crate::json::member(out, key) matches Some(crate::json::JsonView::Number(m))
                        && m.json == text::int_text(n as int) && m.unsigned == Some(n)
                };
            let places = |key: Seq<char>|
                {
                    let n: i64 = match crate::json::member(v, key) {
                        Some(crate::json::JsonView::Number(n)) => match n.signed {
                            Some(i) => i,
                            None => 0,
                        },
                        _ => 0,
                    };
                    crate::json::member(out, key) matches Some(crate::json::JsonView::Number(m))
                        && m.json == text::int_text(n as int) && m.signed == Some(n)
                };
            let fractions = |key: Seq<char>, otherwise: Seq<char>|
                {
                    let n: Seq<char> = match crate::json::member(v, key) {
                        Some(crate::json::JsonView::Number(n)) => match n.float {
                            Some(f) => f,
                            None => otherwise,
                        },
                        _ => otherwise,
                    };
                    crate::json::member(out, key) matches Some(crate::json::JsonView::Number(m))
                        && m.json == n
                };
            let switches = |key: Seq<char>, otherwise: bool|
                crate::json::member(out, key) == Some(
                    crate::json::JsonView::Bool(
                        match crate::json::member(v, key) {
                            Some(crate::json::JsonView::Bool(b)) => b,
                            _ => otherwise,
                        },
                    ),
                );
            &&& texts("name"@)
            &&& texts("description"@)
            &&& texts("currentFormat"@)
            &&& sizes("width"@)
            &&& sizes("height"@)
            &&& places("x"@)
            &&& places("y"@)
            &&& fractions("refreshRate"@, "0.0"@)
            &&& fractions("scale"@, "1.0"@)
            &&& switches("vrr"@, false)
            &&& switches("dpmsStatus"@, true)
            &&& crate::json::member(v, "availableModes"@) is Some ==> crate::json::member(
                out,
                "availableModes"@,
            ) == crate::json::member(v, "availableModes"@)
            &&& crate::json::member(v, "availableModes"@) is None ==> crate::json::member(
                out,
                "availableModes"@,
            ) == Some(crate::json::JsonView::Array(Seq::empty()))
            &&& crate::json::member(out, "hdr"@) == Some(
                crate::json::JsonView::Bool(
                    text::has_text(text_under(v, "currentFormat"@), "2101010"@),
                ),
            )
            &&& crate::json::member(v, "activeWorkspace"@) matches Some(w)
                ==> crate::json::member(out, "activeWorkspace"@) == Some(
                crate::json::JsonView::Text(text_under(w, "name"@)),
            )
            &&& crate::json::member(v, "activeWorkspace"@) is None ==> crate::json::member(
                out,
                "activeWorkspace"@,
            ) == Some(crate::json::JsonView::Text(Seq::empty()))
        }),
{
    let e = monitor_view(v)->Object_0;
    lemma_output_keys();
    assert(e.len() == 14);
    crate::json::law_first_entry_counts(e, "activeWorkspace"@, 0);
    crate::json::law_first_entry_counts(e, "availableModes"@, 1);
    crate::json::law_first_entry_counts(e, "currentFormat"@, 2);
    crate::json::law_first_entry_counts(e, "description"@, 3);
    crate::json::law_first_entry_counts(e, "dpmsStatus"@, 4);
    crate::json::law_first_entry_counts(e, "hdr"@, 5);
    crate::json::law_first_entry_counts(e, "height"@, 6);
    crate::json::law_first_entry_counts(e, "name"@, 7);
    crate::json::law_first_entry_counts(e, "refreshRate"@, 8);
    crate::json::law_first_entry_counts(e, "scale"@, 9);
    crate::json::law_first_entry_counts(e, "vrr"@, 10);
    crate::json::law_first_entry_counts(e, "width"@, 11);
    crate::json::law_first_entry_counts(e, "x"@, 12);
    crate::json::law_first_entry_counts(e, "y"@, 13);
}

proof fn lemma_output_keys()
    ensures
        "activeWorkspace"@ != "availableModes"@,
        "activeWorkspace"@ != "currentFormat"@,
        "activeWorkspace"@ != "description"@,
        "activeWorkspace"@ != "dpmsStatus"@,
        "activeWorkspace"@ != "hdr"@,
        "activeWorkspace"@ != "height"@,
        "activeWorkspace"@ != "name"@,
        "activeWorkspace"@ != "refreshRate"@,
        "activeWorkspace"@ != "scale"@,
        "activeWorkspace"@ != "vrr"@,
        "activeWorkspace"@ != "width"@,
        "activeWorkspace"@ != "x"@,
        "activeWorkspace"@ != "y"@,
        "availableModes"@ != "currentFormat"@,
        "availableModes"@ != "description"@,
        "availableModes"@ != "dpmsStatus"@,
        "availableModes"@ != "hdr"@,
        "availableModes"@ != "height"@,
        "availableModes"@ != "name"@,
        "availableModes"@ != "refreshRate"@,
        "availableModes"@ != "scale"@,
        "availableModes"@ != "vrr"@,
        "availableModes"@ != "width"@,
        "availableModes"@ != "x"@,
        "availableModes"@ != "y"@,
        "currentFormat"@ != "description"@,
        "currentFormat"@ != "dpmsStatus"@,
        "currentFormat"@ != "hdr"@,
        "currentFormat"@ != "height"@,
        "currentFormat"@ != "name"@,
        "currentFormat"@ != "refreshRate"@,
        "currentFormat"@ != "scale"@,
        "currentFormat"@ != "vrr"@,
        "currentFormat"@ != "width"@,
        "currentFormat"@ != "x"@,
        "currentFormat"@ != "y"@,
        "description"@ != "dpmsStatus"@,
        "description"@ != "hdr"@,
        "description"@ != "height"@,
        "description"@ != "name"@,
        "description"@ != "refreshRate"@,
        "description"@ != "scale"@,
        "description"@ != "vrr"@,
        "description"@ != "width"@,
        "description"@ != "x"@,
        "description"@ != "y"@,
        "dpmsStatus"@ != "hdr"@,
        "dpmsStatus"@ != "height"@,
        "dpmsStatus"@ != "name"@,
        "dpmsStatus"@ != "refreshRate"@,
        "dpmsStatus"@ != "scale"@,
        "dpmsStatus"@ != "vrr"@,
        "dpmsStatus"@ != "width"@,
        "dpmsStatus"@ != "x"@,
        "dpmsStatus"@ != "y"@,
        "hdr"@ != "height"@,
        "hdr"@ != "name"@,
        "hdr"@ != "refreshRate"@,
        "hdr"@ != "scale"@,
        "hdr"@ != "vrr"@,
        "hdr"@ != "width"@,
        "hdr"@ != "x"@,
        "hdr"@ != "y"@,
        "height"@ != "name"@,
        "height"@ != "refreshRate"@,
        "height"@ != "scale"@,
        "height"@ != "vrr"@,
        "height"@ != "width"@,
        "height"@ != "x"@,
        "height"@ != "y"@,
        "name"@ != "refreshRate"@,
        "name"@ != "scale"@,
        "name"@ != "vrr"@,
        "name"@ != "width"@,
        "name"@ != "x"@,
        "name"@ != "y"@,
        "refreshRate"@ != "scale"@,
        "refreshRate"@ != "vrr"@,
        "refreshRate"@ != "width"@,
        "refreshRate"@ != "x"@,
        "refreshRate"@ != "y"@,
        "scale"@ != "vrr"@,
        "scale"@ != "width"@,
        "scale"@ != "x"@,
        "scale"@ != "y"@,
        "vrr"@ != "width"@,
        "vrr"@ != "x"@,
        "vrr"@ != "y"@,
        "width"@ != "x"@,
        "width"@ != "y"@,
        "x"@ != "y"@,
{
    reveal_strlit("activeWorkspace");
    reveal_strlit("availableModes");
    reveal_strlit("currentFormat");
    reveal_strlit("description");
    reveal_strlit("dpmsStatus");
    reveal_strlit("hdr");
    reveal_strlit("height");
    reveal_strlit("name");
    reveal_strlit("refreshRate");
    reveal_strlit("scale");
    reveal_strlit("vrr");
    reveal_strlit("width");
    reveal_strlit("x");
    reveal_strlit("y");
    assert("activeWorkspace"@.len() == 15 && "activeWorkspace"@[0] == 'a');
    assert("availableModes"@.len() == 14 && "availableModes"@[0] == 'a');
    assert("currentFormat"@.len() == 13 && "currentFormat"@[0] == 'c');
    assert("description"@.len() == 11 && "description"@[0] == 'd');
    assert("dpmsStatus"@.len() == 10 && "dpmsStatus"@[0] == 'd');
    assert("hdr"@.len() == 3 && "hdr"@[0] == 'h');
    assert("height"@.len() == 6 && "height"@[0] == 'h');
    assert("name"@.len() == 4 && "name"@[0] == 'n');
    assert("refreshRate"@.len() == 11 && "refreshRate"@[0] == 'r');
    assert("scale"@.len() == 5 && "scale"@[0] == 's');
    assert("vrr"@.len() == 3 && "vrr"@[0] == 'v');
    assert("width"@.len() == 5 && "width"@[0] == 'w');
    assert("x"@.len() == 1 && "x"@[0] == 'x');
    assert("y"@.len() == 1 && "y"@[0] == 'y');
}

proof fn lemma_window_keys()
    ensures
        "address"@ != "class"@,
        "address"@ != "fullscreen"@,
        "address"@ != "title"@,
        "address"@ != "focusHistoryId"@,
        "address"@ != "workspace"@,
        "class"@ != "fullscreen"@,
        "class"@ != "title"@,
        "class"@ != "focusHistoryId"@,
        "class"@ != "workspace"@,
        "fullscreen"@ != "title"@,
        "fullscreen"@ != "focusHistoryId"@,
        "fullscreen"@ != "workspace"@,
        "title"@ != "focusHistoryId"@,
        "title"@ != "workspace"@,
        "focusHistoryId"@ != "workspace"@,
{
    reveal_strlit("address");
    reveal_strlit("class");
    reveal_strlit("fullscreen");
    reveal_strlit("title");
    reveal_strlit("focusHistoryId");
    reveal_strlit("workspace");
    assert("address"@.len() == 7 && "address"@[0] == 'a');
    assert("class"@.len() == 5 && "class"@[0] == 'c');
    assert("fullscreen"@.len() == 10 && "fullscreen"@[0] == 'f');
    assert("title"@.len() == 5 && "title"@[0] == 't');
    assert("focusHistoryId"@.len() == 14 && "focusHistoryId"@[0] == 'f');
    assert("workspace"@.len() == 9 && "workspace"@[0] == 'w');
}

/// What is kept of a window is its own class, title and address, the name of its
/// workspace and its place in the order of focus, last where that is unknown; and of the
/// active window whether it fills the screen.
pub proof fn law_windows_keep_what_they_report(v: crate::json::JsonView)
    ensures
        ({
            let one = client_view(v);
            let now = active_view(v);
            let texts = |out: crate::json::JsonView, key: Seq<char>|
                crate::json::member(out, key) == Some(
                    crate::json::JsonView::Text(text_under(v, key)),
                );
            &&& texts(one, "class"@) && texts(one, "title"@) && texts(one, "address"@)
            &&& texts(now, "class"@) && texts(now, "title"@) && texts(now, "address"@)
            &&& crate::json::member(one, "workspace"@) == Some(
                crate::json::JsonView::Text(
                    match crate::json::member(v, "workspace"@) {
                        Some(w) => text_under(w, "name"@),
                        None => Seq::empty(),
                    },
                ),
            )
            &&& crate::json::member(one, "focusHistoryId"@) matches Some(
                crate::json::JsonView::Number(m),
            ) && m.json == text::int_text(
                match crate::json::member(v, "focusHistoryID"@) {
                    Some(crate::json::JsonView::Number(n)) => match n.signed {
                        Some(i) => i as int,
                        None => 9999,
                    },
                    _ => 9999,
                },
            )
            &&& crate::json::member(now, "fullscreen"@) == Some(
                crate::json::JsonView::Bool(
                    crate::json::member(v, "fullscreen"@) == Some(
                        crate::json::JsonView::Bool(true),
                    ) || (crate::json::member(v, "fullscreen"@) matches Some(
                        crate::json::JsonView::Number(n),
                    ) && n.signed is Some && n.signed->0 != 0),
                ),
            )
        }),
{
    let e = client_view(v)->Object_0;
    let a = active_view(v)->Object_0;
    lemma_window_keys();
    crate::json::law_first_entry_counts(e, "address"@, 0);
    crate::json::law_first_entry_counts(e, "class"@, 1);
    crate::json::law_first_entry_counts(e, "focusHistoryId"@, 2);
    crate::json::law_first_entry_counts(e, "title"@, 3);
    crate::json::law_first_entry_counts(e, "workspace"@, 4);
    crate::json::law_first_entry_counts(a, "address"@, 0);
    crate::json::law_first_entry_counts(a, "class"@, 1);
    crate::json::law_first_entry_counts(a, "fullscreen"@, 2);
    crate::json::law_first_entry_counts(a, "title"@, 3);
}

/// A list of windows or outputs is answered item by item, in its order, and anything else
/// with an empty list. An active window is answered exactly if it has a class.
pub proof fn law_answers_keep_every_item(body: Seq<char>)
    ensures
        crate::json::json_read(text::trimmed(body)) matches Ok(crate::json::JsonView::Array(items))
            ==> {
            &&& clients_reply(body) == crate::json::compact(
                crate::json::JsonView::Array(items.map_values(|v| client_view(v))),
            )
            &&& monitors_in(body) == items.map_values(|v| monitor_view(v))
            &&& list_in(body) == items
        },
        !(crate::json::json_read(text::trimmed(body)) matches Ok(crate::json::JsonView::Array(_)))
            ==> {
            &&& clients_reply(body) == "[]"@
            &&& monitors_in(body).len() == 0
            &&& list_in(body).len() == 0
        },
        text::trimmed(body).len() > 0 && (crate::json::json_read(text::trimmed(body)) matches Ok(v)
            && crate::json::member(v, "class"@) is Some) ==> active_reply(body)
            == crate::json::compact(active_view(crate::json::json_read(text::trimmed(body))->Ok_0)),
        !(text::trimmed(body).len() > 0 && (crate::json::json_read(text::trimmed(body)) matches Ok(
            v,
        ) && crate::json::member(v, "class"@) is Some)) ==> active_reply(body) == "{}"@,
{
    if let Ok(crate::json::JsonView::Array(items)) = crate::json::json_read(text::trimmed(body)) {
        assert(client_views(items) =~= items.map_values(|v| client_view(v)));
        assert(monitor_views(items) =~= items.map_values(|v| monitor_view(v)));
    }
}

/// The report on a new window names, between commas, its address, its workspace, its
/// class and its title, which may hold commas.
pub proof fn law_new_windows_are_read(
    address: Seq<char>,
    workspace: Seq<char>,
    class: Seq<char>,
    title: Seq<char>,
)
    requires
        !address.contains(','),
        !workspace.contains(','),
        !class.contains(','),
    ensures
        ({
            let data = address + seq![','] + workspace + seq![','] + class + seq![','] + title;
            let doc = openwindow_view(data);
            let said = |key: Seq<char>, t: Seq<char>|
                crate::json::member(doc, key) == Some(
                    crate::json::JsonView::Text(text::trimmed(t)),
                );
            &&& said("address"@, address)
            &&& said("workspace"@, workspace)
            &&& said("class"@, class)
            &&& said("title"@, title)
            &&& class_in(data) == (if text::trimmed(class).len() > 0 {
                Some(text::trimmed(class))
            } else {
                None
            })
            &&& address_in(data) == (if text::occurs_at(text::trimmed(address), "0x"@, 0) {
                Some(text::trimmed(address))
            } else {
                None
            })
        }),
{
    let comma = seq![','];
    let data = address + comma + workspace + comma + class + comma + title;
    let rest1 = workspace + comma + class + comma + title;
    let rest2 = class + comma + title;
    assert(data =~= address + (comma + rest1));
    assert(rest1 =~= workspace + (comma + rest2));
    assert(rest2 =~= class + (comma + title));
    lemma_cut_at_comma(address, rest1);
    lemma_cut_at_comma(workspace, rest2);
    lemma_cut_at_comma(class, title);
    let e = openwindow_view(data)->Object_0;
    lemma_window_keys();
    crate::json::law_first_entry_counts(e, "address"@, 0);
    crate::json::law_first_entry_counts(e, "class"@, 1);
    crate::json::law_first_entry_counts(e, "title"@, 2);
    crate::json::law_first_entry_counts(e, "workspace"@, 3);
    let parts = text::split_on(data, ',');
    let p1 = text::split_on(rest1, ',');
    let p2 = text::split_on(rest2, ',');
    assert(parts == seq![address] + p1);
    assert(p1 == seq![workspace] + p2);
    assert(p2 == seq![class] + text::split_on(title, ','));
    assert(parts[0] == address && parts[2] == class);
}

proof fn lemma_cut_at_comma(head: Seq<char>, tail: Seq<char>)
    requires
        !head.contains(','),
    ensures
        text::cut_at(head + (seq![','] + tail), ',') == Some((head, tail)),
        text::first_of(head + (seq![','] + tail), ',') == head.len(),
        text::split_on(head + (seq![','] + tail), ',') == seq![head] + text::split_on(tail, ','),
{
    let s = head + (seq![','] + tail);
    assert forall|i: int| 0 <= i < head.len() implies #[trigger] s[i] != ',' by {
        assert(head.contains(head[i]));
    }
    text::lemma_first_of_unique(s, ',', head.len() as int);
    assert(s.take(head.len() as int) =~= head);
    assert(s.skip(head.len() as int + 1) =~= tail);
}

/// A line of the event stream is a name, two arrows and the data. It reports what its name
/// says of the data, and a name that means nothing here nothing.
pub proof fn law_events_are_read_by_name(
    name: Seq<char>,
    data: Seq<char>,
    class: Seq<char>,
    title: Seq<char>,
)
    requires
        !name.contains('>'),
        !class.contains(','),
    ensures
        ({
            let on = |d: Seq<char>| event_on(name + ">>"@ + d);
            &&& name == "activewindow"@ ==> on(class + seq![','] + title)
                == EventView::ActiveWindow(class) && on(class) == EventView::ActiveWindow(class)
            &&& name == "fullscreen"@ ==> on(data) == EventView::Fullscreen(
                text::trimmed(data) == "1"@,
            )
            &&& name == "closewindow"@ ==> on(data) == EventView::CloseWindow(text::trimmed(data))
            &&& name == "monitorremoved"@ || name == "monitorremovedv2"@ ==> on(data)
                == EventView::MonitorRemoved(text::trimmed(data))
            &&& name == "monitoradded"@ || name == "monitoraddedv2"@ ==> on(data)
                == EventView::MonitorAdded(text::trimmed(data))
            &&& name == "openwindow"@ ==> (on(data) matches EventView::OpenWindow {
                park,
                document,
            } && document == crate::json::compact(openwindow_view(data)) && (address_in(data)
                is None ==> park is None) && (address_in(data) matches Some(found) ==> park == Some(
                (
                    found,
                    match class_in(data) {
                        Some(c) => c,
                        None => Seq::empty(),
                    },
                ),
            )))
            &&& name != "activewindow"@ && name != "fullscreen"@ && name != "closewindow"@ && name
                != "openwindow"@ && name != "monitorremoved"@ && name != "monitorremovedv2"@ && name
                != "monitoradded"@ && name != "monitoraddedv2"@ ==> on(data) is Other
        }),
        !data.contains('>') ==> event_on(data) is Other,
{
    reveal_strlit("activewindow");
    reveal_strlit("fullscreen");
    reveal_strlit("closewindow");
    reveal_strlit("openwindow");
    reveal_strlit("monitorremoved");
    reveal_strlit("monitorremovedv2");
    reveal_strlit("monitoradded");
    reveal_strlit("monitoraddedv2");
    lemma_event_parts(name, data);
    lemma_event_parts(name, class + seq![','] + title);
    lemma_event_parts(name, class);
    lemma_cut_at_comma(class, title);
    assert(class + seq![','] + title =~= class + (seq![','] + title));
    text::lemma_first_of(class, ',');
    assert("openwindow"@[0] == 'o');
    assert("fullscreen"@[0] == 'f');
    assert("activewindow"@[0] == 'a');
    assert("monitoradded"@[0] == 'm');
    assert("monitoraddedv2"@[7] == 'a');
    assert("monitorremoved"@[7] == 'r');
    assert("monitorremoved"@.len() == 14 && "monitoraddedv2"@.len() == 14);
    if !data.contains('>') {
        reveal_strlit(">>");
        assert forall|i: int| 0 <= i < data.len() implies !text::occurs_at(data, ">>"@, i) by {
            if text::occurs_at(data, ">>"@, i) {
                assert(data.subrange(i, i + 2)[0] == '>');
                assert(data[i] == '>');
            }
        }
        lemma_no_place(data, ">>"@, 0);
    }
}

proof fn lemma_no_place(s: Seq<char>, p: Seq<char>, from: int)
    requires
        0 <= from <= s.len(),
        forall|i: int| 0 <= i < s.len() ==> !text::occurs_at(s, p, i),
    ensures
        first_place(s, p, from) == s.len(),
    decreases s.len() - from,
{
    if from < s.len() {
        lemma_no_place(s, p, from + 1);
    }
}

proof fn lemma_event_parts(name: Seq<char>, data: Seq<char>)
    requires
        !name.contains('>'),
    ensures
        event_parts(name + ">>"@ + data) == Some((name, data)),
{
    reveal_strlit(">>");
    let line = name + ">>"@ + data;
    let n = name.len() as int;
    assert(line.subrange(n, n + 2) =~= ">>"@);
    assert forall|i: int| 0 <= i < n implies !text::occurs_at(line, ">>"@, i) by {
        if text::occurs_at(line, ">>"@, i) {
            assert(line.subrange(i, i + 2)[0] == '>');
            assert(name[i] == '>');
        }
    }
    lemma_place(line, ">>"@, 0, n);
    assert(line.take(n) =~= name);
    assert(line.skip(n + 2) =~= data);
}

proof fn lemma_place(s: Seq<char>, p: Seq<char>, from: int, n: int)
    requires
        0 <= from <= n < s.len(),
        text::occurs_at(s, p, n),
        forall|i: int| 0 <= i < n ==> !text::occurs_at(s, p, i),
    ensures
        first_place(s, p, from) == n,
    decreases n - from,
{
    if from < n {
        lemma_place(s, p, from + 1, n);
    }
}

/// The class of a window is that of the first listed window at its address, where that has
/// one, whatever other windows say.
pub proof fn law_class_is_that_of_the_window(
    clients: Seq<crate::json::JsonView>,
    address: Seq<char>,
    n: int,
)
    requires
        0 <= n <= clients.len(),
        forall|i: int|
            0 <= i < n ==> crate::json::member(#[trigger] clients[i], "address"@) != Some(
                crate::json::JsonView::Text(address),
            ),
        n < clients.len() ==> crate::json::member(clients[n], "address"@) == Some(
            crate::json::JsonView::Text(address),
        ),
    ensures
        n == clients.len() ==> class_among(clients, address) is None,
        n < clients.len() ==> {
            let class = text::trimmed(text_under(clients[n], "class"@));
            class_among(clients, address) == (if class.len() > 0 {
                Some(class)
            } else {
                None
            })
        },
    decreases n,
{
    if n > 0 {
        assert(crate::json::member(clients[0], "address"@) != Some(
            crate::json::JsonView::Text(address),
        ));
        let t = clients.skip(1);
        assert forall|i: int| 0 <= i < n - 1 implies crate::json::member(
            #[trigger] t[i],
            "address"@,
        ) != Some(crate::json::JsonView::Text(address)) by {
            assert(t[i] == clients[i + 1]);
        }
        law_class_is_that_of_the_window(t, address, n - 1);
    }
}

/// The index of a list holds each window that has an address, with its class, in the order
/// of the list. `at` says which window each entry is.
pub proof fn law_index_holds_windows_with_an_address(clients: Seq<crate::json::JsonView>) -> (at:
    Seq<int>)
    ensures
        at.len() == index_of(clients).len(),
        forall|i: int|
            0 <= i < at.len() ==> 0 <= #[trigger] at[i] < clients.len() && index_of(clients)[i] == (
                text::trimmed(text_under(clients[at[i]], "address"@)),
                text::trimmed(text_under(clients[at[i]], "class"@)),
            ) && index_of(clients)[i].0.len() > 0,
        forall|i: int, j: int| 0 <= i < j < at.len() ==> #[trigger] at[i] < #[trigger] at[j],
        forall|k: int|
            0 <= k < clients.len() && !at.contains(k) ==> text::trimmed(
                text_under(#[trigger] clients[k], "address"@),
            ).len() == 0,
    decreases clients.len(),
{
    if clients.len() == 0 {
        Seq::empty()
    } else {
        let rest = clients.drop_last();
        let before = law_index_holds_windows_with_an_address(rest);
        let n = clients.len() - 1;
        let all = index_of(clients);
        assert forall|i: int| 0 <= i < before.len() implies 0 <= #[trigger] before[i] < clients.len()
            && all[i] == (
            text::trimmed(text_under(clients[before[i]], "address"@)),
            text::trimmed(text_under(clients[before[i]], "class"@)),
        ) && all[i].0.len() > 0 by {
            assert(rest[before[i]] == clients[before[i]]);
            assert(all[i] == index_of(rest)[i]);
        }
        if text::trimmed(text_under(clients[n], "address"@)).len() > 0 {
            let at = before.push(n);
            assert forall|i: int| 0 <= i < at.len() implies 0 <= #[trigger] at[i] < clients.len()
                && all[i] == (
                text::trimmed(text_under(clients[at[i]], "address"@)),
                text::trimmed(text_under(clients[at[i]], "class"@)),
            ) && all[i].0.len() > 0 by {
                if i < before.len() {
                    assert(at[i] == before[i]);
                }
            }
            assert forall|k: int| 0 <= k < clients.len() && !at.contains(k) implies text::trimmed(
                text_under(#[trigger] clients[k], "address"@),
            ).len() == 0 by {
                if k < n {
                    assert(rest[k] == clients[k]);
                    if before.contains(k) {
                        let i = choose|i: int| 0 <= i < before.len() && before[i] == k;
                        assert(at[i] == k);
                    }
                } else {
                    assert(at[at.len() - 1] == k);
                }
            }
            at
        } else {
            assert forall|k: int|
                0 <= k < clients.len() && !before.contains(k) implies text::trimmed(
                text_under(#[trigger] clients[k], "address"@),
            ).len() == 0 by {
                if k < n {
                    assert(rest[k] == clients[k]);
                }
            }
            before
        }
    }
}

/// Every listed window with a class and an address is parked, in the order of the list, and
/// no other. A class that has a workspace is sent there, and a class that has none gets the
/// next free one. `at` says which window each parking is.
pub proof fn law_every_window_is_parked(clients: Seq<crate::json::JsonView>, a: Assigned) -> (at:
    Seq<int>)
    ensures
        at.len() == reconciled(clients, a).0.len(),
        forall|i: int|
            0 <= i < at.len() ==> {
                let p = reconciled(clients, a).0[i];
                let w = clients[#[trigger] at[i]];
                &&& 0 <= at[i] < clients.len()
                &&& p.class == text::trimmed(text_under(w, "class"@))
                &&& p.address == text_under(w, "address"@)
                &&& p.class.len() > 0 && p.address.len() > 0
                &&& a.map.contains_key(p.class) ==> p.workspace == a.map[p.class]
                &&& !a.map.contains_key(p.class) ==> p.workspace >= a.next
            },
        forall|i: int, j: int| 0 <= i < j < at.len() ==> #[trigger] at[i] < #[trigger] at[j],
        forall|k: int|
            0 <= k < clients.len() && !at.contains(k) ==> text::trimmed(
                text_under(#[trigger] clients[k], "class"@),
            ).len() == 0 || text_under(clients[k], "address"@).len() == 0,
        reconciled(clients, a).1.next >= a.next,
        forall|c: Seq<char>| #[trigger]
            reconciled(clients, a).1.map.contains_key(c) ==> a.map.contains_key(c)
                || reconciled(clients, a).1.map[c] >= a.next,
        at.len() > 0 && !a.map.contains_key(reconciled(clients, a).0[0].class) ==> reconciled(
            clients,
            a,
        ).0[0].workspace == a.next,
    decreases clients.len(),
{
    law_reconcile_is_sticky(clients, a);
    if clients.len() == 0 {
        Seq::empty()
    } else {
        let rest = clients.drop_last();
        let before = law_every_window_is_parked(rest, a);
        law_reconcile_is_sticky(rest, a);
        let n = clients.len() - 1;
        let old = reconciled(rest, a);
        let all = reconciled(clients, a);
        let class = text::trimmed(text_under(clients[n], "class"@));
        let address = text_under(clients[n], "address"@);
        assert forall|i: int| 0 <= i < before.len() implies {
            let p = all.0[i];
            let w = clients[#[trigger] before[i]];
            &&& 0 <= before[i] < clients.len()
            &&& p.class == text::trimmed(text_under(w, "class"@))
            &&& p.address == text_under(w, "address"@)
            &&& p.class.len() > 0 && p.address.len() > 0
            &&& a.map.contains_key(p.class) ==> p.workspace == a.map[p.class]
            &&& !a.map.contains_key(p.class) ==> p.workspace >= a.next
        } by {
            assert(rest[before[i]] == clients[before[i]]);
            assert(all.0[i] == old.0[i]);
        }
        if class.len() > 0 && address.len() > 0 {
            let at = before.push(n);
            assert forall|i: int| 0 <= i < at.len() implies {
                let p = all.0[i];
                let w = clients[#[trigger] at[i]];
                &&& 0 <= at[i] < clients.len()
                &&& p.class == text::trimmed(text_under(w, "class"@))
                &&& p.address == text_under(w, "address"@)
                &&& p.class.len() > 0 && p.address.len() > 0
                &&& a.map.contains_key(p.class) ==> p.workspace == a.map[p.class]
                &&& !a.map.contains_key(p.class) ==> p.workspace >= a.next
            } by {
                if i < before.len() {
                    assert(at[i] == before[i]);
                } else {
                    let p = all.0[i];
                    assert(p.class == class);
                    if a.map.contains_key(class) {
                        assert(old.1.map.contains_key(class));
                    }
                    assert(old.1.map.contains_key(class) ==> a.map.contains_key(class)
                        || old.1.map[class] >= a.next);
                }
            }
            assert forall|k: int| 0 <= k < clients.len() && !at.contains(k) implies text::trimmed(
                text_under(#[trigger] clients[k], "class"@),
            ).len() == 0 || text_under(clients[k], "address"@).len() == 0 by {
                if k < n {
                    assert(rest[k] == clients[k]);
                    if before.contains(k) {
                        let i = choose|i: int| 0 <= i < before.len() && before[i] == k;
                        assert(at[i] == k);
                    }
                } else {
                    assert(at[at.len() - 1] == k);
                }
            }
            assert forall|c: Seq<char>| #[trigger] all.1.map.contains_key(c) implies a.map.contains_key(
                c,
            ) || all.1.map[c] >= a.next by {
                if old.1.map.contains_key(c) {
                }
            }
            if before.len() == 0 {
                lemma_nothing_parked(rest, a);
            } else {
                assert(all.0[0] == old.0[0]);
            }
            at
        } else {
            assert(all == old);
            assert forall|k: int| 0 <= k < clients.len() && !before.contains(k) implies text::trimmed(
                text_under(#[trigger] clients[k], "class"@),
            ).len() == 0 || text_under(clients[k], "address"@).len() == 0 by {
                if k < n {
                    assert(rest[k] == clients[k]);
                }
            }
            before
        }
    }
}

proof fn lemma_nothing_parked(clients: Seq<crate::json::JsonView>, a: Assigned)
    requires
        reconciled(clients, a).0.len() == 0,
    ensures
        reconciled(clients, a).1 == a,
    decreases clients.len(),
{
    if clients.len() > 0 {
        lemma_nothing_parked(clients.drop_last(), a);
    }
}

/// A class that has no workspace gets the next free one, which is then taken; no other
/// class is touched.
pub proof fn law_new_class_gets_the_next_workspace(a: Assigned, class: Seq<char>, other: Seq<char>)
    requires
        !a.map.contains_key(class),
        other != class,
    ensures
        workspace_of(a, class) == a.next,
        with_class(a, class).map.contains_key(class) && with_class(a, class).map[class] == a.next,
        a.next < u32::MAX ==> with_class(a, class).next == a.next + 1,
        with_class(a, class).map.contains_key(other) <==> a.map.contains_key(other),
        a.map.contains_key(other) ==> with_class(a, class).map[other] == a.map[other],
{
}

/// When an output comes back within half a minute of the loss, the windows that are gone
/// are those that were there before and are not there now; the note is then done with.
/// Later than that nothing is said to be gone.
pub proof fn law_losses_are_told_within_half_a_minute(
    taken: u64,
    before: Seq<(Seq<char>, Seq<char>)>,
    now: u64,
    after: Seq<(Seq<char>, Seq<char>)>,
    window: (Seq<char>, Seq<char>),
)
    requires
        after.len() > 0,
    ensures
        now <= taken + 30_000 ==> {
            let r = after_return(Some((taken, before)), now, Some(after));
            &&& r.1 is None
            &&& r.0.contains(window) <==> before.contains(window) && forall|i: int|
                0 <= i < after.len() ==> (#[trigger] after[i]).0 != window.0
        },
        now > taken + 30_000 ==> after_return(Some((taken, before)), now, Some(after)).0.len() == 0
            && after_return(Some((taken, before)), now, Some(after)).1 is None,
{
    law_vanished_are_gone(before, after);
    let gone = vanished(before, after);
    if gone.contains(window) {
        let i = choose|i: int| 0 <= i < gone.len() && gone[i] == window;
        assert(!is_there(after, gone[i].0));
    }
    if before.contains(window) && forall|i: int|
        0 <= i < after.len() ==> (#[trigger] after[i]).0 != window.0 {
        let i = choose|i: int| 0 <= i < before.len() && before[i] == window;
        assert(!is_there(after, before[i].0));
    }
}

/// A window is parked by moving it, and no other, to its workspace, without a change of what
/// is shown.
pub proof fn law_parking_moves_the_window(p: Parking, v: ParkingView)
    requires
        parks(p, v),
    ensures
        p.class@ == v.class && p.address@ == v.address && p.workspace == v.workspace,
        p.command@ == "dispatch movetoworkspacesilent "@ + text::dec(v.workspace as nat)
            + ",address:"@ + v.address,
{
}

/// An instance has its directory below that of the compositor.
pub proof fn law_instances_have_their_directory(dir: Seq<char>, signature: Seq<char>)
    requires
        dir.len() > 0,
        dir.last() != '/',
        signature.len() > 0,
        signature[0] != '/',
    ensures
        runtime_path(dir, signature) == dir + "/hypr/"@ + signature,
{
    reveal_strlit("hypr");
    reveal_strlit("/");
    reveal_strlit("/hypr/");
    let below = dir + "/"@ + "hypr"@;
    assert(crate::config::path_below(dir, "hypr"@) == below);
    assert(below.last() == 'r');
    assert(below + "/"@ + signature =~= dir + "/hypr/"@ + signature);
}

/// One failure more lengthens a row of them by one, up to the last number.
pub proof fn law_rows_grow_by_one(failures: u32)
    ensures
        failures < u32::MAX ==> longer(failures) == failures + 1,
        failures == u32::MAX ==> longer(failures) == u32::MAX,
{
}

/// The age of what happened is the time since; what is still to come has none.
pub proof fn law_ages_are_time_passed(since: u64, now: u64)
    ensures
        since <= now ==> since + age_ms(since, now) == now,
        since > now ==> age_ms(since, now) == 0,
{
}

} // verus!
