//! Changing a display: apply, then confirm or revert.
//!
//! A mode that the display cannot show leaves no way to undo it, so a change is
//! provisional. It is undone after [`REVERT_SECONDS`] unless it is confirmed
//! first, and only a confirmed change is written down.
//!
//! Talking to the compositor, the clock and the file lie outside: a function here
//! says what to do, and another takes the outcome.

use crate::display_mode::{
    configured_line, line_vrr, mode_options, read_modes, rewrite_mode, rewrite_vrr, synthesize_line,
    upsert_monitor_line, Mode, Rate, REVERT_SECONDS,
};
use crate::json::{optional_text_json, text_json, unsigned_json, Fields, Json};
use crate::reply::resp_error;
use crate::text;
use vstd::prelude::*;

verus! {

// ---------------------------------------------------------------------------
// The pending change
// ---------------------------------------------------------------------------

/// A change that was applied and not yet confirmed.
#[derive(Debug, PartialEq, Eq)]
pub struct Pending {
    /// The output.
    pub monitor: String,
    /// The `monitor=` value to put back.
    pub previous: String,
    /// The `monitor=` value that is live.
    pub applied: String,
    /// Which change this is. A timer carries the number of the change that it
    /// was set for.
    pub generation: u64,
    /// When the change is undone, in milliseconds of one clock.
    pub deadline: u64,
}

/// What a [`Pending`] says.
pub struct PendingView {
    pub monitor: Seq<char>,
    pub previous: Seq<char>,
    pub applied: Seq<char>,
    pub generation: u64,
    pub deadline: u64,
}

impl View for Pending {
    type V = PendingView;

    open spec fn view(&self) -> PendingView {
        PendingView {
            monitor: self.monitor@,
            previous: self.previous@,
            applied: self.applied@,
            generation: self.generation,
            deadline: self.deadline,
        }
    }
}

/// The view of a change that may be missing.
pub open spec fn pending_view(p: Option<Pending>) -> Option<PendingView> {
    match p {
        Some(p) => Some(p@),
        None => None,
    }
}

/// The place of the pending change; there is one at most.
#[derive(Debug)]
pub struct DisplayGuard {
    generation: u64,
    pending: Option<Pending>,
}

/// What a [`DisplayGuard`] holds.
pub struct GuardView {
    /// How many changes there were.
    pub generation: u64,
    pub pending: Option<PendingView>,
}

impl View for DisplayGuard {
    type V = GuardView;

    closed spec fn view(&self) -> GuardView {
        GuardView { generation: self.generation, pending: pending_view(self.pending) }
    }
}

impl GuardView {
    /// The pending change is the last one.
    pub open spec fn wf(self) -> bool {
        self.pending matches Some(p) ==> p.generation == self.generation
    }
}

/// Milliseconds from applying a change to undoing it.
pub const REVERT_MS: u64 = 15_000;

/// `g` once a change is applied at `now`.
pub open spec fn armed(
    g: GuardView,
    monitor: Seq<char>,
    previous: Seq<char>,
    applied: Seq<char>,
    now: u64,
) -> GuardView {
    let generation = (g.generation + 1) as u64;
    GuardView {
        generation,
        pending: Some(
            PendingView {
                monitor,
                previous,
                applied,
                generation,
                deadline: (now + REVERT_MS) as u64,
            },
        ),
    }
}

/// `g` without a pending change.
pub open spec fn cleared(g: GuardView) -> GuardView {
    GuardView { pending: None, ..g }
}

/// The pending change, where it is the one of `generation`.
pub open spec fn of_generation(g: GuardView, generation: u64) -> Option<PendingView> {
    match g.pending {
        Some(p) => if p.generation == generation {
            Some(p)
        } else {
            None
        },
        None => None,
    }
}

impl Default for DisplayGuard {
    fn default() -> (r: Self)
        ensures
            r@ == (GuardView { generation: 0, pending: None }),
            r@.wf(),
    {
        DisplayGuard { generation: 0, pending: None }
    }
}

impl DisplayGuard {
    /// Whether numbers and clock leave room for a change that is applied at `now`.
    pub fn has_room(&self, now: u64) -> (r: bool)
        ensures
            r <==> self@.generation < u64::MAX && now + REVERT_MS <= u64::MAX,
    {
        self.generation < u64::MAX && now <= u64::MAX - REVERT_MS
    }

    /// Records a change that was applied at `now`; returns its number.
    pub fn arm(&mut self, monitor: &str, previous: &str, applied: &str, now: u64) -> (r: u64)
        requires
            old(self)@.generation < u64::MAX,
            now + REVERT_MS <= u64::MAX,
        ensures
            final(self)@ == armed(old(self)@, monitor@, previous@, applied@, now),
            final(self)@.wf(),
            r == final(self)@.generation,
    {
        self.generation = self.generation + 1;
        let generation: u64 = self.generation;
        self.pending = Some(
            Pending {
                monitor: monitor.to_owned(),
                previous: previous.to_owned(),
                applied: applied.to_owned(),
                generation,
                deadline: now + REVERT_MS,
            },
        );
        generation
    }

    /// The pending change.
    pub fn peek(&self) -> (r: Option<&Pending>)
        ensures
            r is Some <==> self@.pending is Some,
            r matches Some(p) ==> self@.pending == Some(p@),
    {
        match &self.pending {
            Some(p) => Some(p),
            None => None,
        }
    }

    /// Takes the pending change out.
    pub fn take(&mut self) -> (r: Option<Pending>)
        ensures
            pending_view(r) == old(self)@.pending,
            final(self)@ == cleared(old(self)@),
    {
        self.pending.take()
    }

    /// Takes the pending change out where it is the one of `generation`, so that
    /// a timer that is too late does nothing.
    pub fn take_generation(&mut self, generation: u64) -> (r: Option<Pending>)
        ensures
            pending_view(r) == of_generation(old(self)@, generation),
            final(self)@ == (if of_generation(old(self)@, generation) is Some {
                cleared(old(self)@)
            } else {
                old(self)@
            }),
    {
        let current = match &self.pending {
            Some(p) => p.generation == generation,
            None => false,
        };
        if current {
            self.pending.take()
        } else {
            None
        }
    }
}

/// The timer of a change does nothing once the change was confirmed, reverted or
/// followed by another one.
pub proof fn law_stale_timer_does_nothing(
    g: GuardView,
    monitor: Seq<char>,
    previous: Seq<char>,
    applied: Seq<char>,
    now: u64,
    later: GuardView,
)
    requires
        g.generation < u64::MAX,
        later.wf(),
        ({
            let this = armed(g, monitor, previous, applied, now);
            ||| later == cleared(this)
            ||| later.generation > this.generation
        }),
    ensures
        of_generation(later, armed(g, monitor, previous, applied, now).generation) is None,
{
}

/// While a change is pending, its timer undoes it.
pub proof fn law_timer_undoes_its_change(
    g: GuardView,
    monitor: Seq<char>,
    previous: Seq<char>,
    applied: Seq<char>,
    now: u64,
)
    requires
        g.generation < u64::MAX,
    ensures
        ({
            let this = armed(g, monitor, previous, applied, now);
            of_generation(this, this.generation) matches Some(p) && p.previous == previous
                && p.monitor == monitor
        }),
{
}

/// Why a change was undone.
#[derive(Debug, Clone, Copy, PartialEq, Eq, Structural)]
pub enum RevertCause {
    /// Someone asked for it.
    Manual,
    /// Nobody confirmed it in time.
    Timeout,
}

impl RevertCause {
    /// The word for the cause.
    pub open spec fn word(self) -> Seq<char> {
        match self {
            RevertCause::Manual => "manual"@,
            RevertCause::Timeout => "timeout"@,
        }
    }

    /// The word for the cause.
    pub fn as_str(self) -> (r: &'static str)
        ensures
            r@ == self.word(),
    {
        match self {
            RevertCause::Manual => "manual",
            RevertCause::Timeout => "timeout",
        }
    }
}

// ---------------------------------------------------------------------------
// Applying
// ---------------------------------------------------------------------------

/// The request that makes `value` the `monitor=` value of its output.
pub open spec fn monitor_request(value: Seq<char>) -> Seq<char> {
    "/keyword monitor "@ + value
}

/// The request that makes `value` the `monitor=` value of its output.
pub fn monitor_command(value: &str) -> (r: String)
    ensures
        r@ == monitor_request(value@),
{
    let mut out = "/keyword monitor ".to_owned();
    out.push_str(value);
    out
}

/// What the compositor's answer to the setting of `arg` means: `ok`, or an error
/// in its words.
pub fn keyword_outcome(arg: &str, reply: &str) -> (r: Result<(), String>)
    ensures
        r is Ok <==> text::same_but_case(text::trimmed(reply@), "ok"@),
        r matches Err(e) ==> e@ == "hyprland rejected `keyword "@ + arg@ + "`: "@ + text::trimmed(
            reply@,
        ),
{
    let t = text::trim(reply);
    if text::eq_ignore_case(t.as_str(), "ok") {
        return Ok(());
    }
    let mut out = "hyprland rejected `keyword ".to_owned();
    out.push_str(arg);
    out.push_str("`: ");
    out.push_str(t.as_str());
    Err(out)
}

/// What is done about a change.
#[derive(Debug, PartialEq, Eq)]
pub enum ChangeStep {
    /// Nothing; this is the reply.
    Reply(String),
    /// Send this request, then go on with [`finish_change`].
    Send(String),
}

/// The reply to a change while another is pending on `monitor`.
pub open spec fn busy_reply(monitor: Seq<char>) -> Seq<char> {
    "error:"@ + ("a display change on '"@ + monitor
        + "' is already awaiting confirmation — confirm or revert it first"@)
}

/// The reply to a change that changes nothing.
pub open spec fn unchanged_view(monitor: Seq<char>, applied: Seq<char>) -> crate::json::JsonView {
    crate::json::JsonView::Object(
        seq![
            ("applied"@, crate::json::JsonView::Text(applied)),
            ("monitor"@, crate::json::JsonView::Text(monitor)),
            ("ok"@, crate::json::JsonView::Bool(true)),
            ("unchanged"@, crate::json::JsonView::Bool(true)),
        ],
    )
}

/// The reply to a change that was applied.
pub open spec fn applied_view(
    monitor: Seq<char>,
    previous: Seq<char>,
    applied: Seq<char>,
    from_conf: bool,
) -> crate::json::JsonView {
    crate::json::JsonView::Object(
        seq![
            ("applied"@, crate::json::JsonView::Text(applied)),
            ("fromConfig"@, crate::json::JsonView::Bool(from_conf)),
            ("monitor"@, crate::json::JsonView::Text(monitor)),
            ("ok"@, crate::json::JsonView::Bool(true)),
            ("previous"@, crate::json::JsonView::Text(previous)),
            ("revertSeconds"@, crate::json::whole(REVERT_SECONDS as int)),
        ],
    )
}

/// Starts the change of `monitor` from `previous` to `next`: refused while
/// another change is pending, done where there is nothing to change, and
/// otherwise a request to the compositor.
pub fn begin_change(guard: &DisplayGuard, monitor: &str, previous: &str, next: &str) -> (r:
    ChangeStep)
    ensures
        guard@.pending matches Some(p) ==> (r matches ChangeStep::Reply(s) && s@ == busy_reply(
            p.monitor,
        )),
        guard@.pending is None && next@ == previous@ ==> (r matches ChangeStep::Reply(s) && s@
            == crate::json::compact(unchanged_view(monitor@, next@))),
        guard@.pending is None && next@ != previous@ ==> (r matches ChangeStep::Send(s) && s@
            == monitor_request(next@)),
{
    if let Some(p) = guard.peek() {
        let mut m = "a display change on '".to_owned();
        m.push_str(p.monitor.as_str());
        m.push_str("' is already awaiting confirmation — confirm or revert it first");
        return ChangeStep::Reply(resp_error(m.as_str()));
    }
    if text::same_text(next, previous) {
        let fields = Fields::new().with("applied", text_json(next)).with(
            "monitor",
            text_json(monitor),
        ).with("ok", Json::Bool(true)).with("unchanged", Json::Bool(true));
        assert(fields@ =~= unchanged_view(monitor@, next@)->Object_0);
        return ChangeStep::Reply(fields.object().to_compact());
    }
    ChangeStep::Send(monitor_command(next))
}

/// Ends the change of `monitor` with what came of the request. Where it was
/// accepted, the change is pending and a timer has to be set for the number that
/// is returned.
pub fn finish_change(
    guard: &mut DisplayGuard,
    monitor: &str,
    previous: &str,
    next: &str,
    from_conf: bool,
    outcome: Result<(), String>,
    now: u64,
) -> (r: (String, Option<u64>))
    requires
        old(guard)@.generation < u64::MAX,
        now + REVERT_MS <= u64::MAX,
    ensures
        outcome matches Err(e) ==> r.0@ == "error:"@ + e@ && r.1 is None && final(guard)@ == old(
            guard,
        )@,
        outcome is Ok ==> r.0@ == crate::json::compact(
            applied_view(monitor@, previous@, next@, from_conf),
        ),
        outcome is Ok ==> final(guard)@ == armed(old(guard)@, monitor@, previous@, next@, now),
        outcome is Ok ==> r.1 == Some(final(guard)@.generation),
{
    match outcome {
        Err(e) => (resp_error(e.as_str()), None),
        Ok(()) => {
            let generation = guard.arm(monitor, previous, next, now);
            let fields = Fields::new().with("applied", text_json(next)).with(
                "fromConfig",
                Json::Bool(from_conf),
            ).with("monitor", text_json(monitor)).with("ok", Json::Bool(true)).with(
                "previous",
                text_json(previous),
            ).with("revertSeconds", unsigned_json(REVERT_SECONDS));
            assert(fields@ =~= applied_view(monitor@, previous@, next@, from_conf)->Object_0);
            (fields.object().to_compact(), Some(generation))
        },
    }
}

// ---------------------------------------------------------------------------
// Confirming and reverting
// ---------------------------------------------------------------------------

/// The reply where there is nothing to confirm or to revert.
pub open spec fn nothing_pending() -> Seq<char> {
    "error:"@ + "no display change is awaiting confirmation"@
}

/// Takes the pending change to confirm or to revert it; the reply where there is
/// none.
pub fn claim(guard: &mut DisplayGuard) -> (r: Result<Pending, String>)
    ensures
        final(guard)@ == cleared(old(guard)@),
        r is Ok <==> old(guard)@.pending is Some,
        r matches Ok(p) ==> old(guard)@.pending == Some(p@),
        r matches Err(e) ==> e@ == nothing_pending(),
{
    match guard.take() {
        Some(p) => Ok(p),
        None => Err(resp_error("no display change is awaiting confirmation")),
    }
}

/// The configuration file once the change is written down.
pub fn confirmed_conf(p: &Pending, conf: &str) -> (r: String)
    ensures
        r@ == crate::display_mode::upserted(conf@, p.monitor@, p.applied@),
{
    upsert_monitor_line(conf, p.monitor.as_str(), p.applied.as_str())
}

/// The reply to a confirmation. Where the file could not be written, the change
/// stays all the same, and the reply says that it was not persisted.
pub open spec fn confirmed_view(
    p: PendingView,
    path: Seq<char>,
    error: Option<Seq<char>>,
) -> crate::json::JsonView {
    let head = seq![
        ("configPath"@, crate::json::JsonView::Text(path)),
        ("line"@, crate::json::JsonView::Text(p.applied)),
        ("monitor"@, crate::json::JsonView::Text(p.monitor)),
        ("ok"@, crate::json::JsonView::Bool(true)),
    ];
    crate::json::JsonView::Object(
        match error {
            None => head.push(("persisted"@, crate::json::JsonView::Bool(true))),
            Some(e) => head.push(("persistError"@, crate::json::JsonView::Text(e))).push(
                ("persisted"@, crate::json::JsonView::Bool(false)),
            ),
        },
    )
}

/// The reply to a confirmation: the file at `path` was written, or `error` says
/// why not.
pub fn confirm_reply(p: &Pending, path: &str, error: Option<String>) -> (r: String)
    ensures
        r@ == crate::json::compact(confirmed_view(p@, path@, crate::json::text_view(error))),
{
    let head = Fields::new().with("configPath", text_json(path)).with(
        "line",
        text_json(p.applied.as_str()),
    ).with("monitor", text_json(p.monitor.as_str())).with("ok", Json::Bool(true));
    let fields = match &error {
        None => head.with("persisted", Json::Bool(true)),
        Some(e) => head.with("persistError", text_json(e.as_str())).with(
            "persisted",
            Json::Bool(false),
        ),
    };
    assert(fields@ =~= confirmed_view(
        p@,
        path@,
        crate::json::text_view(error),
    )->Object_0);
    fields.object().to_compact()
}

/// The reply once the previous line is back.
pub open spec fn reverted_view(p: PendingView, cause: RevertCause) -> crate::json::JsonView {
    crate::json::JsonView::Object(
        seq![
            ("cause"@, crate::json::JsonView::Text(cause.word())),
            ("monitor"@, crate::json::JsonView::Text(p.monitor)),
            ("ok"@, crate::json::JsonView::Bool(true)),
            ("reverted"@, crate::json::JsonView::Text(p.previous)),
        ],
    )
}

/// The reply to a revert, from what came of the request that
/// [`monitor_command`] of the previous line made.
pub fn restore_reply(p: &Pending, cause: RevertCause, outcome: Result<(), String>) -> (r: String)
    ensures
        outcome is Ok ==> r@ == crate::json::compact(reverted_view(p@, cause)),
        outcome matches Err(e) ==> r@ == "error:"@ + e@,
{
    match outcome {
        Err(e) => resp_error(e.as_str()),
        Ok(()) => {
            let fields = Fields::new().with("cause", text_json(cause.as_str())).with(
                "monitor",
                text_json(p.monitor.as_str()),
            ).with("ok", Json::Bool(true)).with("reverted", text_json(p.previous.as_str()));
            assert(fields@ =~= reverted_view(p@, cause)->Object_0);
            fields.object().to_compact()
        },
    }
}

// ---------------------------------------------------------------------------
// Outputs
// ---------------------------------------------------------------------------

/// An output as the compositor reports it. What is floating point in the report
/// stands beside it in the forms that are needed here.
#[derive(Debug, PartialEq, Eq)]
pub struct Monitor {
    /// What is kept of the report.
    pub entry: Json,
    /// The rate at which the output runs, where it is greater than zero.
    pub refresh: Option<Rate>,
    /// The scale with six decimals.
    pub scale: String,
    /// What the rates of the modes that the output reports read as, as far as they
    /// are finite numbers greater than zero.
    pub rates: Vec<Option<Rate>>,
    /// Whether the rates of two of the modes are close.
    pub close: Vec<Vec<bool>>,
    /// Whether the rate of a mode is close to that at which the output runs.
    pub current_close: Vec<bool>,
}

impl Monitor {
    /// There is a reading of the rate of each spelling, and a word on closeness for
    /// each mode and each pair of modes.
    pub open spec fn wf(self) -> bool {
        &&& self.rates@.len() == spellings(self.entry@).len()
        &&& crate::display_mode::is_square(self.close@, self.modes().len())
        &&& self.current_close@.len() == self.modes().len()
    }

    /// The modes that the output reports, without what it reports that is no mode.
    pub open spec fn modes(self) -> Seq<Mode> {
        crate::display_mode::modes_of(spellings(self.entry@), self.rates@)
    }

    /// The modes that the output reports, without what it reports that is no mode.
    pub fn mode_list(&self) -> (r: Vec<Mode>)
        requires
            self.rates@.len() == spellings(self.entry@).len(),
        ensures
            r@ == self.modes(),
    {
        let available = available_modes(&self.entry);
        assert(text::views(available@).len() == available@.len());
        read_modes(available.as_slice(), self.rates.as_slice())
    }

    /// The name of the output.
    pub open spec fn name(self) -> Seq<char> {
        crate::json::text_or_empty(self.entry@, "name"@)
    }
}

/// The texts in a list of modes.
pub open spec fn texts_in(items: Seq<crate::json::JsonView>) -> Seq<Seq<char>>
    decreases items.len(),
{
    if items.len() == 0 {
        Seq::empty()
    } else {
        match items.last() {
            crate::json::JsonView::Text(s) => texts_in(items.drop_last()).push(s),
            _ => texts_in(items.drop_last()),
        }
    }
}

/// The modes that an output reports, as they are spelled.
pub open spec fn spellings(entry: crate::json::JsonView) -> Seq<Seq<char>> {
    match crate::json::member(entry, "availableModes"@) {
        Some(crate::json::JsonView::Array(items)) => texts_in(items),
        _ => Seq::empty(),
    }
}

/// The modes that an output reports, as they are spelled.
pub fn available_modes(entry: &Json) -> (r: Vec<String>)
    ensures
        text::views(r@) == spellings(entry@),
{
    let mut out: Vec<String> = Vec::new();
    assert(text::views(out@) =~= Seq::empty());
    match entry.get("availableModes") {
        Some(Json::Array(items)) => {
            let ghost all = crate::json::items_said(items@);
            proof {
                crate::json::lemma_said(Json::Array(*items));
                assert(all.take(0) =~= Seq::empty());
            }
            let mut i: usize = 0;
            while i < items.len()
                invariant
                    i <= items.len(),
                    all == crate::json::items_said(items@),
                    text::views(out@) == texts_in(all.take(i as int)),
                decreases items.len() - i,
            {
                let ghost next = all.take(i + 1);
                assert(next.drop_last() =~= all.take(i as int));
                assert(next.last() == items@[i as int]@);
                let ghost before = out@;
                match &items[i] {
                    Json::Text(s) => {
                        let t = s.clone();
                        out.push(t);
                        proof {
                            text::lemma_views_push(before, t);
                        }
                    },
                    Json::Array(_) => {
                        proof {
                            crate::json::lemma_said(items@[i as int]);
                        }
                    },
                    Json::Object(_) => {
                        proof {
                            crate::json::lemma_said(items@[i as int]);
                        }
                    },
                    _ => {},
                }
                i += 1;
            }
            assert(all.take(i as int) =~= all);
        },
        _ => {},
    }
    out
}

/// The first output called `name`, or their number.
pub open spec fn output_at(monitors: Seq<Monitor>, name: Seq<char>) -> int
    decreases monitors.len(),
{
    if monitors.len() == 0 || monitors[0].name() == name {
        0
    } else {
        1 + output_at(monitors.skip(1), name)
    }
}

proof fn lemma_output_at(monitors: Seq<Monitor>, name: Seq<char>, n: int)
    requires
        0 <= n <= monitors.len(),
        forall|i: int| 0 <= i < n ==> (#[trigger] monitors[i]).name() != name,
        n < monitors.len() ==> monitors[n].name() == name,
    ensures
        output_at(monitors, name) == n,
    decreases n,
{
    if n > 0 {
        assert(monitors[0].name() != name);
        let t = monitors.skip(1);
        assert forall|i: int| 0 <= i < n - 1 implies (#[trigger] t[i]).name() != name by {
            assert(t[i] == monitors[i + 1]);
        }
        lemma_output_at(t, name, n - 1);
    }
}

fn find_output(monitors: &Vec<Monitor>, name: &str) -> (r: usize)
    ensures
        r == output_at(monitors@, name@),
        r <= monitors@.len(),
{
    let mut i: usize = 0;
    while i < monitors.len() && !text::same_text(monitors[i].entry.text_at("name").as_str(), name)
        invariant
            i <= monitors.len(),
            forall|k: int| 0 <= k < i ==> (#[trigger] monitors@[k]).name() != name@,
        decreases monitors.len() - i,
    {
        i += 1;
    }
    proof {
        lemma_output_at(monitors@, name@, i as int);
    }
    i
}

/// The mode that an output runs, where its report is usable.
pub open spec fn running(m: Monitor) -> Option<Mode> {
    let w = crate::json::unsigned_or(m.entry@, "width"@, 0);
    let h = crate::json::unsigned_or(m.entry@, "height"@, 0);
    match m.refresh {
        Some(refresh) => if 0 < w <= u32::MAX && 0 < h <= u32::MAX {
            Some(Mode { width: w as u32, height: h as u32, refresh })
        } else {
            None
        },
        None => None,
    }
}

/// The mode that an output runs.
pub fn running_mode(m: &Monitor) -> (r: Option<Mode>)
    ensures
        r == running(*m),
{
    let w: u64 = m.entry.unsigned_at("width", 0);
    let h: u64 = m.entry.unsigned_at("height", 0);
    match &m.refresh {
        Some(rate) => {
            if 0 < w && w <= 0xffff_ffff && 0 < h && h <= 0xffff_ffff {
                Some(Mode { width: w as u32, height: h as u32, refresh: rate.copied() })
            } else {
                None
            }
        },
        None => None,
    }
}

/// The `monitor=` value that a change of `name` starts from, and whether the
/// configuration has it; or why there is none.
pub open spec fn base_of(conf: Seq<char>, monitors: Seq<Monitor>, name: Seq<char>) -> Result<
    (Seq<char>, bool),
    Seq<char>,
> {
    match crate::display_mode::configured_in(conf, name) {
        Some(line) => Ok((line, true)),
        None => {
            let i = output_at(monitors, name);
            if i < monitors.len() {
                let m = monitors[i];
                match running(m) {
                    Some(mode) => Ok(
                        (
                            name + ","@ + mode.keyword() + ","@ + text::int_text(
                                crate::json::signed_or(m.entry@, "x"@, 0) as int,
                            ) + "x"@ + text::int_text(
                                crate::json::signed_or(m.entry@, "y"@, 0) as int,
                            ) + ","@ + crate::display_mode::trimmed_decimal(m.scale@),
                            false,
                        ),
                    ),
                    None => Err("output '"@ + name + "' reports no usable current mode"@),
                }
            } else {
                Err("no such output '"@ + name + "'"@)
            }
        },
    }
}

/// The `monitor=` value that a change of `name` starts from: the configured line,
/// which carries what the compositor does not report, or one made up from the
/// report; and whether it is the configured one.
pub fn base_line(conf: &str, monitors: &Vec<Monitor>, name: &str) -> (r: Result<
    (String, bool),
    String,
>)
    ensures
        r is Ok <==> base_of(conf@, monitors@, name@) is Ok,
        r matches Ok(p) ==> (p.0@, p.1) == base_of(conf@, monitors@, name@)->Ok_0,
        r matches Err(e) ==> e@ == base_of(conf@, monitors@, name@)->Err_0,
{
    if let Some(line) = configured_line(conf, name) {
        return Ok((line, true));
    }
    let i = find_output(monitors, name);
    if i == monitors.len() {
        let mut e = "no such output '".to_owned();
        e.push_str(name);
        e.push_str("'");
        return Err(e);
    }
    let m = &monitors[i];
    match running_mode(m) {
        Some(mode) => {
            let x = m.entry.signed_at("x", 0);
            let y = m.entry.signed_at("y", 0);
            Ok((synthesize_line(name, &mode, x, y, m.scale.as_str()), false))
        },
        None => {
            let mut e = "output '".to_owned();
            e.push_str(name);
            e.push_str("' reports no usable current mode");
            Err(e)
        },
    }
}

/// A change that can be started with [`begin_change`].
#[derive(Debug, PartialEq, Eq)]
pub struct Plan {
    pub previous: String,
    pub next: String,
    /// Whether `previous` stands in the configuration.
    pub from_conf: bool,
}

/// What a [`Plan`] says.
pub struct PlanView {
    pub previous: Seq<char>,
    pub next: Seq<char>,
    pub from_conf: bool,
}

impl View for Plan {
    type V = PlanView;

    open spec fn view(&self) -> PlanView {
        PlanView { previous: self.previous@, next: self.next@, from_conf: self.from_conf }
    }
}

/// Whether the output `m` reports `mode`; `close[i]` says whether the rate of its
/// mode `i` is close to that of `mode`.
pub open spec fn reports(m: Monitor, mode: Mode, close: Seq<bool>) -> bool {
    exists|i: int|
        0 <= i < m.modes().len() && (#[trigger] m.modes()[i]).width == mode.width
            && m.modes()[i].height == mode.height && close[i]
}

fn reports_mode(m: &Monitor, mode: &Mode, close: &Vec<bool>) -> (r: bool)
    requires
        m.wf(),
        close@.len() == m.modes().len(),
    ensures
        r == reports(*m, *mode, close@),
{
    let modes = m.mode_list();
    let mut i: usize = 0;
    while i < modes.len()
        invariant
            i <= modes.len(),
            modes@ == m.modes(),
            close@.len() == modes@.len(),
            forall|k: int|
                0 <= k < i ==> !((#[trigger] m.modes()[k]).width == mode.width && m.modes()[k].height
                    == mode.height && close@[k]),
        decreases modes.len() - i,
    {
        assert(m.modes()[i as int] == modes@[i as int]);
        if modes[i].same(mode, close[i]) {
            return true;
        }
        i += 1;
    }
    false
}

/// The change of `monitor` to the mode spelled `asked`, whose rate reads as `rate`,
/// or the reply that says why it cannot be made: the mode is none, the output is not there or does not
/// report the mode, or its line has no place for one.
pub open spec fn mode_plan(
    conf: Seq<char>,
    monitors: Seq<Monitor>,
    monitor: Seq<char>,
    asked: Seq<char>,
    rate: Option<Rate>,
    close: Seq<Vec<bool>>,
) -> Result<PlanView, Seq<char>> {
    let i = output_at(monitors, monitor);
    match crate::display_mode::mode_of(asked, rate) {
        None => Err(
            "error:"@ + ("unparseable mode '"@ + asked + "' — expected WIDTHxHEIGHT@REFRESH"@),
        ),
        Some(mode) => if i >= monitors.len() {
            Err("error:"@ + ("no such output '"@ + monitor + "'"@))
        } else if !reports(monitors[i], mode, close[i]@) {
            Err(
                "error:"@ + ("output '"@ + monitor + "' does not report mode "@ + mode.keyword()
                    + " as available"@),
            )
        } else {
            match base_of(conf, monitors, monitor) {
                Err(e) => Err("error:"@ + e),
                Ok((previous, from_conf)) => {
                    let f = crate::display_mode::fields_of(previous);
                    if f.len() >= 2 {
                        Ok(
                            PlanView {
                                previous,
                                next: text::joined(f.update(1, mode.keyword()), ","@),
                                from_conf,
                            },
                        )
                    } else {
                        Err(
                            "error:"@ + ("configured line for '"@ + monitor
                                + "' has no resolution field: "@ + previous),
                        )
                    }
                },
            }
        },
    }
}

/// The change of `monitor` to the mode spelled `asked`. `rate` is what the rate in
/// `asked` reads as, where that is a finite number greater than zero, and
/// `close[k][i]` says whether the rate of mode `i` of output `k` is close to it.
pub fn set_mode(
    conf: &str,
    monitors: &Vec<Monitor>,
    monitor: &str,
    asked: &str,
    rate: Option<Rate>,
    close: &Vec<Vec<bool>>,
) -> (r: Result<Plan, String>)
    requires
        close@.len() == monitors@.len(),
        forall|k: int| 0 <= k < monitors@.len() ==> (#[trigger] monitors@[k]).wf(),
        forall|k: int|
            0 <= k < monitors@.len() ==> (#[trigger] close@[k])@.len()
                == monitors@[k].modes().len(),
    ensures
        ({
            let want = mode_plan(conf@, monitors@, monitor@, asked@, rate, close@);
            &&& r is Ok <==> want is Ok
            &&& r matches Ok(p) ==> p@ == want->Ok_0
            &&& r matches Err(e) ==> e@ == want->Err_0
        }),
{
    let mode = match Mode::parse(asked, rate) {
        Some(mode) => mode,
        None => {
            let mut e = "unparseable mode '".to_owned();
            e.push_str(asked);
            e.push_str("' — expected WIDTHxHEIGHT@REFRESH");
            return Err(resp_error(e.as_str()));
        },
    };
    let i = find_output(monitors, monitor);
    if i == monitors.len() {
        let mut e = "no such output '".to_owned();
        e.push_str(monitor);
        e.push_str("'");
        return Err(resp_error(e.as_str()));
    }
    if !reports_mode(&monitors[i], &mode, &close[i]) {
        let mut e = "output '".to_owned();
        e.push_str(monitor);
        e.push_str("' does not report mode ");
        e.push_str(mode.to_keyword().as_str());
        e.push_str(" as available");
        return Err(resp_error(e.as_str()));
    }
    match base_line(conf, monitors, monitor) {
        Err(e) => Err(resp_error(e.as_str())),
        Ok((previous, from_conf)) => match rewrite_mode(previous.as_str(), &mode) {
            Some(next) => Ok(Plan { previous, next, from_conf }),
            None => {
                let mut e = "configured line for '".to_owned();
                e.push_str(monitor);
                e.push_str("' has no resolution field: ");
                e.push_str(previous.as_str());
                Err(resp_error(e.as_str()))
            },
        },
    }
}

/// The change of the VRR setting of `monitor`, or the reply that says why it
/// cannot be made.
pub open spec fn vrr_plan(
    conf: Seq<char>,
    monitors: Seq<Monitor>,
    monitor: Seq<char>,
    vrr: u8,
) -> Result<PlanView, Seq<char>> {
    if vrr > 2 {
        Err("error:"@ + "vrr must be 0 (off), 1 (on) or 2 (fullscreen only)"@)
    } else {
        match base_of(conf, monitors, monitor) {
            Err(e) => Err("error:"@ + e),
            Ok((previous, from_conf)) => {
                let f = crate::display_mode::fields_of(previous);
                if f.len() >= 4 {
                    Ok(
                        PlanView {
                            previous,
                            next: text::joined(crate::display_mode::with_vrr(f, vrr as nat), ","@),
                            from_conf,
                        },
                    )
                } else {
                    Err(
                        "error:"@ + ("configured line for '"@ + monitor
                            + "' is too short to carry a vrr argument: "@ + previous),
                    )
                }
            },
        }
    }
}

/// The change of the VRR setting of `monitor`: off, on, or for windows that fill
/// the screen.
pub fn set_vrr(conf: &str, monitors: &Vec<Monitor>, monitor: &str, vrr: u8) -> (r: Result<
    Plan,
    String,
>)
    ensures
        ({
            let want = vrr_plan(conf@, monitors@, monitor@, vrr);
            &&& r is Ok <==> want is Ok
            &&& r matches Ok(p) ==> p@ == want->Ok_0
            &&& r matches Err(e) ==> e@ == want->Err_0
        }),
{
    if vrr > 2 {
        return Err(resp_error("vrr must be 0 (off), 1 (on) or 2 (fullscreen only)"));
    }
    match base_line(conf, monitors, monitor) {
        Err(e) => Err(resp_error(e.as_str())),
        Ok((previous, from_conf)) => match rewrite_vrr(previous.as_str(), vrr) {
            Some(next) => Ok(Plan { previous, next, from_conf }),
            None => {
                let mut e = "configured line for '".to_owned();
                e.push_str(monitor);
                e.push_str("' is too short to carry a vrr argument: ");
                e.push_str(previous.as_str());
                Err(resp_error(e.as_str()))
            },
        },
    }
}

// ---------------------------------------------------------------------------
// The state of the displays
// ---------------------------------------------------------------------------

/// An entry of a mode picker as a document.
pub open spec fn option_view(o: crate::display_mode::OptionView) -> crate::json::JsonView {
    crate::json::JsonView::Object(
        seq![
            ("current"@, crate::json::JsonView::Bool(o.current)),
            ("label"@, crate::json::JsonView::Text(o.label)),
            ("value"@, crate::json::JsonView::Text(o.value)),
        ],
    )
}

/// The entries of a mode picker as documents.
pub open spec fn option_views(o: Seq<crate::display_mode::OptionView>) -> Seq<
    crate::json::JsonView,
> {
    Seq::new(o.len(), |i: int| option_view(o[i]))
}

/// The VRR argument of a configured line.
pub open spec fn configured_vrr(line: Option<Seq<char>>) -> crate::json::JsonView {
    match line {
        Some(l) => match crate::display_mode::vrr_of(crate::display_mode::fields_of(l)) {
            Some(n) => crate::json::whole(n as int),
            None => crate::json::JsonView::Null,
        },
        None => crate::json::JsonView::Null,
    }
}

/// The picker of an output.
pub open spec fn picker_of(m: Monitor) -> Seq<crate::display_mode::OptionView> {
    crate::display_mode::picker(
        m.modes(),
        m.close@,
        match running(m) {
            Some(mode) => Some((mode.width, mode.height)),
            None => None,
        },
        m.current_close@,
    )
}

/// One output: what it reports, what the configuration asks of it, and its mode
/// picker.
pub open spec fn display_view(m: Monitor, conf: Seq<char>) -> crate::json::JsonView {
    let v = m.entry@;
    let line = crate::display_mode::configured_in(conf, m.name());
    crate::json::JsonView::Object(
        seq![
            ("configuredLine"@, crate::json::text_or_null(line)),
            ("configuredVrr"@, configured_vrr(line)),
            (
                "currentFormat"@,
                crate::json::JsonView::Text(crate::json::text_or_empty(v, "currentFormat"@)),
            ),
            (
                "currentLabel"@,
                crate::json::text_or_null(
                    match running(m) {
                        Some(mode) => Some(mode.menu_label()),
                        None => None,
                    },
                ),
            ),
            (
                "currentMode"@,
                crate::json::text_or_null(
                    match running(m) {
                        Some(mode) => Some(mode.keyword()),
                        None => None,
                    },
                ),
            ),
            (
                "description"@,
                crate::json::JsonView::Text(crate::json::text_or_empty(v, "description"@)),
            ),
            (
                "dpmsStatus"@,
                crate::json::JsonView::Bool(crate::json::bool_or(v, "dpmsStatus"@, true)),
            ),
            ("hdr"@, crate::json::JsonView::Bool(crate::json::bool_or(v, "hdr"@, false))),
            ("modes"@, crate::json::JsonView::Array(option_views(picker_of(m)))),
            ("name"@, crate::json::JsonView::Text(m.name())),
            ("vrrActive"@, crate::json::JsonView::Bool(crate::json::bool_or(v, "vrr"@, false))),
        ],
    )
}

/// The pending change and the whole seconds that are left of it.
pub open spec fn pending_doc(p: Option<PendingView>, now: u64) -> crate::json::JsonView {
    match p {
        Some(p) => crate::json::JsonView::Object(
            seq![
                ("applied"@, crate::json::JsonView::Text(p.applied)),
                ("monitor"@, crate::json::JsonView::Text(p.monitor)),
                ("previous"@, crate::json::JsonView::Text(p.previous)),
                (
                    "secondsRemaining"@,
                    crate::json::whole(crate::hyprland::age_ms(now, p.deadline) as int / 1000),
                ),
            ],
        ),
        None => crate::json::JsonView::Null,
    }
}

/// All outputs, the pending change and the configuration file.
pub open spec fn state_view(
    monitors: Seq<Monitor>,
    conf: Seq<char>,
    conf_path: Seq<char>,
    conf_present: bool,
    pending: Option<PendingView>,
    now: u64,
) -> crate::json::JsonView {
    crate::json::JsonView::Object(
        seq![
            ("configPath"@, crate::json::JsonView::Text(conf_path)),
            ("configPresent"@, crate::json::JsonView::Bool(conf_present)),
            (
                "displays"@,
                crate::json::JsonView::Array(
                    Seq::new(monitors.len(), |i: int| display_view(monitors[i], conf)),
                ),
            ),
            ("pending"@, pending_doc(pending, now)),
            ("revertSeconds"@, crate::json::whole(REVERT_SECONDS as int)),
        ],
    )
}

fn picker_json(m: &Monitor, running: &Option<Mode>) -> (r: Json)
    requires
        m.wf(),
        *running == crate::display_change::running(*m),
    ensures
        r@ == crate::json::JsonView::Array(option_views(picker_of(*m))),
{
    let current: Option<(u32, u32)> = match running {
        Some(mode) => Some((mode.width, mode.height)),
        None => None,
    };
    let modes = m.mode_list();
    let options = mode_options(&modes, &m.close, current, &m.current_close);
    let ghost said = crate::display_mode::options_said(options@);
    let mut out: Vec<Json> = Vec::new();
    let mut i: usize = 0;
    while i < options.len()
        invariant
            i <= options.len(),
            said == crate::display_mode::options_said(options@),
            out@.len() == i,
            forall|k: int| 0 <= k < i ==> (#[trigger] out@[k])@ == option_view(said[k]),
        decreases options.len() - i,
    {
        let o = &options[i];
        let fields = Fields::new().with("current", Json::Bool(o.current)).with(
            "label",
            text_json(o.label.as_str()),
        ).with("value", text_json(o.value.as_str()));
        assert(fields@ =~= option_view(said[i as int])->Object_0);
        out.push(fields.object());
        i += 1;
    }
    let r = Json::Array(out);
    proof {
        crate::json::lemma_said(r);
        assert(crate::json::items_said(out@) =~= option_views(said));
    }
    r
}

/// One output as a document.
pub fn display_entry(m: &Monitor, conf: &str) -> (r: Json)
    requires
        m.wf(),
    ensures
        r@ == display_view(*m, conf@),
{
    let name = m.entry.text_at("name");
    let running = running_mode(m);
    let (label, keyword): (Option<String>, Option<String>) = match &running {
        Some(mode) => (Some(mode.label()), Some(mode.to_keyword())),
        None => (None, None),
    };
    let line = configured_line(conf, name.as_str());
    let vrr = match &line {
        Some(l) => match line_vrr(l.as_str()) {
            Some(v) => unsigned_json(v as u64),
            None => Json::Null,
        },
        None => Json::Null,
    };
    let modes = picker_json(m, &running);
    let v = &m.entry;
    let fields = Fields::new().with("configuredLine", optional_text_json(&line)).with(
        "configuredVrr",
        vrr,
    ).with("currentFormat", text_json(v.text_at("currentFormat").as_str())).with(
        "currentLabel",
        optional_text_json(&label),
    ).with("currentMode", optional_text_json(&keyword)).with(
        "description",
        text_json(v.text_at("description").as_str()),
    ).with("dpmsStatus", Json::Bool(v.bool_at("dpmsStatus", true))).with(
        "hdr",
        Json::Bool(v.bool_at("hdr", false)),
    ).with("modes", modes).with("name", text_json(name.as_str())).with(
        "vrrActive",
        Json::Bool(v.bool_at("vrr", false)),
    );
    assert(fields@ =~= display_view(*m, conf@)->Object_0);
    fields.object()
}

fn pending_json(p: Option<&Pending>, now: u64) -> (r: Json)
    ensures
        r@ == pending_doc(
            match p {
                Some(p) => Some(p@),
                None => None,
            },
            now,
        ),
{
    match p {
        Some(p) => {
            let left: u64 = p.deadline.saturating_sub(now) / 1000;
            let fields = Fields::new().with("applied", text_json(p.applied.as_str())).with(
                "monitor",
                text_json(p.monitor.as_str()),
            ).with("previous", text_json(p.previous.as_str())).with(
                "secondsRemaining",
                unsigned_json(left),
            );
            assert(fields@ =~= pending_doc(Some(p@), now)->Object_0);
            fields.object()
        },
        None => Json::Null,
    }
}

/// The reply about the displays: all that their controls need.
pub fn display_state_json(
    guard: &DisplayGuard,
    monitors: &Vec<Monitor>,
    conf: &str,
    conf_path: &str,
    conf_present: bool,
    now: u64,
) -> (r: String)
    requires
        forall|i: int| 0 <= i < monitors@.len() ==> (#[trigger] monitors@[i]).wf(),
    ensures
        r@ == crate::json::compact(
            state_view(monitors@, conf@, conf_path@, conf_present, guard@.pending, now),
        ),
{
    let mut displays: Vec<Json> = Vec::new();
    let mut i: usize = 0;
    while i < monitors.len()
        invariant
            i <= monitors.len(),
            forall|k: int| 0 <= k < monitors@.len() ==> (#[trigger] monitors@[k]).wf(),
            displays@.len() == i,
            forall|k: int|
                0 <= k < i ==> (#[trigger] displays@[k])@ == display_view(monitors@[k], conf@),
        decreases monitors.len() - i,
    {
        displays.push(display_entry(&monitors[i], conf));
        i += 1;
    }
    let list = Json::Array(displays);
    let ghost views = Seq::new(monitors@.len(), |i: int| display_view(monitors@[i], conf@));
    proof {
        crate::json::lemma_said(list);
        assert(crate::json::items_said(displays@) =~= views);
    }
    let pending = pending_json(guard.peek(), now);
    let fields = Fields::new().with("configPath", text_json(conf_path)).with(
        "configPresent",
        Json::Bool(conf_present),
    ).with("displays", list).with("pending", pending).with(
        "revertSeconds",
        unsigned_json(REVERT_SECONDS),
    );
    let ghost want = state_view(monitors@, conf@, conf_path@, conf_present, guard@.pending, now);
    assert(fields@[2].1 == want->Object_0[2].1) by {
        assert(want->Object_0[2].1->Array_0 =~= views);
    }
    assert(fields@ =~= want->Object_0);
    fields.object().to_compact()
}

// ---------------------------------------------------------------------------
// Laws of the whole way
// ---------------------------------------------------------------------------

/// A VRR setting that was applied to a configured output and confirmed is what
/// the configuration says from then on, with every other field as it was.
pub proof fn law_confirmed_vrr_is_configured(
    conf: Seq<char>,
    monitors: Seq<Monitor>,
    name: Seq<char>,
    vrr: u8,
)
    requires
        crate::display_mode::configured_in(conf, name) is Some,
        vrr_plan(conf, monitors, name, vrr) is Ok,
    ensures
        ({
            let plan = vrr_plan(conf, monitors, name, vrr)->Ok_0;
            let after = crate::display_mode::upserted(conf, name, plan.next);
            &&& crate::display_mode::configured_in(after, name) == Some(plan.next)
            &&& crate::display_mode::vrr_of(crate::display_mode::fields_of(plan.next)) == Some(
                vrr as nat,
            )
            &&& forall|i: int|
                0 <= i < 4 ==> #[trigger] crate::display_mode::fields_of(plan.next)[i]
                    == crate::display_mode::fields_of(plan.previous)[i]
        }),
{
    let line = crate::display_mode::configured_in(conf, name)->0;
    let plan = vrr_plan(conf, monitors, name, vrr)->Ok_0;
    crate::display_mode::lemma_configured_value(conf, name);
    crate::display_mode::lemma_rewritten_vrr_is_value(line, name, vrr);
    crate::display_mode::law_rewrite_vrr(line, vrr);
    crate::display_mode::law_upsert_reads_back(conf, name, plan.next);
}

/// A mode that was applied to a configured output and confirmed is what the
/// configuration says from then on, with every other field as it was.
pub proof fn law_confirmed_mode_is_configured(
    conf: Seq<char>,
    monitors: Seq<Monitor>,
    name: Seq<char>,
    asked: Seq<char>,
    rate: Rate,
    close: Seq<Vec<bool>>,
)
    requires
        rate.wf(),
        crate::display_mode::configured_in(conf, name) is Some,
        mode_plan(conf, monitors, name, asked, Some(rate), close) is Ok,
    ensures
        ({
            let mode = crate::display_mode::mode_of(asked, Some(rate))->0;
            let plan = mode_plan(conf, monitors, name, asked, Some(rate), close)->Ok_0;
            let after = crate::display_mode::upserted(conf, name, plan.next);
            &&& crate::display_mode::configured_in(after, name) == Some(plan.next)
            &&& crate::display_mode::fields_of(plan.next) == crate::display_mode::fields_of(
                plan.previous,
            ).update(1, mode.keyword())
        }),
{
    let line = crate::display_mode::configured_in(conf, name)->0;
    let mode = crate::display_mode::mode_of(asked, Some(rate))->0;
    let plan = mode_plan(conf, monitors, name, asked, Some(rate), close)->Ok_0;
    crate::display_mode::lemma_configured_value(conf, name);
    crate::display_mode::lemma_mode_is_field(mode);
    crate::display_mode::lemma_rewritten_mode_is_value(line, name, mode);
    crate::display_mode::law_rewrite_mode(line, mode.keyword());
    crate::display_mode::law_upsert_reads_back(conf, name, plan.next);
}

// ---------------------------------------------------------------------------
// Laws of plans and replies
// ---------------------------------------------------------------------------

/// A change that was applied is pending under a number of its own, with what it was and
/// what it is, for fifteen seconds. Taking it out leaves none, and keeps the number.
pub proof fn law_applied_changes_are_pending(
    g: GuardView,
    monitor: Seq<char>,
    previous: Seq<char>,
    applied: Seq<char>,
    now: u64,
    other: u64,
)
    requires
        g.generation < u64::MAX,
        now + 15_000 <= u64::MAX,
    ensures
        ({
            let this = armed(g, monitor, previous, applied, now);
            &&& this.generation == g.generation + 1
            &&& this.pending matches Some(p) && p.monitor == monitor && p.previous == previous
                && p.applied == applied && p.generation == g.generation + 1 && p.deadline == now
                + 15_000
            &&& of_generation(this, this.generation) == this.pending
            &&& other != this.generation ==> of_generation(this, other) is None
            &&& cleared(this).pending is None && cleared(this).generation == this.generation
        }),
{
}

/// The first output of a name is meant.
pub proof fn law_first_output_is_meant(monitors: Seq<Monitor>, name: Seq<char>, n: int)
    requires
        0 <= n <= monitors.len(),
        forall|i: int|
            0 <= i < n ==> crate::json::text_or_empty((#[trigger] monitors[i]).entry@, "name"@)
                != name,
        n < monitors.len() ==> crate::json::text_or_empty(monitors[n].entry@, "name"@) == name,
    ensures
        output_at(monitors, name) == n,
{
    assert forall|i: int| 0 <= i < n implies (#[trigger] monitors[i]).name() != name by {}
    lemma_output_at(monitors, name, n);
}

/// An output runs the mode of the width and the height that it reports at the rate that it
/// reports; one that reports no size or no rate runs none.
pub proof fn law_running_mode_is_what_is_reported(m: Monitor, w: u64, h: u64, rate: Rate)
    requires
        w == crate::json::unsigned_or(m.entry@, "width"@, 0),
        h == crate::json::unsigned_or(m.entry@, "height"@, 0),
    ensures
        m.refresh == Some(rate) && 0 < w <= 0xffff_ffff && 0 < h <= 0xffff_ffff ==> running(m)
            == Some(Mode { width: w as u32, height: h as u32, refresh: rate }),
        m.refresh is None || w == 0 || h == 0 || w > 0xffff_ffff || h > 0xffff_ffff ==> running(m)
            is None,
{
}

/// A change starts from the line that the configuration has for the output, whatever the
/// output reports; and without one from its name, its running mode, its own place and its
/// scale. An output that is neither configured nor there has no line.
pub proof fn law_changes_start_from_the_configuration(
    conf: Seq<char>,
    monitors: Seq<Monitor>,
    name: Seq<char>,
    n: int,
)
    requires
        n == output_at(monitors, name),
    ensures
        crate::display_mode::configured_in(conf, name) matches Some(line) ==> base_of(
            conf,
            monitors,
            name,
        ) == Ok::<(Seq<char>, bool), Seq<char>>((line, true)),
        crate::display_mode::configured_in(conf, name) is None && n < monitors.len() ==> {
            let m = monitors[n];
            let x = crate::json::signed_or(m.entry@, "x"@, 0);
            let y = crate::json::signed_or(m.entry@, "y"@, 0);
            match running(m) {
                Some(mode) => base_of(conf, monitors, name) == Ok::<(Seq<char>, bool), Seq<char>>(
                    (
                        name + ","@ + (text::dec(mode.width as nat) + "x"@ + text::dec(
                            mode.height as nat,
                        ) + "@"@ + mode.refresh.keyword@) + ","@ + text::int_text(x as int) + "x"@
                            + text::int_text(y as int) + ","@
                            + crate::display_mode::trimmed_decimal(m.scale@),
                        false,
                    ),
                ),
                None => base_of(conf, monitors, name) == Err::<(Seq<char>, bool), Seq<char>>(
                    "output '"@ + name + "' reports no usable current mode"@,
                ),
            }
        },
        crate::display_mode::configured_in(conf, name) is None && n >= monitors.len() ==> base_of(
            conf,
            monitors,
            name,
        ) == Err::<(Seq<char>, bool), Seq<char>>("no such output '"@ + name + "'"@),
{
}

/// A mode is set only where it is one, the output is there, and it reports a mode of that
/// width and that height at a close rate; the new line is then the old one with the mode in
/// its second field. Otherwise the reply says which of these fails.
pub proof fn law_modes_are_set_where_reported(
    conf: Seq<char>,
    monitors: Seq<Monitor>,
    name: Seq<char>,
    asked: Seq<char>,
    rate: Option<Rate>,
    close: Seq<Vec<bool>>,
)
    ensures
        ({
            let plan = mode_plan(conf, monitors, name, asked, rate, close);
            let n = output_at(monitors, name);
            let mode = crate::display_mode::mode_of(asked, rate)->0;
            let keyword = text::dec(mode.width as nat) + "x"@ + text::dec(mode.height as nat)
                + "@"@ + mode.refresh.keyword@;
            let base = base_of(conf, monitors, name);
            let fields = crate::display_mode::fields_of(base->Ok_0.0);
            let unread = crate::display_mode::mode_of(asked, rate) is None;
            let absent = n >= monitors.len();
            let unreported = forall|i: int|
                0 <= i < monitors[n].modes().len() ==> !((#[trigger] monitors[n].modes()[i]).width
                    == mode.width && monitors[n].modes()[i].height == mode.height
                    && close[n]@[i]);
            &&& unread ==> plan == Err::<PlanView, Seq<char>>(
                "error:"@ + ("unparseable mode '"@ + asked
                    + "' — expected WIDTHxHEIGHT@REFRESH"@),
            )
            &&& !unread && absent ==> plan == Err::<PlanView, Seq<char>>(
                "error:"@ + ("no such output '"@ + name + "'"@),
            )
            &&& !unread && !absent && unreported ==> plan == Err::<PlanView, Seq<char>>(
                "error:"@ + ("output '"@ + name + "' does not report mode "@ + keyword
                    + " as available"@),
            )
            &&& !unread && !absent && !unreported && base is Err ==> plan == Err::<
                PlanView,
                Seq<char>,
            >("error:"@ + base->Err_0)
            &&& !unread && !absent && !unreported && base is Ok && fields.len() >= 2 ==> plan
                == Ok::<PlanView, Seq<char>>(
                PlanView {
                    previous: base->Ok_0.0,
                    next: text::joined(fields.update(1, keyword), ","@),
                    from_conf: base->Ok_0.1,
                },
            )
            &&& !unread && !absent && !unreported && base is Ok && fields.len() < 2 ==> plan is Err
        }),
{
}

/// Adaptive sync is off, on or for windows that fill the screen; anything else is refused.
/// The new line is the old one with that argument.
pub proof fn law_vrr_has_three_settings(
    conf: Seq<char>,
    monitors: Seq<Monitor>,
    name: Seq<char>,
    vrr: u8,
)
    ensures
        ({
            let plan = vrr_plan(conf, monitors, name, vrr);
            let base = base_of(conf, monitors, name);
            let fields = crate::display_mode::fields_of(base->Ok_0.0);
            &&& vrr > 2 ==> plan == Err::<PlanView, Seq<char>>(
                "error:"@ + "vrr must be 0 (off), 1 (on) or 2 (fullscreen only)"@,
            )
            &&& vrr <= 2 && base is Err ==> plan == Err::<PlanView, Seq<char>>(
                "error:"@ + base->Err_0,
            )
            &&& vrr <= 2 && base is Ok && fields.len() >= 4 ==> (plan matches Ok(p) && p.previous
                == base->Ok_0.0 && p.from_conf == base->Ok_0.1
                && crate::display_mode::vrr_of(crate::display_mode::fields_of(p.next)) == Some(
                vrr as nat,
            ) && forall|i: int|
                0 <= i < 4 ==> #[trigger] crate::display_mode::fields_of(p.next)[i] == fields[i])
            &&& vrr <= 2 && base is Ok && fields.len() < 4 ==> plan is Err
        }),
{
    let base = base_of(conf, monitors, name);
    if vrr <= 2 && base is Ok && crate::display_mode::fields_of(base->Ok_0.0).len() >= 4 {
        crate::display_mode::law_rewrite_vrr(base->Ok_0.0, vrr);
    }
}

proof fn lemma_reply_keys()
    ensures
        "applied"@ != "monitor"@,
        "applied"@ != "ok"@,
        "applied"@ != "unchanged"@,
        "applied"@ != "fromConfig"@,
        "applied"@ != "previous"@,
        "applied"@ != "revertSeconds"@,
        "applied"@ != "configPath"@,
        "applied"@ != "line"@,
        "applied"@ != "persisted"@,
        "applied"@ != "persistError"@,
        "applied"@ != "cause"@,
        "applied"@ != "reverted"@,
        "monitor"@ != "ok"@,
        "monitor"@ != "unchanged"@,
        "monitor"@ != "fromConfig"@,
        "monitor"@ != "previous"@,
        "monitor"@ != "revertSeconds"@,
        "monitor"@ != "configPath"@,
        "monitor"@ != "line"@,
        "monitor"@ != "persisted"@,
        "monitor"@ != "persistError"@,
        "monitor"@ != "cause"@,
        "monitor"@ != "reverted"@,
        "ok"@ != "unchanged"@,
        "ok"@ != "fromConfig"@,
        "ok"@ != "previous"@,
        "ok"@ != "revertSeconds"@,
        "ok"@ != "configPath"@,
        "ok"@ != "line"@,
        "ok"@ != "persisted"@,
        "ok"@ != "persistError"@,
        "ok"@ != "cause"@,
        "ok"@ != "reverted"@,
        "unchanged"@ != "fromConfig"@,
        "unchanged"@ != "previous"@,
        "unchanged"@ != "revertSeconds"@,
        "unchanged"@ != "configPath"@,
        "unchanged"@ != "line"@,
        "unchanged"@ != "persisted"@,
        "unchanged"@ != "persistError"@,
        "unchanged"@ != "cause"@,
        "unchanged"@ != "reverted"@,
        "fromConfig"@ != "previous"@,
        "fromConfig"@ != "revertSeconds"@,
        "fromConfig"@ != "configPath"@,
        "fromConfig"@ != "line"@,
        "fromConfig"@ != "persisted"@,
        "fromConfig"@ != "persistError"@,
        "fromConfig"@ != "cause"@,
        "fromConfig"@ != "reverted"@,
        "previous"@ != "revertSeconds"@,
        "previous"@ != "configPath"@,
        "previous"@ != "line"@,
        "previous"@ != "persisted"@,
        "previous"@ != "persistError"@,
        "previous"@ != "cause"@,
        "previous"@ != "reverted"@,
        "revertSeconds"@ != "configPath"@,
        "revertSeconds"@ != "line"@,
        "revertSeconds"@ != "persisted"@,
        "revertSeconds"@ != "persistError"@,
        "revertSeconds"@ != "cause"@,
        "revertSeconds"@ != "reverted"@,
        "configPath"@ != "line"@,
        "configPath"@ != "persisted"@,
        "configPath"@ != "persistError"@,
        "configPath"@ != "cause"@,
        "configPath"@ != "reverted"@,
        "line"@ != "persisted"@,
        "line"@ != "persistError"@,
        "line"@ != "cause"@,
        "line"@ != "reverted"@,
        "persisted"@ != "persistError"@,
        "persisted"@ != "cause"@,
        "persisted"@ != "reverted"@,
        "persistError"@ != "cause"@,
        "persistError"@ != "reverted"@,
        "cause"@ != "reverted"@,
{
    reveal_strlit("applied");
    reveal_strlit("monitor");
    reveal_strlit("ok");
    reveal_strlit("unchanged");
    reveal_strlit("fromConfig");
    reveal_strlit("previous");
    reveal_strlit("revertSeconds");
    reveal_strlit("configPath");
    reveal_strlit("line");
    reveal_strlit("persisted");
    reveal_strlit("persistError");
    reveal_strlit("cause");
    reveal_strlit("reverted");
    assert("applied"@.len() == 7 && "applied"@[0] == 'a');
    assert("monitor"@.len() == 7 && "monitor"@[0] == 'm');
    assert("ok"@.len() == 2);
    assert("unchanged"@.len() == 9 && "unchanged"@[0] == 'u');
    assert("fromConfig"@.len() == 10 && "fromConfig"@[0] == 'f');
    assert("previous"@.len() == 8 && "previous"@[0] == 'p');
    assert("revertSeconds"@.len() == 13);
    assert("configPath"@.len() == 10 && "configPath"@[0] == 'c');
    assert("line"@.len() == 4);
    assert("persisted"@.len() == 9 && "persisted"@[0] == 'p');
    assert("persistError"@.len() == 12);
    assert("cause"@.len() == 5);
    assert("reverted"@.len() == 8 && "reverted"@[0] == 'r');
}

/// What is replied to a change says what was applied to which output, what was there
/// before, and for how long it stays unconfirmed.
pub proof fn law_change_replies_say_what_was_done(
    monitor: Seq<char>,
    previous: Seq<char>,
    applied: Seq<char>,
    from_conf: bool,
)
    ensures
        ({
            let v = applied_view(monitor, previous, applied, from_conf);
            let u = unchanged_view(monitor, applied);
            let text_in = |doc: crate::json::JsonView, key: Seq<char>, t: Seq<char>|
                crate::json::member(doc, key) == Some(crate::json::JsonView::Text(t));
            let bool_in = |doc: crate::json::JsonView, key: Seq<char>, b: bool|
                crate::json::member(doc, key) == Some(crate::json::JsonView::Bool(b));
            &&& text_in(v, "applied"@, applied)
            &&& text_in(v, "monitor"@, monitor)
            &&& text_in(v, "previous"@, previous)
            &&& bool_in(v, "fromConfig"@, from_conf)
            &&& bool_in(v, "ok"@, true)
            &&& crate::json::member(v, "revertSeconds"@) matches Some(
                crate::json::JsonView::Number(n),
            ) && n.unsigned == Some(15u64) && n.json == text::int_text(15)
            &&& crate::json::member(v, "unchanged"@) is None
            &&& text_in(u, "applied"@, applied)
            &&& text_in(u, "monitor"@, monitor)
            &&& bool_in(u, "ok"@, true)
            &&& bool_in(u, "unchanged"@, true)
        }),
{
    lemma_reply_keys();
    let v = applied_view(monitor, previous, applied, from_conf)->Object_0;
    let u = unchanged_view(monitor, applied)->Object_0;
    crate::json::law_first_entry_counts(v, "applied"@, 0);
    crate::json::law_first_entry_counts(v, "fromConfig"@, 1);
    crate::json::law_first_entry_counts(v, "monitor"@, 2);
    crate::json::law_first_entry_counts(v, "ok"@, 3);
    crate::json::law_first_entry_counts(v, "previous"@, 4);
    crate::json::law_first_entry_counts(v, "revertSeconds"@, 5);
    crate::json::law_first_entry_counts(v, "unchanged"@, 6);
    crate::json::law_first_entry_counts(u, "applied"@, 0);
    crate::json::law_first_entry_counts(u, "monitor"@, 1);
    crate::json::law_first_entry_counts(u, "ok"@, 2);
    crate::json::law_first_entry_counts(u, "unchanged"@, 3);
}

/// What is replied to a confirmation says which line was kept for which output, where, and
/// whether it was written; and what is replied to a revert which line is back, and why.
pub proof fn law_ends_of_changes_are_told(
    p: PendingView,
    path: Seq<char>,
    error: Option<Seq<char>>,
    cause: RevertCause,
)
    ensures
        ({
            let v = confirmed_view(p, path, error);
            let r = reverted_view(p, cause);
            let text_in = |doc: crate::json::JsonView, key: Seq<char>, t: Seq<char>|
                crate::json::member(doc, key) == Some(crate::json::JsonView::Text(t));
            let bool_in = |doc: crate::json::JsonView, key: Seq<char>, b: bool|
                crate::json::member(doc, key) == Some(crate::json::JsonView::Bool(b));
            &&& text_in(v, "configPath"@, path)
            &&& text_in(v, "line"@, p.applied)
            &&& text_in(v, "monitor"@, p.monitor)
            &&& bool_in(v, "ok"@, true)
            &&& bool_in(v, "persisted"@, error is None)
            &&& error matches Some(e) ==> text_in(v, "persistError"@, e)
            &&& error is None ==> crate::json::member(v, "persistError"@) is None
            &&& text_in(r, "reverted"@, p.previous)
            &&& text_in(r, "monitor"@, p.monitor)
            &&& bool_in(r, "ok"@, true)
            &&& cause == RevertCause::Manual ==> text_in(r, "cause"@, "manual"@)
            &&& cause == RevertCause::Timeout ==> text_in(r, "cause"@, "timeout"@)
        }),
{
    lemma_reply_keys();
    let v = confirmed_view(p, path, error)->Object_0;
    let r = reverted_view(p, cause)->Object_0;
    if error is None {
        crate::json::law_first_entry_counts(v, "configPath"@, 0);
        crate::json::law_first_entry_counts(v, "line"@, 1);
        crate::json::law_first_entry_counts(v, "monitor"@, 2);
        crate::json::law_first_entry_counts(v, "ok"@, 3);
        crate::json::law_first_entry_counts(v, "persisted"@, 4);
        crate::json::law_first_entry_counts(v, "persistError"@, 5);
    } else {
        crate::json::law_first_entry_counts(v, "configPath"@, 0);
        crate::json::law_first_entry_counts(v, "line"@, 1);
        crate::json::law_first_entry_counts(v, "monitor"@, 2);
        crate::json::law_first_entry_counts(v, "ok"@, 3);
        crate::json::law_first_entry_counts(v, "persistError"@, 4);
        crate::json::law_first_entry_counts(v, "persisted"@, 5);
    }
    crate::json::law_first_entry_counts(r, "cause"@, 0);
    crate::json::law_first_entry_counts(r, "monitor"@, 1);
    crate::json::law_first_entry_counts(r, "ok"@, 2);
    crate::json::law_first_entry_counts(r, "reverted"@, 3);
}

proof fn lemma_state_keys()
    ensures
        "configuredLine"@ != "configuredVrr"@,
        "configuredLine"@ != "currentFormat"@,
        "configuredLine"@ != "currentLabel"@,
        "configuredLine"@ != "currentMode"@,
        "configuredLine"@ != "description"@,
        "configuredLine"@ != "dpmsStatus"@,
        "configuredLine"@ != "hdr"@,
        "configuredLine"@ != "modes"@,
        "configuredLine"@ != "name"@,
        "configuredLine"@ != "vrrActive"@,
        "configuredVrr"@ != "currentFormat"@,
        "configuredVrr"@ != "currentLabel"@,
        "configuredVrr"@ != "currentMode"@,
        "configuredVrr"@ != "description"@,
        "configuredVrr"@ != "dpmsStatus"@,
        "configuredVrr"@ != "hdr"@,
        "configuredVrr"@ != "modes"@,
        "configuredVrr"@ != "name"@,
        "configuredVrr"@ != "vrrActive"@,
        "currentFormat"@ != "currentLabel"@,
        "currentFormat"@ != "currentMode"@,
        "currentFormat"@ != "description"@,
        "currentFormat"@ != "dpmsStatus"@,
        "currentFormat"@ != "hdr"@,
        "currentFormat"@ != "modes"@,
        "currentFormat"@ != "name"@,
        "currentFormat"@ != "vrrActive"@,
        "currentLabel"@ != "currentMode"@,
        "currentLabel"@ != "description"@,
        "currentLabel"@ != "dpmsStatus"@,
        "currentLabel"@ != "hdr"@,
        "currentLabel"@ != "modes"@,
        "currentLabel"@ != "name"@,
        "currentLabel"@ != "vrrActive"@,
        "currentMode"@ != "description"@,
        "currentMode"@ != "dpmsStatus"@,
        "currentMode"@ != "hdr"@,
        "currentMode"@ != "modes"@,
        "currentMode"@ != "name"@,
        "currentMode"@ != "vrrActive"@,
        "description"@ != "dpmsStatus"@,
        "description"@ != "hdr"@,
        "description"@ != "modes"@,
        "description"@ != "name"@,
        "description"@ != "vrrActive"@,
        "dpmsStatus"@ != "hdr"@,
        "dpmsStatus"@ != "modes"@,
        "dpmsStatus"@ != "name"@,
        "dpmsStatus"@ != "vrrActive"@,
        "hdr"@ != "modes"@,
        "hdr"@ != "name"@,
        "hdr"@ != "vrrActive"@,
        "modes"@ != "name"@,
        "modes"@ != "vrrActive"@,
        "name"@ != "vrrActive"@,
        "applied"@ != "monitor"@,
        "applied"@ != "previous"@,
        "applied"@ != "secondsRemaining"@,
        "monitor"@ != "previous"@,
        "monitor"@ != "secondsRemaining"@,
        "previous"@ != "secondsRemaining"@,
        "configPath"@ != "configPresent"@,
        "configPath"@ != "displays"@,
        "configPath"@ != "pending"@,
        "configPath"@ != "revertSeconds"@,
        "configPresent"@ != "displays"@,
        "configPresent"@ != "pending"@,
        "configPresent"@ != "revertSeconds"@,
        "displays"@ != "pending"@,
        "displays"@ != "revertSeconds"@,
        "pending"@ != "revertSeconds"@,
        "current"@ != "label"@,
        "current"@ != "value"@,
        "label"@ != "value"@,
{
    reveal_strlit("configuredLine");
    reveal_strlit("configuredVrr");
    reveal_strlit("currentFormat");
    reveal_strlit("currentLabel");
    reveal_strlit("currentMode");
    reveal_strlit("description");
    reveal_strlit("dpmsStatus");
    reveal_strlit("hdr");
    reveal_strlit("modes");
    reveal_strlit("name");
    reveal_strlit("vrrActive");
    reveal_strlit("applied");
    reveal_strlit("monitor");
    reveal_strlit("previous");
    reveal_strlit("secondsRemaining");
    reveal_strlit("configPath");
    reveal_strlit("configPresent");
    reveal_strlit("displays");
    reveal_strlit("pending");
    reveal_strlit("revertSeconds");
    reveal_strlit("current");
    reveal_strlit("label");
    reveal_strlit("value");
    assert("configuredLine"@.len() == 14);
    assert("configuredVrr"@.len() == 13 && "configuredVrr"@[0] == 'c' && "configuredVrr"@[1] == 'o' && "configuredVrr"@[6] == 'u');
    assert("currentFormat"@.len() == 13 && "currentFormat"@[0] == 'c' && "currentFormat"@[1] == 'u');
    assert("currentLabel"@.len() == 12);
    assert("currentMode"@.len() == 11 && "currentMode"@[0] == 'c');
    assert("description"@.len() == 11 && "description"@[0] == 'd');
    assert("dpmsStatus"@.len() == 10 && "dpmsStatus"@[0] == 'd');
    assert("hdr"@.len() == 3);
    assert("modes"@.len() == 5 && "modes"@[0] == 'm');
    assert("name"@.len() == 4);
    assert("vrrActive"@.len() == 9);
    assert("applied"@.len() == 7 && "applied"@[0] == 'a');
    assert("monitor"@.len() == 7 && "monitor"@[0] == 'm');
    assert("previous"@.len() == 8 && "previous"@[0] == 'p');
    assert("secondsRemaining"@.len() == 16);
    assert("configPath"@.len() == 10 && "configPath"@[0] == 'c');
    assert("configPresent"@.len() == 13 && "configPresent"@[0] == 'c' && "configPresent"@[1] == 'o' && "configPresent"@[6] == 'P');
    assert("displays"@.len() == 8 && "displays"@[0] == 'd');
    assert("pending"@.len() == 7 && "pending"@[0] == 'p');
    assert("revertSeconds"@.len() == 13 && "revertSeconds"@[0] == 'r');
    assert("current"@.len() == 7 && "current"@[0] == 'c');
    assert("label"@.len() == 5 && "label"@[0] == 'l');
    assert("value"@.len() == 5 && "value"@[0] == 'v');
}

/// What is said of an output is what it reports and what the configuration has for it: its
/// texts, its switches, its running mode, its configured line with the setting in it, and
/// its picker.
pub proof fn law_outputs_are_said_as_they_are(m: Monitor, conf: Seq<char>)
    ensures
        ({
            let v = display_view(m, conf);
            let line = crate::display_mode::configured_in(conf, m.name());
            let said = |key: Seq<char>| crate::json::member(v, key);
            let reported = |key: Seq<char>|
                said(key) == Some(
                    crate::json::JsonView::Text(crate::json::text_or_empty(m.entry@, key)),
                );
            let optional = |key: Seq<char>, t: Option<Seq<char>>|
                match t {
                    Some(s) => said(key) == Some(crate::json::JsonView::Text(s)),
                    None => said(key) == Some(crate::json::JsonView::Null),
                };
            let switch = |key: Seq<char>, from: Seq<char>, otherwise: bool|
                said(key) == Some(
                    crate::json::JsonView::Bool(
                        match crate::json::member(m.entry@, from) {
                            Some(crate::json::JsonView::Bool(b)) => b,
                            _ => otherwise,
                        },
                    ),
                );
            &&& reported("name"@) && reported("description"@) && reported("currentFormat"@)
            &&& switch("dpmsStatus"@, "dpmsStatus"@, true)
            &&& switch("hdr"@, "hdr"@, false)
            &&& switch("vrrActive"@, "vrr"@, false)
            &&& optional("configuredLine"@, line)
            &&& optional(
                "currentMode"@,
                match running(m) {
                    Some(mode) => Some(
                        text::dec(mode.width as nat) + "x"@ + text::dec(mode.height as nat) + "@"@
                            + mode.refresh.keyword@,
                    ),
                    None => None,
                },
            )
            &&& optional(
                "currentLabel"@,
                match running(m) {
                    Some(mode) => Some(
                        text::dec(mode.width as nat) + " × "@ + text::dec(mode.height as nat)
                            + " @ "@ + mode.refresh.label@ + " Hz"@,
                    ),
                    None => None,
                },
            )
            &&& line matches Some(l) ==> (crate::display_mode::vrr_of(
                crate::display_mode::fields_of(l),
            ) matches Some(n) ==> (said("configuredVrr"@) matches Some(
                crate::json::JsonView::Number(k),
            ) && k.json == text::int_text(n as int)))
            &&& line is None || crate::display_mode::vrr_of(
                crate::display_mode::fields_of(line->0),
            ) is None ==> said("configuredVrr"@) == Some(crate::json::JsonView::Null)
            &&& said("modes"@) matches Some(crate::json::JsonView::Array(items)) && items.len()
                == picker_of(m).len() && forall|i: int|
                0 <= i < items.len() ==> {
                    let o = picker_of(m)[i];
                    &&& crate::json::member(#[trigger] items[i], "value"@) == Some(
                        crate::json::JsonView::Text(o.value),
                    )
                    &&& crate::json::member(items[i], "label"@) == Some(
                        crate::json::JsonView::Text(o.label),
                    )
                    &&& crate::json::member(items[i], "current"@) == Some(
                        crate::json::JsonView::Bool(o.current),
                    )
                }
        }),
{
    lemma_state_keys();
    let e = display_view(m, conf)->Object_0;
    crate::json::law_first_entry_counts(e, "configuredLine"@, 0);
    crate::json::law_first_entry_counts(e, "configuredVrr"@, 1);
    crate::json::law_first_entry_counts(e, "currentFormat"@, 2);
    crate::json::law_first_entry_counts(e, "currentLabel"@, 3);
    crate::json::law_first_entry_counts(e, "currentMode"@, 4);
    crate::json::law_first_entry_counts(e, "description"@, 5);
    crate::json::law_first_entry_counts(e, "dpmsStatus"@, 6);
    crate::json::law_first_entry_counts(e, "hdr"@, 7);
    crate::json::law_first_entry_counts(e, "modes"@, 8);
    crate::json::law_first_entry_counts(e, "name"@, 9);
    crate::json::law_first_entry_counts(e, "vrrActive"@, 10);
    let items = option_views(picker_of(m));
    assert forall|i: int| 0 <= i < items.len() implies {
        let o = picker_of(m)[i];
        &&& crate::json::member(#[trigger] items[i], "value"@) == Some(
            crate::json::JsonView::Text(o.value),
        )
        &&& crate::json::member(items[i], "label"@) == Some(crate::json::JsonView::Text(o.label))
        &&& crate::json::member(items[i], "current"@) == Some(
            crate::json::JsonView::Bool(o.current),
        )
    } by {
        let e = items[i]->Object_0;
        crate::json::law_first_entry_counts(e, "current"@, 0);
        crate::json::law_first_entry_counts(e, "label"@, 1);
        crate::json::law_first_entry_counts(e, "value"@, 2);
    }
}

/// The picker of an output is made of its own modes and its own closeness, and marks what
/// it runs.
pub proof fn law_picker_is_that_of_the_output(m: Monitor)
    ensures
        running(m) matches Some(mode) ==> picker_of(m) == crate::display_mode::picker(
            m.modes(),
            m.close@,
            Some((mode.width, mode.height)),
            m.current_close@,
        ),
        running(m) is None ==> picker_of(m) == crate::display_mode::picker(
            m.modes(),
            m.close@,
            None,
            m.current_close@,
        ),
{
}

/// The reply about the displays lists every output in its order, and tells of the pending
/// change with the whole seconds that are left of it, and of the configuration file.
pub proof fn law_state_lists_every_output(
    monitors: Seq<Monitor>,
    conf: Seq<char>,
    conf_path: Seq<char>,
    conf_present: bool,
    pending: Option<PendingView>,
    now: u64,
)
    ensures
        ({
            let v = state_view(monitors, conf, conf_path, conf_present, pending, now);
            let said = |key: Seq<char>| crate::json::member(v, key);
            &&& said("configPath"@) == Some(crate::json::JsonView::Text(conf_path))
            &&& said("configPresent"@) == Some(crate::json::JsonView::Bool(conf_present))
            &&& said("displays"@) matches Some(crate::json::JsonView::Array(items)) && items.len()
                == monitors.len() && forall|i: int|
                0 <= i < items.len() ==> #[trigger] items[i] == display_view(monitors[i], conf)
            &&& said("revertSeconds"@) matches Some(crate::json::JsonView::Number(n)) && n.json
                == text::int_text(15)
            &&& pending is None ==> said("pending"@) == Some(crate::json::JsonView::Null)
            &&& pending matches Some(p) ==> {
                let doc = said("pending"@)->0;
                let left: int = if p.deadline > now {
                    (p.deadline - now) / 1000
                } else {
                    0
                };
                &&& crate::json::member(doc, "applied"@) == Some(
                    crate::json::JsonView::Text(p.applied),
                )
                &&& crate::json::member(doc, "monitor"@) == Some(
                    crate::json::JsonView::Text(p.monitor),
                )
                &&& crate::json::member(doc, "previous"@) == Some(
                    crate::json::JsonView::Text(p.previous),
                )
                &&& crate::json::member(doc, "secondsRemaining"@) matches Some(
                    crate::json::JsonView::Number(n),
                ) && n.json == text::int_text(left)
            }
        }),
{
    lemma_state_keys();
    let e = state_view(monitors, conf, conf_path, conf_present, pending, now)->Object_0;
    crate::json::law_first_entry_counts(e, "configPath"@, 0);
    crate::json::law_first_entry_counts(e, "configPresent"@, 1);
    crate::json::law_first_entry_counts(e, "displays"@, 2);
    crate::json::law_first_entry_counts(e, "pending"@, 3);
    crate::json::law_first_entry_counts(e, "revertSeconds"@, 4);
    if let Some(p) = pending {
        let d = pending_doc(pending, now)->Object_0;
        crate::json::law_first_entry_counts(d, "applied"@, 0);
        crate::json::law_first_entry_counts(d, "monitor"@, 1);
        crate::json::law_first_entry_counts(d, "previous"@, 2);
        crate::json::law_first_entry_counts(d, "secondsRemaining"@, 3);
    }
}

/// The spellings of the modes are the texts of the list that the output reports, in their
/// order, and none where it reports no list.
pub proof fn law_spellings_are_the_reported_texts(
    entry: crate::json::JsonView,
    texts: Seq<Seq<char>>,
)
    ensures
        crate::json::member(entry, "availableModes"@) == Some(
            crate::json::JsonView::Array(
                Seq::new(texts.len(), |i: int| crate::json::JsonView::Text(texts[i])),
            ),
        ) ==> spellings(entry) == texts,
        !(crate::json::member(entry, "availableModes"@) is Some && crate::json::member(
            entry,
            "availableModes"@,
        )->0 is Array) ==> spellings(entry).len() == 0,
{
    lemma_all_texts(texts);
}

proof fn lemma_all_texts(texts: Seq<Seq<char>>)
    ensures
        texts_in(Seq::new(texts.len(), |i: int| crate::json::JsonView::Text(texts[i]))) == texts,
    decreases texts.len(),
{
    let all = Seq::new(texts.len(), |i: int| crate::json::JsonView::Text(texts[i]));
    if texts.len() > 0 {
        let rest = texts.drop_last();
        lemma_all_texts(rest);
        assert(all.drop_last() =~= Seq::new(
            rest.len(),
            |i: int| crate::json::JsonView::Text(rest[i]),
        ));
        assert(texts_in(all) =~= texts);
    } else {
        assert(texts_in(all) =~= texts);
    }
}

/// A pending change is told with what it changes and the whole seconds that are left of it.
pub proof fn law_pending_changes_are_told(p: PendingView, now: u64)
    ensures
        ({
            let doc = pending_doc(Some(p), now);
            &&& crate::json::member(doc, "applied"@) == Some(crate::json::JsonView::Text(p.applied))
            &&& crate::json::member(doc, "monitor"@) == Some(crate::json::JsonView::Text(p.monitor))
            &&& crate::json::member(doc, "previous"@) == Some(
                crate::json::JsonView::Text(p.previous),
            )
            &&& now <= p.deadline ==> crate::json::member(doc, "secondsRemaining"@) == Some(
                crate::json::whole((p.deadline - now) / 1000),
            )
            &&& now > p.deadline ==> crate::json::member(doc, "secondsRemaining"@) == Some(
                crate::json::whole(0),
            )
        }),
        pending_doc(None, now) is Null,
{
    reveal_strlit("applied");
    reveal_strlit("monitor");
    reveal_strlit("previous");
    reveal_strlit("secondsRemaining");
    assert("applied"@.len() == 7 && "applied"@[0] == 'a');
    assert("monitor"@.len() == 7 && "monitor"@[0] == 'm');
    assert("previous"@.len() == 8);
    assert("secondsRemaining"@.len() == 16);
    let entries = pending_doc(Some(p), now)->Object_0;
    crate::json::law_first_entry_counts(entries, "applied"@, 0);
    crate::json::law_first_entry_counts(entries, "monitor"@, 1);
    crate::json::law_first_entry_counts(entries, "previous"@, 2);
    crate::json::law_first_entry_counts(entries, "secondsRemaining"@, 3);
}

/// What is sent and said around a change names what it is about.
pub proof fn law_changes_are_named(value: Seq<char>, monitor: Seq<char>, line: Seq<char>)
    ensures
        monitor_request(value) == "/keyword monitor "@ + value,
        busy_reply(monitor) == "error:"@ + ("a display change on '"@ + monitor
            + "' is already awaiting confirmation — confirm or revert it first"@),
        nothing_pending() == "error:"@ + "no display change is awaiting confirmation"@,
        (RevertCause::Manual).word() == "manual"@,
        (RevertCause::Timeout).word() == "timeout"@,
        configured_vrr(None) is Null,
        crate::display_mode::vrr_of(crate::display_mode::fields_of(line)) is None ==> configured_vrr(
            Some(line),
        ) is Null,
        crate::display_mode::vrr_of(crate::display_mode::fields_of(line)) matches Some(n)
            ==> configured_vrr(Some(line)) == crate::json::whole(n as int),
{
}

} // verus!
