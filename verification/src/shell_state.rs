//! The state that the shell last reported, and how far it can be trusted.
//!
//! The facts are published as they are; what follows from them is for the
//! consumer to decide. A stale reading means that the shell stopped reporting,
//! not that the box is idle.

use crate::json::{optional_text_json, optional_unsigned_json, unsigned_json, Fields, Json};
use vstd::prelude::*;

verus! {

/// Seconds between two reports of the shell.
pub const HEARTBEAT_SECS: u64 = 3;

/// Age in seconds from which a report is stale: three missed heartbeats.
pub const STALE_AFTER_SECS: u64 = 3 * HEARTBEAT_SECS;

/// The last state that the shell reported.
#[derive(Debug, Clone, PartialEq, Eq)]
pub struct ShellState {
    /// The shell's own word for its state, as it was sent; `None` before the
    /// first report.
    pub state: Option<String>,
    /// Whether media is playing.
    pub media_playing: bool,
    /// Unix seconds of the last report, or 0 where there was none.
    pub last_push_unix: u64,
}

impl Default for ShellState {
    fn default() -> (r: Self)
        ensures
            r.state is None,
            !r.media_playing,
            r.last_push_unix == 0,
    {
        ShellState { state: None, media_playing: false, last_push_unix: 0 }
    }
}

impl ShellState {
    /// Records one report.
    pub fn record(&mut self, state: String, media_playing: bool, now_unix: u64)
        ensures
            *final(self) == (ShellState {
                state: Some(state),
                media_playing,
                last_push_unix: now_unix,
            }),
    {
        self.state = Some(state);
        self.media_playing = media_playing;
        self.last_push_unix = now_unix;
    }
}

/// How far a reading can be trusted.
#[derive(Debug, Clone, Copy, PartialEq, Eq, Structural)]
pub struct Freshness {
    /// The reading must not be trusted.
    pub stale: bool,
    /// Seconds since the last report; `None` where there was none.
    pub age_seconds: Option<u64>,
}

/// Seconds from `since` to `now`; 0 where the clock has stepped back.
pub open spec fn age(since: u64, now: u64) -> u64 {
    if now >= since {
        (now - since) as u64
    } else {
        0
    }
}

/// Judges a report of `last_push_unix` at `now_unix`. A shell that never
/// reported is stale and has no age; an age at the threshold is stale.
pub fn evaluate_freshness(last_push_unix: u64, now_unix: u64, stale_after_secs: u64) -> (r:
    Freshness)
    ensures
        last_push_unix == 0 ==> r.stale && r.age_seconds is None,
        last_push_unix != 0 ==> r.age_seconds == Some(age(last_push_unix, now_unix)) && r.stale == (
        age(last_push_unix, now_unix) >= stale_after_secs),
{
    if last_push_unix == 0 {
        return Freshness { stale: true, age_seconds: None };
    }
    let age: u64 = now_unix.saturating_sub(last_push_unix);
    Freshness { stale: age >= stale_after_secs, age_seconds: Some(age) }
}

/// What is published of the shell.
#[derive(Debug, Clone, PartialEq, Eq)]
pub struct ShellStatus {
    /// The state as it was last reported; to be used only where not `stale`.
    pub shell_state: Option<String>,
    pub media_playing: bool,
    /// `shell_state` and `media_playing` must not be trusted.
    pub stale: bool,
    /// Seconds since the last report; `None` where there was none.
    pub age_seconds: Option<u64>,
    /// The threshold that `stale` goes by.
    pub stale_after_seconds: u64,
    /// Whether a shell process runs.
    pub shell_running: bool,
}

/// The status as a document: every field under its own name.
pub open spec fn status_view(s: ShellStatus) -> crate::json::JsonView {
    crate::json::JsonView::Object(
        seq![
            ("shell_state"@, crate::json::text_or_null(crate::json::text_view(s.shell_state))),
            ("media_playing"@, crate::json::JsonView::Bool(s.media_playing)),
            ("stale"@, crate::json::JsonView::Bool(s.stale)),
            ("age_seconds"@, crate::json::unsigned_or_null(s.age_seconds)),
            ("stale_after_seconds"@, crate::json::whole(s.stale_after_seconds as int)),
            ("shell_running"@, crate::json::JsonView::Bool(s.shell_running)),
        ],
    )
}

impl ShellStatus {
    /// The status as a document.
    pub fn to_json(&self) -> (r: Json)
        ensures
            r@ == status_view(*self),
    {
        let fields = Fields::new().with("shell_state", optional_text_json(&self.shell_state)).with(
            "media_playing",
            Json::Bool(self.media_playing),
        ).with("stale", Json::Bool(self.stale)).with(
            "age_seconds",
            optional_unsigned_json(self.age_seconds),
        ).with("stale_after_seconds", unsigned_json(self.stale_after_seconds)).with(
            "shell_running",
            Json::Bool(self.shell_running),
        );
        assert(fields@ =~= status_view(*self)->Object_0);
        fields.object()
    }
}

/// The published status for a reading, the time and whether a shell runs.
pub fn status(snapshot: &ShellState, now_unix: u64, shell_running: bool) -> (r: ShellStatus)
    ensures
        snapshot.state is Some <==> r.shell_state is Some,
        r.shell_state matches Some(s) ==> snapshot.state matches Some(t) && s@ == t@,
        r.media_playing == snapshot.media_playing,
        r.stale == (snapshot.last_push_unix == 0 || age(snapshot.last_push_unix, now_unix)
            >= STALE_AFTER_SECS),
        r.age_seconds == (if snapshot.last_push_unix == 0 {
            None
        } else {
            Some(age(snapshot.last_push_unix, now_unix))
        }),
        r.stale_after_seconds == STALE_AFTER_SECS,
        r.shell_running == shell_running,
{
    let freshness = evaluate_freshness(snapshot.last_push_unix, now_unix, STALE_AFTER_SECS);
    let shell_state = match &snapshot.state {
        Some(s) => Some(s.clone()),
        None => None,
    };
    ShellStatus {
        shell_state,
        media_playing: snapshot.media_playing,
        stale: freshness.stale,
        age_seconds: freshness.age_seconds,
        stale_after_seconds: STALE_AFTER_SECS,
        shell_running,
    }
}

/// A reading that is stale stays so until the shell reports again.
pub proof fn law_staleness_lasts(last_push_unix: u64, now_unix: u64, later_unix: u64)
    requires
        now_unix <= later_unix,
        age(last_push_unix, now_unix) >= STALE_AFTER_SECS,
    ensures
        age(last_push_unix, later_unix) >= STALE_AFTER_SECS,
{
}

/// The age of a reading is the time since the report, and none where the clock stepped back.
pub proof fn law_age_is_time_since(since: u64, now: u64)
    ensures
        now >= since ==> age(since, now) == now - since,
        now < since ==> age(since, now) == 0,
{
}

/// The document says each fact under its own name, as it stands, and says nothing where
/// nothing is known.
pub proof fn law_status_says_each_fact(s: ShellStatus)
    ensures
        ({
            let v = status_view(s);
            let said = |key: Seq<char>| crate::json::member(v, key);
            &&& said("shell_state"@) == Some(
                match s.shell_state {
                    Some(t) => crate::json::JsonView::Text(t@),
                    None => crate::json::JsonView::Null,
                },
            )
            &&& said("media_playing"@) == Some(crate::json::JsonView::Bool(s.media_playing))
            &&& said("stale"@) == Some(crate::json::JsonView::Bool(s.stale))
            &&& said("shell_running"@) == Some(crate::json::JsonView::Bool(s.shell_running))
            &&& said("stale_after_seconds"@) matches Some(crate::json::JsonView::Number(n))
                && n.unsigned == Some(s.stale_after_seconds) && n.json == crate::text::dec(
                s.stale_after_seconds as nat,
            )
            &&& s.age_seconds is None ==> said("age_seconds"@) == Some(crate::json::JsonView::Null)
            &&& s.age_seconds matches Some(a) ==> (said("age_seconds"@) matches Some(
                crate::json::JsonView::Number(n),
            ) && n.unsigned == Some(a) && n.json == crate::text::dec(a as nat))
        }),
{
    let e = status_view(s)->Object_0;
    reveal_strlit("shell_state");
    reveal_strlit("media_playing");
    reveal_strlit("stale");
    reveal_strlit("age_seconds");
    reveal_strlit("stale_after_seconds");
    reveal_strlit("shell_running");
    assert("shell_state"@.len() == 11 && "shell_state"@[0] == 's');
    assert("media_playing"@.len() == 13 && "media_playing"@[0] == 'm');
    assert("stale"@.len() == 5);
    assert("age_seconds"@.len() == 11 && "age_seconds"@[0] == 'a');
    assert("stale_after_seconds"@.len() == 19);
    assert("shell_running"@.len() == 13 && "shell_running"@[0] == 's');
    crate::json::law_first_entry_counts(e, "shell_state"@, 0);
    crate::json::law_first_entry_counts(e, "media_playing"@, 1);
    crate::json::law_first_entry_counts(e, "stale"@, 2);
    crate::json::law_first_entry_counts(e, "age_seconds"@, 3);
    crate::json::law_first_entry_counts(e, "stale_after_seconds"@, 4);
    crate::json::law_first_entry_counts(e, "shell_running"@, 5);
}

} // verus!
