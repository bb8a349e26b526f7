//! Who holds the display, as heard on the CEC bus.
//!
//! A claim does not expire: one that was heard hours ago is still the truth. The
//! verdict has three values, and only [`Ownership::OwnedByOther`] is evidence
//! that someone watches another input; not to know is no such evidence.

use crate::json::{optional_signed_json, optional_unsigned_json, text_json, Fields, Json};
use vstd::prelude::*;

verus! {

/// Owner value for "no claim is held": nothing was heard yet, the owner went
/// inactive, or the connection was reopened.
pub const OWNER_UNSEEN: i32 = -1;

/// The bus's "no logical address" slot. It is an answer, not a device.
pub const UNREGISTERED_ADDRESS: i32 = 15;

/// Whether `addr` is the logical address of a device.
pub open spec fn addressable(addr: i32) -> bool {
    0 <= addr < UNREGISTERED_ADDRESS
}

/// Whether `addr` is the logical address of a device that could own a display.
pub fn is_addressable(addr: i32) -> (r: bool)
    ensures
        r == addressable(addr),
{
    0 <= addr && addr < UNREGISTERED_ADDRESS
}

/// A change of owner.
#[derive(Debug, Clone, Copy, PartialEq, Eq, Structural)]
pub struct Transition {
    pub previous: i32,
    pub current: i32,
}

/// The owner of the display as far as it was heard, when it last changed, and
/// whether the bus ever said anything.
#[derive(Debug)]
pub struct DisplayOwner {
    owner: i32,
    ours: i32,
    changed_unix: u64,
    ever_observed: bool,
    tracking_active: bool,
}

/// What a [`DisplayOwner`] holds at one moment.
#[derive(Debug, Clone, Copy, PartialEq, Eq, Structural)]
pub struct Snapshot {
    /// Logical address of the owner, or [`OWNER_UNSEEN`].
    pub owner: i32,
    /// Our own logical address, or [`OWNER_UNSEEN`] while it is unknown.
    pub ours: i32,
    /// Unix seconds of the last change of `owner`, or 0 where there was none.
    pub changed_unix: u64,
    /// Whether a claim was ever received from the bus. Our own claims do not
    /// count.
    pub ever_observed: bool,
    /// Whether anybody listens: a receiver is attached to an open connection.
    pub tracking_active: bool,
}

impl View for DisplayOwner {
    type V = Snapshot;

    closed spec fn view(&self) -> Snapshot {
        Snapshot {
            owner: self.owner,
            ours: self.ours,
            changed_unix: self.changed_unix,
            ever_observed: self.ever_observed,
            tracking_active: self.tracking_active,
        }
    }
}

/// A snapshot in which nothing was heard.
pub open spec fn nothing_heard() -> Snapshot {
    Snapshot {
        owner: OWNER_UNSEEN,
        ours: OWNER_UNSEEN,
        changed_unix: 0,
        ever_observed: false,
        tracking_active: false,
    }
}

/// `s` with the owner set to `owner`; the time is that of a change only.
pub open spec fn owned(s: Snapshot, owner: i32, now_unix: u64) -> Snapshot {
    Snapshot {
        owner,
        changed_unix: if s.owner == owner {
            s.changed_unix
        } else {
            now_unix
        },
        ..s
    }
}

/// The transition from the owner of `s` to `owner`, where they differ.
pub open spec fn change_to(s: Snapshot, owner: i32) -> Option<Transition> {
    if s.owner == owner {
        None
    } else {
        Some(Transition { previous: s.owner, current: owner })
    }
}

/// A cache that has heard nothing.
pub fn shared() -> (r: DisplayOwner)
    ensures
        r@ == nothing_heard(),
{
    DisplayOwner::new()
}

impl Default for DisplayOwner {
    fn default() -> (r: Self)
        ensures
            r@ == nothing_heard(),
    {
        DisplayOwner::new()
    }
}

impl DisplayOwner {
    /// A cache that has heard nothing.
    pub fn new() -> (r: Self)
        ensures
            r@ == nothing_heard(),
    {
        DisplayOwner {
            owner: OWNER_UNSEEN,
            ours: OWNER_UNSEEN,
            changed_unix: 0,
            ever_observed: false,
            tracking_active: false,
        }
    }

    /// Records a claim that was received from the bus. Returns the transition
    /// where the owner changed.
    pub fn observe(&mut self, owner: i32, now_unix: u64) -> (r: Option<Transition>)
        ensures
            final(self)@ == (Snapshot { ever_observed: true, ..owned(old(self)@, owner, now_unix) }),
            r == change_to(old(self)@, owner),
    {
        self.ever_observed = true;
        self.store_owner(owner, now_unix)
    }

    /// Records an owner that is known without the bus: our own claim, or the
    /// reset when the connection is reopened.
    pub fn record_local(&mut self, owner: i32, now_unix: u64) -> (r: Option<Transition>)
        ensures
            final(self)@ == owned(old(self)@, owner, now_unix),
            r == change_to(old(self)@, owner),
    {
        self.store_owner(owner, now_unix)
    }

    /// Records our own logical address. That is no change of owner.
    pub fn set_ours(&mut self, ours: i32)
        ensures
            final(self)@ == (Snapshot { ours, ..old(self)@ }),
    {
        self.ours = ours;
    }

    /// Says whether a receiver is attached to an open connection.
    pub fn set_tracking_active(&mut self, active: bool)
        ensures
            final(self)@ == (Snapshot { tracking_active: active, ..old(self)@ }),
    {
        self.tracking_active = active;
    }

    /// The current owner, or [`OWNER_UNSEEN`].
    pub fn owner(&self) -> (r: i32)
        ensures
            r == self@.owner,
    {
        self.owner
    }

    /// What the cache holds now.
    pub fn snapshot(&self) -> (r: Snapshot)
        ensures
            r == self@,
    {
        Snapshot {
            owner: self.owner,
            ours: self.ours,
            changed_unix: self.changed_unix,
            ever_observed: self.ever_observed,
            tracking_active: self.tracking_active,
        }
    }

    fn store_owner(&mut self, owner: i32, now_unix: u64) -> (r: Option<Transition>)
        ensures
            final(self)@ == owned(old(self)@, owner, now_unix),
            r == change_to(old(self)@, owner),
    {
        let previous: i32 = self.owner;
        self.owner = owner;
        if previous == owner {
            return None;
        }
        self.changed_unix = now_unix;
        Some(Transition { previous, current: owner })
    }
}

impl Default for Snapshot {
    fn default() -> (r: Self)
        ensures
            r == nothing_heard(),
    {
        DisplayOwner::new().snapshot()
    }
}

/// Who holds the display.
#[derive(Debug, Clone, Copy, PartialEq, Eq, Structural)]
pub enum Ownership {
    /// We are the active source.
    OwnedByUs,
    /// Another device claimed the display.
    OwnedByOther,
    /// No claim is held, or our own address is not known. No reason to suspend.
    Unknown,
}

/// The verdict on an owner, which takes proof in both directions.
pub open spec fn verdict(owner: i32, ours: i32) -> Ownership {
    if !addressable(owner) || !addressable(ours) {
        Ownership::Unknown
    } else if owner == ours {
        Ownership::OwnedByUs
    } else {
        Ownership::OwnedByOther
    }
}

/// The verdict on `owner` for a node whose own address is `ours`.
pub fn classify(owner: i32, ours: i32) -> (r: Ownership)
    ensures
        r == verdict(owner, ours),
{
    if !is_addressable(owner) || !is_addressable(ours) {
        return Ownership::Unknown;
    }
    if owner == ours {
        Ownership::OwnedByUs
    } else {
        Ownership::OwnedByOther
    }
}

/// What is published of the owner of the display.
#[derive(Debug, Clone, Copy, PartialEq, Eq, Structural)]
pub struct DisplayOwnerStatus {
    /// Only `OwnedByOther` says that someone watches another input.
    pub cec_display_ownership: Ownership,
    /// Logical address of the owner, where one holds a claim.
    pub cec_display_owner: Option<i32>,
    /// Our own logical address, where it is known.
    pub cec_local_address: Option<i32>,
    /// Unix seconds of the last change, where there was one.
    pub cec_display_owner_changed_unix: Option<u64>,
    /// Seconds for which the owner has held the display, where it ever changed.
    pub cec_display_owner_held_seconds: Option<u64>,
    /// Whether the bus ever announced an owner.
    pub cec_display_owner_ever_observed: bool,
    /// Whether anybody listens; where not, the other fields are defaults.
    pub cec_display_owner_tracking: bool,
}

impl Ownership {
    /// The word for the verdict.
    pub open spec fn word(self) -> Seq<char> {
        match self {
            Ownership::OwnedByUs => "owned_by_us"@,
            Ownership::OwnedByOther => "owned_by_other"@,
            Ownership::Unknown => "unknown"@,
        }
    }

    /// The word for the verdict.
    pub fn as_str(self) -> (r: &'static str)
        ensures
            r@ == self.word(),
    {
        match self {
            Ownership::OwnedByUs => "owned_by_us",
            Ownership::OwnedByOther => "owned_by_other",
            Ownership::Unknown => "unknown",
        }
    }
}

/// The status as a document: every field under its own name.
pub open spec fn status_view(s: DisplayOwnerStatus) -> crate::json::JsonView {
    crate::json::JsonView::Object(
        seq![
            ("cec_display_ownership"@, crate::json::JsonView::Text(s.cec_display_ownership.word())),
            ("cec_display_owner"@, crate::json::signed_or_null(s.cec_display_owner)),
            ("cec_local_address"@, crate::json::signed_or_null(s.cec_local_address)),
            (
                "cec_display_owner_changed_unix"@,
                crate::json::unsigned_or_null(s.cec_display_owner_changed_unix),
            ),
            (
                "cec_display_owner_held_seconds"@,
                crate::json::unsigned_or_null(s.cec_display_owner_held_seconds),
            ),
            (
                "cec_display_owner_ever_observed"@,
                crate::json::JsonView::Bool(s.cec_display_owner_ever_observed),
            ),
            (
                "cec_display_owner_tracking"@,
                crate::json::JsonView::Bool(s.cec_display_owner_tracking),
            ),
        ],
    )
}

impl DisplayOwnerStatus {
    /// The status as a document.
    pub fn to_json(&self) -> (r: Json)
        ensures
            r@ == status_view(*self),
    {
        let fields = Fields::new().with(
            "cec_display_ownership",
            text_json(self.cec_display_ownership.as_str()),
        ).with("cec_display_owner", optional_signed_json(self.cec_display_owner)).with(
            "cec_local_address",
            optional_signed_json(self.cec_local_address),
        ).with(
            "cec_display_owner_changed_unix",
            optional_unsigned_json(self.cec_display_owner_changed_unix),
        ).with(
            "cec_display_owner_held_seconds",
            optional_unsigned_json(self.cec_display_owner_held_seconds),
        ).with(
            "cec_display_owner_ever_observed",
            Json::Bool(self.cec_display_owner_ever_observed),
        ).with("cec_display_owner_tracking", Json::Bool(self.cec_display_owner_tracking));
        assert(fields@ =~= status_view(*self)->Object_0);
        fields.object()
    }
}

/// `addr`, where it is the address of a device.
pub open spec fn device_address(addr: i32) -> Option<i32> {
    if addressable(addr) {
        Some(addr)
    } else {
        None
    }
}

/// The published status for a snapshot and the time. Where the clock has stepped
/// back, the owner has held the display for 0 seconds.
pub fn status(snapshot: &Snapshot, now_unix: u64) -> (r: DisplayOwnerStatus)
    ensures
        r.cec_display_ownership == verdict(snapshot.owner, snapshot.ours),
        r.cec_display_owner == device_address(snapshot.owner),
        r.cec_local_address == device_address(snapshot.ours),
        r.cec_display_owner_changed_unix == (if snapshot.changed_unix == 0 {
            None
        } else {
            Some(snapshot.changed_unix)
        }),
        r.cec_display_owner_held_seconds == (if snapshot.changed_unix == 0 {
            None
        } else {
            Some(crate::shell_state::age(snapshot.changed_unix, now_unix))
        }),
        r.cec_display_owner_ever_observed == snapshot.ever_observed,
        r.cec_display_owner_tracking == snapshot.tracking_active,
{
    let changed: Option<u64> = if snapshot.changed_unix != 0 {
        Some(snapshot.changed_unix)
    } else {
        None
    };
    DisplayOwnerStatus {
        cec_display_ownership: classify(snapshot.owner, snapshot.ours),
        cec_display_owner: if is_addressable(snapshot.owner) {
            Some(snapshot.owner)
        } else {
            None
        },
        cec_local_address: if is_addressable(snapshot.ours) {
            Some(snapshot.ours)
        } else {
            None
        },
        cec_display_owner_changed_unix: changed,
        cec_display_owner_held_seconds: match changed {
            Some(c) => Some(now_unix.saturating_sub(c)),
            None => None,
        },
        cec_display_owner_ever_observed: snapshot.ever_observed,
        cec_display_owner_tracking: snapshot.tracking_active,
    }
}

/// A claim that repeats the owner does not move the time of the last change.
pub proof fn law_repeat_keeps_time(s: Snapshot, owner: i32, first: u64, second: u64)
    ensures
        owned(owned(s, owner, first), owner, second) == owned(s, owner, first),
        change_to(owned(s, owner, first), owner) is None,
{
}

/// Without a known owner or a known address of our own, nobody is said to hold
/// the display.
pub proof fn law_verdict_takes_proof(owner: i32, ours: i32)
    ensures
        verdict(owner, ours) == Ownership::Unknown <==> !addressable(owner) || !addressable(ours),
        verdict(owner, ours) == Ownership::OwnedByOther ==> owner != ours,
{
}

/// The owner is what was heard last, the time is that of the last change, and a transition
/// is told exactly if the owner changed, from the former to the new one.
pub proof fn law_changes_of_owner_are_told(s: Snapshot, owner: i32, now_unix: u64)
    ensures
        owned(s, owner, now_unix).owner == owner,
        owned(s, owner, now_unix).ours == s.ours,
        owned(s, owner, now_unix).ever_observed == s.ever_observed,
        owned(s, owner, now_unix).tracking_active == s.tracking_active,
        s.owner != owner ==> owned(s, owner, now_unix).changed_unix == now_unix && change_to(
            s,
            owner,
        ) == Some(Transition { previous: s.owner, current: owner }),
        s.owner == owner ==> owned(s, owner, now_unix).changed_unix == s.changed_unix && change_to(
            s,
            owner,
        ) is None,
{
}

/// The display is ours if we are known to own it, another's if another device is, and
/// nobody's to tell otherwise. A device has an address from 0 to 14.
pub proof fn law_verdicts(owner: i32, ours: i32)
    ensures
        0 <= owner <= 14 && owner == ours ==> verdict(owner, ours) == Ownership::OwnedByUs,
        0 <= owner <= 14 && 0 <= ours <= 14 && owner != ours ==> verdict(owner, ours)
            == Ownership::OwnedByOther,
        !(0 <= owner <= 14) || !(0 <= ours <= 14) ==> verdict(owner, ours) == Ownership::Unknown,
        device_address(owner) == (if 0 <= owner <= 14 {
            Some(owner)
        } else {
            None
        }),
{
}

/// At first nothing is known: no owner, no address of our own, no change, and nobody
/// listens.
pub proof fn law_nothing_is_known_at_first()
    ensures
        nothing_heard().owner == -1,
        nothing_heard().ours == -1,
        nothing_heard().changed_unix == 0,
        !nothing_heard().ever_observed,
        !nothing_heard().tracking_active,
{
}

/// The document says each fact under its own name, as it stands, and says nothing where
/// nothing is known.
pub proof fn law_status_says_each_fact(s: DisplayOwnerStatus)
    ensures
        ({
            let v = status_view(s);
            let said = |key: Seq<char>| crate::json::member(v, key);
            let number = |key: Seq<char>, n: Option<int>|
                match n {
                    Some(i) => said(key) matches Some(crate::json::JsonView::Number(m)) && m.json
                        == crate::text::int_text(i),
                    None => said(key) == Some(crate::json::JsonView::Null),
                };
            let signed = |n: Option<i32>|
                match n {
                    Some(i) => Some(i as int),
                    None => None,
                };
            let unsigned = |n: Option<u64>|
                match n {
                    Some(i) => Some(i as int),
                    None => None,
                };
            &&& said("cec_display_ownership"@) == Some(
                crate::json::JsonView::Text(
                    match s.cec_display_ownership {
                        Ownership::OwnedByUs => "owned_by_us"@,
                        Ownership::OwnedByOther => "owned_by_other"@,
                        Ownership::Unknown => "unknown"@,
                    },
                ),
            )
            &&& number("cec_display_owner"@, signed(s.cec_display_owner))
            &&& number("cec_local_address"@, signed(s.cec_local_address))
            &&& number(
                "cec_display_owner_changed_unix"@,
                unsigned(s.cec_display_owner_changed_unix),
            )
            &&& number(
                "cec_display_owner_held_seconds"@,
                unsigned(s.cec_display_owner_held_seconds),
            )
            &&& said("cec_display_owner_ever_observed"@) == Some(
                crate::json::JsonView::Bool(s.cec_display_owner_ever_observed),
            )
            &&& said("cec_display_owner_tracking"@) == Some(
                crate::json::JsonView::Bool(s.cec_display_owner_tracking),
            )
        }),
{
    let e = status_view(s)->Object_0;
    reveal_strlit("cec_display_ownership");
    reveal_strlit("cec_display_owner");
    reveal_strlit("cec_local_address");
    reveal_strlit("cec_display_owner_changed_unix");
    reveal_strlit("cec_display_owner_held_seconds");
    reveal_strlit("cec_display_owner_ever_observed");
    reveal_strlit("cec_display_owner_tracking");
    assert("cec_display_ownership"@.len() == 21);
    assert("cec_display_owner"@.len() == 17 && "cec_display_owner"@[4] == 'd');
    assert("cec_local_address"@.len() == 17 && "cec_local_address"@[4] == 'l');
    assert("cec_display_owner_changed_unix"@.len() == 30 && "cec_display_owner_changed_unix"@[18] == 'c');
    assert("cec_display_owner_held_seconds"@.len() == 30 && "cec_display_owner_held_seconds"@[18] == 'h');
    assert("cec_display_owner_ever_observed"@.len() == 31);
    assert("cec_display_owner_tracking"@.len() == 26);
    crate::json::law_first_entry_counts(e, "cec_display_ownership"@, 0);
    crate::json::law_first_entry_counts(e, "cec_display_owner"@, 1);
    crate::json::law_first_entry_counts(e, "cec_local_address"@, 2);
    crate::json::law_first_entry_counts(e, "cec_display_owner_changed_unix"@, 3);
    crate::json::law_first_entry_counts(e, "cec_display_owner_held_seconds"@, 4);
    crate::json::law_first_entry_counts(e, "cec_display_owner_ever_observed"@, 5);
    crate::json::law_first_entry_counts(e, "cec_display_owner_tracking"@, 6);
}

} // verus!
