//! HDMI-CEC: the vocabulary of the bus, who owns the display, and how well
//! transmits go.

use crate::json::quote;
use crate::text;
use vstd::prelude::*;

verus! {

/// A logical address on the bus.
#[derive(Debug, Clone, Copy, PartialEq, Eq, Structural)]
pub enum CecLogicalAddress {
    Tv,
    Recordingdevice1,
    Recordingdevice2,
    Tuner1,
    Playbackdevice1,
    Audiosystem,
    Tuner2,
    Tuner3,
    Playbackdevice2,
    Recordingdevice3,
    Tuner4,
    Playbackdevice3,
    Reserved1,
    Reserved2,
    Freeuse,
    Unregistered,
    /// Not known.
    Unknown,
}

/// How a device answers when it is asked for its power status.
#[derive(Debug, Clone, Copy, PartialEq, Eq, Structural)]
pub enum CecPowerStatus {
    On,
    Standby,
    InTransitionStandbyToOn,
    InTransitionOnToStandby,
    /// It did not answer.
    Unknown,
}

/// The commands that tell who owns the display, and some that do not.
#[derive(Debug, Clone, Copy, PartialEq, Eq, Structural)]
pub enum CecOpcode {
    ActiveSource,
    InactiveSource,
    RoutingChange,
    SetStreamPath,
    Standby,
    ReportPowerStatus,
    Other,
}

/// The buttons of a remote that mean something here, and some that do not.
#[derive(Debug, Clone, Copy, PartialEq, Eq, Structural)]
pub enum CecUserControlCode {
    Up,
    Down,
    Left,
    Right,
    Select,
    Exit,
    RootMenu,
    Play,
    Number0,
    Other,
}

/// Why a call into the adapter failed.
#[derive(Debug, Clone, Copy, PartialEq, Eq, Structural)]
pub enum CecConnectionResultError {
    NoAdapterFound,
    AdapterOpenFailed,
    LibInitFailed,
    CallbackRegistrationFailed,
    TransmitFailed,
}

/// The address of the AV receiver.
pub const AVR_ADDR: i32 = 5;

/// The address of the TV.
pub const TV_ADDR: i32 = 0;

/// Milliseconds between waking the TV and claiming the active source.
pub const WAKE_ACTIVE_SOURCE_DELAY_MS: u64 = 1_500;

/// Milliseconds that must lie between two recoveries of the connection.
pub const REOPEN_COOLDOWN_MS: u64 = 30_000;

/// Milliseconds after which a poll is given up.
pub const POLL_TIMEOUT_MS: u64 = 1_000;

/// Milliseconds that a request waits for its reply.
pub const WORKER_REPLY_TIMEOUT_MS: u64 = 15_000;

/// The requests that may wait for the worker.
pub const WORKER_QUEUE: usize = 64;

/// What the owner cell holds while nobody is known to own the display.
pub const OWNER_UNSEEN: i32 = -1;

/// The device at a number on the bus.
pub open spec fn device_at(n: int) -> Option<CecLogicalAddress> {
    if n == 0 {
        Some(CecLogicalAddress::Tv)
    } else if n == 1 {
        Some(CecLogicalAddress::Recordingdevice1)
    } else if n == 2 {
        Some(CecLogicalAddress::Recordingdevice2)
    } else if n == 3 {
        Some(CecLogicalAddress::Tuner1)
    } else if n == 4 {
        Some(CecLogicalAddress::Playbackdevice1)
    } else if n == 5 {
        Some(CecLogicalAddress::Audiosystem)
    } else if n == 6 {
        Some(CecLogicalAddress::Tuner2)
    } else if n == 7 {
        Some(CecLogicalAddress::Tuner3)
    } else if n == 8 {
        Some(CecLogicalAddress::Playbackdevice2)
    } else if n == 9 {
        Some(CecLogicalAddress::Recordingdevice3)
    } else if n == 10 {
        Some(CecLogicalAddress::Tuner4)
    } else if n == 11 {
        Some(CecLogicalAddress::Playbackdevice3)
    } else if n == 12 {
        Some(CecLogicalAddress::Reserved1)
    } else if n == 13 {
        Some(CecLogicalAddress::Reserved2)
    } else if n == 14 {
        Some(CecLogicalAddress::Freeuse)
    } else if n == 15 {
        Some(CecLogicalAddress::Unregistered)
    } else {
        None
    }
}

/// The device at a number on the bus; none outside `0..=15`.
pub fn logical_from_i32(n: i32) -> (r: Option<CecLogicalAddress>)
    ensures
        r == device_at(n as int),
{
    if n == 0 {
        Some(CecLogicalAddress::Tv)
    } else if n == 1 {
        Some(CecLogicalAddress::Recordingdevice1)
    } else if n == 2 {
        Some(CecLogicalAddress::Recordingdevice2)
    } else if n == 3 {
        Some(CecLogicalAddress::Tuner1)
    } else if n == 4 {
        Some(CecLogicalAddress::Playbackdevice1)
    } else if n == 5 {
        Some(CecLogicalAddress::Audiosystem)
    } else if n == 6 {
        Some(CecLogicalAddress::Tuner2)
    } else if n == 7 {
        Some(CecLogicalAddress::Tuner3)
    } else if n == 8 {
        Some(CecLogicalAddress::Playbackdevice2)
    } else if n == 9 {
        Some(CecLogicalAddress::Recordingdevice3)
    } else if n == 10 {
        Some(CecLogicalAddress::Tuner4)
    } else if n == 11 {
        Some(CecLogicalAddress::Playbackdevice3)
    } else if n == 12 {
        Some(CecLogicalAddress::Reserved1)
    } else if n == 13 {
        Some(CecLogicalAddress::Reserved2)
    } else if n == 14 {
        Some(CecLogicalAddress::Freeuse)
    } else if n == 15 {
        Some(CecLogicalAddress::Unregistered)
    } else {
        None
    }
}

/// The number of a device on the bus; that of an unknown one is `OWNER_UNSEEN`.
pub open spec fn number_of(addr: CecLogicalAddress) -> int {
    match addr {
        CecLogicalAddress::Tv => 0,
        CecLogicalAddress::Recordingdevice1 => 1,
        CecLogicalAddress::Recordingdevice2 => 2,
        CecLogicalAddress::Tuner1 => 3,
        CecLogicalAddress::Playbackdevice1 => 4,
        CecLogicalAddress::Audiosystem => 5,
        CecLogicalAddress::Tuner2 => 6,
        CecLogicalAddress::Tuner3 => 7,
        CecLogicalAddress::Playbackdevice2 => 8,
        CecLogicalAddress::Recordingdevice3 => 9,
        CecLogicalAddress::Tuner4 => 10,
        CecLogicalAddress::Playbackdevice3 => 11,
        CecLogicalAddress::Reserved1 => 12,
        CecLogicalAddress::Reserved2 => 13,
        CecLogicalAddress::Freeuse => 14,
        CecLogicalAddress::Unregistered => 15,
        CecLogicalAddress::Unknown => -1,
    }
}

/// The number of a device on the bus; that of an unknown one is `OWNER_UNSEEN`.
pub fn logical_to_i32(addr: CecLogicalAddress) -> (r: i32)
    ensures
        r == number_of(addr),
{
    match addr {
        CecLogicalAddress::Tv => 0,
        CecLogicalAddress::Recordingdevice1 => 1,
        CecLogicalAddress::Recordingdevice2 => 2,
        CecLogicalAddress::Tuner1 => 3,
        CecLogicalAddress::Playbackdevice1 => 4,
        CecLogicalAddress::Audiosystem => 5,
        CecLogicalAddress::Tuner2 => 6,
        CecLogicalAddress::Tuner3 => 7,
        CecLogicalAddress::Playbackdevice2 => 8,
        CecLogicalAddress::Recordingdevice3 => 9,
        CecLogicalAddress::Tuner4 => 10,
        CecLogicalAddress::Playbackdevice3 => 11,
        CecLogicalAddress::Reserved1 => 12,
        CecLogicalAddress::Reserved2 => 13,
        CecLogicalAddress::Freeuse => 14,
        CecLogicalAddress::Unregistered => 15,
        CecLogicalAddress::Unknown => OWNER_UNSEEN,
    }
}

/// The device that a request names by its number in decimal.
pub open spec fn addressed(addr: Seq<char>) -> Option<CecLogicalAddress> {
    match text::parsed_int(addr) {
        Some(n) => device_at(n),
        None => None,
    }
}

/// The device that a request names by its number in decimal.
pub fn parse_address(addr: &str) -> (r: Option<CecLogicalAddress>)
    ensures
        r == addressed(addr@),
{
    match text::parse_int(addr) {
        Some(n) => if 0 <= n && n <= 15 {
            logical_from_i32(n as i32)
        } else {
            None
        },
        None => None,
    }
}

/// A number on the bus and its device stand for each other.
pub proof fn law_numbers_and_devices(n: int, addr: CecLogicalAddress)
    ensures
        device_at(n) is Some <==> 0 <= n <= 15,
        device_at(n) matches Some(a) ==> number_of(a) == n,
        addr != CecLogicalAddress::Unknown ==> device_at(number_of(addr)) == Some(addr),
        addr == CecLogicalAddress::Unknown ==> number_of(addr) == OWNER_UNSEEN && device_at(
            number_of(addr),
        ) is None,
{
}

/// The numbers on the bus say what a device is: 0 is the TV, 5 the receiver, 4, 8 and 11
/// play, 1, 2 and 9 record, 3, 6, 7 and 10 tune, and 15 has no address.
pub proof fn law_numbers_say_what_a_device_is(addr: CecLogicalAddress)
    ensures
        addr == CecLogicalAddress::Tv <==> number_of(addr) == 0,
        addr == CecLogicalAddress::Audiosystem <==> number_of(addr) == 5,
        addr == CecLogicalAddress::Playbackdevice1 <==> number_of(addr) == 4,
        addr == CecLogicalAddress::Playbackdevice2 <==> number_of(addr) == 8,
        addr == CecLogicalAddress::Playbackdevice3 <==> number_of(addr) == 11,
        addr == CecLogicalAddress::Recordingdevice1 <==> number_of(addr) == 1,
        addr == CecLogicalAddress::Recordingdevice2 <==> number_of(addr) == 2,
        addr == CecLogicalAddress::Recordingdevice3 <==> number_of(addr) == 9,
        addr == CecLogicalAddress::Tuner1 <==> number_of(addr) == 3,
        addr == CecLogicalAddress::Tuner2 <==> number_of(addr) == 6,
        addr == CecLogicalAddress::Tuner3 <==> number_of(addr) == 7,
        addr == CecLogicalAddress::Tuner4 <==> number_of(addr) == 10,
        addr == CecLogicalAddress::Unregistered <==> number_of(addr) == 15,
{
}

/// A device is named by its number in decimal, and by nothing outside `0..=15`.
pub proof fn law_devices_are_named_by_number(addr: CecLogicalAddress, n: nat, s: Seq<char>)
    ensures
        addressed(s) matches Some(a) ==> text::parsed_int(s) == Some(number_of(a)),
        addressed(s) is None ==> (text::parsed_int(s) matches Some(i) ==> i < 0 || i > 15),
        addr != CecLogicalAddress::Unknown ==> addressed(text::dec(number_of(addr) as nat)) == Some(
            addr,
        ),
        n > 15 ==> addressed(text::dec(n)) is None,
{
    if addr != CecLogicalAddress::Unknown {
        text::lemma_parsed_int_dec(number_of(addr) as nat);
    }
    text::lemma_parsed_int_dec(n);
}

// ---------------------------------------------------------------------------
// Words
// ---------------------------------------------------------------------------

/// The word for a power status.
pub open spec fn status_word(ps: CecPowerStatus) -> Seq<char> {
    match ps {
        CecPowerStatus::On => "on"@,
        CecPowerStatus::Standby => "standby"@,
        CecPowerStatus::InTransitionStandbyToOn => "waking"@,
        CecPowerStatus::InTransitionOnToStandby => "sleeping"@,
        CecPowerStatus::Unknown => "unknown"@,
    }
}

/// The word for a power status.
pub fn power_status_word(ps: CecPowerStatus) -> (r: &'static str)
    ensures
        r@ == status_word(ps),
{
    match ps {
        CecPowerStatus::On => "on",
        CecPowerStatus::Standby => "standby",
        CecPowerStatus::InTransitionStandbyToOn => "waking",
        CecPowerStatus::InTransitionOnToStandby => "sleeping",
        CecPowerStatus::Unknown => "unknown",
    }
}

/// The navigation action of a button.
pub open spec fn nav_action(code: CecUserControlCode) -> Option<Seq<char>> {
    match code {
        CecUserControlCode::Up => Some("up"@),
        CecUserControlCode::Down => Some("down"@),
        CecUserControlCode::Left => Some("left"@),
        CecUserControlCode::Right => Some("right"@),
        CecUserControlCode::Select => Some("select"@),
        CecUserControlCode::Exit => Some("back"@),
        _ => None,
    }
}

/// What an optional text says.
pub open spec fn said(s: Option<&str>) -> Option<Seq<char>> {
    match s {
        Some(t) => Some(t@),
        None => None,
    }
}

/// The navigation action of a button.
pub fn cec_key_action(code: CecUserControlCode) -> (r: Option<&'static str>)
    ensures
        said(r) == nav_action(code),
{
    match code {
        CecUserControlCode::Up => Some("up"),
        CecUserControlCode::Down => Some("down"),
        CecUserControlCode::Left => Some("left"),
        CecUserControlCode::Right => Some("right"),
        CecUserControlCode::Select => Some("select"),
        CecUserControlCode::Exit => Some("back"),
        _ => None,
    }
}

/// The navigation action to be injected for a report of a button. A button is
/// reported twice, when it goes down, held for no time, and when it is released;
/// only the first counts.
pub fn key_to_inject(code: CecUserControlCode, held_ms: u64) -> (r: Option<&'static str>)
    ensures
        said(r) == (if held_ms == 0 {
            nav_action(code)
        } else {
            None
        }),
{
    if held_ms != 0 {
        return None;
    }
    cec_key_action(code)
}

/// The word for why the adapter could not be opened.
pub open spec fn open_failure(e: CecConnectionResultError) -> Seq<char> {
    if e == CecConnectionResultError::NoAdapterFound {
        "no_adapter"@
    } else {
        "adapter_open_failed"@
    }
}

/// The word for why the adapter could not be opened: there is none, or there is
/// one that does not respond.
pub fn open_failure_reason(e: &CecConnectionResultError) -> (r: &'static str)
    ensures
        r@ == open_failure(*e),
{
    match e {
        CecConnectionResultError::NoAdapterFound => "no_adapter",
        _ => "adapter_open_failed",
    }
}

/// The part of the configuration that is about the bus.
#[derive(Debug, Clone, PartialEq, Eq)]
pub struct CecConfig {
    /// Whether the daemon manages the display.
    pub lifecycle: bool,
    /// The name that devices show for this machine.
    pub osd_name: Option<String>,
}

/// Whether the daemon manages the display.
pub fn lifecycle_enabled(cfg: &CecConfig) -> (r: bool)
    ensures
        r == cfg.lifecycle,
{
    cfg.lifecycle
}

/// The name that devices show for this machine: the configured one, else that of
/// the host, else a fixed one.
pub fn osd_device_name(cfg: &CecConfig, host: Option<&str>) -> (r: String)
    ensures
        r@ == (match cfg.osd_name {
            Some(name) => name@,
            None => match host {
                Some(name) => name@,
                None => "tv-shell"@,
            },
        }),
{
    match &cfg.osd_name {
        Some(name) => name.clone(),
        None => match host {
            Some(name) => name.to_owned(),
            None => "tv-shell".to_owned(),
        },
    }
}

/// The name of the host, from what the system gives for it: white space around
/// it is dropped, and an empty name is none.
pub fn host_name(raw: &str) -> (r: Option<String>)
    ensures
        text::trimmed(raw@).len() == 0 ==> r is None,
        text::trimmed(raw@).len() > 0 ==> (r matches Some(n) && n@ == text::trimmed(raw@)),
{
    let name = text::trim(raw);
    if name.as_str().is_empty() {
        None
    } else {
        Some(name)
    }
}

// ---------------------------------------------------------------------------
// Ownership of the display
// ---------------------------------------------------------------------------

/// Whether an address is that of a device.
pub open spec fn addressable(addr: CecLogicalAddress) -> bool {
    addr != CecLogicalAddress::Unknown && addr != CecLogicalAddress::Unregistered
}

/// Whether an address is that of a device.
pub fn is_addressable(addr: CecLogicalAddress) -> (r: bool)
    ensures
        r == addressable(addr),
{
    !(addr == CecLogicalAddress::Unknown || addr == CecLogicalAddress::Unregistered)
}

/// Whether it is certain that this machine owns the display.
pub open spec fn owned(owner: CecLogicalAddress, ours: CecLogicalAddress) -> bool {
    addressable(owner) && owner == ours
}

/// Whether it is certain that this machine owns the display.
pub fn owns_display(owner: CecLogicalAddress, ours: CecLogicalAddress) -> (r: bool)
    ensures
        r == owned(owner, ours),
{
    is_addressable(owner) && owner == ours
}

/// Whether this machine may claim the display: no other device is known to own it.
pub open spec fn claimable(owner: CecLogicalAddress, ours: CecLogicalAddress) -> bool {
    !addressable(owner) || owner == ours
}

/// Whether this machine may claim the display: no other device is known to own it.
pub fn may_claim_active_source(owner: CecLogicalAddress, ours: CecLogicalAddress) -> (r: bool)
    ensures
        r == claimable(owner, ours),
{
    !is_addressable(owner) || owner == ours
}

/// The owner that a command makes known, where it makes one known.
pub open spec fn owner_after(opcode: CecOpcode, initiator: CecLogicalAddress) -> Option<
    CecLogicalAddress,
> {
    match opcode {
        CecOpcode::ActiveSource => Some(initiator),
        CecOpcode::InactiveSource => Some(CecLogicalAddress::Unknown),
        _ => None,
    }
}

/// The owner that a command makes known, where it makes one known.
pub fn ownership_from_command(opcode: CecOpcode, initiator: CecLogicalAddress) -> (r: Option<
    CecLogicalAddress,
>)
    ensures
        r == owner_after(opcode, initiator),
{
    match opcode {
        CecOpcode::ActiveSource => Some(initiator),
        CecOpcode::InactiveSource => Some(CecLogicalAddress::Unknown),
        _ => None,
    }
}

/// The owner that a cell holds.
pub open spec fn owner_in(cell: i32) -> CecLogicalAddress {
    match device_at(cell as int) {
        Some(a) => a,
        None => CecLogicalAddress::Unknown,
    }
}

/// The owner that a cell holds.
pub fn owner_get(cell: i32) -> (r: CecLogicalAddress)
    ensures
        r == owner_in(cell),
{
    match logical_from_i32(cell) {
        Some(a) => a,
        None => CecLogicalAddress::Unknown,
    }
}

/// Puts an owner into a cell.
pub fn owner_set(cell: &mut i32, addr: CecLogicalAddress)
    ensures
        *final(cell) == number_of(addr),
        owner_in(*final(cell)) == addr,
{
    *cell = logical_to_i32(addr);
}

/// What a command that came in does to the cell. A command without an opcode says
/// nothing.
pub fn observe_command(
    cell: &mut i32,
    opcode_set: bool,
    opcode: CecOpcode,
    initiator: CecLogicalAddress,
)
    ensures
        match owner_after(opcode, initiator) {
            Some(owner) => if opcode_set {
                owner_in(*final(cell)) == owner && *final(cell) == number_of(owner)
            } else {
                *final(cell) == *old(cell)
            },
            None => *final(cell) == *old(cell),
        },
{
    if !opcode_set {
        return;
    }
    match ownership_from_command(opcode, initiator) {
        Some(owner) => owner_set(cell, owner),
        None => {},
    }
}

/// A display that is owned may be claimed; while nobody is known to own it, it may
/// be claimed and is not owned; while another device owns it, it may not be
/// claimed and is not owned.
pub proof fn law_gates(owner: CecLogicalAddress, ours: CecLogicalAddress)
    ensures
        owned(owner, ours) ==> claimable(owner, ours),
        !addressable(owner) ==> claimable(owner, ours) && !owned(owner, ours),
        addressable(owner) && owner != ours ==> !claimable(owner, ours) && !owned(owner, ours),
        !owned(owner_in(OWNER_UNSEEN), ours),
{
}

// ---------------------------------------------------------------------------
// Health of transmits
// ---------------------------------------------------------------------------

/// How the last transmit went.
#[derive(Debug, Clone, PartialEq, Eq)]
pub enum Transmit {
    /// None was made.
    Unknown,
    Working,
    /// It failed, for this reason.
    Failing(String),
}

/// How the last transmit went.
pub enum TransmitView {
    Unknown,
    Working,
    Failing(Seq<char>),
}

/// How transmits go, and since when.
#[derive(Debug, Clone, PartialEq, Eq)]
pub struct CecHealthState {
    pub transmit: Transmit,
    /// Milliseconds of the wall clock.
    pub since: u64,
}

/// How transmits go, and since when.
pub struct HealthView {
    pub transmit: TransmitView,
    pub since: u64,
}

impl View for CecHealthState {
    type V = HealthView;

    open spec fn view(&self) -> HealthView {
        HealthView {
            transmit: match self.transmit {
                Transmit::Unknown => TransmitView::Unknown,
                Transmit::Working => TransmitView::Working,
                Transmit::Failing(e) => TransmitView::Failing(e@),
            },
            since: self.since,
        }
    }
}

/// Whether two states differ in how transmits go, the reason aside.
pub open spec fn turned(before: HealthView, after: HealthView) -> bool {
    match before.transmit {
        TransmitView::Unknown => !(after.transmit is Unknown),
        TransmitView::Working => !(after.transmit is Working),
        TransmitView::Failing(_) => !(after.transmit is Failing),
    }
}

/// The health after a transmit. The time is that of the last turn, the reason
/// that of the last failure.
pub open spec fn noted(h: HealthView, now: u64, outcome: Result<(), Seq<char>>) -> HealthView {
    match outcome {
        Ok(_) => HealthView {
            transmit: TransmitView::Working,
            since: if h.transmit is Working {
                h.since
            } else {
                now
            },
        },
        Err(e) => HealthView {
            transmit: TransmitView::Failing(e),
            since: if h.transmit is Failing {
                h.since
            } else {
                now
            },
        },
    }
}

/// The health as a compact JSON object.
pub open spec fn health_text(h: HealthView) -> Seq<char> {
    "{\"lastError\":"@ + (match h.transmit {
        TransmitView::Failing(e) => crate::json::quoted(e),
        _ => "null"@,
    }) + ",\"since\":"@ + text::dec(h.since as nat) + ",\"transmit\":\""@ + (match h.transmit {
        TransmitView::Unknown => "unknown"@,
        TransmitView::Working => "ok"@,
        TransmitView::Failing(_) => "failing"@,
    }) + "\"}"@
}

impl CecHealthState {
    /// No transmit was made yet.
    pub fn new(now: u64) -> (r: CecHealthState)
        ensures
            r@ == (HealthView { transmit: TransmitView::Unknown, since: now }),
    {
        CecHealthState { transmit: Transmit::Unknown, since: now }
    }

    /// Takes a transmit that went well into account; says whether that is a turn.
    pub fn record_success(&mut self, now: u64) -> (r: bool)
        ensures
            final(self)@ == noted(old(self)@, now, Ok(())),
            r == turned(old(self)@, final(self)@),
    {
        let changed = !matches!(self.transmit, Transmit::Working);
        if changed {
            self.since = now;
            self.transmit = Transmit::Working;
        }
        changed
    }

    /// Takes a transmit that failed into account; says whether that is a turn.
    pub fn record_failure(&mut self, error: &str, now: u64) -> (r: bool)
        ensures
            final(self)@ == noted(old(self)@, now, Err(error@)),
            r == turned(old(self)@, final(self)@),
    {
        let changed = !matches!(self.transmit, Transmit::Failing(_));
        if changed {
            self.since = now;
        }
        self.transmit = Transmit::Failing(error.to_owned());
        changed
    }

    /// The health as a compact JSON object.
    pub fn to_json(&self) -> (r: String)
        ensures
            r@ == health_text(self@),
    {
        let mut out = "{\"lastError\":".to_owned();
        match &self.transmit {
            Transmit::Failing(e) => out.push_str(quote(e.as_str()).as_str()),
            _ => out.push_str("null"),
        }
        out.push_str(",\"since\":");
        out.push_str(text::decimal(self.since).as_str());
        out.push_str(",\"transmit\":\"");
        match &self.transmit {
            Transmit::Unknown => out.push_str("unknown"),
            Transmit::Working => out.push_str("ok"),
            Transmit::Failing(_) => out.push_str("failing"),
        }
        out.push_str("\"}");
        out
    }
}

/// A second outcome of the same kind is no turn and keeps the time.
pub proof fn law_health_turns_once(
    h: HealthView,
    now: u64,
    later: u64,
    first: Result<(), Seq<char>>,
    second: Result<(), Seq<char>>,
)
    requires
        first is Ok <==> second is Ok,
    ensures
        !turned(noted(h, now, first), noted(noted(h, now, first), later, second)),
        noted(noted(h, now, first), later, second).since == noted(h, now, first).since,
{
}

// ---------------------------------------------------------------------------
// JSON texts
// ---------------------------------------------------------------------------

/// A device as a compact JSON object.
pub open spec fn device_text(number: int, ps: CecPowerStatus) -> Seq<char> {
    "{\"logicalAddress\":"@ + text::int_text(number) + ",\"powerStatus\":\""@ + status_word(ps)
        + "\"}"@
}

/// A device as a compact JSON object.
pub fn cec_device_json(number: i32, ps: CecPowerStatus) -> (r: String)
    ensures
        r@ == device_text(number as int, ps),
{
    let mut out = "{\"logicalAddress\":".to_owned();
    out.push_str(text::signed_decimal(number as i64).as_str());
    out.push_str(",\"powerStatus\":\"");
    out.push_str(power_status_word(ps));
    out.push_str("\"}");
    out
}

/// A change of power as a compact JSON object.
pub open spec fn power_text(addr: Seq<char>, ps: CecPowerStatus) -> Seq<char> {
    "{\"logicalAddress\":"@ + crate::json::quoted(addr) + ",\"powerStatus\":\""@ + status_word(ps)
        + "\"}"@
}

/// A change of power as a compact JSON object.
pub fn cec_power_json(addr: &str, ps: CecPowerStatus) -> (r: String)
    ensures
        r@ == power_text(addr@, ps),
{
    let mut out = "{\"logicalAddress\":".to_owned();
    out.push_str(quote(addr).as_str());
    out.push_str(",\"powerStatus\":\"");
    out.push_str(power_status_word(ps));
    out.push_str("\"}");
    out
}

/// That transmits are out of the question, as a compact JSON object.
pub open spec fn unavailable_text(reason: Seq<char>, now: u64) -> Seq<char> {
    "{\"lastError\":null,\"reason\":"@ + crate::json::quoted(reason) + ",\"since\":"@ + text::dec(
        now as nat,
    ) + ",\"transmit\":\"unavailable\"}"@
}

/// That transmits are out of the question, as a compact JSON object.
pub fn cec_unavailable_json(reason: &str, now: u64) -> (r: String)
    ensures
        r@ == unavailable_text(reason@, now),
{
    let mut out = "{\"lastError\":null,\"reason\":".to_owned();
    out.push_str(quote(reason).as_str());
    out.push_str(",\"since\":");
    out.push_str(text::decimal(now).as_str());
    out.push_str(",\"transmit\":\"unavailable\"}");
    out
}

// ---------------------------------------------------------------------------
// Laws
// ---------------------------------------------------------------------------

/// Each status has a word of its own.
pub proof fn law_statuses_have_words(ps: CecPowerStatus)
    ensures
        ps is On ==> status_word(ps) == "on"@,
        ps is Standby ==> status_word(ps) == "standby"@,
        ps is InTransitionStandbyToOn ==> status_word(ps) == "waking"@,
        ps is InTransitionOnToStandby ==> status_word(ps) == "sleeping"@,
        ps is Unknown ==> status_word(ps) == "unknown"@,
{
}

/// The arrows steer their way, one button selects, one goes back, and no other button does
/// anything.
pub proof fn law_six_buttons_steer(code: CecUserControlCode)
    ensures
        code is Up ==> nav_action(code) == Some("up"@),
        code is Down ==> nav_action(code) == Some("down"@),
        code is Left ==> nav_action(code) == Some("left"@),
        code is Right ==> nav_action(code) == Some("right"@),
        code is Select ==> nav_action(code) == Some("select"@),
        code is Exit ==> nav_action(code) == Some("back"@),
        nav_action(code) is Some ==> code is Up || code is Down || code is Left || code is Right
            || code is Select || code is Exit,
{
}

/// A missing adapter is told from one that does not respond.
pub proof fn law_missing_adapter_is_named(e: CecConnectionResultError)
    ensures
        e is NoAdapterFound ==> open_failure(e) == "no_adapter"@,
        !(e is NoAdapterFound) ==> open_failure(e) == "adapter_open_failed"@,
{
}

/// The addresses from 0 to 14 are those of devices.
pub proof fn law_devices_are_below_fifteen(addr: CecLogicalAddress)
    ensures
        addressable(addr) <==> 0 <= number_of(addr) <= 14,
{
}

/// Who says that they are the source is the owner; once someone gives the display up, nobody
/// is known to be, and the display may be claimed. No other command says anything.
pub proof fn law_owner_is_who_said_so(
    opcode: CecOpcode,
    initiator: CecLogicalAddress,
    ours: CecLogicalAddress,
)
    ensures
        opcode is ActiveSource ==> owner_after(opcode, initiator) == Some(initiator),
        opcode is InactiveSource ==> owner_after(opcode, initiator) is Some && claimable(
            owner_after(opcode, initiator)->0,
            ours,
        ) && !owned(owner_after(opcode, initiator)->0, ours),
        !(opcode is ActiveSource) && !(opcode is InactiveSource) ==> owner_after(opcode, initiator)
            is None,
        owner_in(number_of(initiator) as i32) == initiator,
{
}

/// The health is that of the last transmit, with its reason where it failed. It is a turn
/// where the one before went otherwise or there was none, and only a turn moves the time.
pub proof fn law_health_is_that_of_the_last_transmit(
    h: HealthView,
    now: u64,
    outcome: Result<(), Seq<char>>,
)
    ensures
        ({
            let after = noted(h, now, outcome);
            &&& outcome is Ok ==> after.transmit is Working
            &&& outcome matches Err(e) ==> after.transmit == TransmitView::Failing(e)
            &&& turned(h, after) <==> (outcome is Ok && !(h.transmit is Working)) || (outcome is Err
                && !(h.transmit is Failing))
            &&& turned(h, after) ==> after.since == now
            &&& !turned(h, after) ==> after.since == h.since
        }),
{
}

proof fn lemma_literal(s: Seq<char>)
    requires
        s == "lastError"@ || s == "since"@ || s == "transmit"@ || s == "unknown"@ || s == "ok"@ || s
            == "failing"@ || s == "reason"@ || s == "unavailable"@ || s == "logicalAddress"@ || s
            == "powerStatus"@ || s == "on"@ || s == "standby"@ || s == "waking"@ || s == "sleeping"@,
    ensures
        crate::json::quoted(s) == seq!['"'] + s + seq!['"'],
{
    reveal_strlit("lastError");
    reveal_strlit("since");
    reveal_strlit("transmit");
    reveal_strlit("unknown");
    reveal_strlit("ok");
    reveal_strlit("failing");
    reveal_strlit("reason");
    reveal_strlit("unavailable");
    reveal_strlit("logicalAddress");
    reveal_strlit("powerStatus");
    reveal_strlit("on");
    reveal_strlit("standby");
    reveal_strlit("waking");
    reveal_strlit("sleeping");
    crate::json::law_plain_text_is_written_as_it_is(s);
}

/// The health is the JSON object of its reason, its time and a word for how transmits go.
#[verifier::spinoff_prover]
pub proof fn law_health_is_written_as_json(h: HealthView, word: Seq<char>)
    requires
        h.transmit is Unknown ==> word == "unknown"@,
        h.transmit is Working ==> word == "ok"@,
        h.transmit is Failing ==> word == "failing"@,
    ensures
        health_text(h) == crate::json::compact(
            crate::json::JsonView::Object(
                seq![
                    (
                        "lastError"@,
                        crate::json::text_or_null(
                            if h.transmit is Failing {
                                Some(h.transmit->Failing_0)
                            } else {
                                None
                            },
                        ),
                    ),
                    ("since"@, crate::json::whole(h.since as int)),
                    ("transmit"@, crate::json::JsonView::Text(word)),
                ],
            ),
        ),
{
    let error = crate::json::text_or_null(
        if h.transmit is Failing {
            Some(h.transmit->Failing_0)
        } else {
            None
        },
    );
    let e0 = ("lastError"@, error);
    let e1 = ("since"@, crate::json::whole(h.since as int));
    let e2 = ("transmit"@, crate::json::JsonView::Text(word));
    lemma_literal("lastError"@);
    lemma_literal("since"@);
    lemma_literal("transmit"@);
    lemma_literal(word);
    let none = Seq::<(Seq<char>, crate::json::JsonView)>::empty();
    crate::json::law_entries_are_written_in_order(none, e0.0, e0.1);
    crate::json::law_entries_are_written_in_order(seq![e0], e1.0, e1.1);
    crate::json::law_entries_are_written_in_order(seq![e0, e1], e2.0, e2.1);
    assert(seq![e0].push(e1) =~= seq![e0, e1]);
    assert(seq![e0, e1].push(e2) =~= seq![e0, e1, e2]);
    reveal_strlit("{");
    reveal_strlit("}");
    reveal_strlit(":");
    reveal_strlit(",");
    reveal_strlit("{\"lastError\":");
    reveal_strlit(",\"since\":");
    reveal_strlit(",\"transmit\":\"");
    reveal_strlit("\"}");
    reveal_strlit("lastError");
    reveal_strlit("since");
    reveal_strlit("transmit");
    let q = seq!['"'];
    assert("{\"lastError\":"@ =~= "{"@ + (q + "lastError"@ + q) + ":"@);
    assert(",\"since\":"@ =~= ","@ + (q + "since"@ + q) + ":"@);
    assert(",\"transmit\":\""@ =~= ","@ + (q + "transmit"@ + q) + ":"@ + q);
    assert("\"}"@ =~= q + "}"@);
    let t0 = "{"@ + (q + "lastError"@ + q) + ":"@ + crate::json::compact(error);
    assert((t0 + "}"@).drop_last() =~= t0);
    let t1 = t0 + ","@ + (q + "since"@ + q) + ":"@ + text::dec(h.since as nat);
    assert((t1 + "}"@).drop_last() =~= t1);
    assert(health_text(h) =~= t1 + ","@ + (q + "transmit"@ + q) + ":"@ + (q + word + q) + "}"@);
}

/// That transmits are out of the question is the JSON object of no error, the reason, the time
/// and a word that says so.
#[verifier::spinoff_prover]
pub proof fn law_absence_is_written_as_json(reason: Seq<char>, now: u64)
    ensures
        unavailable_text(reason, now) == crate::json::compact(
            crate::json::JsonView::Object(
                seq![
                    ("lastError"@, crate::json::JsonView::Null),
                    ("reason"@, crate::json::JsonView::Text(reason)),
                    ("since"@, crate::json::whole(now as int)),
                    ("transmit"@, crate::json::JsonView::Text("unavailable"@)),
                ],
            ),
        ),
{
    let e0 = ("lastError"@, crate::json::JsonView::Null);
    let e1 = ("reason"@, crate::json::JsonView::Text(reason));
    let e2 = ("since"@, crate::json::whole(now as int));
    let e3 = ("transmit"@, crate::json::JsonView::Text("unavailable"@));
    lemma_literal("lastError"@);
    lemma_literal("reason"@);
    lemma_literal("since"@);
    lemma_literal("transmit"@);
    lemma_literal("unavailable"@);
    let none = Seq::<(Seq<char>, crate::json::JsonView)>::empty();
    crate::json::law_entries_are_written_in_order(none, e0.0, e0.1);
    crate::json::law_entries_are_written_in_order(seq![e0], e1.0, e1.1);
    crate::json::law_entries_are_written_in_order(seq![e0, e1], e2.0, e2.1);
    crate::json::law_entries_are_written_in_order(seq![e0, e1, e2], e3.0, e3.1);
    assert(seq![e0].push(e1) =~= seq![e0, e1]);
    assert(seq![e0, e1].push(e2) =~= seq![e0, e1, e2]);
    assert(seq![e0, e1, e2].push(e3) =~= seq![e0, e1, e2, e3]);
    reveal_strlit("{");
    reveal_strlit("}");
    reveal_strlit(":");
    reveal_strlit(",");
    reveal_strlit("null");
    reveal_strlit("{\"lastError\":null,\"reason\":");
    reveal_strlit(",\"since\":");
    reveal_strlit(",\"transmit\":\"unavailable\"}");
    reveal_strlit("lastError");
    reveal_strlit("reason");
    reveal_strlit("since");
    reveal_strlit("transmit");
    reveal_strlit("unavailable");
    let q = seq!['"'];
    let t0 = "{"@ + (q + "lastError"@ + q) + ":"@ + "null"@;
    assert((t0 + "}"@).drop_last() =~= t0);
    assert("{\"lastError\":null,\"reason\":"@ =~= t0 + ","@ + (q + "reason"@ + q) + ":"@);
    assert(",\"since\":"@ =~= ","@ + (q + "since"@ + q) + ":"@);
    assert(",\"transmit\":\"unavailable\"}"@ =~= ","@ + (q + "transmit"@ + q) + ":"@ + (q
        + "unavailable"@ + q) + "}"@);
    let t1 = t0 + ","@ + (q + "reason"@ + q) + ":"@ + crate::json::quoted(reason);
    assert((t1 + "}"@).drop_last() =~= t1);
    let t2 = t1 + ","@ + (q + "since"@ + q) + ":"@ + text::dec(now as nat);
    assert((t2 + "}"@).drop_last() =~= t2);
    assert(unavailable_text(reason, now) =~= t2 + ","@ + (q + "transmit"@ + q) + ":"@ + (q
        + "unavailable"@ + q) + "}"@);
}

/// A device and a change of power are JSON objects of an address, as a number or as it was
/// given, and the word for the status.
#[verifier::spinoff_prover]
pub proof fn law_devices_are_written_as_json(number: int, addr: Seq<char>, ps: CecPowerStatus)
    ensures
        device_text(number, ps) == crate::json::compact(
            crate::json::JsonView::Object(
                seq![
                    ("logicalAddress"@, crate::json::whole(number)),
                    ("powerStatus"@, crate::json::JsonView::Text(status_word(ps))),
                ],
            ),
        ),
        power_text(addr, ps) == crate::json::compact(
            crate::json::JsonView::Object(
                seq![
                    ("logicalAddress"@, crate::json::JsonView::Text(addr)),
                    ("powerStatus"@, crate::json::JsonView::Text(status_word(ps))),
                ],
            ),
        ),
{
    let a0 = ("logicalAddress"@, crate::json::whole(number));
    let b0 = ("logicalAddress"@, crate::json::JsonView::Text(addr));
    let e1 = ("powerStatus"@, crate::json::JsonView::Text(status_word(ps)));
    lemma_literal("logicalAddress"@);
    lemma_literal("powerStatus"@);
    lemma_literal(status_word(ps));
    let none = Seq::<(Seq<char>, crate::json::JsonView)>::empty();
    crate::json::law_entries_are_written_in_order(none, a0.0, a0.1);
    crate::json::law_entries_are_written_in_order(seq![a0], e1.0, e1.1);
    crate::json::law_entries_are_written_in_order(none, b0.0, b0.1);
    crate::json::law_entries_are_written_in_order(seq![b0], e1.0, e1.1);
    assert(seq![a0].push(e1) =~= seq![a0, e1]);
    assert(seq![b0].push(e1) =~= seq![b0, e1]);
    reveal_strlit("{");
    reveal_strlit("}");
    reveal_strlit(":");
    reveal_strlit(",");
    reveal_strlit("{\"logicalAddress\":");
    reveal_strlit(",\"powerStatus\":\"");
    reveal_strlit("\"}");
    reveal_strlit("logicalAddress");
    reveal_strlit("powerStatus");
    let q = seq!['"'];
    let w = status_word(ps);
    let head = "{"@ + (q + "logicalAddress"@ + q) + ":"@;
    assert("{\"logicalAddress\":"@ =~= head);
    assert(",\"powerStatus\":\""@ =~= ","@ + (q + "powerStatus"@ + q) + ":"@ + q);
    assert("\"}"@ =~= q + "}"@);
    let a = head + text::int_text(number);
    assert((a + "}"@).drop_last() =~= a);
    assert(device_text(number, ps) =~= a + ","@ + (q + "powerStatus"@ + q) + ":"@ + (q + w + q)
        + "}"@);
    let b = head + crate::json::quoted(addr);
    assert((b + "}"@).drop_last() =~= b);
    assert(power_text(addr, ps) =~= b + ","@ + (q + "powerStatus"@ + q) + ":"@ + (q + w + q) + "}"@);
}

} // verus!
