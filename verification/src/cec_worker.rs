//! The worker that owns the connection to the CEC adapter.
//!
//! The worker is a state machine. A request starts it; every step then names one
//! call to be made into the adapter, and the answer to that call is handed to the
//! next step, until a step names the reply.

use crate::cec::{
    cec_device_json, cec_power_json, cec_unavailable_json, logical_from_i32, logical_to_i32,
    may_claim_active_source, owner_get, owns_display, parse_address, CecHealthState,
    CecLogicalAddress, CecPowerStatus, AVR_ADDR, OWNER_UNSEEN, REOPEN_COOLDOWN_MS, TV_ADDR,
    WAKE_ACTIVE_SOURCE_DELAY_MS,
};
use crate::cec;
use crate::reply::{resp_error, resp_ok};
use crate::text;
use vstd::prelude::*;

verus! {

/// A request to the worker.
#[derive(Debug, Clone, PartialEq, Eq)]
pub enum CecReq {
    /// All devices on the bus.
    Scan,
    /// One device.
    Device { addr: String },
    /// Wakes a device.
    PowerOn { addr: String },
    /// Sends a device into standby.
    PowerOff { addr: String },
    /// Claims the display.
    ActiveSource,
    /// How transmits go.
    Health,
    /// Tries a transmit that has no effect.
    Test,
    /// Wakes receiver and TV and claims the display.
    WakeSequence,
    /// Sends TV and receiver into standby.
    StandbyAll,
}

/// What is done with a request before it reaches the worker: the two sequences
/// are passed over, with the reply `ok`, unless the daemon manages the display.
pub fn let_through(req: CecReq, lifecycle: bool, focus_on_wake: bool) -> (r: Option<CecReq>)
    ensures
        r == (match req {
            CecReq::WakeSequence => if lifecycle && focus_on_wake {
                Some(req)
            } else {
                None
            },
            CecReq::StandbyAll => if lifecycle {
                Some(req)
            } else {
                None
            },
            _ => Some(req),
        }),
{
    match req {
        CecReq::WakeSequence => if lifecycle && focus_on_wake {
            Some(req)
        } else {
            None
        },
        CecReq::StandbyAll => if lifecycle {
            Some(req)
        } else {
            None
        },
        _ => Some(req),
    }
}

/// Why a request got no reply from the worker.
#[derive(Debug, Clone, Copy, PartialEq, Eq, Structural)]
pub enum ForwardFailure {
    /// Too many requests wait.
    QueueFull,
    /// The worker is gone.
    WorkerGone,
    /// The worker dropped the request.
    ReplyDropped,
    /// The task that waited for the reply failed.
    TaskFailed,
    /// The reply took too long.
    TimedOut,
}

/// The reply to a request that got none from the worker.
pub fn forward_failure(f: ForwardFailure) -> (r: String)
    ensures
        r@ == "error:"@ + (match f {
            ForwardFailure::QueueFull => "cec busy"@,
            ForwardFailure::WorkerGone => "cec worker unavailable"@,
            ForwardFailure::ReplyDropped => "cec worker dropped reply"@,
            ForwardFailure::TaskFailed => "cec worker task failed"@,
            ForwardFailure::TimedOut => "cec timeout (adapter busy)"@,
        }),
{
    match f {
        ForwardFailure::QueueFull => resp_error("cec busy"),
        ForwardFailure::WorkerGone => resp_error("cec worker unavailable"),
        ForwardFailure::ReplyDropped => resp_error("cec worker dropped reply"),
        ForwardFailure::TaskFailed => resp_error("cec worker task failed"),
        ForwardFailure::TimedOut => resp_error("cec timeout (adapter busy)"),
    }
}

/// The reply to a request while there is no connection. Those for the health say
/// why; the others fail.
pub fn unavailable_reply(req: &CecReq, reason: &str, now: u64) -> (r: String)
    ensures
        r@ == (match *req {
            CecReq::Health => cec::unavailable_text(reason@, now),
            CecReq::Test => cec::unavailable_text(reason@, now),
            _ => "error:"@ + "libcec unavailable"@,
        }),
{
    match req {
        CecReq::Health => cec_unavailable_json(reason, now),
        CecReq::Test => cec_unavailable_json(reason, now),
        _ => resp_error("libcec unavailable"),
    }
}

/// Whether the display is claimed when the worker starts.
pub fn wakes_on_open(lifecycle: bool, focus_on_startup: bool) -> (r: bool)
    ensures
        r == (lifecycle && focus_on_startup),
{
    lifecycle && focus_on_startup
}

// ---------------------------------------------------------------------------
// The machine
// ---------------------------------------------------------------------------

/// A transmit that a request asks for.
#[derive(Debug, Clone, PartialEq, Eq)]
pub enum Op {
    PowerOn { addr: String, device: CecLogicalAddress },
    PowerOff { addr: String, device: CecLogicalAddress },
    ActiveSource,
}

/// A transmit that a request asks for.
pub enum OpView {
    PowerOn { addr: Seq<char>, device: CecLogicalAddress },
    PowerOff { addr: Seq<char>, device: CecLogicalAddress },
    ActiveSource,
}

impl View for Op {
    type V = OpView;

    open spec fn view(&self) -> OpView {
        match *self {
            Op::PowerOn { addr, device } => OpView::PowerOn { addr: addr@, device },
            Op::PowerOff { addr, device } => OpView::PowerOff { addr: addr@, device },
            Op::ActiveSource => OpView::ActiveSource,
        }
    }
}

/// A sequence of transmits.
#[derive(Debug, Clone, Copy, PartialEq, Eq, Structural)]
pub enum Sequence {
    Wake,
    Standby,
}

/// Why a sequence runs.
#[derive(Debug, Clone, PartialEq, Eq)]
pub enum Origin {
    /// The connection was opened; nobody waits for a reply.
    Startup,
    /// A request.
    First,
    /// A request, for the second time, after the first attempt failed.
    Retry(String),
}

/// Why a sequence runs.
pub enum OriginView {
    Startup,
    First,
    Retry(Seq<char>),
}

impl View for Origin {
    type V = OriginView;

    open spec fn view(&self) -> OriginView {
        match *self {
            Origin::Startup => OriginView::Startup,
            Origin::First => OriginView::First,
            Origin::Retry(e) => OriginView::Retry(e@),
        }
    }
}

/// The call of a sequence whose answer is awaited.
#[derive(Debug, Clone, Copy, PartialEq, Eq, Structural)]
pub enum Stage {
    /// The transmit to the first device.
    SendFirst,
    /// The power status of the first device.
    StatusFirst,
    /// The transmit to the second device.
    SendSecond,
    /// The power status of the second device.
    StatusSecond,
    /// The pause before the display is claimed.
    Rest,
    /// The own address.
    Address,
    /// The claim of the display, by this address.
    Claim(CecLogicalAddress),
}

/// What the worker waits for.
#[derive(Debug, Clone, PartialEq, Eq)]
pub enum Phase {
    /// A request.
    Idle,
    /// The power status of the device at `next`, while all devices are looked for.
    Scan { next: i32, found: Vec<String> },
    /// The power status of one device.
    Look { number: i32, addr: String },
    /// The own address, or the outcome of a poll.
    Probe { polling: bool, test: bool },
    /// The outcome of a transmit.
    Send { op: Op, retried: bool },
    /// A new connection, for a transmit that failed.
    Reopen { op: Op, error: String },
    /// The power status after a transmit.
    Confirm { addr: String },
    /// The own address after the display was claimed.
    Claimed,
    /// An answer within a sequence.
    Lifecycle { seq: Sequence, origin: Origin, stage: Stage },
    /// A new connection, for a sequence that failed.
    Recover { seq: Sequence, error: String },
}

/// What the worker waits for.
pub enum PhaseView {
    Idle,
    Scan { next: int, found: Seq<Seq<char>> },
    Look { number: int, addr: Seq<char> },
    Probe { polling: bool, test: bool },
    Send { op: OpView, retried: bool },
    Reopen { op: OpView, error: Seq<char> },
    Confirm { addr: Seq<char> },
    Claimed,
    Lifecycle { seq: Sequence, origin: OriginView, stage: Stage },
    Recover { seq: Sequence, error: Seq<char> },
}

impl View for Phase {
    type V = PhaseView;

    open spec fn view(&self) -> PhaseView {
        match *self {
            Phase::Idle => PhaseView::Idle,
            Phase::Scan { next, found } => PhaseView::Scan {
                next: next as int,
                found: text::views(found@),
            },
            Phase::Look { number, addr } => PhaseView::Look { number: number as int, addr: addr@ },
            Phase::Probe { polling, test } => PhaseView::Probe { polling, test },
            Phase::Send { op, retried } => PhaseView::Send { op: op@, retried },
            Phase::Reopen { op, error } => PhaseView::Reopen { op: op@, error: error@ },
            Phase::Confirm { addr } => PhaseView::Confirm { addr: addr@ },
            Phase::Claimed => PhaseView::Claimed,
            Phase::Lifecycle { seq, origin, stage } => PhaseView::Lifecycle {
                seq,
                origin: origin@,
                stage,
            },
            Phase::Recover { seq, error } => PhaseView::Recover { seq, error: error@ },
        }
    }
}

/// The worker.
#[derive(Debug, Clone, PartialEq, Eq)]
pub struct Worker {
    /// When the connection was last reopened, in milliseconds of a steady clock.
    pub last_reopen: Option<u64>,
    pub health: CecHealthState,
    pub phase: Phase,
}

/// The worker.
pub struct WorkerView {
    pub last_reopen: Option<u64>,
    pub health: cec::HealthView,
    pub phase: PhaseView,
}

impl View for Worker {
    type V = WorkerView;

    open spec fn view(&self) -> WorkerView {
        WorkerView { last_reopen: self.last_reopen, health: self.health@, phase: self.phase@ }
    }
}

/// A call to be made.
#[derive(Debug, Clone, PartialEq, Eq)]
pub enum Call {
    /// Asks for the power status of a device.
    PowerStatus(CecLogicalAddress),
    /// Wakes a device.
    PowerOn(CecLogicalAddress),
    /// Sends a device into standby.
    Standby(CecLogicalAddress),
    /// Claims the display.
    ActiveSource,
    /// Polls the TV in the name of this address.
    Poll(CecLogicalAddress),
    /// Asks for the own address; nothing is transmitted.
    OwnAddress,
    /// Opens the connection anew; the new one takes the place of the old.
    Reopen,
    /// Waits, in milliseconds.
    Sleep(u64),
    /// Replies; the request is done.
    Reply(String),
    /// Nothing; what started the worker is done and has no reply.
    Done,
}

/// A call to be made.
pub enum CallView {
    PowerStatus(CecLogicalAddress),
    PowerOn(CecLogicalAddress),
    Standby(CecLogicalAddress),
    ActiveSource,
    Poll(CecLogicalAddress),
    OwnAddress,
    Reopen,
    Sleep(u64),
    Reply(Seq<char>),
    Done,
}

impl View for Call {
    type V = CallView;

    open spec fn view(&self) -> CallView {
        match *self {
            Call::PowerStatus(a) => CallView::PowerStatus(a),
            Call::PowerOn(a) => CallView::PowerOn(a),
            Call::Standby(a) => CallView::Standby(a),
            Call::ActiveSource => CallView::ActiveSource,
            Call::Poll(a) => CallView::Poll(a),
            Call::OwnAddress => CallView::OwnAddress,
            Call::Reopen => CallView::Reopen,
            Call::Sleep(ms) => CallView::Sleep(ms),
            Call::Reply(s) => CallView::Reply(s@),
            Call::Done => CallView::Done,
        }
    }
}

/// The answer to a call.
#[derive(Debug, PartialEq, Eq)]
pub enum Answer {
    Status(CecPowerStatus),
    /// How a transmit went; an error by its text.
    Sent(Result<(), String>),
    Address(CecLogicalAddress),
    /// Whether there is a connection again.
    Reopened(bool),
    Slept,
}

/// How a transmit went.
pub open spec fn sent_view(r: Result<(), String>) -> Result<(), Seq<char>> {
    match r {
        Ok(_) => Ok(()),
        Err(e) => Err(e@),
    }
}

/// Something to be told to whoever listens.
#[derive(Debug, Clone, PartialEq, Eq)]
pub enum Event {
    CecDevice(String),
    CecPower(String),
    CecHealth(String),
}

/// Something to be told to whoever listens.
pub enum EventView {
    CecDevice(Seq<char>),
    CecPower(Seq<char>),
    CecHealth(Seq<char>),
}

impl View for Event {
    type V = EventView;

    open spec fn view(&self) -> EventView {
        match *self {
            Event::CecDevice(s) => EventView::CecDevice(s@),
            Event::CecPower(s) => EventView::CecPower(s@),
            Event::CecHealth(s) => EventView::CecHealth(s@),
        }
    }
}

/// What the events tell.
pub open spec fn told(events: Seq<Event>) -> Seq<EventView> {
    Seq::new(events.len(), |i: int| events[i]@)
}

/// The moment at which an answer comes.
#[derive(Debug, Clone, Copy, PartialEq, Eq, Structural)]
pub struct Moment {
    /// Milliseconds of the wall clock.
    pub wall_ms: u64,
    /// Milliseconds of a steady clock.
    pub steady_ms: u64,
    /// What the owner cell holds.
    pub owner: i32,
}

/// The outcome of a step.
#[derive(Debug, Clone, PartialEq, Eq)]
pub struct Step {
    pub worker: Worker,
    pub call: Call,
    /// What is to be told, in this order, before the call.
    pub events: Vec<Event>,
    /// What is to be put into the owner cell, before the call.
    pub owner: Option<i32>,
}

/// The outcome of a step.
pub struct StepView {
    pub worker: WorkerView,
    pub call: CallView,
    pub events: Seq<EventView>,
    pub owner: Option<i32>,
}

impl View for Step {
    type V = StepView;

    open spec fn view(&self) -> StepView {
        StepView {
            worker: self.worker@,
            call: self.call@,
            events: told(self.events@),
            owner: self.owner,
        }
    }
}

/// A step that makes a call and waits in `phase`.
pub open spec fn asking(w: WorkerView, phase: PhaseView, call: CallView) -> StepView {
    StepView { worker: WorkerView { phase, ..w }, call, events: Seq::empty(), owner: None }
}

/// A step that replies.
pub open spec fn replying(w: WorkerView, reply: Seq<char>) -> StepView {
    asking(w, PhaseView::Idle, CallView::Reply(reply))
}

/// A step that tells something first.
pub open spec fn telling(events: Seq<EventView>, s: StepView) -> StepView {
    StepView { events: events + s.events, ..s }
}

/// A step that sets the owner cell.
pub open spec fn owning(owner: CecLogicalAddress, s: StepView) -> StepView {
    StepView { owner: Some(cec::number_of(owner) as i32), ..s }
}

/// A step that also takes the outcome of a transmit into the health, and tells of
/// a turn.
pub open spec fn noting(w: WorkerView, m: Moment, outcome: Result<(), Seq<char>>) -> (
    WorkerView,
    Seq<EventView>,
) {
    let h = cec::noted(w.health, m.wall_ms, outcome);
    (
        WorkerView { health: h, ..w },
        if cec::turned(w.health, h) {
            seq![EventView::CecHealth(cec::health_text(h))]
        } else {
            Seq::empty()
        },
    )
}

/// Whether the connection may be reopened.
pub open spec fn reopenable(last: Option<u64>, now: u64) -> bool {
    match last {
        None => true,
        Some(t) => now - t >= REOPEN_COOLDOWN_MS,
    }
}

/// Whether the connection may be reopened now; if so, that is noted.
pub fn reopen_allowed(last_reopen: &mut Option<u64>, now: u64) -> (r: bool)
    ensures
        r == reopenable(*old(last_reopen), now),
        *final(last_reopen) == (if r {
            Some(now)
        } else {
            *old(last_reopen)
        }),
{
    let ready = match *last_reopen {
        None => true,
        Some(t) => now >= t && now - t >= REOPEN_COOLDOWN_MS,
    };
    if ready {
        *last_reopen = Some(now);
    }
    ready
}

/// The name of a transmit.
pub open spec fn label(op: OpView) -> Seq<char> {
    match op {
        OpView::PowerOn { .. } => "power-on"@,
        OpView::PowerOff { .. } => "power-off"@,
        OpView::ActiveSource => "active-source"@,
    }
}

/// The call of a transmit.
pub open spec fn transmit(op: OpView) -> CallView {
    match op {
        OpView::PowerOn { device, .. } => CallView::PowerOn(device),
        OpView::PowerOff { device, .. } => CallView::Standby(device),
        OpView::ActiveSource => CallView::ActiveSource,
    }
}

/// A request whose transmit failed for good.
pub open spec fn failed(w: WorkerView, m: Moment, op: OpView, error: Seq<char>) -> StepView {
    let message = label(op) + " failed: "@ + error;
    let (w2, events) = noting(w, m, Err(message));
    telling(events, replying(w2, "error:"@ + message))
}

/// The device that a sequence turns to first or second. It wakes the receiver
/// before the TV, and sends the TV into standby before the receiver.
pub open spec fn target(seq: Sequence, second: bool) -> int {
    if (seq == Sequence::Wake) != second {
        AVR_ADDR as int
    } else {
        TV_ADDR as int
    }
}

/// The transmit of a sequence to a device.
pub open spec fn sequence_call(seq: Sequence, second: bool) -> CallView {
    let device = cec::device_at(target(seq, second))->Some_0;
    match seq {
        Sequence::Wake => CallView::PowerOn(device),
        Sequence::Standby => CallView::Standby(device),
    }
}

/// What is said of a transmit of a sequence that failed.
pub open spec fn sequence_error(seq: Sequence, second: bool, error: Seq<char>) -> Seq<char> {
    (match seq {
        Sequence::Wake => "wake power-on "@,
        Sequence::Standby => "standby "@,
    }) + text::dec(target(seq, second) as nat) + " failed: "@ + error
}

/// How a sequence ended.
pub enum OutcomeView {
    /// Nothing was transmitted.
    Skipped,
    Ended(Result<(), Seq<char>>),
}

/// A sequence that is over for good: its outcome counts for the health.
pub open spec fn settled(w: WorkerView, m: Moment, outcome: Result<(), Seq<char>>) -> StepView {
    let (w2, events) = noting(w, m, outcome);
    telling(
        events,
        replying(
            w2,
            match outcome {
                Ok(_) => "ok"@,
                Err(e) => "error:"@ + e,
            },
        ),
    )
}

/// A sequence that came to its end. If it failed for the first time, it is tried
/// again on a new connection, where one may be opened. One that was passed over
/// does not count for the health, unless an attempt before it failed. At startup
/// nothing is tried again, counted or said.
pub open spec fn ended(
    w: WorkerView,
    m: Moment,
    seq: Sequence,
    origin: OriginView,
    outcome: OutcomeView,
) -> StepView {
    match origin {
        OriginView::Startup => asking(w, PhaseView::Idle, CallView::Done),
        OriginView::First => match outcome {
            OutcomeView::Skipped => replying(w, "ok"@),
            OutcomeView::Ended(Ok(_)) => settled(w, m, Ok(())),
            OutcomeView::Ended(Err(e)) => if reopenable(w.last_reopen, m.steady_ms) {
                owning(
                    CecLogicalAddress::Unknown,
                    asking(
                        WorkerView { last_reopen: Some(m.steady_ms), ..w },
                        PhaseView::Recover { seq, error: e },
                        CallView::Reopen,
                    ),
                )
            } else {
                settled(w, m, Err(e))
            },
        },
        OriginView::Retry(first) => match outcome {
            OutcomeView::Skipped => settled(w, m, Err(first)),
            OutcomeView::Ended(r) => settled(w, m, r),
        },
    }
}

/// The first step of a sequence.
pub open spec fn begun(w: WorkerView, seq: Sequence, origin: OriginView) -> StepView {
    match seq {
        Sequence::Wake => asking(
            w,
            PhaseView::Lifecycle { seq, origin, stage: Stage::SendFirst },
            sequence_call(seq, false),
        ),
        Sequence::Standby => asking(
            w,
            PhaseView::Lifecycle { seq, origin, stage: Stage::Address },
            CallView::OwnAddress,
        ),
    }
}

/// The first step of a transmit for the device that a request names.
pub open spec fn commanded(w: WorkerView, addr: Seq<char>, on: bool) -> StepView {
    match cec::addressed(addr) {
        Some(device) => {
            let op = if on {
                OpView::PowerOn { addr, device }
            } else {
                OpView::PowerOff { addr, device }
            };
            asking(w, PhaseView::Send { op, retried: false }, transmit(op))
        },
        None => replying(w, "error:"@ + ("invalid address "@ + addr)),
    }
}

/// The first step of a request.
pub open spec fn started(w: WorkerView, req: CecReq) -> StepView {
    match req {
        CecReq::Scan => asking(
            w,
            PhaseView::Scan { next: 0, found: Seq::empty() },
            CallView::PowerStatus(CecLogicalAddress::Tv),
        ),
        CecReq::Device { addr } => match cec::addressed(addr@) {
            Some(device) => asking(
                w,
                PhaseView::Look { number: cec::number_of(device), addr: addr@ },
                CallView::PowerStatus(device),
            ),
            None => replying(w, "error:"@ + ("invalid address "@ + addr@)),
        },
        CecReq::PowerOn { addr } => commanded(w, addr@, true),
        CecReq::PowerOff { addr } => commanded(w, addr@, false),
        CecReq::ActiveSource => asking(
            w,
            PhaseView::Send { op: OpView::ActiveSource, retried: false },
            CallView::ActiveSource,
        ),
        CecReq::Health => replying(w, cec::health_text(w.health)),
        CecReq::Test => asking(
            w,
            PhaseView::Probe { polling: false, test: true },
            CallView::OwnAddress,
        ),
        CecReq::WakeSequence => begun(w, Sequence::Wake, OriginView::First),
        CecReq::StandbyAll => begun(w, Sequence::Standby, OriginView::First),
    }
}

/// The events that tell of the devices that were found.
pub open spec fn device_events(found: Seq<Seq<char>>) -> Seq<EventView> {
    Seq::new(found.len(), |i: int| EventView::CecDevice(found[i]))
}

/// The step after a power status.
pub open spec fn after_status(w: WorkerView, m: Moment, ps: CecPowerStatus) -> StepView {
    match w.phase {
        PhaseView::Scan { next, found } => {
            let all = if ps == CecPowerStatus::Unknown {
                found
            } else {
                found.push(cec::device_text(next, ps))
            };
            if next < 15 {
                asking(
                    w,
                    PhaseView::Scan { next: next + 1, found: all },
                    CallView::PowerStatus(cec::device_at(next + 1)->Some_0),
                )
            } else if all.len() == 0 {
                asking(w, PhaseView::Probe { polling: false, test: false }, CallView::OwnAddress)
            } else {
                let (w2, events) = noting(w, m, Ok(()));
                telling(
                    device_events(all) + events,
                    replying(w2, "["@ + text::joined(all, ","@) + "]"@),
                )
            }
        },
        PhaseView::Look { number, addr } => if ps == CecPowerStatus::Unknown {
            replying(w, "error:"@ + ("no device at address "@ + addr))
        } else {
            telling(
                seq![EventView::CecDevice(cec::device_text(number, ps))],
                replying(w, cec::device_text(number, ps)),
            )
        },
        PhaseView::Confirm { addr } => telling(
            seq![EventView::CecPower(cec::power_text(addr, ps))],
            replying(w, "ok"@),
        ),
        PhaseView::Lifecycle { seq, origin, stage } => {
            let second = stage == Stage::StatusSecond;
            let events = seq![
                EventView::CecPower(
                    cec::power_text(text::dec(target(seq, second) as nat), ps),
                ),
            ];
            telling(
                events,
                if !second {
                    asking(
                        w,
                        PhaseView::Lifecycle { seq, origin, stage: Stage::SendSecond },
                        sequence_call(seq, true),
                    )
                } else if seq == Sequence::Wake {
                    asking(
                        w,
                        PhaseView::Lifecycle { seq, origin, stage: Stage::Rest },
                        CallView::Sleep(WAKE_ACTIVE_SOURCE_DELAY_MS),
                    )
                } else {
                    ended(w, m, seq, origin, OutcomeView::Ended(Ok(())))
                },
            )
        },
        _ => replying(w, Seq::empty()),
    }
}

/// The step after a transmit.
pub open spec fn after_sent(w: WorkerView, m: Moment, r: Result<(), Seq<char>>) -> StepView {
    match w.phase {
        PhaseView::Probe { test, .. } => {
            let (w2, events) = noting(
                w,
                m,
                match r {
                    Ok(_) => Ok(()),
                    Err(e) => Err("cec-test poll failed: "@ + e),
                },
            );
            telling(
                events,
                replying(
                    w2,
                    if test {
                        cec::health_text(w2.health)
                    } else {
                        "[]"@
                    },
                ),
            )
        },
        PhaseView::Send { op, retried } => match r {
            Ok(_) => {
                let (w2, events) = noting(w, m, Ok(()));
                telling(
                    events,
                    match op {
                        OpView::PowerOn { addr, device } => asking(
                            w2,
                            PhaseView::Confirm { addr },
                            CallView::PowerStatus(device),
                        ),
                        OpView::PowerOff { addr, device } => asking(
                            w2,
                            PhaseView::Confirm { addr },
                            CallView::PowerStatus(device),
                        ),
                        OpView::ActiveSource => asking(
                            w2,
                            PhaseView::Claimed,
                            CallView::OwnAddress,
                        ),
                    },
                )
            },
            Err(e) => if !retried && reopenable(w.last_reopen, m.steady_ms) {
                owning(
                    CecLogicalAddress::Unknown,
                    asking(
                        WorkerView { last_reopen: Some(m.steady_ms), ..w },
                        PhaseView::Reopen { op, error: e },
                        CallView::Reopen,
                    ),
                )
            } else {
                failed(w, m, op, e)
            },
        },
        PhaseView::Lifecycle { seq, origin, stage } => match stage {
            Stage::Claim(ours) => match r {
                Ok(_) => owning(ours, ended(w, m, seq, origin, OutcomeView::Ended(Ok(())))),
                Err(e) => ended(
                    w,
                    m,
                    seq,
                    origin,
                    OutcomeView::Ended(Err("wake active-source failed: "@ + e)),
                ),
            },
            _ => {
                let second = stage == Stage::SendSecond;
                match r {
                    Ok(_) => asking(
                        w,
                        PhaseView::Lifecycle {
                            seq,
                            origin,
                            stage: if second {
                                Stage::StatusSecond
                            } else {
                                Stage::StatusFirst
                            },
                        },
                        CallView::PowerStatus(cec::device_at(target(seq, second))->Some_0),
                    ),
                    Err(e) => ended(
                        w,
                        m,
                        seq,
                        origin,
                        OutcomeView::Ended(Err(sequence_error(seq, second, e))),
                    ),
                }
            },
        },
        _ => replying(w, Seq::empty()),
    }
}

/// The step after the own address.
pub open spec fn after_address(w: WorkerView, m: Moment, ours: CecLogicalAddress) -> StepView {
    match w.phase {
        PhaseView::Probe { test, .. } => asking(
            w,
            PhaseView::Probe { polling: true, test },
            CallView::Poll(
                if ours == CecLogicalAddress::Unknown {
                    CecLogicalAddress::Unregistered
                } else {
                    ours
                },
            ),
        ),
        PhaseView::Claimed => owning(ours, replying(w, "ok"@)),
        PhaseView::Lifecycle { seq, origin, .. } => match seq {
            Sequence::Wake => if cec::claimable(cec::owner_in(m.owner), ours) {
                asking(
                    w,
                    PhaseView::Lifecycle { seq, origin, stage: Stage::Claim(ours) },
                    CallView::ActiveSource,
                )
            } else {
                ended(w, m, seq, origin, OutcomeView::Ended(Ok(())))
            },
            Sequence::Standby => if cec::owned(cec::owner_in(m.owner), ours) {
                asking(
                    w,
                    PhaseView::Lifecycle { seq, origin, stage: Stage::SendFirst },
                    sequence_call(seq, false),
                )
            } else {
                ended(w, m, seq, origin, OutcomeView::Skipped)
            },
        },
        _ => replying(w, Seq::empty()),
    }
}

/// The step after the connection was to be reopened: with a new one what failed is tried
/// once more, without one it failed for good.
pub open spec fn after_reopened(w: WorkerView, m: Moment, opened: bool) -> StepView {
    match w.phase {
        PhaseView::Reopen { op, error } => if opened {
            asking(w, PhaseView::Send { op, retried: true }, transmit(op))
        } else {
            failed(w, m, op, error)
        },
        PhaseView::Recover { seq, error } => if opened {
            begun(w, seq, OriginView::Retry(error))
        } else {
            settled(w, m, Err(error))
        },
        _ => replying(w, Seq::empty()),
    }
}

/// The step after the pause.
pub open spec fn after_rest(w: WorkerView) -> StepView {
    match w.phase {
        PhaseView::Lifecycle { seq, origin, .. } => asking(
            w,
            PhaseView::Lifecycle { seq, origin, stage: Stage::Address },
            CallView::OwnAddress,
        ),
        _ => replying(w, Seq::empty()),
    }
}

/// The step after an answer.
pub open spec fn next(w: WorkerView, m: Moment, a: Answer) -> StepView {
    match a {
        Answer::Status(ps) => after_status(w, m, ps),
        Answer::Sent(r) => after_sent(w, m, sent_view(r)),
        Answer::Address(ours) => after_address(w, m, ours),
        Answer::Reopened(opened) => after_reopened(w, m, opened),
        Answer::Slept => after_rest(w),
    }
}

/// Whether an answer is one that the worker waits for.
pub open spec fn fits(phase: PhaseView, a: Answer) -> bool {
    match phase {
        PhaseView::Idle => false,
        PhaseView::Scan { .. } => a is Status,
        PhaseView::Look { .. } => a is Status,
        PhaseView::Probe { polling, .. } => if polling {
            a is Sent
        } else {
            a is Address
        },
        PhaseView::Send { .. } => a is Sent,
        PhaseView::Reopen { .. } => a is Reopened,
        PhaseView::Confirm { .. } => a is Status,
        PhaseView::Claimed => a is Address,
        PhaseView::Lifecycle { stage, .. } => match stage {
            Stage::SendFirst => a is Sent,
            Stage::StatusFirst => a is Status,
            Stage::SendSecond => a is Sent,
            Stage::StatusSecond => a is Status,
            Stage::Rest => a is Slept,
            Stage::Address => a is Address,
            Stage::Claim(_) => a is Sent,
        },
        PhaseView::Recover { .. } => a is Reopened,
    }
}

/// Whether a phase can come about.
pub open spec fn sound(phase: PhaseView) -> bool {
    match phase {
        PhaseView::Scan { next, found } => 0 <= next <= 15 && found.len() <= next,
        PhaseView::Lifecycle { seq, stage, .. } => match stage {
            Stage::Rest => seq == Sequence::Wake,
            Stage::Claim(_) => seq == Sequence::Wake,
            _ => true,
        },
        _ => true,
    }
}

// ---------------------------------------------------------------------------
// Steps
// ---------------------------------------------------------------------------

/// A worker in no phase in particular.
spec fn bare(last_reopen: Option<u64>, health: cec::HealthView) -> WorkerView {
    WorkerView { last_reopen, health, phase: PhaseView::Idle }
}

/// How a transmit went.
spec fn said(r: Result<(), &str>) -> Result<(), Seq<char>> {
    match r {
        Ok(_) => Ok(()),
        Err(e) => Err(e@),
    }
}

fn ask(last_reopen: Option<u64>, health: CecHealthState, phase: Phase, call: Call) -> (r: Step)
    ensures
        r@ == asking(bare(last_reopen, health@), phase@, call@),
{
    let events: Vec<Event> = Vec::new();
    assert(told(events@) =~= Seq::empty());
    Step { worker: Worker { last_reopen, health, phase }, call, events, owner: None }
}

/// Takes the outcome of a transmit into the health and gives what is to be told.
fn note_health(health: &mut CecHealthState, m: Moment, outcome: Result<(), &str>) -> (r: Vec<Event>)
    ensures
        final(health)@ == cec::noted(old(health)@, m.wall_ms, said(outcome)),
        told(r@) == (if cec::turned(old(health)@, final(health)@) {
            seq![EventView::CecHealth(cec::health_text(final(health)@))]
        } else {
            Seq::empty()
        }),
{
    let turned = match outcome {
        Ok(_) => health.record_success(m.wall_ms),
        Err(e) => health.record_failure(e, m.wall_ms),
    };
    let mut events: Vec<Event> = Vec::new();
    if turned {
        events.push(Event::CecHealth(health.to_json()));
        assert(told(events@) =~= seq![EventView::CecHealth(cec::health_text(health@))]);
    } else {
        assert(told(events@) =~= Seq::empty());
    }
    events
}

/// Puts events before those of a step.
fn tell(events: Vec<Event>, step: Step) -> (r: Step)
    ensures
        r@ == telling(told(events@), step@),
{
    let mut all = events;
    let mut rest = step.events;
    all.append(&mut rest);
    assert(told(all@) =~= told(events@) + told(step.events@));
    Step { worker: step.worker, call: step.call, events: all, owner: step.owner }
}

fn transmit_call(op: &Op) -> (r: Call)
    ensures
        r@ == transmit(op@),
{
    match op {
        Op::PowerOn { device, .. } => Call::PowerOn(*device),
        Op::PowerOff { device, .. } => Call::Standby(*device),
        Op::ActiveSource => Call::ActiveSource,
    }
}

fn fail(
    last_reopen: Option<u64>,
    health: CecHealthState,
    m: Moment,
    op: &Op,
    error: &str,
) -> (r: Step)
    ensures
        r@ == failed(bare(last_reopen, health@), m, op@, error@),
{
    let mut health = health;
    let mut message = match op {
        Op::PowerOn { .. } => "power-on".to_owned(),
        Op::PowerOff { .. } => "power-off".to_owned(),
        Op::ActiveSource => "active-source".to_owned(),
    };
    message.push_str(" failed: ");
    message.push_str(error);
    let events = note_health(&mut health, m, Err(message.as_str()));
    tell(events, ask(last_reopen, health, Phase::Idle, Call::Reply(resp_error(message.as_str()))))
}

fn settle(
    last_reopen: Option<u64>,
    health: CecHealthState,
    m: Moment,
    outcome: Result<(), String>,
) -> (r: Step)
    ensures
        r@ == settled(
            bare(last_reopen, health@),
            m,
            sent_view(outcome),
        ),
{
    let mut health = health;
    match outcome {
        Ok(_) => {
            let events = note_health(&mut health, m, Ok(()));
            tell(events, ask(last_reopen, health, Phase::Idle, Call::Reply(resp_ok())))
        },
        Err(e) => {
            let events = note_health(&mut health, m, Err(e.as_str()));
            tell(
                events,
                ask(last_reopen, health, Phase::Idle, Call::Reply(resp_error(e.as_str()))),
            )
        },
    }
}

/// How a sequence ended; `None` if it was passed over.
fn finish(
    last_reopen: Option<u64>,
    health: CecHealthState,
    m: Moment,
    seq: Sequence,
    origin: Origin,
    outcome: Option<Result<(), String>>,
) -> (r: Step)
    ensures
        r@ == ended(
            bare(last_reopen, health@),
            m,
            seq,
            origin@,
            match outcome {
                None => OutcomeView::Skipped,
                Some(o) => OutcomeView::Ended(sent_view(o)),
            },
        ),
{
    match origin {
        Origin::Startup => ask(last_reopen, health, Phase::Idle, Call::Done),
        Origin::First => match outcome {
            None => ask(last_reopen, health, Phase::Idle, Call::Reply(resp_ok())),
            Some(Ok(_)) => settle(last_reopen, health, m, Ok(())),
            Some(Err(e)) => {
                let mut last = last_reopen;
                if reopen_allowed(&mut last, m.steady_ms) {
                    let mut s = ask(last, health, Phase::Recover { seq, error: e }, Call::Reopen);
                    s.owner = Some(OWNER_UNSEEN);
                    s
                } else {
                    settle(last_reopen, health, m, Err(e))
                }
            },
        },
        Origin::Retry(first) => match outcome {
            None => settle(last_reopen, health, m, Err(first)),
            Some(o) => settle(last_reopen, health, m, o),
        },
    }
}

fn target_number(seq: Sequence, second: bool) -> (r: i32)
    ensures
        r == target(seq, second),
        r == 0 || r == 5,
{
    match seq {
        Sequence::Wake => if second {
            TV_ADDR
        } else {
            AVR_ADDR
        },
        Sequence::Standby => if second {
            AVR_ADDR
        } else {
            TV_ADDR
        },
    }
}

fn target_device(seq: Sequence, second: bool) -> (r: CecLogicalAddress)
    ensures
        cec::device_at(target(seq, second)) == Some(r),
{
    match logical_from_i32(target_number(seq, second)) {
        Some(device) => device,
        None => CecLogicalAddress::Unknown,
    }
}

fn send_call(seq: Sequence, second: bool) -> (r: Call)
    ensures
        r@ == sequence_call(seq, second),
{
    let device = target_device(seq, second);
    match seq {
        Sequence::Wake => Call::PowerOn(device),
        Sequence::Standby => Call::Standby(device),
    }
}

fn begin(last_reopen: Option<u64>, health: CecHealthState, seq: Sequence, origin: Origin) -> (r: Step)
    ensures
        r@ == begun(bare(last_reopen, health@), seq, origin@),
{
    match seq {
        Sequence::Wake => ask(
            last_reopen,
            health,
            Phase::Lifecycle { seq, origin, stage: Stage::SendFirst },
            send_call(seq, false),
        ),
        Sequence::Standby => ask(
            last_reopen,
            health,
            Phase::Lifecycle { seq, origin, stage: Stage::Address },
            Call::OwnAddress,
        ),
    }
}

fn invalid_address(last_reopen: Option<u64>, health: CecHealthState, addr: &str) -> (r: Step)
    ensures
        r@ == replying(bare(last_reopen, health@), "error:"@ + ("invalid address "@ + addr@)),
{
    let mut message = "invalid address ".to_owned();
    message.push_str(addr);
    ask(last_reopen, health, Phase::Idle, Call::Reply(resp_error(message.as_str())))
}

impl Worker {
    /// Whether the worker is in a phase that can come about.
    pub open spec fn wf(&self) -> bool {
        sound(self.phase@)
    }

    /// A worker that waits for a request.
    pub fn new(now: u64) -> (r: Worker)
        ensures
            r.wf(),
            r@ == (WorkerView {
                last_reopen: None,
                health: cec::HealthView { transmit: cec::TransmitView::Unknown, since: now },
                phase: PhaseView::Idle,
            }),
    {
        Worker { last_reopen: None, health: CecHealthState::new(now), phase: Phase::Idle }
    }

    /// Wakes the display when the connection was opened.
    pub fn wake_on_open(self) -> (r: Step)
        requires
            self.phase is Idle,
        ensures
            r.worker.wf(),
            r@ == begun(self@, Sequence::Wake, OriginView::Startup),
    {
        begin(self.last_reopen, self.health, Sequence::Wake, Origin::Startup)
    }

    /// Starts on a request.
    pub fn start(self, req: CecReq) -> (r: Step)
        requires
            self.phase is Idle,
        ensures
            r.worker.wf(),
            r@ == started(self@, req),
    {
        let last = self.last_reopen;
        let health = self.health;
        match req {
            CecReq::Scan => {
                let found: Vec<String> = Vec::new();
                assert(text::views(found@) =~= Seq::empty());
                ask(
                    last,
                    health,
                    Phase::Scan { next: 0, found },
                    Call::PowerStatus(CecLogicalAddress::Tv),
                )
            },
            CecReq::Device { addr } => match parse_address(addr.as_str()) {
                Some(device) => ask(
                    last,
                    health,
                    Phase::Look { number: logical_to_i32(device), addr },
                    Call::PowerStatus(device),
                ),
                None => invalid_address(last, health, addr.as_str()),
            },
            CecReq::PowerOn { addr } => match parse_address(addr.as_str()) {
                Some(device) => ask(
                    last,
                    health,
                    Phase::Send { op: Op::PowerOn { addr, device }, retried: false },
                    Call::PowerOn(device),
                ),
                None => invalid_address(last, health, addr.as_str()),
            },
            CecReq::PowerOff { addr } => match parse_address(addr.as_str()) {
                Some(device) => ask(
                    last,
                    health,
                    Phase::Send { op: Op::PowerOff { addr, device }, retried: false },
                    Call::Standby(device),
                ),
                None => invalid_address(last, health, addr.as_str()),
            },
            CecReq::ActiveSource => ask(
                last,
                health,
                Phase::Send { op: Op::ActiveSource, retried: false },
                Call::ActiveSource,
            ),
            CecReq::Health => {
                let reply = health.to_json();
                ask(last, health, Phase::Idle, Call::Reply(reply))
            },
            CecReq::Test => ask(
                last,
                health,
                Phase::Probe { polling: false, test: true },
                Call::OwnAddress,
            ),
            CecReq::WakeSequence => begin(last, health, Sequence::Wake, Origin::First),
            CecReq::StandbyAll => begin(last, health, Sequence::Standby, Origin::First),
        }
    }

    /// Goes on with the answer to the last call.
    pub fn step(self, m: Moment, answer: Answer) -> (r: Step)
        requires
            self.wf(),
            fits(self.phase@, answer),
        ensures
            r.worker.wf(),
            r@ == next(self@, m, answer),
    {
        match answer {
            Answer::Status(ps) => self.on_status(m, ps),
            Answer::Sent(r) => self.on_sent(m, r),
            Answer::Address(ours) => self.on_address(m, ours),
            Answer::Reopened(opened) => self.on_reopened(m, opened),
            Answer::Slept => self.on_rest(),
        }
    }

    fn on_status(self, m: Moment, ps: CecPowerStatus) -> (r: Step)
        requires
            self.wf(),
            fits(self.phase@, Answer::Status(ps)),
        ensures
            r.worker.wf(),
            r@ == after_status(self@, m, ps),
    {
        let last = self.last_reopen;
        let mut health = self.health;
        match self.phase {
            Phase::Scan { next, found } => {
                let mut all = found;
                if ps != CecPowerStatus::Unknown {
                    let json = cec_device_json(next, ps);
                    proof {
                        text::lemma_views_push(all@, json);
                    }
                    all.push(json);
                }
                if next < 15 {
                    match logical_from_i32(next + 1) {
                        Some(device) => ask(
                            last,
                            health,
                            Phase::Scan { next: next + 1, found: all },
                            Call::PowerStatus(device),
                        ),
                        None => ask(last, health, Phase::Idle, Call::Done),
                    }
                } else if all.len() == 0 {
                    ask(last, health, Phase::Probe { polling: false, test: false }, Call::OwnAddress)
                } else {
                    let mut events = device_told(&all);
                    let mut more = note_health(&mut health, m, Ok(()));
                    let ghost first = events@;
                    let ghost second = more@;
                    events.append(&mut more);
                    assert(told(events@) =~= told(first) + told(second));
                    let mut reply = "[".to_owned();
                    reply.push_str(text::join(&all, ",").as_str());
                    reply.push_str("]");
                    tell(events, ask(last, health, Phase::Idle, Call::Reply(reply)))
                }
            },
            Phase::Look { number, addr } => if ps == CecPowerStatus::Unknown {
                let mut message = "no device at address ".to_owned();
                message.push_str(addr.as_str());
                ask(last, health, Phase::Idle, Call::Reply(resp_error(message.as_str())))
            } else {
                let events = one_event(Event::CecDevice(cec_device_json(number, ps)));
                tell(
                    events,
                    ask(last, health, Phase::Idle, Call::Reply(cec_device_json(number, ps))),
                )
            },
            Phase::Confirm { addr } => {
                let events = one_event(Event::CecPower(cec_power_json(addr.as_str(), ps)));
                tell(events, ask(last, health, Phase::Idle, Call::Reply(resp_ok())))
            },
            Phase::Lifecycle { seq, origin, stage } => {
                let second = stage == Stage::StatusSecond;
                let number = target_number(seq, second);
                let events = one_event(
                    Event::CecPower(
                        cec_power_json(text::decimal(number as u64).as_str(), ps),
                    ),
                );
                if !second {
                    tell(
                        events,
                        ask(
                            last,
                            health,
                            Phase::Lifecycle { seq, origin, stage: Stage::SendSecond },
                            send_call(seq, true),
                        ),
                    )
                } else if seq == Sequence::Wake {
                    tell(
                        events,
                        ask(
                            last,
                            health,
                            Phase::Lifecycle { seq, origin, stage: Stage::Rest },
                            Call::Sleep(WAKE_ACTIVE_SOURCE_DELAY_MS),
                        ),
                    )
                } else {
                    tell(events, finish(last, health, m, seq, origin, Some(Ok(()))))
                }
            },
            _ => ask(last, health, Phase::Idle, Call::Done),
        }
    }

    fn on_sent(self, m: Moment, r: Result<(), String>) -> (s: Step)
        requires
            self.wf(),
            fits(self.phase@, Answer::Sent(r)),
        ensures
            s.worker.wf(),
            s@ == after_sent(self@, m, sent_view(r)),
    {
        let last = self.last_reopen;
        let mut health = self.health;
        match self.phase {
            Phase::Probe { test, .. } => {
                let events = match r {
                    Ok(_) => note_health(&mut health, m, Ok(())),
                    Err(e) => {
                        let mut message = "cec-test poll failed: ".to_owned();
                        message.push_str(e.as_str());
                        note_health(&mut health, m, Err(message.as_str()))
                    },
                };
                let reply = if test {
                    health.to_json()
                } else {
                    "[]".to_owned()
                };
                tell(events, ask(last, health, Phase::Idle, Call::Reply(reply)))
            },
            Phase::Send { op, retried } => match r {
                Ok(_) => {
                    let events = note_health(&mut health, m, Ok(()));
                    match op {
                        Op::PowerOn { addr, device } => tell(
                            events,
                            ask(last, health, Phase::Confirm { addr }, Call::PowerStatus(device)),
                        ),
                        Op::PowerOff { addr, device } => tell(
                            events,
                            ask(last, health, Phase::Confirm { addr }, Call::PowerStatus(device)),
                        ),
                        Op::ActiveSource => tell(
                            events,
                            ask(last, health, Phase::Claimed, Call::OwnAddress),
                        ),
                    }
                },
                Err(e) => {
                    let mut now_last = last;
                    if !retried && reopen_allowed(&mut now_last, m.steady_ms) {
                        let mut s = ask(
                            now_last,
                            health,
                            Phase::Reopen { op, error: e },
                            Call::Reopen,
                        );
                        s.owner = Some(OWNER_UNSEEN);
                        s
                    } else {
                        fail(last, health, m, &op, e.as_str())
                    }
                },
            },
            Phase::Lifecycle { seq, origin, stage } => match stage {
                Stage::Claim(ours) => match r {
                    Ok(_) => {
                        let mut s = finish(last, health, m, seq, origin, Some(Ok(())));
                        s.owner = Some(logical_to_i32(ours));
                        s
                    },
                    Err(e) => {
                        let mut message = "wake active-source failed: ".to_owned();
                        message.push_str(e.as_str());
                        finish(last, health, m, seq, origin, Some(Err(message)))
                    },
                },
                _ => {
                    let second = stage == Stage::SendSecond;
                    match r {
                        Ok(_) => {
                            let stage = if second {
                                Stage::StatusSecond
                            } else {
                                Stage::StatusFirst
                            };
                            ask(
                                last,
                                health,
                                Phase::Lifecycle { seq, origin, stage },
                                Call::PowerStatus(target_device(seq, second)),
                            )
                        },
                        Err(e) => {
                            let mut message = match seq {
                                Sequence::Wake => "wake power-on ".to_owned(),
                                Sequence::Standby => "standby ".to_owned(),
                            };
                            let number = target_number(seq, second);
                            message.push_str(text::decimal(number as u64).as_str());
                            message.push_str(" failed: ");
                            message.push_str(e.as_str());
                            finish(last, health, m, seq, origin, Some(Err(message)))
                        },
                    }
                },
            },
            _ => ask(last, health, Phase::Idle, Call::Done),
        }
    }

    fn on_address(self, m: Moment, ours: CecLogicalAddress) -> (r: Step)
        requires
            self.wf(),
            fits(self.phase@, Answer::Address(ours)),
        ensures
            r.worker.wf(),
            r@ == after_address(self@, m, ours),
    {
        let last = self.last_reopen;
        let health = self.health;
        match self.phase {
            Phase::Probe { test, .. } => {
                let initiator = if ours == CecLogicalAddress::Unknown {
                    CecLogicalAddress::Unregistered
                } else {
                    ours
                };
                ask(last, health, Phase::Probe { polling: true, test }, Call::Poll(initiator))
            },
            Phase::Claimed => {
                let mut s = ask(last, health, Phase::Idle, Call::Reply(resp_ok()));
                s.owner = Some(logical_to_i32(ours));
                s
            },
            Phase::Lifecycle { seq, origin, .. } => match seq {
                Sequence::Wake => if may_claim_active_source(owner_get(m.owner), ours) {
                    ask(
                        last,
                        health,
                        Phase::Lifecycle { seq, origin, stage: Stage::Claim(ours) },
                        Call::ActiveSource,
                    )
                } else {
                    finish(last, health, m, seq, origin, Some(Ok(())))
                },
                Sequence::Standby => if owns_display(owner_get(m.owner), ours) {
                    ask(
                        last,
                        health,
                        Phase::Lifecycle { seq, origin, stage: Stage::SendFirst },
                        send_call(seq, false),
                    )
                } else {
                    finish(last, health, m, seq, origin, None)
                },
            },
            _ => ask(last, health, Phase::Idle, Call::Done),
        }
    }

    fn on_reopened(self, m: Moment, opened: bool) -> (r: Step)
        requires
            self.wf(),
            fits(self.phase@, Answer::Reopened(opened)),
        ensures
            r.worker.wf(),
            r@ == after_reopened(self@, m, opened),
    {
        let last = self.last_reopen;
        let health = self.health;
        match self.phase {
            Phase::Reopen { op, error } => if opened {
                let call = transmit_call(&op);
                ask(last, health, Phase::Send { op, retried: true }, call)
            } else {
                fail(last, health, m, &op, error.as_str())
            },
            Phase::Recover { seq, error } => if opened {
                begin(last, health, seq, Origin::Retry(error))
            } else {
                settle(last, health, m, Err(error))
            },
            _ => ask(last, health, Phase::Idle, Call::Done),
        }
    }

    fn on_rest(self) -> (r: Step)
        requires
            self.wf(),
            fits(self.phase@, Answer::Slept),
        ensures
            r.worker.wf(),
            r@ == after_rest(self@),
    {
        match self.phase {
            Phase::Lifecycle { seq, origin, .. } => ask(
                self.last_reopen,
                self.health,
                Phase::Lifecycle { seq, origin, stage: Stage::Address },
                Call::OwnAddress,
            ),
            _ => ask(self.last_reopen, self.health, Phase::Idle, Call::Done),
        }
    }
}

fn one_event(e: Event) -> (r: Vec<Event>)
    ensures
        told(r@) == seq![e@],
{
    let mut events: Vec<Event> = Vec::new();
    events.push(e);
    assert(told(events@) =~= seq![e@]);
    events
}

fn device_told(found: &Vec<String>) -> (r: Vec<Event>)
    ensures
        told(r@) == device_events(text::views(found@)),
{
    let mut events: Vec<Event> = Vec::new();
    let mut i: usize = 0;
    while i < found.len()
        invariant
            i <= found.len(),
            events@.len() == i,
            forall|j: int|
                0 <= j < i ==> (#[trigger] events@[j])@ == EventView::CecDevice(found@[j]@),
        decreases found.len() - i,
    {
        events.push(Event::CecDevice(found[i].as_str().to_owned()));
        i += 1;
    }
    assert(told(events@) =~= device_events(text::views(found@)));
    events
}

// ---------------------------------------------------------------------------
// Laws
// ---------------------------------------------------------------------------

/// How many steps a request can still take.
pub open spec fn steps_left(phase: PhaseView) -> nat {
    match phase {
        PhaseView::Idle => 0,
        PhaseView::Scan { next, .. } => (18 - next) as nat,
        PhaseView::Look { .. } => 1,
        PhaseView::Probe { polling, .. } => if polling {
            1
        } else {
            2
        },
        PhaseView::Send { retried, .. } => if retried {
            2
        } else {
            4
        },
        PhaseView::Reopen { .. } => 3,
        PhaseView::Confirm { .. } => 1,
        PhaseView::Claimed => 1,
        PhaseView::Lifecycle { seq, origin, stage } => left_in_sequence(seq, stage) + if origin
            is First {
            8nat
        } else {
            0nat
        },
        PhaseView::Recover { .. } => 8,
    }
}

/// How many steps a sequence can still take.
pub open spec fn left_in_sequence(seq: Sequence, stage: Stage) -> nat {
    match stage {
        Stage::SendFirst => if seq == Sequence::Wake {
            7
        } else {
            4
        },
        Stage::StatusFirst => if seq == Sequence::Wake {
            6
        } else {
            3
        },
        Stage::SendSecond => if seq == Sequence::Wake {
            5
        } else {
            2
        },
        Stage::StatusSecond => if seq == Sequence::Wake {
            4
        } else {
            1
        },
        Stage::Rest => 3,
        Stage::Address => if seq == Sequence::Wake {
            2
        } else {
            5
        },
        Stage::Claim(_) => 1,
    }
}

/// Every request comes to its end: whatever the adapter answers, each step brings
/// the reply closer, and the worker is idle only with a reply, or where none is
/// owed.
pub proof fn law_requests_end(w: WorkerView, m: Moment, a: Answer)
    requires
        sound(w.phase),
        fits(w.phase, a),
    ensures
        steps_left(next(w, m, a).worker.phase) < steps_left(w.phase),
        next(w, m, a).worker.phase is Idle <==> next(w, m, a).call is Reply || next(w, m, a).call
            is Done,
        next(w, m, a).call is Done ==> (w.phase matches PhaseView::Lifecycle { origin, .. }
            && origin is Startup),
{
}

/// Whether an answer is of the kind that a call asks for.
pub open spec fn answers(call: CallView, a: Answer) -> bool {
    match call {
        CallView::PowerStatus(_) => a is Status,
        CallView::PowerOn(_) => a is Sent,
        CallView::Standby(_) => a is Sent,
        CallView::ActiveSource => a is Sent,
        CallView::Poll(_) => a is Sent,
        CallView::OwnAddress => a is Address,
        CallView::Reopen => a is Reopened,
        CallView::Sleep(_) => a is Slept,
        CallView::Reply(_) => false,
        CallView::Done => false,
    }
}

/// The worker waits for exactly the answer to the call that it named.
pub proof fn law_calls_are_answered(w: WorkerView, m: Moment, a: Answer, req: CecReq, b: Answer)
    requires
        sound(w.phase),
    ensures
        fits(w.phase, a) ==> (fits(next(w, m, a).worker.phase, b) <==> answers(
            next(w, m, a).call,
            b,
        )),
        w.phase is Idle ==> (fits(started(w, req).worker.phase, b) <==> answers(
            started(w, req).call,
            b,
        )),
{
}

/// The connection is reopened only when the last time lies far enough back, and
/// never twice for one request. The owner of the display is then forgotten. No
/// other step touches the time of the last reopening.
pub proof fn law_reopening_is_rare(w: WorkerView, m: Moment, a: Answer)
    requires
        sound(w.phase),
        fits(w.phase, a),
    ensures
        next(w, m, a).call is Reopen ==> {
            &&& reopenable(w.last_reopen, m.steady_ms)
            &&& next(w, m, a).worker.last_reopen == Some(m.steady_ms)
            &&& next(w, m, a).owner == Some(OWNER_UNSEEN)
            &&& !recovered(w.phase)
        },
        !(next(w, m, a).call is Reopen) ==> next(w, m, a).worker.last_reopen == w.last_reopen,
        w.phase is Reopen || w.phase is Recover || recovered(w.phase) ==> recovered(
            next(w, m, a).worker.phase,
        ),
{
}

/// Whether the request can bring no more reopening.
pub open spec fn recovered(phase: PhaseView) -> bool {
    match phase {
        PhaseView::Idle => true,
        PhaseView::Send { retried, .. } => retried,
        PhaseView::Lifecycle { origin, .. } => !(origin is First),
        PhaseView::Reopen { .. } => false,
        PhaseView::Recover { .. } => false,
        _ => true,
    }
}

/// Sending everything into standby transmits nothing unless this machine is known
/// to own the display. A first attempt that is passed over replies `ok` and leaves
/// the health and the owner as they are.
pub proof fn law_standby_needs_ownership(w: WorkerView, m: Moment, ours: CecLogicalAddress)
    requires
        w.phase is Idle,
        !cec::owned(cec::owner_in(m.owner), ours),
    ensures
        ({
            let first = started(w, CecReq::StandbyAll);
            let second = next(first.worker, m, Answer::Address(ours));
            &&& first.call == CallView::OwnAddress
            &&& first.events.len() == 0
            &&& second.call == CallView::Reply("ok"@)
            &&& second.worker == w
            &&& second.events.len() == 0
            &&& second.owner is None
        }),
{
    let first = started(w, CecReq::StandbyAll);
    let second = next(first.worker, m, Answer::Address(ours));
    assert(second.events =~= Seq::empty());
}

/// A sequence claims the display only where no other device is known to own it,
/// and sends a device into standby only where this machine is known to own it. A
/// claim that is not made is no failure.
pub proof fn law_sequences_respect_the_owner(w: WorkerView, m: Moment, ours: CecLogicalAddress)
    requires
        sound(w.phase),
        w.phase matches PhaseView::Lifecycle { stage, .. } && stage == Stage::Address,
    ensures
        next(w, m, Answer::Address(ours)).call is ActiveSource ==> cec::claimable(
            cec::owner_in(m.owner),
            ours,
        ),
        next(w, m, Answer::Address(ours)).call is Standby ==> cec::owned(
            cec::owner_in(m.owner),
            ours,
        ),
        w.phase->Lifecycle_seq == Sequence::Wake && w.phase->origin is First && !cec::claimable(
            cec::owner_in(m.owner),
            ours,
        ) ==> next(w, m, Answer::Address(ours)).call == CallView::Reply("ok"@),
{
}

/// A claim that went well makes this machine the known owner.
pub proof fn law_claims_are_remembered(w: WorkerView, m: Moment, ours: CecLogicalAddress)
    requires
        (w.phase matches PhaseView::Lifecycle { stage, .. } && stage == Stage::Claim(ours)),
    ensures
        next(w, m, Answer::Sent(Ok(()))).owner matches Some(cell) && cec::owner_in(cell) == ours,
{
}

/// Listeners hear of the health exactly when it turns.
pub proof fn law_turns_are_told(w: WorkerView, m: Moment, a: Answer)
    requires
        sound(w.phase),
        fits(w.phase, a),
    ensures
        cec::turned(w.health, next(w, m, a).worker.health) <==> exists|i: int|
            0 <= i < next(w, m, a).events.len() && (#[trigger] next(w, m, a).events[i]) is CecHealth,
{
    let n = next(w, m, a);
    let h = n.worker.health;
    if cec::turned(w.health, h) {
        let i = n.events.len() - 1;
        assert(n.events[i] is CecHealth);
    }
}

/// A request that wakes a device wakes the device with the number that it names, and one
/// that sends it into standby sends that device into standby.
pub proof fn law_power_requests_reach_their_device(
    w: WorkerView,
    addr: String,
    device: CecLogicalAddress,
)
    requires
        cec::addressed(addr@) == Some(device),
    ensures
        started(w, CecReq::PowerOn { addr }).call == CallView::PowerOn(device),
        started(w, CecReq::PowerOff { addr }).call == CallView::Standby(device),
        started(w, CecReq::PowerOn { addr }).events.len() == 0,
        started(w, CecReq::PowerOff { addr }).events.len() == 0,
        started(w, CecReq::PowerOn { addr }).owner is None,
        started(w, CecReq::PowerOff { addr }).owner is None,
{
}

/// What a request for the power of a device repeats on a new connection is the same
/// transmit to the same device.
pub proof fn law_power_requests_are_repeated_alike(
    w: WorkerView,
    addr: String,
    device: CecLogicalAddress,
    m: Moment,
    e: String,
    later: Moment,
)
    requires
        cec::addressed(addr@) == Some(device),
    ensures
        ({
            let on = next(
                started(w, CecReq::PowerOn { addr }).worker,
                m,
                Answer::Sent(Err(e)),
            );
            let off = next(
                started(w, CecReq::PowerOff { addr }).worker,
                m,
                Answer::Sent(Err(e)),
            );
            &&& on.call is Reopen ==> next(on.worker, later, Answer::Reopened(true)).call
                == CallView::PowerOn(device)
            &&& off.call is Reopen ==> next(off.worker, later, Answer::Reopened(true)).call
                == CallView::Standby(device)
        }),
{
}

/// Once a request for the power of a device was transmitted, the power status of that
/// device is asked for and told, and the reply is `ok`, whatever the status is.
pub proof fn law_power_requests_are_confirmed(
    w: WorkerView,
    addr: String,
    n: int,
    req: CecReq,
    m: Moment,
    later: Moment,
    ps: CecPowerStatus,
)
    requires
        w.phase is Idle,
        text::parsed_int(addr@) == Some(n),
        0 <= n <= 15,
        req == (CecReq::PowerOn { addr }) || req == (CecReq::PowerOff { addr }),
    ensures
        ({
            let asked = next(started(w, req).worker, m, Answer::Sent(Ok(())));
            let done = next(asked.worker, later, Answer::Status(ps));
            &&& asked.call matches CallView::PowerStatus(d) && cec::number_of(d) == n
            &&& asked.owner is None
            &&& asked.worker.health.transmit is Working
            &&& done.call == CallView::Reply("ok"@)
            &&& done.events == seq![power_told(addr@, ps)]
            &&& done.owner is None
            &&& done.worker.health == asked.worker.health
        }),
{
    cec::law_numbers_and_devices(n, CecLogicalAddress::Unknown);
    let asked = next(started(w, req).worker, m, Answer::Sent(Ok(())));
    let done = next(asked.worker, later, Answer::Status(ps));
    assert(done.events =~= seq![power_told(addr@, ps)]);
}

/// A request for a number that no device can have transmits nothing and says so.
pub proof fn law_unknown_numbers_are_refused(w: WorkerView, addr: String, req: CecReq)
    requires
        w.phase is Idle,
        req == (CecReq::Device { addr }) || req == (CecReq::PowerOn { addr }) || req == (
        CecReq::PowerOff { addr }),
        text::parsed_int(addr@) matches Some(n) ==> n < 0 || n > 15,
    ensures
        started(w, req).call == CallView::Reply("error:"@ + ("invalid address "@ + addr@)),
        started(w, req).worker == w,
        started(w, req).events.len() == 0,
        started(w, req).owner is None,
{
}

/// Whether the connection may be reopened at a time: it was not, or half a minute
/// has gone by.
pub open spec fn rested(w: WorkerView, now: u64) -> bool {
    w.last_reopen is None || w.last_reopen->0 + 30_000 <= now
}

/// A transmit of a request that fails is repeated, the same call to the same device,
/// once the connection is reopened; where it cannot be reopened, or fails again, the
/// reply names the request and the last error, and transmits count as failing.
pub proof fn law_failed_transmits_are_repeated(
    w: WorkerView,
    addr: String,
    req: CecReq,
    word: Seq<char>,
    m: Moment,
    e: String,
    later: Moment,
    e2: String,
)
    requires
        w.phase is Idle,
        text::parsed_int(addr@) matches Some(n) && 0 <= n <= 15,
        (req == (CecReq::PowerOn { addr }) && word == "power-on"@) || (req == (CecReq::PowerOff {
            addr,
        }) && word == "power-off"@) || (req == CecReq::ActiveSource && word == "active-source"@),
    ensures
        ({
            let first = started(w, req);
            let refused = next(first.worker, m, Answer::Sent(Err(e)));
            let again = next(refused.worker, later, Answer::Reopened(true));
            let gone = next(refused.worker, later, Answer::Reopened(false));
            let lost = next(again.worker, later, Answer::Sent(Err(e2)));
            &&& rested(w, m.steady_ms) ==> {
                &&& refused.call is Reopen
                &&& refused.owner == Some(-1i32)
                &&& refused.worker.last_reopen == Some(m.steady_ms)
                &&& refused.worker.health == w.health
                &&& again.call == first.call
                &&& again.owner is None
                &&& gone.call == CallView::Reply("error:"@ + (word + " failed: "@ + e@))
                &&& gone.worker.health.transmit == cec::TransmitView::Failing(
                    word + " failed: "@ + e@,
                )
                &&& lost.call == CallView::Reply("error:"@ + (word + " failed: "@ + e2@))
                &&& lost.worker.health.transmit == cec::TransmitView::Failing(
                    word + " failed: "@ + e2@,
                )
            }
            &&& !rested(w, m.steady_ms) ==> {
                &&& refused.call == CallView::Reply("error:"@ + (word + " failed: "@ + e@))
                &&& refused.owner is None
                &&& refused.worker.last_reopen == w.last_reopen
                &&& refused.worker.health.transmit == cec::TransmitView::Failing(
                    word + " failed: "@ + e@,
                )
            }
        }),
{
}

/// A claim of the display transmits the claim whoever owns the display, and makes this
/// machine its known owner.
pub proof fn law_claim_on_request(
    w: WorkerView,
    m: Moment,
    later: Moment,
    ours: CecLogicalAddress,
)
    requires
        w.phase is Idle,
    ensures
        ({
            let first = started(w, CecReq::ActiveSource);
            let asked = next(first.worker, m, Answer::Sent(Ok(())));
            let done = next(asked.worker, later, Answer::Address(ours));
            &&& first.call is ActiveSource
            &&& first.owner is None
            &&& asked.call is OwnAddress
            &&& asked.worker.health.transmit is Working
            &&& done.call == CallView::Reply("ok"@)
            &&& done.owner matches Some(cell) && cec::owner_in(cell) == ours && cell
                == cec::number_of(ours)
            &&& done.events.len() == 0
        }),
{
}

/// A request for one device asks that device and tells and replies what it answered;
/// a device that does not answer is not there.
pub proof fn law_one_device_is_looked_at(
    w: WorkerView,
    addr: String,
    n: int,
    m: Moment,
    ps: CecPowerStatus,
)
    requires
        w.phase is Idle,
        text::parsed_int(addr@) == Some(n),
        0 <= n <= 15,
    ensures
        ({
            let first = started(w, CecReq::Device { addr });
            let done = next(first.worker, m, Answer::Status(ps));
            let said = "{\"logicalAddress\":"@ + text::dec(n as nat) + ",\"powerStatus\":\""@
                + cec::status_word(ps) + "\"}"@;
            &&& first.call matches CallView::PowerStatus(d) && cec::number_of(d) == n
            &&& first.events.len() == 0 && first.owner is None
            &&& ps == CecPowerStatus::Unknown ==> done.call == CallView::Reply(
                "error:"@ + ("no device at address "@ + addr@),
            ) && done.events.len() == 0
            &&& ps != CecPowerStatus::Unknown ==> done.call == CallView::Reply(said)
                && done.events == seq![EventView::CecDevice(said)]
            &&& done.worker == w
            &&& done.owner is None
        }),
{
    cec::law_numbers_and_devices(n, CecLogicalAddress::Unknown);
    let first = started(w, CecReq::Device { addr });
    let done = next(first.worker, m, Answer::Status(ps));
    if ps != CecPowerStatus::Unknown {
        assert(done.events =~= seq![
            EventView::CecDevice(
                "{\"logicalAddress\":"@ + text::dec(n as nat) + ",\"powerStatus\":\""@
                    + cec::status_word(ps) + "\"}"@,
            ),
        ]);
    }
}

/// A request for the health replies with it, and leaves the worker as it is.
pub proof fn law_health_is_replied(w: WorkerView)
    requires
        w.phase is Idle,
    ensures
        started(w, CecReq::Health).call == CallView::Reply(cec::health_text(w.health)),
        started(w, CecReq::Health).worker == w,
        started(w, CecReq::Health).events.len() == 0,
        started(w, CecReq::Health).owner is None,
{
}

/// A test polls the TV in the own name, or in that of an unregistered device where the
/// own address is not known. Its outcome is the health, and the reply says it. It opens
/// no connection and touches no owner.
pub proof fn law_test_polls_once(
    w: WorkerView,
    m: Moment,
    ours: CecLogicalAddress,
    later: Moment,
    e: String,
)
    requires
        w.phase is Idle,
    ensures
        ({
            let first = started(w, CecReq::Test);
            let polled = next(first.worker, m, Answer::Address(ours));
            let well = next(polled.worker, later, Answer::Sent(Ok(())));
            let badly = next(polled.worker, later, Answer::Sent(Err(e)));
            &&& first.call is OwnAddress
            &&& polled.call == CallView::Poll(
                if ours == CecLogicalAddress::Unknown {
                    CecLogicalAddress::Unregistered
                } else {
                    ours
                },
            )
            &&& well.worker.health.transmit is Working
            &&& badly.worker.health.transmit == cec::TransmitView::Failing(
                "cec-test poll failed: "@ + e@,
            )
            &&& well.call == CallView::Reply(cec::health_text(well.worker.health))
            &&& badly.call == CallView::Reply(cec::health_text(badly.worker.health))
            &&& well.owner is None && badly.owner is None
            &&& well.worker.last_reopen == w.last_reopen && badly.worker.last_reopen
                == w.last_reopen
        }),
{
}

/// The worker after the first `n` answers of a scan.
pub open spec fn scanned(w: WorkerView, m: Moment, answers: Seq<CecPowerStatus>, n: nat) -> StepView
    decreases n,
{
    if n == 0 {
        started(w, CecReq::Scan)
    } else {
        next(
            scanned(w, m, answers, (n - 1) as nat).worker,
            m,
            Answer::Status(answers[n - 1]),
        )
    }
}

/// What is said of the device with a number that answered so.
pub open spec fn device_said(n: int, ps: CecPowerStatus) -> Seq<char> {
    "{\"logicalAddress\":"@ + text::dec(n as nat) + ",\"powerStatus\":\""@ + cec::status_word(ps)
        + "\"}"@
}

/// Whether `found` says what the first `n` devices answered, in their order, and
/// leaves out those that did not.
pub open spec fn tells_of(found: Seq<Seq<char>>, answers: Seq<CecPowerStatus>, n: nat) -> bool
    decreases n,
{
    if n == 0 {
        found.len() == 0
    } else if answers[n - 1] == CecPowerStatus::Unknown {
        tells_of(found, answers, (n - 1) as nat)
    } else {
        found.len() > 0 && found.last() == device_said(n - 1, answers[n - 1]) && tells_of(
            found.drop_last(),
            answers,
            (n - 1) as nat,
        )
    }
}

proof fn lemma_scanned(w: WorkerView, m: Moment, answers: Seq<CecPowerStatus>, n: nat)
    requires
        w.phase is Idle,
        answers.len() == 16,
        n < 16,
    ensures
        ({
            let s = scanned(w, m, answers, n);
            &&& s.call matches CallView::PowerStatus(d) && cec::number_of(d) == n
            &&& s.events.len() == 0 && s.owner is None
            &&& s.worker.health == w.health && s.worker.last_reopen == w.last_reopen
            &&& s.worker.phase matches PhaseView::Scan { next, found } && next == n && tells_of(
                found,
                answers,
                n,
            )
        }),
    decreases n,
{
    if n > 0 {
        lemma_scanned(w, m, answers, (n - 1) as nat);
        cec::law_numbers_and_devices(n as int, CecLogicalAddress::Unknown);
        let before = scanned(w, m, answers, (n - 1) as nat).worker.phase->Scan_found;
        let s = scanned(w, m, answers, n);
        if answers[n - 1] != CecPowerStatus::Unknown {
            assert(s.worker.phase->Scan_found.drop_last() =~= before);
        }
    }
}

/// A scan asks all sixteen devices in the order of their numbers, tells of those that
/// answered, each with its number and its status, and replies with their list; that
/// some answered shows that transmits work. Where none did, a poll decides that, and
/// the list is empty.
pub proof fn law_scan_finds_who_answers(
    w: WorkerView,
    m: Moment,
    answers: Seq<CecPowerStatus>,
    n: nat,
    ours: CecLogicalAddress,
    e: String,
)
    requires
        w.phase is Idle,
        answers.len() == 16,
        n < 16,
    ensures
        scanned(w, m, answers, n).call matches CallView::PowerStatus(d) && cec::number_of(d) == n,
        ({
            let last = scanned(w, m, answers, 16);
            let silent = forall|i: int| 0 <= i < 16 ==> answers[i] == CecPowerStatus::Unknown;
            &&& !silent ==> exists|found: Seq<Seq<char>>|
                {
                    &&& #[trigger] tells_of(found, answers, 16)
                    &&& last.call == CallView::Reply("["@ + text::joined(found, ","@) + "]"@)
                    &&& last.worker.health.transmit is Working
                    &&& found.len() <= last.events.len()
                    &&& forall|i: int|
                        0 <= i < found.len() ==> last.events[i] == EventView::CecDevice(
                            #[trigger] found[i],
                        )
                }
            &&& silent ==> {
                let polled = next(last.worker, m, Answer::Address(ours));
                let well = next(polled.worker, m, Answer::Sent(Ok(())));
                let badly = next(polled.worker, m, Answer::Sent(Err(e)));
                &&& last.call is OwnAddress
                &&& last.events.len() == 0
                &&& polled.call is Poll
                &&& well.call == CallView::Reply("[]"@) && well.worker.health.transmit is Working
                &&& badly.call == CallView::Reply("[]"@) && badly.worker.health.transmit is Failing
            }
            &&& last.owner is None
        }),
{
    lemma_scanned(w, m, answers, n);
    lemma_scanned(w, m, answers, 15);
    let before = scanned(w, m, answers, 15);
    let last = scanned(w, m, answers, 16);
    let found = before.worker.phase->Scan_found;
    let all = if answers[15] == CecPowerStatus::Unknown {
        found
    } else {
        found.push(device_said(15, answers[15]))
    };
    if answers[15] != CecPowerStatus::Unknown {
        assert(all.drop_last() =~= found);
    }
    assert(tells_of(all, answers, 16));
    lemma_tells_of(all, answers, 16);
    if all.len() > 0 {
        assert(last.call == CallView::Reply("["@ + text::joined(all, ","@) + "]"@));
        assert forall|i: int| 0 <= i < all.len() implies last.events[i] == EventView::CecDevice(
            #[trigger] all[i],
        ) by {}
    }
}

proof fn lemma_tells_of(found: Seq<Seq<char>>, answers: Seq<CecPowerStatus>, n: nat)
    requires
        tells_of(found, answers, n),
        n <= answers.len(),
    ensures
        found.len() == 0 <==> forall|i: int| 0 <= i < n ==> answers[i] == CecPowerStatus::Unknown,
    decreases n,
{
    if n > 0 {
        if answers[n - 1] == CecPowerStatus::Unknown {
            lemma_tells_of(found, answers, (n - 1) as nat);
        } else {
            assert(answers[n - 1] != CecPowerStatus::Unknown);
        }
    }
}

/// What is told of the power of a device that was named so.
pub open spec fn power_told(number: Seq<char>, ps: CecPowerStatus) -> EventView {
    EventView::CecPower(
        "{\"logicalAddress\":"@ + crate::json::quoted(number) + ",\"powerStatus\":\""@
            + cec::status_word(ps) + "\"}"@,
    )
}

/// A wake that goes well wakes the receiver, then the TV, tells how each stands, waits a
/// second and a half and claims the display, unless another device is known to own it.
/// Only then is the reply `ok`, and the owner this machine.
pub proof fn law_wake_in_order(
    w: WorkerView,
    m: Moment,
    avr: CecPowerStatus,
    tv: CecPowerStatus,
    ours: CecLogicalAddress,
)
    requires
        w.phase is Idle,
    ensures
        ({
            let a = started(w, CecReq::WakeSequence);
            let b = next(a.worker, m, Answer::Sent(Ok(())));
            let c = next(b.worker, m, Answer::Status(avr));
            let d = next(c.worker, m, Answer::Sent(Ok(())));
            let e = next(d.worker, m, Answer::Status(tv));
            let f = next(e.worker, m, Answer::Slept);
            let g = next(f.worker, m, Answer::Address(ours));
            let h = next(g.worker, m, Answer::Sent(Ok(())));
            let owner = cec::owner_in(m.owner);
            let other = owner != CecLogicalAddress::Unknown && owner
                != CecLogicalAddress::Unregistered && owner != ours;
            &&& a.call == CallView::PowerOn(CecLogicalAddress::Audiosystem)
            &&& b.call == CallView::PowerStatus(CecLogicalAddress::Audiosystem)
            &&& c.call == CallView::PowerOn(CecLogicalAddress::Tv)
            &&& c.events == seq![power_told(text::dec(5), avr)]
            &&& d.call == CallView::PowerStatus(CecLogicalAddress::Tv)
            &&& e.call == CallView::Sleep(1_500)
            &&& e.events == seq![power_told(text::dec(0), tv)]
            &&& f.call is OwnAddress
            &&& !other ==> g.call is ActiveSource && h.call == CallView::Reply("ok"@) && h.owner
                == Some(cec::number_of(ours) as i32) && h.worker.health.transmit is Working
            &&& other ==> g.call == CallView::Reply("ok"@) && g.worker.health.transmit is Working
            &&& a.owner is None && b.owner is None && c.owner is None && d.owner is None
            &&& e.owner is None && f.owner is None && g.owner is None
        }),
{
    let a = started(w, CecReq::WakeSequence);
    let b = next(a.worker, m, Answer::Sent(Ok(())));
    let c = next(b.worker, m, Answer::Status(avr));
    let d = next(c.worker, m, Answer::Sent(Ok(())));
    let e = next(d.worker, m, Answer::Status(tv));
    assert(c.events =~= seq![power_told(text::dec(5), avr)]);
    assert(e.events =~= seq![power_told(text::dec(0), tv)]);
}

/// A standby on a display that this machine owns sends the TV, then the receiver, into
/// standby, tells how each stands, and replies `ok`.
pub proof fn law_standby_in_order(
    w: WorkerView,
    m: Moment,
    tv: CecPowerStatus,
    avr: CecPowerStatus,
    ours: CecLogicalAddress,
)
    requires
        w.phase is Idle,
        ours != CecLogicalAddress::Unknown,
        ours != CecLogicalAddress::Unregistered,
        cec::owner_in(m.owner) == ours,
    ensures
        ({
            let a = started(w, CecReq::StandbyAll);
            let b = next(a.worker, m, Answer::Address(ours));
            let c = next(b.worker, m, Answer::Sent(Ok(())));
            let d = next(c.worker, m, Answer::Status(tv));
            let e = next(d.worker, m, Answer::Sent(Ok(())));
            let f = next(e.worker, m, Answer::Status(avr));
            &&& a.call is OwnAddress
            &&& b.call == CallView::Standby(CecLogicalAddress::Tv)
            &&& c.call == CallView::PowerStatus(CecLogicalAddress::Tv)
            &&& d.call == CallView::Standby(CecLogicalAddress::Audiosystem)
            &&& d.events == seq![power_told(text::dec(0), tv)]
            &&& e.call == CallView::PowerStatus(CecLogicalAddress::Audiosystem)
            &&& f.call == CallView::Reply("ok"@)
            &&& f.events.len() >= 1 && f.events[0] == power_told(text::dec(5), avr)
            &&& f.worker.health.transmit is Working
            &&& a.owner is None && b.owner is None && c.owner is None && d.owner is None
            &&& e.owner is None && f.owner is None
        }),
{
    let a = started(w, CecReq::StandbyAll);
    let b = next(a.worker, m, Answer::Address(ours));
    let c = next(b.worker, m, Answer::Sent(Ok(())));
    let d = next(c.worker, m, Answer::Status(tv));
    assert(d.events =~= seq![power_told(text::dec(0), tv)]);
}

/// A sequence that fails says at which device, is repeated from its start on a new
/// connection, where one may be opened, and is given up where that fails too.
pub proof fn law_failed_sequences_are_repeated(
    w: WorkerView,
    m: Moment,
    e: String,
    later: Moment,
    e2: String,
)
    requires
        w.phase is Idle,
    ensures
        ({
            let first = started(w, CecReq::WakeSequence);
            let refused = next(first.worker, m, Answer::Sent(Err(e)));
            let again = next(refused.worker, later, Answer::Reopened(true));
            let gone = next(refused.worker, later, Answer::Reopened(false));
            let lost = next(again.worker, later, Answer::Sent(Err(e2)));
            let why = "wake power-on "@ + text::dec(5) + " failed: "@ + e@;
            let why2 = "wake power-on "@ + text::dec(5) + " failed: "@ + e2@;
            &&& rested(w, m.steady_ms) ==> {
                &&& refused.call is Reopen && refused.owner == Some(-1i32)
                &&& refused.worker.last_reopen == Some(m.steady_ms)
                &&& refused.worker.health == w.health
                &&& again.call == first.call
                &&& gone.call == CallView::Reply("error:"@ + why)
                &&& gone.worker.health.transmit == cec::TransmitView::Failing(why)
                &&& lost.call == CallView::Reply("error:"@ + why2)
                &&& lost.worker.health.transmit == cec::TransmitView::Failing(why2)
            }
            &&& !rested(w, m.steady_ms) ==> {
                &&& refused.call == CallView::Reply("error:"@ + why)
                &&& refused.worker.health.transmit == cec::TransmitView::Failing(why)
                &&& refused.owner is None
            }
        }),
{
}

/// A standby that fails at the TV says so and is repeated from its start, ownership
/// included: what is not owned any more is left alone, and the first failure counts.
pub proof fn law_failed_standby_is_repeated(
    w: WorkerView,
    m: Moment,
    ours: CecLogicalAddress,
    e: String,
    later: Moment,
)
    requires
        w.phase is Idle,
        ours != CecLogicalAddress::Unknown,
        ours != CecLogicalAddress::Unregistered,
        cec::owner_in(m.owner) == ours,
        cec::owner_in(later.owner) != ours,
        rested(w, m.steady_ms),
    ensures
        ({
            let first = started(w, CecReq::StandbyAll);
            let sent = next(first.worker, m, Answer::Address(ours));
            let refused = next(sent.worker, m, Answer::Sent(Err(e)));
            let again = next(refused.worker, later, Answer::Reopened(true));
            let left = next(again.worker, later, Answer::Address(ours));
            let back = next(again.worker, m, Answer::Address(ours));
            let why = "standby "@ + text::dec(0) + " failed: "@ + e@;
            &&& refused.call is Reopen && refused.owner == Some(-1i32)
            &&& again.call is OwnAddress
            &&& left.call == CallView::Reply("error:"@ + why)
            &&& left.worker.health.transmit == cec::TransmitView::Failing(why)
            &&& back.call == CallView::Standby(CecLogicalAddress::Tv)
        }),
{
}

/// A sequence whose second transmit, or whose claim, fails says at what.
pub proof fn law_late_failures_are_named(
    w: WorkerView,
    m: Moment,
    ps: CecPowerStatus,
    ours: CecLogicalAddress,
    e: String,
)
    requires
        w.phase is Idle,
        !rested(w, m.steady_ms),
        cec::owner_in(m.owner) == ours,
        ours != CecLogicalAddress::Unknown,
        ours != CecLogicalAddress::Unregistered,
    ensures
        ({
            let wake = next(
                next(
                    started(w, CecReq::WakeSequence).worker,
                    m,
                    Answer::Sent(Ok(())),
                ).worker,
                m,
                Answer::Status(ps),
            );
            let claim = next(
                next(
                    next(
                        next(wake.worker, m, Answer::Sent(Ok(()))).worker,
                        m,
                        Answer::Status(ps),
                    ).worker,
                    m,
                    Answer::Slept,
                ).worker,
                m,
                Answer::Address(ours),
            );
            let standby = next(
                next(
                    next(
                        started(w, CecReq::StandbyAll).worker,
                        m,
                        Answer::Address(ours),
                    ).worker,
                    m,
                    Answer::Sent(Ok(())),
                ).worker,
                m,
                Answer::Status(ps),
            );
            &&& next(wake.worker, m, Answer::Sent(Err(e))).call == CallView::Reply(
                "error:"@ + ("wake power-on "@ + text::dec(0) + " failed: "@ + e@),
            )
            &&& next(claim.worker, m, Answer::Sent(Err(e))).call == CallView::Reply(
                "error:"@ + ("wake active-source failed: "@ + e@),
            )
            &&& next(claim.worker, m, Answer::Sent(Err(e))).owner is None
            &&& next(standby.worker, m, Answer::Sent(Err(e))).call == CallView::Reply(
                "error:"@ + ("standby "@ + text::dec(5) + " failed: "@ + e@),
            )
        }),
{
}

/// What runs when the connection is opened wakes as a request does, but counts for
/// nothing, replies nothing and opens no other connection, however it ends.
pub proof fn law_startup_is_silent(w: WorkerView, m: Moment, e: String, ours: CecLogicalAddress)
    requires
        w.phase is Idle,
    ensures
        ({
            let first = begun(w, Sequence::Wake, OriginView::Startup);
            let refused = next(first.worker, m, Answer::Sent(Err(e)));
            &&& first.call == CallView::PowerOn(CecLogicalAddress::Audiosystem)
            &&& refused.call is Done
            &&& refused.worker == w
            &&& refused.events.len() == 0
            &&& refused.owner is None
        }),
        ({
            let at = WorkerView {
                phase: PhaseView::Lifecycle {
                    seq: Sequence::Wake,
                    origin: OriginView::Startup,
                    stage: Stage::Claim(ours),
                },
                ..w
            };
            let done = next(at, m, Answer::Sent(Ok(())));
            let refused = next(at, m, Answer::Sent(Err(e)));
            &&& done.call is Done && done.worker == w && done.owner == Some(
                cec::number_of(ours) as i32,
            )
            &&& refused.call is Done && refused.worker == w && refused.owner is None
        }),
{
}

/// What listeners hear of a turn is the health that it turned to.
pub proof fn law_turns_tell_the_health(w: WorkerView, m: Moment, a: Answer, i: int)
    requires
        sound(w.phase),
        fits(w.phase, a),
        0 <= i < next(w, m, a).events.len(),
        next(w, m, a).events[i] is CecHealth,
    ensures
        next(w, m, a).events[i] == EventView::CecHealth(
            cec::health_text(next(w, m, a).worker.health),
        ),
{
}

/// A transmit that goes well at the second attempt counts as one that went well at the first:
/// transmits work, and the status of the device, or the own address, is asked for.
pub proof fn law_second_attempts_count(
    w: WorkerView,
    addr: String,
    n: int,
    req: CecReq,
    m: Moment,
    e: String,
    later: Moment,
)
    requires
        w.phase is Idle,
        text::parsed_int(addr@) == Some(n),
        0 <= n <= 15,
        req == (CecReq::PowerOn { addr }) || req == (CecReq::PowerOff { addr }) || req
            == CecReq::ActiveSource,
        rested(w, m.steady_ms),
    ensures
        ({
            let refused = next(started(w, req).worker, m, Answer::Sent(Err(e)));
            let again = next(refused.worker, later, Answer::Reopened(true));
            let well = next(again.worker, later, Answer::Sent(Ok(())));
            &&& req == CecReq::ActiveSource ==> well.call is OwnAddress
            &&& req != CecReq::ActiveSource ==> (well.call matches CallView::PowerStatus(d)
                && cec::number_of(d) == n)
            &&& well.worker.health.transmit is Working
            &&& well.owner is None
        }),
{
    cec::law_devices_are_named_by_number(cec::addressed(addr@)->0, n as nat, addr@);
}

/// A sequence that comes to its end on a new connection is replied and counts as one that came
/// to its end at once.
pub proof fn law_repeated_sequences_end(
    w: WorkerView,
    m: Moment,
    ours: CecLogicalAddress,
    first: Seq<char>,
    e: String,
    ps: CecPowerStatus,
)
    ensures
        ({
            let claim = WorkerView {
                phase: PhaseView::Lifecycle {
                    seq: Sequence::Wake,
                    origin: OriginView::Retry(first),
                    stage: Stage::Claim(ours),
                },
                ..w
            };
            let last = WorkerView {
                phase: PhaseView::Lifecycle {
                    seq: Sequence::Standby,
                    origin: OriginView::Retry(first),
                    stage: Stage::StatusSecond,
                },
                ..w
            };
            let well = next(claim, m, Answer::Sent(Ok(())));
            let badly = next(claim, m, Answer::Sent(Err(e)));
            let done = next(last, m, Answer::Status(ps));
            &&& well.call == CallView::Reply("ok"@) && well.worker.health.transmit is Working
                && well.owner == Some(cec::number_of(ours) as i32)
            &&& badly.call == CallView::Reply("error:"@ + ("wake active-source failed: "@ + e@))
                && badly.worker.health.transmit is Failing && badly.owner is None
            &&& done.call == CallView::Reply("ok"@) && done.worker.health.transmit is Working
                && done.owner is None
        }),
{
}

} // verus!
