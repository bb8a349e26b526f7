use tv_shell::cec::{
    cec_device_json, cec_power_json, cec_unavailable_json, host_name, key_to_inject,
    lifecycle_enabled, logical_from_i32, logical_to_i32, observe_command, open_failure_reason,
    osd_device_name, parse_address, CecConfig, CecConnectionResultError, CecHealthState,
    CecLogicalAddress, CecOpcode, CecPowerStatus, CecUserControlCode, OWNER_UNSEEN,
    REOPEN_COOLDOWN_MS, WAKE_ACTIVE_SOURCE_DELAY_MS,
};
use tv_shell::cec_worker::{
    forward_failure, let_through, reopen_allowed, unavailable_reply, wakes_on_open, Answer, Call,
    CecReq, Event, ForwardFailure, Moment, Step, Worker,
};

const OURS: CecLogicalAddress = CecLogicalAddress::Playbackdevice1;

/// A bus with a clock, and what happened on it.
struct Bus {
    statuses: Vec<CecPowerStatus>,
    failing: bool,
    reopens: bool,
    address: CecLogicalAddress,
    owner: i32,
    clock: u64,
    calls: Vec<Call>,
    events: Vec<Event>,
}

fn bus() -> Bus {
    Bus {
        statuses: vec![CecPowerStatus::Unknown; 16],
        failing: false,
        reopens: true,
        address: OURS,
        owner: OWNER_UNSEEN,
        clock: 1_000_000,
        calls: vec![],
        events: vec![],
    }
}

impl Bus {
    fn transmit(&self) -> Result<(), String> {
        if self.failing {
            Err("TransmitFailed".to_string())
        } else {
            Ok(())
        }
    }

    fn run(&mut self, mut step: Step) -> (Worker, Option<String>) {
        loop {
            self.events.append(&mut step.events);
            if let Some(owner) = step.owner {
                self.owner = owner;
            }
            self.calls.push(step.call.clone());
            let answer = match step.call {
                Call::PowerStatus(a) => {
                    Answer::Status(self.statuses[logical_to_i32(a) as usize])
                }
                Call::PowerOn(_) | Call::Standby(_) | Call::ActiveSource | Call::Poll(_) => {
                    Answer::Sent(self.transmit())
                }
                Call::OwnAddress => Answer::Address(self.address),
                Call::Reopen => {
                    if self.reopens {
                        self.failing = false;
                    }
                    Answer::Reopened(self.reopens)
                }
                Call::Sleep(ms) => {
                    self.clock += ms;
                    Answer::Slept
                }
                Call::Reply(reply) => return (step.worker, Some(reply)),
                Call::Done => return (step.worker, None),
            };
            let moment = Moment {
                wall_ms: self.clock,
                steady_ms: self.clock,
                owner: self.owner,
            };
            step = step.worker.step(moment, answer);
        }
    }

    fn ask(&mut self, worker: Worker, req: CecReq) -> (Worker, String) {
        self.calls.clear();
        self.events.clear();
        let (worker, reply) = self.run(worker.start(req));
        (worker, reply.expect("a request has a reply"))
    }
}

fn power_on(addr: &str) -> CecReq {
    CecReq::PowerOn { addr: addr.to_string() }
}

#[test]
fn a_scan_lists_the_devices_that_answer() {
    let mut b = bus();
    b.statuses[0] = CecPowerStatus::On;
    b.statuses[5] = CecPowerStatus::Standby;
    let (w, reply) = b.ask(Worker::new(5), CecReq::Scan);
    assert_eq!(
        reply,
        "[{\"logicalAddress\":0,\"powerStatus\":\"on\"},{\"logicalAddress\":5,\"powerStatus\":\"standby\"}]"
    );
    assert_eq!(b.calls.len(), 17);
    assert_eq!(
        b.events,
        [
            Event::CecDevice("{\"logicalAddress\":0,\"powerStatus\":\"on\"}".to_string()),
            Event::CecDevice("{\"logicalAddress\":5,\"powerStatus\":\"standby\"}".to_string()),
            Event::CecHealth("{\"lastError\":null,\"since\":1000000,\"transmit\":\"ok\"}".to_string()),
        ]
    );
    let (_, again) = b.ask(w, CecReq::Scan);
    assert_eq!(again, reply);
    assert_eq!(b.events.len(), 2);
}

#[test]
fn an_empty_scan_polls_the_tv() {
    let mut b = bus();
    b.address = CecLogicalAddress::Unknown;
    b.failing = true;
    let (w, reply) = b.ask(Worker::new(5), CecReq::Scan);
    assert_eq!(reply, "[]");
    assert!(b.calls.contains(&Call::Poll(CecLogicalAddress::Unregistered)));
    assert!(!b.calls.contains(&Call::Reopen));
    let (_, health) = b.ask(w, CecReq::Health);
    assert_eq!(
        health,
        "{\"lastError\":\"cec-test poll failed: TransmitFailed\",\"since\":1000000,\"transmit\":\"failing\"}"
    );
    assert_eq!(b.calls.len(), 1);
}

#[test]
fn one_device_is_looked_up() {
    let mut b = bus();
    b.statuses[4] = CecPowerStatus::InTransitionStandbyToOn;
    let mut look = |addr: &str| {
        b.ask(Worker::new(0), CecReq::Device { addr: addr.to_string() }).1
    };
    assert_eq!(look("4"), "{\"logicalAddress\":4,\"powerStatus\":\"waking\"}");
    assert_eq!(look("+4"), "{\"logicalAddress\":4,\"powerStatus\":\"waking\"}");
    assert_eq!(look("3"), "error:no device at address 3");
    assert_eq!(look("16"), "error:invalid address 16");
    assert_eq!(look("tv"), "error:invalid address tv");
}

#[test]
fn a_transmit_tells_the_power_it_leads_to() {
    let mut b = bus();
    b.statuses[0] = CecPowerStatus::On;
    let (w, reply) = b.ask(Worker::new(0), power_on("0"));
    assert_eq!(reply, "ok");
    assert_eq!(
        b.events,
        [
            Event::CecHealth("{\"lastError\":null,\"since\":1000000,\"transmit\":\"ok\"}".to_string()),
            Event::CecPower("{\"logicalAddress\":\"0\",\"powerStatus\":\"on\"}".to_string()),
        ]
    );
    let (_, reply) = b.ask(w, CecReq::PowerOff { addr: "99".to_string() });
    assert_eq!(reply, "error:invalid address 99");
}

#[test]
fn a_failed_transmit_is_tried_again_on_a_new_connection() {
    let mut b = bus();
    b.failing = true;
    let (w, reply) = b.ask(Worker::new(0), CecReq::ActiveSource);
    assert_eq!(reply, "ok");
    assert_eq!(
        b.calls,
        [
            Call::ActiveSource,
            Call::Reopen,
            Call::ActiveSource,
            Call::OwnAddress,
            Call::Reply("ok".to_string()),
        ]
    );
    assert_eq!(b.owner, logical_to_i32(OURS));
    b.failing = true;
    let (w, reply) = b.ask(w, CecReq::ActiveSource);
    assert_eq!(reply, "error:active-source failed: TransmitFailed");
    assert!(!b.calls.contains(&Call::Reopen));
    b.clock += REOPEN_COOLDOWN_MS;
    b.reopens = false;
    let (_, reply) = b.ask(w, power_on("5"));
    assert_eq!(reply, "error:power-on failed: TransmitFailed");
    assert!(b.calls.contains(&Call::Reopen));
}

#[test]
fn recoveries_keep_their_distance() {
    let mut last = None;
    assert!(reopen_allowed(&mut last, 100));
    assert_eq!(last, Some(100));
    assert!(!reopen_allowed(&mut last, 99 + REOPEN_COOLDOWN_MS));
    assert_eq!(last, Some(100));
    assert!(reopen_allowed(&mut last, 100 + REOPEN_COOLDOWN_MS));
    assert_eq!(last, Some(100 + REOPEN_COOLDOWN_MS));
}

#[test]
fn standby_needs_the_display() {
    for owner in [OWNER_UNSEEN, 0, 15] {
        let mut b = bus();
        b.owner = owner;
        let (w, reply) = b.ask(Worker::new(7), CecReq::StandbyAll);
        assert_eq!(reply, "ok");
        assert_eq!(b.calls, [Call::OwnAddress, Call::Reply("ok".to_string())]);
        assert!(b.events.is_empty());
        assert_eq!(w, Worker::new(7));
    }
    let mut b = bus();
    b.owner = logical_to_i32(OURS);
    let (_, reply) = b.ask(Worker::new(7), CecReq::StandbyAll);
    assert_eq!(reply, "ok");
    assert_eq!(
        b.calls,
        [
            Call::OwnAddress,
            Call::Standby(CecLogicalAddress::Tv),
            Call::PowerStatus(CecLogicalAddress::Tv),
            Call::Standby(CecLogicalAddress::Audiosystem),
            Call::PowerStatus(CecLogicalAddress::Audiosystem),
            Call::Reply("ok".to_string()),
        ]
    );
}

#[test]
fn waking_claims_a_display_that_nobody_holds() {
    let mut b = bus();
    let (_, reply) = b.ask(Worker::new(7), CecReq::WakeSequence);
    assert_eq!(reply, "ok");
    assert_eq!(
        b.calls,
        [
            Call::PowerOn(CecLogicalAddress::Audiosystem),
            Call::PowerStatus(CecLogicalAddress::Audiosystem),
            Call::PowerOn(CecLogicalAddress::Tv),
            Call::PowerStatus(CecLogicalAddress::Tv),
            Call::Sleep(WAKE_ACTIVE_SOURCE_DELAY_MS),
            Call::OwnAddress,
            Call::ActiveSource,
            Call::Reply("ok".to_string()),
        ]
    );
    assert_eq!(b.owner, logical_to_i32(OURS));
    let mut b = bus();
    b.owner = 0;
    let (_, reply) = b.ask(Worker::new(7), CecReq::WakeSequence);
    assert_eq!(reply, "ok");
    assert!(!b.calls.contains(&Call::ActiveSource));
    assert_eq!(b.owner, 0);
}

#[test]
fn a_reopened_standby_does_not_hide_its_failure() {
    let mut b = bus();
    b.owner = logical_to_i32(OURS);
    b.failing = true;
    let (_, reply) = b.ask(Worker::new(7), CecReq::StandbyAll);
    assert_eq!(reply, "error:standby 0 failed: TransmitFailed");
    assert_eq!(b.owner, OWNER_UNSEEN);
    assert_eq!(
        b.events,
        [Event::CecHealth(
            "{\"lastError\":\"standby 0 failed: TransmitFailed\",\"since\":1000000,\"transmit\":\"failing\"}"
                .to_string()
        )]
    );
}

#[test]
fn waking_on_open_has_no_reply() {
    let mut b = bus();
    let (w, reply) = b.run(Worker::new(7).wake_on_open());
    assert_eq!(reply, None);
    assert_eq!(w, Worker::new(7));
    b.failing = true;
    b.calls.clear();
    let (_, reply) = b.run(w.wake_on_open());
    assert_eq!(reply, None);
    assert_eq!(b.calls, [Call::PowerOn(CecLogicalAddress::Audiosystem), Call::Done]);
}

#[test]
fn health_turns_are_told_once() {
    let mut b = bus();
    let (w, reply) = b.ask(Worker::new(7), CecReq::Test);
    assert_eq!(reply, "{\"lastError\":null,\"since\":1000000,\"transmit\":\"ok\"}");
    assert_eq!(b.events.len(), 1);
    b.clock += 1;
    let (_, reply) = b.ask(w, CecReq::Test);
    assert_eq!(reply, "{\"lastError\":null,\"since\":1000000,\"transmit\":\"ok\"}");
    assert!(b.events.is_empty());
    let mut h = CecHealthState::new(1);
    assert_eq!(h.to_json(), "{\"lastError\":null,\"since\":1,\"transmit\":\"unknown\"}");
    assert!(h.record_failure("a \"b\"", 2));
    assert!(!h.record_failure("c", 3));
    assert_eq!(h.to_json(), "{\"lastError\":\"c\",\"since\":2,\"transmit\":\"failing\"}");
    assert!(h.record_success(4));
    assert!(!h.record_success(5));
}

#[test]
fn requests_without_a_worker_are_answered() {
    assert_eq!(unavailable_reply(&CecReq::Scan, "no_adapter", 9), "error:libcec unavailable");
    for req in [CecReq::Health, CecReq::Test] {
        assert_eq!(
            unavailable_reply(&req, "no_adapter", 9),
            "{\"lastError\":null,\"reason\":\"no_adapter\",\"since\":9,\"transmit\":\"unavailable\"}"
        );
    }
    for (failure, reply) in [
        (ForwardFailure::QueueFull, "error:cec busy"),
        (ForwardFailure::WorkerGone, "error:cec worker unavailable"),
        (ForwardFailure::ReplyDropped, "error:cec worker dropped reply"),
        (ForwardFailure::TaskFailed, "error:cec worker task failed"),
        (ForwardFailure::TimedOut, "error:cec timeout (adapter busy)"),
    ] {
        assert_eq!(forward_failure(failure), reply);
    }
}

#[test]
fn sequences_are_let_through_where_they_are_wanted() {
    for (lifecycle, focus, wake, standby) in [
        (true, true, true, true),
        (true, false, false, true),
        (false, true, false, false),
        (false, false, false, false),
    ] {
        assert_eq!(let_through(CecReq::WakeSequence, lifecycle, focus).is_some(), wake);
        assert_eq!(let_through(CecReq::StandbyAll, lifecycle, focus).is_some(), standby);
        assert_eq!(let_through(CecReq::Scan, lifecycle, focus), Some(CecReq::Scan));
        assert_eq!(wakes_on_open(lifecycle, focus), lifecycle && focus);
    }
}

#[test]
fn numbers_and_devices_belong_together() {
    for n in 0..16 {
        assert_eq!(logical_to_i32(logical_from_i32(n).unwrap()), n);
    }
    assert_eq!(logical_to_i32(CecLogicalAddress::Unknown), OWNER_UNSEEN);
    assert_eq!(parse_address("05"), Some(CecLogicalAddress::Audiosystem));
    assert_eq!(parse_address(" 5"), None);
    assert_eq!(parse_address("-1"), None);
}

#[test]
fn received_commands_move_the_owner() {
    let mut cell = 3;
    observe_command(&mut cell, false, CecOpcode::ActiveSource, OURS);
    assert_eq!(cell, 3);
    observe_command(&mut cell, true, CecOpcode::Standby, OURS);
    assert_eq!(cell, 3);
    observe_command(&mut cell, true, CecOpcode::ActiveSource, OURS);
    assert_eq!(cell, 4);
    observe_command(&mut cell, true, CecOpcode::InactiveSource, CecLogicalAddress::Tv);
    assert_eq!(cell, OWNER_UNSEEN);
}

#[test]
fn keys_are_injected_when_they_go_down() {
    assert_eq!(key_to_inject(CecUserControlCode::Exit, 0), Some("back"));
    assert_eq!(key_to_inject(CecUserControlCode::Exit, 120), None);
    assert_eq!(key_to_inject(CecUserControlCode::Play, 0), None);
}

#[test]
fn names_and_reasons() {
    let cfg = CecConfig { lifecycle: true, osd_name: None };
    assert!(lifecycle_enabled(&cfg));
    assert_eq!(osd_device_name(&cfg, Some("htpc")), "htpc");
    assert_eq!(osd_device_name(&cfg, None), "tv-shell");
    let named = CecConfig { lifecycle: false, osd_name: Some("TV box".to_string()) };
    assert_eq!(osd_device_name(&named, Some("htpc")), "TV box");
    assert_eq!(host_name(" htpc \n").as_deref(), Some("htpc"));
    assert_eq!(host_name(" "), None);
    assert_eq!(open_failure_reason(&CecConnectionResultError::NoAdapterFound), "no_adapter");
    assert_eq!(
        open_failure_reason(&CecConnectionResultError::LibInitFailed),
        "adapter_open_failed"
    );
    assert_eq!(cec_device_json(5, CecPowerStatus::On), "{\"logicalAddress\":5,\"powerStatus\":\"on\"}");
    assert_eq!(
        cec_power_json("\"", CecPowerStatus::Standby),
        "{\"logicalAddress\":\"\\\"\",\"powerStatus\":\"standby\"}"
    );
    assert_eq!(
        cec_unavailable_json("x", 1),
        "{\"lastError\":null,\"reason\":\"x\",\"since\":1,\"transmit\":\"unavailable\"}"
    );
}
