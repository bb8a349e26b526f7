use std::collections::BTreeSet;
use tv_shell::capabilities::{
    feature_set, handshake, handshake_step, nav, Capabilities, CapabilitySnapshot, Chrome, Feature,
    Gate, HandshakeReply, HandshakeStep, ATTEMPTS, ATTEMPT_TIMEOUT_MS, RETRY_DELAY_MS,
};

fn answered() -> HandshakeReply {
    HandshakeReply::Answered(Capabilities {
        node_id: "htpc-1".to_string(),
        features: vec![Feature::Cec],
    })
}

#[test]
fn handshake_retries_an_unreachable_node_within_its_window() {
    let (snap, calls) = handshake(vec![
        HandshakeReply::Unreachable,
        HandshakeReply::Unreachable,
        answered(),
    ]);
    assert!(snap.handshake_ok, "the third attempt answered");
    assert!(snap.allows(Gate::Cec));
    assert_eq!(calls, 3);
}

#[test]
fn handshake_gives_up_and_falls_back_to_recovery_only() {
    let mut elapsed: u64 = 0;
    let mut attempt: u64 = 1;
    let snap = loop {
        elapsed += ATTEMPT_TIMEOUT_MS;
        match handshake_step(attempt, HandshakeReply::TimedOut) {
            HandshakeStep::Settled(snap) => break snap,
            HandshakeStep::Again { attempt: next, after_ms } => {
                attempt = next;
                elapsed += after_ms;
            }
        }
    };
    assert!(!snap.handshake_ok);
    assert!(snap.features.is_empty(), "must not fail open");
    assert!(snap.allows(Gate::Recovery));
    assert!(!snap.allows(Gate::Node));

    let ceiling = ATTEMPT_TIMEOUT_MS * ATTEMPTS + RETRY_DELAY_MS * (ATTEMPTS - 1);
    assert!(
        elapsed <= ceiling,
        "handshake ran {elapsed:?}, past its own {ceiling:?} bound"
    );
}

#[test]
fn handshake_does_not_retry_a_node_that_refused() {
    let (snap, calls) = handshake(vec![HandshakeReply::Refused, answered()]);
    assert!(!snap.handshake_ok);
    assert_eq!(calls, 1, "a refusal is an answer — do not retry it");
}

fn snapshot(features: &[Feature]) -> CapabilitySnapshot {
    CapabilitySnapshot {
        handshake_ok: true,
        node_id: "htpc-1".to_string(),
        features: feature_set(features.to_vec()),
    }
}

#[test]
fn gates_are_exhaustive_and_idents_are_unique() {
    let idents: BTreeSet<&str> = Gate::ALL.iter().map(|g| g.ident()).collect();
    assert_eq!(idents.len(), Gate::ALL.len(), "duplicate Gate::ident()");
    for gate in &Gate::ALL {
        let round = Gate::ALL
            .iter()
            .find(|g| g.ident() == gate.ident())
            .copied()
            .expect("every gate resolves from its own ident");
        assert_eq!(round, *gate);
    }
    assert_eq!(Gate::ALL.len(), 9, "a Gate variant was added or removed");
}

#[test]
fn no_gate_names_a_feature_the_daemon_never_emits() {
    let never = [
        Feature::Wallpapers,
        Feature::Processes,
        Feature::SystemUpdates,
        Feature::SteamLibrary,
        Feature::GameLaunch,
    ];
    for gate in &Gate::ALL {
        if let Some(f) = gate.feature() {
            assert!(
                !never.contains(&f),
                "Gate::{} gates on {:?}, which daemon/src/ipc.rs::features() \
                 never emits — the routes behind it would vanish from a live node",
                gate.ident(),
                f
            );
        }
    }
}

#[test]
fn recovery_is_allowed_even_with_no_handshake() {
    let down = CapabilitySnapshot::unreachable();
    assert!(down.allows(Gate::Recovery));
    assert!(!down.allows(Gate::Node));
    for gate in &Gate::ALL {
        if gate.feature().is_some() {
            assert!(
                !down.allows(*gate),
                "Gate::{} must fail closed",
                gate.ident()
            );
        }
    }
}

#[test]
fn features_without_a_handshake_ungate_nothing() {
    let lying = CapabilitySnapshot {
        handshake_ok: false,
        node_id: String::new(),
        features: vec![Feature::Cec, Feature::Widgets],
    };
    assert!(!lying.allows(Gate::Cec));
    assert!(!lying.allows(Gate::Widgets));
    assert!(lying.allows(Gate::Recovery));
}

#[test]
fn a_declared_feature_opens_exactly_its_own_gate() {
    let caps = snapshot(&[Feature::Cec]);
    assert!(caps.allows(Gate::Cec));
    assert!(caps.allows(Gate::Node));
    assert!(!caps.allows(Gate::Controllers));
    assert!(!caps.allows(Gate::Widgets));
}

#[test]
fn an_unknown_feature_opens_no_gate() {
    let caps = snapshot(&[Feature::from("quantum_tunnel".to_string())]);
    for gate in &Gate::ALL {
        if gate.feature().is_some() {
            assert!(!caps.allows(*gate));
        }
    }
    assert!(caps.allows(Gate::Node), "the node still answered");
    assert_eq!(caps.feature_list(), "quantum_tunnel");
}

#[test]
fn feature_list_is_stable_and_wire_named() {
    let caps = snapshot(&[Feature::Widgets, Feature::Cec, Feature::WebApps]);
    assert_eq!(caps.feature_list(), "cec,widgets,web_apps");
}

#[test]
fn nav_hides_every_link_whose_page_is_not_registered() {
    let down = Chrome::new(&CapabilitySnapshot::unreachable(), "dashboard");
    let hrefs: Vec<&str> = down.nav.iter().map(|i| i.href).collect();
    assert_eq!(hrefs, vec!["/", "/processes", "/media", "/dev", "/logs"]);
    assert!(down.recovery_mode);
}

#[test]
fn nav_shows_every_link_the_full_set_supports() {
    let caps = snapshot(&[
        Feature::Cec,
        Feature::Controllers,
        Feature::Widgets,
        Feature::SettingsStore,
        Feature::WebApps,
        Feature::Screenshot,
        Feature::DevDeploy,
    ]);
    let chrome = Chrome::new(&caps, "cec");
    assert_eq!(chrome.nav.len(), nav().len());
    assert!(!chrome.recovery_mode);
    assert_eq!(chrome.active, "cec");
}

#[test]
fn nav_keys_and_hrefs_are_unique() {
    let items = nav();
    let keys: BTreeSet<&str> = items.iter().map(|i| i.key).collect();
    let hrefs: BTreeSet<&str> = items.iter().map(|i| i.href).collect();
    assert_eq!(keys.len(), nav().len());
    assert_eq!(hrefs.len(), nav().len());
}

#[test]
fn a_capabilities_reply_becomes_a_successful_snapshot() {
    let caps = Capabilities {
        node_id: "htpc-1".to_string(),
        features: vec![Feature::Cec],
    };
    let snap: CapabilitySnapshot = caps.into();
    assert!(snap.handshake_ok);
    assert_eq!(snap.node_id, "htpc-1");
    assert!(snap.allows(Gate::Cec));
}

#[test]
fn names_read_back_as_features() {
    for name in ["cec", "web_apps", "dev_deploy", "quantum_tunnel", ""] {
        assert_eq!(Feature::from(name.to_string()).as_str(), name);
    }
    assert_eq!(Feature::from("cec".to_string()), Feature::Cec);
}

#[test]
fn a_full_handshake_asks_four_times() {
    let silent = || HandshakeReply::Unreachable;
    let (snap, calls) =
        handshake(vec![silent(), silent(), silent(), HandshakeReply::TimedOut, answered()]);
    assert!(!snap.handshake_ok);
    assert_eq!(calls, 4);
    assert_eq!(
        handshake_step(1, silent()),
        HandshakeStep::Again { attempt: 2, after_ms: RETRY_DELAY_MS }
    );
}

#[test]
fn the_same_features_are_listed_alike() {
    let unknown = |s: &str| Feature::Unknown(s.to_string());
    let a = snapshot(&[unknown("zeta"), Feature::Logs, unknown("alpha"), Feature::Cec]);
    let b = snapshot(&[
        Feature::Cec,
        unknown("alpha"),
        Feature::Cec,
        Feature::Logs,
        unknown("zeta"),
        unknown("alpha"),
    ]);
    assert_eq!(a.features, b.features);
    assert_eq!(a.feature_list(), "cec,logs,alpha,zeta");
    assert_eq!(a.feature_list(), b.feature_list());
}

#[test]
fn a_handshake_is_over_in_its_window() {
    let mut spent = 0;
    let mut attempt = 1;
    loop {
        spent += ATTEMPT_TIMEOUT_MS;
        match handshake_step(attempt, HandshakeReply::TimedOut) {
            HandshakeStep::Again { attempt: next, after_ms } => {
                attempt = next;
                spent += after_ms;
            }
            HandshakeStep::Settled(snap) => {
                assert!(!snap.handshake_ok);
                break;
            }
        }
    }
    assert_eq!(spent, 9_300);
}
