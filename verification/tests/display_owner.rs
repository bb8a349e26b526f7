use tv_shell::display_owner::{
    classify, is_addressable, status, DisplayOwner, DisplayOwnerStatus, Ownership, Snapshot,
    Transition, OWNER_UNSEEN, UNREGISTERED_ADDRESS,
};
use tv_shell::json::text_json;

const TV: i32 = 0;
const AVR: i32 = 5;
const PLAYBACK1: i32 = 4;

#[test]
fn is_addressable_excludes_unseen_and_unregistered() {
    let cases: [(i32, bool); 8] = [
        (OWNER_UNSEEN, false),
        (-2, false),
        (TV, true),
        (PLAYBACK1, true),
        (AVR, true),
        (14, true), // Freeuse — a real slot
        (UNREGISTERED_ADDRESS, false),
        (16, false), // off the wire entirely
    ];
    for (addr, want) in cases {
        assert_eq!(is_addressable(addr), want, "is_addressable({addr})");
    }
}

#[test]
fn classify_requires_proof_in_both_directions() {
    let cases: [(i32, i32, Ownership); 10] = [
        (PLAYBACK1, PLAYBACK1, Ownership::OwnedByUs),
        (TV, TV, Ownership::OwnedByUs),
        (TV, PLAYBACK1, Ownership::OwnedByOther),
        (AVR, PLAYBACK1, Ownership::OwnedByOther),
        (PLAYBACK1, AVR, Ownership::OwnedByOther),
        (OWNER_UNSEEN, PLAYBACK1, Ownership::Unknown),
        (UNREGISTERED_ADDRESS, PLAYBACK1, Ownership::Unknown),
        (PLAYBACK1, OWNER_UNSEEN, Ownership::Unknown),
        (PLAYBACK1, UNREGISTERED_ADDRESS, Ownership::Unknown),
        (OWNER_UNSEEN, OWNER_UNSEEN, Ownership::Unknown),
    ];
    for (owner, ours, want) in cases {
        assert_eq!(classify(owner, ours), want, "classify({owner}, {ours})");
    }
}

#[test]
fn observe_stamps_only_real_changes() {
    let mut cell = DisplayOwner::new();
    assert_eq!(cell.owner(), OWNER_UNSEEN);

    assert_eq!(
        cell.observe(PLAYBACK1, 1_000),
        Some(Transition {
            previous: OWNER_UNSEEN,
            current: PLAYBACK1
        })
    );
    assert_eq!(cell.snapshot().changed_unix, 1_000);

    assert_eq!(cell.observe(PLAYBACK1, 1_050), None);
    assert_eq!(cell.snapshot().changed_unix, 1_000);

    assert_eq!(
        cell.observe(TV, 1_060),
        Some(Transition {
            previous: PLAYBACK1,
            current: TV
        })
    );
    assert_eq!(cell.snapshot().changed_unix, 1_060);
}

#[test]
fn ever_observed_tracks_bus_traffic_not_our_own_claims() {
    let mut local_only = DisplayOwner::new();
    local_only.record_local(PLAYBACK1, 1_000);
    let snap = local_only.snapshot();
    assert!(!snap.ever_observed);
    assert_eq!(snap.owner, PLAYBACK1);
    assert_eq!(snap.changed_unix, 1_000);

    let mut from_bus = DisplayOwner::new();
    from_bus.observe(TV, 1_000);
    assert!(from_bus.snapshot().ever_observed);
    from_bus.record_local(OWNER_UNSEEN, 1_200);
    let after_reset = from_bus.snapshot();
    assert!(after_reset.ever_observed);
    assert_eq!(after_reset.owner, OWNER_UNSEEN);
    assert_eq!(after_reset.changed_unix, 1_200);
    assert_eq!(
        classify(after_reset.owner, after_reset.ours),
        Ownership::Unknown
    );
}

#[test]
fn set_ours_is_not_an_ownership_change() {
    let mut cell = DisplayOwner::new();
    cell.observe(PLAYBACK1, 1_000);
    cell.set_ours(PLAYBACK1);
    let snap = cell.snapshot();
    assert_eq!(snap.changed_unix, 1_000, "set_ours must not restamp");
    assert_eq!(classify(snap.owner, snap.ours), Ownership::OwnedByUs);
}

#[test]
fn status_truth_table() {
    let cases: [(Snapshot, u64, DisplayOwnerStatus); 5] = [
        (
            Snapshot::default(),
            1_000,
            DisplayOwnerStatus {
                cec_display_ownership: Ownership::Unknown,
                cec_display_owner: None,
                cec_local_address: None,
                cec_display_owner_changed_unix: None,
                cec_display_owner_held_seconds: None,
                cec_display_owner_ever_observed: false,
                cec_display_owner_tracking: false,
            },
        ),
        (
            Snapshot {
                owner: OWNER_UNSEEN,
                ours: PLAYBACK1,
                changed_unix: 0,
                ever_observed: false,
                tracking_active: true,
            },
            1_000,
            DisplayOwnerStatus {
                cec_display_ownership: Ownership::Unknown,
                cec_display_owner: None,
                cec_local_address: Some(PLAYBACK1),
                cec_display_owner_changed_unix: None,
                cec_display_owner_held_seconds: None,
                cec_display_owner_ever_observed: false,
                cec_display_owner_tracking: true,
            },
        ),
        (
            Snapshot {
                owner: TV,
                ours: PLAYBACK1,
                changed_unix: 1_000,
                ever_observed: true,
                tracking_active: true,
            },
            1_042,
            DisplayOwnerStatus {
                cec_display_ownership: Ownership::OwnedByOther,
                cec_display_owner: Some(TV),
                cec_local_address: Some(PLAYBACK1),
                cec_display_owner_changed_unix: Some(1_000),
                cec_display_owner_held_seconds: Some(42),
                cec_display_owner_ever_observed: true,
                cec_display_owner_tracking: true,
            },
        ),
        (
            Snapshot {
                owner: PLAYBACK1,
                ours: PLAYBACK1,
                changed_unix: 1_000,
                ever_observed: true,
                tracking_active: true,
            },
            90_000,
            DisplayOwnerStatus {
                cec_display_ownership: Ownership::OwnedByUs,
                cec_display_owner: Some(PLAYBACK1),
                cec_local_address: Some(PLAYBACK1),
                cec_display_owner_changed_unix: Some(1_000),
                cec_display_owner_held_seconds: Some(89_000),
                cec_display_owner_ever_observed: true,
                cec_display_owner_tracking: true,
            },
        ),
        (
            Snapshot {
                owner: PLAYBACK1,
                ours: PLAYBACK1,
                changed_unix: 1_000,
                ever_observed: true,
                tracking_active: true,
            },
            900,
            DisplayOwnerStatus {
                cec_display_ownership: Ownership::OwnedByUs,
                cec_display_owner: Some(PLAYBACK1),
                cec_local_address: Some(PLAYBACK1),
                cec_display_owner_changed_unix: Some(1_000),
                cec_display_owner_held_seconds: Some(0),
                cec_display_owner_ever_observed: true,
                cec_display_owner_tracking: true,
            },
        ),
    ];
    for (snapshot, now, want) in cases {
        assert_eq!(status(&snapshot, now), want, "status({snapshot:?}, {now})");
    }
}

#[test]
fn status_serialises_with_json_nulls_when_nothing_observed() {
    let json = status(&Snapshot::default(), 42).to_json().to_compact();
    assert!(
        json.contains(r#""cec_display_ownership":"unknown""#),
        "got: {json}"
    );
    assert!(json.contains(r#""cec_display_owner":null"#), "got: {json}");
    assert!(json.contains(r#""cec_local_address":null"#), "got: {json}");
    assert!(
        json.contains(r#""cec_display_owner_changed_unix":null"#),
        "got: {json}"
    );
    assert!(
        json.contains(r#""cec_display_owner_held_seconds":null"#),
        "got: {json}"
    );
    assert!(
        json.contains(r#""cec_display_owner_ever_observed":false"#),
        "got: {json}"
    );
    assert!(
        json.contains(r#""cec_display_owner_tracking":false"#),
        "got: {json}"
    );
}

#[test]
fn tracking_flag_is_independent_of_observations() {
    let mut cell = DisplayOwner::new();
    assert!(!cell.snapshot().tracking_active);
    cell.set_tracking_active(true);
    let listening = cell.snapshot();
    assert!(listening.tracking_active);
    assert!(!listening.ever_observed);
    assert_eq!(
        status(&listening, 5).cec_display_ownership,
        Ownership::Unknown
    );
}

#[test]
fn ownership_serialises_as_snake_case_words() {
    let cases: [(Ownership, &str); 3] = [
        (Ownership::OwnedByUs, r#""owned_by_us""#),
        (Ownership::OwnedByOther, r#""owned_by_other""#),
        (Ownership::Unknown, r#""unknown""#),
    ];
    for (value, want) in cases {
        assert_eq!(text_json(value.as_str()).to_compact(), want);
    }
}
