use tv_shell::cec::{
    cec_key_action, is_addressable, logical_from_i32, may_claim_active_source, owner_get, owner_set,
    ownership_from_command, owns_display, power_status_word, CecLogicalAddress, CecOpcode,
    CecPowerStatus, CecUserControlCode, AVR_ADDR, OWNER_UNSEEN, TV_ADDR,
};

#[test]
fn power_status_word_mapping() {
    assert_eq!(power_status_word(CecPowerStatus::On), "on");
    assert_eq!(
        power_status_word(CecPowerStatus::Standby),
        "standby"
    );
    assert_eq!(
        power_status_word(CecPowerStatus::InTransitionStandbyToOn),
        "waking"
    );
    assert_eq!(
        power_status_word(CecPowerStatus::InTransitionOnToStandby),
        "sleeping"
    );
    assert_eq!(
        power_status_word(CecPowerStatus::Unknown),
        "unknown"
    );
}

#[test]
fn lifecycle_addresses_map_to_expected_logical() {
    assert_eq!(
        logical_from_i32(AVR_ADDR),
        Some(CecLogicalAddress::Audiosystem)
    );
    assert_eq!(
        logical_from_i32(TV_ADDR),
        Some(CecLogicalAddress::Tv)
    );
}

#[test]
fn is_addressable_rejects_non_devices() {
    let cases = [
        (CecLogicalAddress::Tv, true),
        (CecLogicalAddress::Audiosystem, true),
        (CecLogicalAddress::Playbackdevice1, true),
        (CecLogicalAddress::Freeuse, true),
        (CecLogicalAddress::Unknown, false),
        (CecLogicalAddress::Unregistered, false),
    ];
    for (addr, want) in cases {
        assert_eq!(is_addressable(addr), want, "is_addressable({addr:?})");
    }
}

#[test]
fn owns_display_requires_positive_proof() {
    let cases = [
        (CecLogicalAddress::Playbackdevice1, CecLogicalAddress::Playbackdevice1, true),
        (CecLogicalAddress::Tv, CecLogicalAddress::Playbackdevice1, false),
        (CecLogicalAddress::Playbackdevice2, CecLogicalAddress::Playbackdevice1, false),
        (CecLogicalAddress::Unknown, CecLogicalAddress::Playbackdevice1, false),
        (CecLogicalAddress::Unregistered, CecLogicalAddress::Playbackdevice1, false),
        (CecLogicalAddress::Unknown, CecLogicalAddress::Unknown, false),
        (CecLogicalAddress::Unregistered, CecLogicalAddress::Unregistered, false),
        (CecLogicalAddress::Playbackdevice1, CecLogicalAddress::Unknown, false),
    ];
    for (owner, ours, want) in cases {
        assert_eq!(
            owns_display(owner, ours),
            want,
            "owns_display({owner:?}, {ours:?})"
        );
    }
}

#[test]
fn may_claim_active_source_yields_only_to_a_known_other_owner() {
    let cases = [
        (CecLogicalAddress::Tv, CecLogicalAddress::Playbackdevice1, false),
        (CecLogicalAddress::Playbackdevice2, CecLogicalAddress::Playbackdevice1, false),
        (CecLogicalAddress::Audiosystem, CecLogicalAddress::Playbackdevice1, false),
        (CecLogicalAddress::Playbackdevice1, CecLogicalAddress::Playbackdevice1, true),
        (CecLogicalAddress::Unknown, CecLogicalAddress::Playbackdevice1, true),
        (CecLogicalAddress::Unregistered, CecLogicalAddress::Playbackdevice1, true),
        (CecLogicalAddress::Unknown, CecLogicalAddress::Unknown, true),
        (CecLogicalAddress::Tv, CecLogicalAddress::Unknown, false),
    ];
    for (owner, ours, want) in cases {
        assert_eq!(
            may_claim_active_source(owner, ours),
            want,
            "may_claim_active_source({owner:?}, {ours:?})"
        );
    }
}

#[test]
fn ownership_gates_are_asymmetric_when_unseen() {
    let cases = [(CecLogicalAddress::Unknown, CecLogicalAddress::Playbackdevice1), (CecLogicalAddress::Unregistered, CecLogicalAddress::Tv)];
    for (owner, ours) in cases {
        assert!(
            !owns_display(owner, ours),
            "standby must skip for owner={owner:?}"
        );
        assert!(
            may_claim_active_source(owner, ours),
            "wake claim must proceed for owner={owner:?}"
        );
    }
}

#[test]
fn ownership_from_command_tracks_only_source_claims() {
    let cases = [
        (
            CecOpcode::ActiveSource,
            CecLogicalAddress::Playbackdevice2,
            Some(CecLogicalAddress::Playbackdevice2),
        ),
        (CecOpcode::ActiveSource, CecLogicalAddress::Tv, Some(CecLogicalAddress::Tv)),
        (CecOpcode::InactiveSource, CecLogicalAddress::Playbackdevice2, Some(CecLogicalAddress::Unknown)),
        (CecOpcode::RoutingChange, CecLogicalAddress::Tv, None),
        (CecOpcode::SetStreamPath, CecLogicalAddress::Tv, None),
        (CecOpcode::Standby, CecLogicalAddress::Tv, None),
        (CecOpcode::ReportPowerStatus, CecLogicalAddress::Audiosystem, None),
    ];
    for (opcode, initiator, want) in cases {
        assert_eq!(
            ownership_from_command(opcode, initiator),
            want,
            "ownership_from_command({opcode:?}, {initiator:?})"
        );
    }
}

#[test]
fn owner_cell_round_trips_and_defaults_to_unseen() {
    let mut cell: i32 = OWNER_UNSEEN;
    assert_eq!(owner_get(cell), CecLogicalAddress::Unknown);
    for addr in [CecLogicalAddress::Tv, CecLogicalAddress::Audiosystem, CecLogicalAddress::Playbackdevice1, CecLogicalAddress::Unregistered] {
        owner_set(&mut cell, addr);
        assert_eq!(owner_get(cell), addr, "round-trip {addr:?}");
    }
    owner_set(&mut cell, CecLogicalAddress::Unknown);
    assert_eq!(cell, OWNER_UNSEEN);
    assert_eq!(owner_get(cell), CecLogicalAddress::Unknown);
}

#[test]
fn cec_key_action_maps_nav_codes() {
    assert_eq!(cec_key_action(CecUserControlCode::Up), Some("up"));
    assert_eq!(cec_key_action(CecUserControlCode::Down), Some("down"));
    assert_eq!(cec_key_action(CecUserControlCode::Left), Some("left"));
    assert_eq!(cec_key_action(CecUserControlCode::Right), Some("right"));
    assert_eq!(cec_key_action(CecUserControlCode::Select), Some("select"));
    assert_eq!(cec_key_action(CecUserControlCode::Exit), Some("back"));
    for code in [CecUserControlCode::Up, CecUserControlCode::Down, CecUserControlCode::Left, CecUserControlCode::Right, CecUserControlCode::Select, CecUserControlCode::Exit] {
        let action = cec_key_action(code).expect("mapped");
        assert!(
            ["up", "down", "left", "right", "select", "back"].contains(&action),
            "action {action:?} must be a valid key_for_action name"
        );
    }
    assert_eq!(cec_key_action(CecUserControlCode::RootMenu), None);
    assert_eq!(cec_key_action(CecUserControlCode::Play), None);
    assert_eq!(cec_key_action(CecUserControlCode::Number0), None);
}

#[test]
fn logical_from_i32_bounds() {
    assert_eq!(logical_from_i32(0), Some(CecLogicalAddress::Tv));
    assert_eq!(
        logical_from_i32(5),
        Some(CecLogicalAddress::Audiosystem)
    );
    assert_eq!(
        logical_from_i32(15),
        Some(CecLogicalAddress::Unregistered)
    );
    assert_eq!(logical_from_i32(-1), None);
    assert_eq!(logical_from_i32(16), None);
}
