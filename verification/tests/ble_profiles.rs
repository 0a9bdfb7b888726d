use lokey::ble::{
    accepts_gatt_request, advertise_scannable, advertisement_parts, bond_slots, AdvertisementPart, AdvertisingOutcome, BleLink, Event, bond_info_from_bytes, bond_info_tag, bond_info_to_bytes,
    handle_profile_message, pairing_decision, sys_attrs_to_load, sys_attrs_to_store,
    BondDecision, BondInformation, Identity, Message, SecurityLevel, SystemAttribute,
};
use lokey::storage::{Entry, Error as StorageError};

#[test]
fn bond_info_serialization1() {
    let bond_info = BondInformation {
        identity: Identity {
            bd_addr: [1, 2, 3, 4, 5, 6],
            irk: Some([7; 16]),
        },
        ltk: [8; 16],
        security_level: SecurityLevel::EncryptedAuthenticated,
        is_bonded: true,
    };
    let bytes = bond_info_to_bytes(&bond_info);
    let deserialized = bond_info_from_bytes(&bytes).unwrap();
    assert_eq!(bond_info.identity.bd_addr, deserialized.identity.bd_addr);
    assert_eq!(bond_info.identity.irk, deserialized.identity.irk);
    assert_eq!(bond_info.ltk, deserialized.ltk);
    assert_eq!(bond_info.security_level, deserialized.security_level);
    assert_eq!(bond_info.is_bonded, deserialized.is_bonded);
}

#[test]
fn bond_info_serialization2() {
    let bond_info = BondInformation {
        identity: Identity {
            bd_addr: [21, 22, 23, 24, 25, 26],
            irk: None,
        },
        ltk: [42; 16],
        security_level: SecurityLevel::NoEncryption,
        is_bonded: false,
    };
    let bytes = bond_info_to_bytes(&bond_info);
    let deserialized = bond_info_from_bytes(&bytes).unwrap();
    assert_eq!(bond_info.identity.bd_addr, deserialized.identity.bd_addr);
    assert_eq!(bond_info.identity.irk, deserialized.identity.irk);
    assert_eq!(bond_info.ltk, deserialized.ltk);
    assert_eq!(bond_info.security_level, deserialized.security_level);
    assert_eq!(bond_info.is_bonded, deserialized.is_bonded);
}

#[test]
fn bond_info_rejects_unknown_security_level() {
    let mut bytes = [0u8; 40];
    bytes[39] = 3;
    assert!(bond_info_from_bytes(&bytes).is_none());
    bytes[39] = 1;
    let info = bond_info_from_bytes(&bytes).unwrap();
    assert_eq!(info.security_level, SecurityLevel::Encrypted);
    assert_eq!(info.identity.irk, None);
    assert!(!info.is_bonded);
}

#[test]
fn bond_info_tag_ends_with_profile_index() {
    assert_eq!(bond_info_tag(3), [0x68, 0xb6, 0xa9, 0x22, 0xdc, 0xd9, 0xef, 3]);
}

#[test]
fn select_existing_profile_switches() {
    let r = handle_profile_message(0, 4, Message::SelectProfile { index: 2 });
    assert_eq!(r.active_profile, 2);
    assert!(r.disconnect);
    assert!(r.cancel_advertisement);
    assert_eq!(r.switched_profile, Some((2, true)));
    assert!(!r.rejected);
    assert!(r.clear_profiles.is_empty());
}

#[test]
fn select_same_profile_reports_unchanged() {
    let r = handle_profile_message(1, 4, Message::SelectProfile { index: 1 });
    assert_eq!(r.active_profile, 1);
    assert!(!r.disconnect);
    assert_eq!(r.switched_profile, Some((1, false)));
}

#[test]
fn select_missing_profile_is_rejected() {
    let r = handle_profile_message(1, 4, Message::SelectProfile { index: 4 });
    assert!(r.rejected);
    assert_eq!(r.active_profile, 1);
    assert_eq!(r.switched_profile, None);
}

#[test]
fn next_profile_wraps_around() {
    let r = handle_profile_message(3, 4, Message::SelectNextProfile);
    assert_eq!(r.active_profile, 0);
    assert_eq!(r.switched_profile, Some((0, true)));
    let r = handle_profile_message(0, 1, Message::SelectNextProfile);
    assert_eq!(r.switched_profile, Some((0, false)));
}

#[test]
fn previous_profile_wraps_around() {
    let r = handle_profile_message(0, 4, Message::SelectPreviousProfile);
    assert_eq!(r.active_profile, 3);
}

#[test]
fn next_then_previous_returns_to_profile() {
    let next = handle_profile_message(2, 5, Message::SelectNextProfile);
    let back = handle_profile_message(next.active_profile, 5, Message::SelectPreviousProfile);
    assert_eq!(back.active_profile, 2);
}

#[test]
fn clear_messages_name_profiles() {
    let r = handle_profile_message(1, 3, Message::Clear { profile_index: 1 });
    assert_eq!(r.clear_profiles, vec![1]);
    assert!(r.disconnect);
    let r = handle_profile_message(1, 3, Message::Clear { profile_index: 2 });
    assert_eq!(r.clear_profiles, vec![2]);
    assert!(!r.disconnect);
    let r = handle_profile_message(1, 3, Message::Clear { profile_index: 3 });
    assert!(r.rejected);
    let r = handle_profile_message(2, 3, Message::ClearActive);
    assert_eq!(r.clear_profiles, vec![2]);
    let r = handle_profile_message(0, 3, Message::ClearAll);
    assert_eq!(r.clear_profiles, vec![0, 1, 2]);
    let r = handle_profile_message(0, 3, Message::DisconnectActive);
    assert!(r.disconnect);
    assert!(!r.cancel_advertisement);
}

fn sample_bond(ltk: u8, addr: u8) -> BondInformation {
    BondInformation {
        identity: Identity {
            bd_addr: [addr; 6],
            irk: None,
        },
        ltk: [ltk; 16],
        security_level: SecurityLevel::Encrypted,
        is_bonded: true,
    }
}

#[test]
fn pairing_decisions() {
    assert_eq!(pairing_decision(&None, &sample_bond(1, 1)), BondDecision::Store);
    assert_eq!(
        pairing_decision(&Some(sample_bond(1, 1)), &sample_bond(2, 1)),
        BondDecision::Reject
    );
    assert_eq!(
        pairing_decision(&Some(sample_bond(1, 1)), &sample_bond(1, 2)),
        BondDecision::Store
    );
    assert_eq!(
        pairing_decision(&Some(sample_bond(1, 1)), &sample_bond(1, 1)),
        BondDecision::Keep
    );
    assert!(advertise_scannable(&None));
    assert!(!advertise_scannable(&Some(sample_bond(1, 1))));
}

#[test]
fn sys_attrs_store_only_changes() {
    let stored = SystemAttribute::new();
    let updated = sys_attrs_to_store(&stored, &[1, 2, 3]).unwrap();
    assert_eq!(updated.length, 3);
    assert_eq!(&updated.data[0..3], &[1, 2, 3]);
    assert!(sys_attrs_to_store(&updated, &[1, 2, 3]).is_none());
    let changed = sys_attrs_to_store(&updated, &[1, 9]).unwrap();
    assert_eq!(changed.length, 2);
    assert_eq!(&changed.data[0..3], &[1, 9, 3]);
}

#[test]
fn sys_attrs_load_needs_attributes_and_matching_peer() {
    let stored = SystemAttribute::new();
    assert!(sys_attrs_to_load(&stored, true).is_none());
    let updated = sys_attrs_to_store(&stored, &[5, 6]).unwrap();
    assert_eq!(sys_attrs_to_load(&updated, true), Some(vec![5, 6]));
    assert!(sys_attrs_to_load(&updated, false).is_none());
}

#[test]
fn bond_information_is_a_storage_entry() {
    use_entry();
}

fn use_entry() {
    let info = sample_bond(3, 4);
    let bytes = <BondInformation as Entry>::to_bytes(&info);
    assert_eq!(bytes.len(), <BondInformation as Entry>::size());
    let back = <BondInformation as Entry>::from_bytes(&bytes).unwrap();
    assert_eq!(back.ltk, info.ltk);
    assert_eq!(back.identity.bd_addr, info.identity.bd_addr);
    assert!(<BondInformation as Entry>::from_bytes(&bytes[..39]).is_none());
    assert_eq!(<BondInformation as Entry>::tag(2)[7], 2);
}

#[test]
fn link_reports_advertising_and_connection_events() {
    use_link();
}

fn use_link() {
    let peer = lokey::device::Address([9; 6]);
    let mut link = BleLink::new();
    let started = link.start_advertising(&None);
    assert!(matches!(started, Event::StartedAdvertising { scannable: true }));
    let events = link.advertising_ended(AdvertisingOutcome::Connected { peer });
    assert_eq!(events.len(), 2);
    assert!(matches!(events[0], Event::StoppedAdvertising { scannable: true }));
    assert!(matches!(events[1], Event::Connected { device_address } if device_address.0 == [9; 6]));
    let (decision, events) = link.pairing_complete(&None, &sample_bond(1, 1));
    assert_eq!(decision, BondDecision::Store);
    assert!(events.is_empty());
    let (decision, events) = link.pairing_complete(&Some(sample_bond(1, 1)), &sample_bond(2, 1));
    assert_eq!(decision, BondDecision::Reject);
    assert_eq!(events.len(), 2);
    assert!(matches!(events[0], Event::Disconnected { .. }));
    let started = link.start_advertising(&Some(sample_bond(1, 1)));
    assert!(matches!(started, Event::StartedAdvertising { scannable: false }));
    let events = link.advertising_ended(AdvertisingOutcome::Cancelled);
    assert_eq!(events.len(), 1);
    assert!(matches!(events[0], Event::StoppedAdvertising { scannable: false }));
    link.start_advertising(&None);
    let events = link.advertising_ended(AdvertisingOutcome::ServerFailed { peer });
    assert_eq!(events.len(), 1);
    link.start_advertising(&None);
    link.advertising_ended(AdvertisingOutcome::Connected { peer });
    assert_eq!(link.connection_ended().len(), 2);
}

#[test]
fn gatt_requests_need_encryption() {
    assert!(accepts_gatt_request(Some(true)));
    assert!(!accepts_gatt_request(Some(false)));
    assert!(!accepts_gatt_request(None));
}

#[test]
fn bond_slots_keep_fetched_bonds_and_drop_failures() {
    let bond = sample_bond(3, 4);
    let fetched: Vec<Result<Option<BondInformation>, StorageError<()>>> =
        vec![Ok(None), Err(StorageError::Corrupted), Ok(Some(bond))];
    let slots = bond_slots(fetched);
    assert_eq!(slots.len(), 3);
    assert!(slots[0].is_none());
    assert!(slots[1].is_none());
    assert_eq!(slots[2].unwrap().ltk, bond.ltk);
    assert_eq!(slots[2].unwrap().identity.bd_addr, bond.identity.bd_addr);
}

#[test]
fn advertisement_lists_only_non_empty_uuid_lists() {
    assert_eq!(
        advertisement_parts(false, true, true, false),
        vec![
            AdvertisementPart::Flags,
            AdvertisementPart::CompleteLocalName,
            AdvertisementPart::ServiceUuids16Rx,
            AdvertisementPart::ServiceUuids128Tx,
        ]
    );
    assert_eq!(
        advertisement_parts(false, false, false, false),
        vec![AdvertisementPart::Flags, AdvertisementPart::CompleteLocalName]
    );
}
