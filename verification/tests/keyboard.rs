use lokey::keyboard::{
    report_bytes_for_message, ExternalMessage, HidReportByte, InvalidChildActionIndex, Key,
    KeyboardReport, Message, FIRST_MODIFIER_USAGE, MESSAGE_TAG,
};
use lokey::key_override::{KeyOverride, KeyOverrideEntry};

#[test]
fn hid_report_byte_of_keys_and_modifiers() {
    assert_eq!(Key(0x04).to_hid_report_byte(), HidReportByte::Key(0x04));
    assert_eq!(Key(FIRST_MODIFIER_USAGE).to_hid_report_byte(), HidReportByte::Modifier(1));
    assert_eq!(Key(0xe3).to_hid_report_byte(), HidReportByte::Modifier(8));
    assert_eq!(Key(0xe7).to_hid_report_byte(), HidReportByte::Modifier(128));
    assert_eq!(Key(0xe8).to_hid_report_byte(), HidReportByte::Key(0xe8));
    assert!(Key(0xe1).is_modifier());
    assert!(!Key(0x2c).is_modifier());
}

#[test]
fn message_bytes_roundtrip() {
    let press = Message::Press { key_index: 0x0102 };
    assert_eq!(press.to_bytes(), [0, 1, 2]);
    assert_eq!(Message::from_bytes([0, 1, 2]), Some(press));
    let release = Message::Release { key_index: 300 };
    let bytes = release.to_bytes();
    assert_eq!(bytes, [1, 1, 44]);
    assert_eq!(Message::from_bytes(bytes), Some(release));
    assert_eq!(Message::from_bytes([2, 0, 0]), None);
    assert_eq!(MESSAGE_TAG.len(), 4);
}

#[test]
fn press_fills_first_free_slot_and_release_clears_it() {
    let mut report = KeyboardReport::empty();
    assert!(ExternalMessage::KeyPress(Key(0x04)).update_keyboard_report(&mut report));
    assert!(ExternalMessage::KeyPress(Key(0x05)).update_keyboard_report(&mut report));
    assert_eq!(report.keycodes, [0x04, 0x05, 0, 0, 0, 0]);
    assert!(!ExternalMessage::KeyPress(Key(0x04)).update_keyboard_report(&mut report));
    assert!(ExternalMessage::KeyRelease(Key(0x04)).update_keyboard_report(&mut report));
    assert_eq!(report.keycodes, [0, 0x05, 0, 0, 0, 0]);
    assert!(!ExternalMessage::KeyRelease(Key(0x04)).update_keyboard_report(&mut report));
}

#[test]
fn modifiers_set_and_clear_their_bit() {
    let mut report = KeyboardReport::empty();
    assert!(ExternalMessage::KeyPress(Key(0xe1)).update_keyboard_report(&mut report));
    assert_eq!(report.modifier, 2);
    assert!(!ExternalMessage::KeyPress(Key(0xe1)).update_keyboard_report(&mut report));
    assert!(ExternalMessage::KeyRelease(Key(0xe1)).update_keyboard_report(&mut report));
    assert_eq!(report.modifier, 0);
    assert_eq!(report.keycodes, [0; 6]);
}

#[test]
fn full_report_ignores_seventh_key_but_counts_change() {
    let mut report = KeyboardReport::empty();
    for k in 4..10u8 {
        assert!(ExternalMessage::KeyPress(Key(k)).update_keyboard_report(&mut report));
    }
    assert!(ExternalMessage::KeyPress(Key(20)).update_keyboard_report(&mut report));
    assert_eq!(report.keycodes, [4, 5, 6, 7, 8, 9]);
}

#[test]
fn press_then_release_restores_report() {
    let mut report = KeyboardReport::empty();
    ExternalMessage::KeyPress(Key(0x10)).update_keyboard_report(&mut report);
    let before = report;
    ExternalMessage::KeyPress(Key(0x11)).update_keyboard_report(&mut report);
    ExternalMessage::KeyRelease(Key(0x11)).update_keyboard_report(&mut report);
    assert_eq!(report.keycodes, before.keycodes);
    assert_eq!(report.modifier, before.modifier);
}

#[test]
fn report_bytes_are_sent_only_on_change() {
    let mut report = KeyboardReport::empty();
    report.leds = 3;
    let bytes = report_bytes_for_message(&ExternalMessage::KeyPress(Key(0x04)), &mut report);
    assert_eq!(bytes, Some(vec![0, 0, 0x04, 0, 0, 0, 0, 0]));
    let bytes = report_bytes_for_message(&ExternalMessage::KeyPress(Key(0xe0)), &mut report);
    assert_eq!(bytes, Some(vec![1, 0, 0x04, 0, 0, 0, 0, 0]));
    let bytes = report_bytes_for_message(&ExternalMessage::KeyPress(Key(0x04)), &mut report);
    assert_eq!(bytes, None);
}

#[test]
fn invalid_child_index_keeps_index() {
    let e = InvalidChildActionIndex { index: 7 };
    assert_eq!(e.index, 7);
}

fn override_a_b_to_c(keep: bool) -> KeyOverride<2, 1> {
    let entry = if keep {
        KeyOverrideEntry::with_keep(vec![Key(4), Key(5)], Key(6))
    } else {
        KeyOverrideEntry::new(vec![Key(4), Key(5)], Key(6))
    };
    KeyOverride::new(vec![entry])
}

#[test]
fn override_replaces_keys_when_all_required_are_pressed() {
    let mut o = override_a_b_to_c(false);
    assert_eq!(
        o.override_message(ExternalMessage::KeyPress(Key(4))),
        vec![ExternalMessage::KeyPress(Key(4))]
    );
    assert_eq!(
        o.override_message(ExternalMessage::KeyPress(Key(5))),
        vec![ExternalMessage::KeyRelease(Key(4)), ExternalMessage::KeyPress(Key(6))]
    );
    assert_eq!(
        o.override_message(ExternalMessage::KeyRelease(Key(5))),
        vec![ExternalMessage::KeyRelease(Key(5))]
    );
    assert_eq!(
        o.override_message(ExternalMessage::KeyRelease(Key(5))),
        vec![ExternalMessage::KeyPress(Key(4)), ExternalMessage::KeyRelease(Key(6))]
    );
}

#[test]
fn override_with_keep_leaves_other_keys_pressed() {
    let mut o = override_a_b_to_c(true);
    o.override_message(ExternalMessage::KeyPress(Key(4)));
    assert_eq!(
        o.override_message(ExternalMessage::KeyPress(Key(5))),
        vec![ExternalMessage::KeyPress(Key(6))]
    );
}

#[test]
fn unrelated_key_passes_through() {
    let mut o = override_a_b_to_c(false);
    assert_eq!(
        o.override_message(ExternalMessage::KeyPress(Key(30))),
        vec![ExternalMessage::KeyPress(Key(30))]
    );
    assert_eq!(
        o.override_message(ExternalMessage::KeyRelease(Key(30))),
        vec![ExternalMessage::KeyRelease(Key(30))]
    );
}

#[test]
fn input_report_bytes_leave_out_leds() {
    let report = KeyboardReport { modifier: 5, reserved: 0, leds: 9, keycodes: [1, 2, 3, 4, 5, 6] };
    assert_eq!(report.to_input_report_bytes(), vec![5, 0, 1, 2, 3, 4, 5, 6]);
}
