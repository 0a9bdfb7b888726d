use lokey::action::{
    Action, ActionContext, ActivateExternalTransport, BleClear, BleClearActive, BleClearAll,
    BleDisconnectActive, BleNextProfile, BlePreviousProfile, BleSelectProfile, Concurrent,
    DeactivateExternalTransport, HoldTap, Layer, Layout, NoOp, Output, PerLayer, Sequence, Sticky,
    SwitchToBle, SwitchToUsb, Toggle, ToggleExternalTransport, ToggleMessage, TAP_RELEASE_DELAY_MS,
};
use lokey::ble::Message as BleMessage;
use lokey::device::Address;
use lokey::keyboard::{ExternalMessage, Key, Message as KeyMessage};
use lokey::layer::{LayerId, LayerManager};
use lokey::usb_ble::{Message as UsbBleMessage, TransportSelection};

fn context() -> ActionContext<'static> {
    ActionContext { layers: None, mouse_report: None, outputs: Vec::new() }
}

fn is_press(o: &Output, k: u8) -> bool {
    matches!(o, Output::External(ExternalMessage::KeyPress(Key(v))) if *v == k)
}

fn is_release(o: &Output, k: u8) -> bool {
    matches!(o, Output::External(ExternalMessage::KeyRelease(Key(v))) if *v == k)
}

#[test]
fn key_sends_press_and_release() {
    let mut ctx = context();
    let mut key = Key(0x04);
    key.on_press(&mut ctx);
    key.on_release(&mut ctx);
    assert_eq!(ctx.outputs.len(), 2);
    assert!(is_press(&ctx.outputs[0], 0x04));
    assert!(is_release(&ctx.outputs[1], 0x04));
}

#[test]
fn no_op_sends_nothing() {
    let mut ctx = context();
    NoOp.on_press(&mut ctx);
    NoOp.on_release(&mut ctx);
    assert!(ctx.outputs.is_empty());
}

#[test]
fn transport_actions_send_their_message_on_press_only() {
    let mut ctx = context();
    let address = Address([1, 1, 1, 1, 1, 1]);
    ToggleExternalTransport(address).on_press(&mut ctx);
    ActivateExternalTransport(address).on_press(&mut ctx);
    DeactivateExternalTransport(address).on_press(&mut ctx);
    DeactivateExternalTransport(address).on_release(&mut ctx);
    assert_eq!(ctx.outputs.len(), 3);
    assert!(matches!(ctx.outputs[0], Output::Toggle(ToggleMessage::Toggle(_))));
    assert!(matches!(ctx.outputs[1], Output::Toggle(ToggleMessage::Activate(_))));
    assert!(matches!(ctx.outputs[2], Output::Toggle(ToggleMessage::Deactivate(_))));
}

#[test]
fn ble_actions_send_their_message() {
    let mut ctx = context();
    BleDisconnectActive.on_press(&mut ctx);
    BleClear(2).on_press(&mut ctx);
    BleClearActive.on_press(&mut ctx);
    BleClearAll.on_press(&mut ctx);
    BleSelectProfile(3).on_press(&mut ctx);
    BleNextProfile.on_press(&mut ctx);
    BlePreviousProfile.on_press(&mut ctx);
    BlePreviousProfile.on_release(&mut ctx);
    let expected = [
        BleMessage::DisconnectActive,
        BleMessage::Clear { profile_index: 2 },
        BleMessage::ClearActive,
        BleMessage::ClearAll,
        BleMessage::SelectProfile { index: 3 },
        BleMessage::SelectNextProfile,
        BleMessage::SelectPreviousProfile,
    ];
    assert_eq!(ctx.outputs.len(), expected.len());
    for (o, e) in ctx.outputs.iter().zip(expected.iter()) {
        match o {
            Output::Ble(m) => assert_eq!(m, e),
            _ => panic!("expected a BLE message"),
        }
    }
}

#[test]
fn switch_actions_select_transport() {
    let mut ctx = context();
    SwitchToUsb.on_press(&mut ctx);
    SwitchToBle.on_press(&mut ctx);
    assert!(matches!(
        ctx.outputs[0],
        Output::UsbBle(UsbBleMessage::SetActive(TransportSelection::Usb))
    ));
    assert!(matches!(
        ctx.outputs[1],
        Output::UsbBle(UsbBleMessage::SetActive(TransportSelection::Ble))
    ));
}

#[test]
fn layer_action_activates_layer_while_held() {
    let mut manager: LayerManager<0> = LayerManager::new();
    let mut layer = Layer::new(LayerId(3));
    {
        let mut ctx = ActionContext { layers: Some(manager.to_query()), mouse_report: None, outputs: Vec::new() };
        layer.on_press(&mut ctx);
        assert_eq!(ctx.layers.as_ref().unwrap().active(), LayerId(3));
        layer.on_release(&mut ctx);
        assert_eq!(ctx.layers.as_ref().unwrap().active(), LayerId(0));
        assert!(ctx.outputs.is_empty());
    }
    assert_eq!(manager.active(), LayerId(0));
}

#[test]
fn layer_action_pressed_twice_keeps_one_entry() {
    let mut manager: LayerManager<0> = LayerManager::new();
    let mut layer = Layer::new(LayerId(3));
    let mut ctx = ActionContext { layers: Some(manager.to_query()), mouse_report: None, outputs: Vec::new() };
    layer.on_press(&mut ctx);
    layer.on_press(&mut ctx);
    layer.on_release(&mut ctx);
    assert_eq!(ctx.layers.as_ref().unwrap().active(), LayerId(0));
}

#[test]
fn layer_action_without_layer_manager_does_nothing() {
    let mut ctx = context();
    let mut layer = Layer::new(LayerId(3));
    layer.on_press(&mut ctx);
    layer.on_release(&mut ctx);
    assert!(ctx.outputs.is_empty());
}

#[test]
fn sequence_presses_in_order_and_releases_in_reverse() {
    let mut ctx = context();
    let mut seq = Sequence::new((Key(1), Key(2), Key(3)));
    seq.on_press(&mut ctx);
    seq.on_release(&mut ctx);
    let o = &ctx.outputs;
    assert_eq!(o.len(), 6);
    assert!(is_press(&o[0], 1) && is_press(&o[1], 2) && is_press(&o[2], 3));
    assert!(is_release(&o[3], 3) && is_release(&o[4], 2) && is_release(&o[5], 1));
}

#[test]
fn concurrent_presses_all() {
    let mut ctx = context();
    let mut c = Concurrent::new((Key(1), Key(2)));
    c.on_press(&mut ctx);
    c.on_release(&mut ctx);
    assert_eq!(ctx.outputs.len(), 4);
}

#[test]
fn toggle_alternates_press_and_release() {
    let mut ctx = context();
    let mut t = Toggle::new(Key(9));
    t.on_press(&mut ctx);
    t.on_release(&mut ctx);
    t.on_press(&mut ctx);
    assert_eq!(ctx.outputs.len(), 2);
    assert!(is_press(&ctx.outputs[0], 9));
    assert!(is_release(&ctx.outputs[1], 9));
}

#[test]
fn per_layer_runs_action_of_active_layer() {
    let mut manager: LayerManager<0> = LayerManager::new();
    let _entry = manager.push(LayerId(1));
    let mut ctx = ActionContext { layers: Some(manager.to_query()), mouse_report: None, outputs: Vec::new() };
    let mut per_layer = PerLayer::new((Key(10), Key(11)), vec![LayerId(0), LayerId(1)]);
    per_layer.on_press(&mut ctx);
    per_layer.on_release(&mut ctx);
    assert_eq!(ctx.outputs.len(), 2);
    assert!(is_press(&ctx.outputs[0], 11));
    assert!(is_release(&ctx.outputs[1], 11));
}

#[test]
fn per_layer_without_matching_layer_does_nothing() {
    let mut manager: LayerManager<0> = LayerManager::new();
    let _entry = manager.push(LayerId(5));
    let mut ctx = ActionContext { layers: Some(manager.to_query()), mouse_report: None, outputs: Vec::new() };
    let mut per_layer = PerLayer::new((Key(10), Key(11)), vec![LayerId(0), LayerId(1)]);
    per_layer.on_press(&mut ctx);
    per_layer.on_release(&mut ctx);
    assert!(ctx.outputs.is_empty());
}

#[test]
fn hold_tap_taps_when_released_within_term() {
    let mut ctx = context();
    let mut ht = HoldTap::new(Key(0xe0), Key(0x05));
    ht.on_press(&mut ctx);
    ht.on_release(&mut ctx);
    ht.on_tapping_term_elapsed(&mut ctx);
    ht.on_tap_delay_elapsed(&mut ctx);
    assert_eq!(TAP_RELEASE_DELAY_MS, 10);
    assert_eq!(ctx.outputs.len(), 2);
    assert!(is_press(&ctx.outputs[0], 0x05));
    assert!(is_release(&ctx.outputs[1], 0x05));
}

#[test]
fn hold_tap_holds_when_held_beyond_term() {
    let mut ctx = context();
    let mut ht = HoldTap::new(Key(0xe0), Key(0x05)).tapping_term(300);
    ht.on_press(&mut ctx);
    ht.on_tapping_term_elapsed(&mut ctx);
    ht.on_release(&mut ctx);
    assert_eq!(ctx.outputs.len(), 2);
    assert!(is_press(&ctx.outputs[0], 0xe0));
    assert!(is_release(&ctx.outputs[1], 0xe0));
}

#[test]
fn sticky_is_released_after_next_key() {
    let mut ctx = context();
    let mut sticky = Sticky::new(Key(0xe1));
    sticky.on_press(&mut ctx);
    assert!(is_press(&ctx.outputs[0], 0xe1));
    sticky.on_external_message(ExternalMessage::KeyPress(Key(0xe0)), &mut ctx);
    assert_eq!(ctx.outputs.len(), 1);
    sticky.on_external_message(ExternalMessage::KeyPress(Key(0x04)), &mut ctx);
    assert_eq!(ctx.outputs.len(), 1);
    sticky.on_release(&mut ctx);
    assert_eq!(ctx.outputs.len(), 2);
    assert!(is_release(&ctx.outputs[1], 0xe1));
}

#[test]
fn lazy_sticky_presses_with_next_key_and_releases_when_let_go() {
    let mut ctx = context();
    let mut sticky = Sticky::new(Key(0xe1)).lazy(true).timeout(500).ignore_modifiers(false);
    sticky.on_press(&mut ctx);
    assert!(ctx.outputs.is_empty());
    sticky.on_release(&mut ctx);
    assert_eq!(ctx.outputs.len(), 1);
    assert!(is_release(&ctx.outputs[0], 0xe1));
    sticky.on_external_message(ExternalMessage::KeyPress(Key(0xe0)), &mut ctx);
    assert_eq!(ctx.outputs.len(), 3);
    assert!(is_press(&ctx.outputs[1], 0xe1));
    assert!(is_release(&ctx.outputs[2], 0xe1));
}

#[test]
fn sticky_timeout_ends_wait() {
    let mut ctx = context();
    let mut sticky = Sticky::new(Key(0xe1));
    sticky.on_press(&mut ctx);
    sticky.on_timeout(&mut ctx);
    sticky.on_release(&mut ctx);
    assert_eq!(ctx.outputs.len(), 2);
    assert!(is_release(&ctx.outputs[1], 0xe1));
}

#[test]
fn layout_dispatches_by_key_index() {
    let mut ctx = context();
    let mut layout = Layout::new((Key(1), Key(2)));
    assert!(layout.handle_message(KeyMessage::Press { key_index: 1 }, &mut ctx).is_ok());
    assert!(layout.handle_message(KeyMessage::Release { key_index: 1 }, &mut ctx).is_ok());
    let err = layout.handle_message(KeyMessage::Press { key_index: 2 }, &mut ctx).unwrap_err();
    assert_eq!(err.index, 2);
    assert_eq!(ctx.outputs.len(), 2);
    assert!(is_press(&ctx.outputs[0], 2));
}
