use lokey::ble::Event;
use lokey::device::Address;
use lokey::status_led::{
    individual_leds, progress_level, slide_level, slide_levels, slide_progress, slide_step_count,
    timeout_remaining, Action, ActionCounter, ActionId, ActionStack, BleAdvertisementHook,
    BleProfileHook, BootHook, Hook, HookBundle, Message, SLIDE_RANGE,
};

const DEVICE: Address = Address([1, 2, 3, 4, 5, 6]);

#[test]
fn action_ids_count_up() {
    let mut counter = ActionCounter::new();
    let a = ActionId::new(DEVICE, &mut counter);
    let b = ActionId::new(DEVICE, &mut counter);
    assert_eq!(a.counter, 0);
    assert_eq!(b.counter, 1);
    assert!(!a.same_as(&b));
    assert!(a.same_as(&a));
    assert_eq!(a.address.0, DEVICE.0);
}

#[test]
fn message_filter_selects_devices() {
    let mut counter = ActionCounter::new();
    let id = ActionId::new(DEVICE, &mut counter);
    let message = Message::new(id, Action::Progress { value: 1, timeout_ms: None });
    assert!(message.is_for_device(&Address([9; 6])));
    let message = message.filter_devices(vec![Address([9; 6]), Address([8; 6])]);
    assert!(message.is_for_device(&Address([8; 6])));
    assert!(!message.is_for_device(&DEVICE));
}

#[test]
fn stack_runs_latest_action_and_stops_by_id() {
    let mut counter = ActionCounter::new();
    let first = ActionId::new(DEVICE, &mut counter);
    let second = ActionId::new(DEVICE, &mut counter);
    let stopper = ActionId::new(DEVICE, &mut counter);
    let mut stack = ActionStack::new();
    assert!(stack.top().is_none());
    assert_eq!(stack.start_top(5), None);
    stack.push(first, Action::SlideForwards { duration_ms: 800, count: None });
    stack.push(second, Action::Progress { value: 3, timeout_ms: Some(10) });
    assert!(matches!(stack.top(), Some(Action::Progress { value: 3, .. })));
    assert_eq!(stack.start_top(100), Some(100));
    assert_eq!(stack.start_top(200), Some(100));
    stack.finish_top();
    assert!(matches!(stack.top(), Some(Action::SlideForwards { .. })));
    stack.push(stopper, Action::Stop { action_id: first });
    assert!(stack.stop(&first));
    assert!(stack.top().is_none());
}

#[test]
fn stopping_an_unknown_action_removes_only_the_request() {
    let mut counter = ActionCounter::new();
    let running = ActionId::new(DEVICE, &mut counter);
    let unknown = ActionId::new(DEVICE, &mut counter);
    let stopper = ActionId::new(DEVICE, &mut counter);
    let mut stack = ActionStack::new();
    stack.push(running, Action::SlideForwards { duration_ms: 800, count: None });
    stack.push(stopper, Action::Stop { action_id: unknown });
    assert!(!stack.stop(&unknown));
    assert!(matches!(stack.top(), Some(Action::SlideForwards { .. })));
}

#[test]
fn individual_lights_listed_leds() {
    assert_eq!(individual_leds(&vec![0, 2, 7], 4), vec![true, false, true, false]);
    assert_eq!(individual_leds(&vec![], 2), vec![false, false]);
}

#[test]
fn progress_levels_fill_in_order() {
    // 4 LEDs: each has a share of 65535 / 4 = 16383.
    assert_eq!(progress_level(0, 4, 0), (0, 16383));
    assert_eq!(progress_level(20000, 4, 0), (16383, 16383));
    assert_eq!(progress_level(20000, 4, 1), (20000 - 16383, 16383));
    assert_eq!(progress_level(20000, 4, 2), (0, 16383));
    assert_eq!(progress_level(u16::MAX, 4, 3), (16383, 16383));
    assert_eq!(progress_level(u16::MAX, 1, 0), (u16::MAX, u16::MAX));
}

#[test]
fn slide_levels_peak_at_each_led_in_turn() {
    assert_eq!(SLIDE_RANGE, 200);
    assert_eq!(slide_step_count(3), 800);
    assert_eq!(slide_level(200, 0), 200);
    assert_eq!(slide_level(300, 0), 100);
    assert_eq!(slide_level(300, 1), 100);
    assert_eq!(slide_level(0, 0), 0);
    assert_eq!(slide_level(600, 1), 0);
    assert_eq!(slide_levels(250, 3, false), vec![150, 50, 0]);
    assert_eq!(slide_levels(250, 3, true), vec![0, 50, 150]);
}

#[test]
fn slide_progress_counts_runs() {
    assert_eq!(slide_progress(0, 800, Some(1)), (0, Some(1)));
    assert_eq!(slide_progress(1000, 800, Some(3)), (200, Some(2)));
    assert_eq!(slide_progress(5000, 800, Some(3)), (200, Some(0)));
    assert_eq!(slide_progress(70000, 800, None), ((70000u64 % 65536) as u16 % 800, None));
}

#[test]
fn timeouts_run_out() {
    assert_eq!(timeout_remaining(None, 5), None);
    assert_eq!(timeout_remaining(Some(10), 4), Some(6));
    assert_eq!(timeout_remaining(Some(10), 40), Some(0));
}

#[test]
fn boot_hook_slides_backwards_once() {
    let mut counter = ActionCounter::new();
    let mut hook = BootHook;
    let message = hook.on_start(DEVICE, &mut counter).unwrap();
    assert!(matches!(
        message.action,
        Action::SlideBackwards { duration_ms: 800, count: Some(1) }
    ));
    assert_eq!(message.action_id.counter, 0);
    assert!(message.filter_devices.is_none());
    assert!(hook
        .on_ble_event(&Event::StartedAdvertising { scannable: true }, DEVICE, &mut counter)
        .is_none());
}

#[test]
fn advertisement_hook_starts_and_stops_slide() {
    let mut counter = ActionCounter::new();
    let mut hook = BleAdvertisementHook::new();
    assert!(hook
        .on_ble_event(&Event::StoppedAdvertising { scannable: true }, DEVICE, &mut counter)
        .is_none());
    let started = hook
        .on_ble_event(&Event::StartedAdvertising { scannable: true }, DEVICE, &mut counter)
        .unwrap();
    assert!(matches!(started.action, Action::SlideForwards { duration_ms: 800, count: None }));
    assert!(hook
        .on_ble_event(&Event::StartedAdvertising { scannable: false }, DEVICE, &mut counter)
        .is_none());
    let stopped = hook
        .on_ble_event(&Event::StoppedAdvertising { scannable: true }, DEVICE, &mut counter)
        .unwrap();
    match stopped.action {
        Action::Stop { action_id } => assert!(action_id.same_as(&started.action_id)),
        _ => panic!("expected a stop request"),
    }
    assert_eq!(stopped.action_id.counter, 1);
}

#[test]
fn profile_hook_lights_profile_led() {
    let mut counter = ActionCounter::new();
    let mut hook = BleProfileHook;
    let message = hook
        .on_ble_event(
            &Event::SwitchedProfile { profile_index: 2, changed: true },
            DEVICE,
            &mut counter,
        )
        .unwrap();
    match message.action {
        Action::Individual { indices, timeout_ms } => {
            assert_eq!(indices, vec![2]);
            assert_eq!(timeout_ms, Some(1000));
        }
        _ => panic!("expected individual LEDs"),
    }
    assert!(hook.on_start(DEVICE, &mut counter).is_none());
}

#[test]
fn hook_bundle_collects_requests() {
    let mut counter = ActionCounter::new();
    let mut hooks = (BootHook, BleProfileHook);
    let started = hooks.on_start_all(DEVICE, &mut counter);
    assert_eq!(started.len(), 1);
    let events = hooks.on_ble_event_all(
        &Event::SwitchedProfile { profile_index: 0, changed: false },
        DEVICE,
        &mut counter,
    );
    assert_eq!(events.len(), 1);
}

#[test]
fn progress_levels_cover_all_leds() {
    let levels = lokey::status_led::progress_levels(40000, 3);
    assert_eq!(levels, vec![(21845, 21845), (18155, 21845), (0, 21845)]);
}

#[test]
fn stack_takes_only_requests_for_its_device() {
    let mut counter = ActionCounter::new();
    let mut stack = ActionStack::new();
    let id = ActionId::new(DEVICE, &mut counter);
    let other = Message::new(id, Action::Progress { value: 1, timeout_ms: None })
        .filter_devices(vec![Address([7; 6])]);
    assert!(!stack.receive(other, &DEVICE));
    assert!(stack.top().is_none());
    let mine = Message::new(id, Action::Progress { value: 2, timeout_ms: None })
        .filter_devices(vec![DEVICE]);
    assert!(stack.receive(mine, &DEVICE));
    assert!(matches!(stack.top(), Some(Action::Progress { value: 2, .. })));
}
