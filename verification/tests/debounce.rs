use lokey::debounce::PinDebouncer;
use lokey::matrix::Debounce;

#[test]
fn deferred_change_needs_stable_level() {
    let d = Debounce::Defer { duration: 5 };
    let mut pin = PinDebouncer::new();
    assert_eq!(pin.on_level(true, 0, &d, &d), None);
    assert_eq!(pin.on_time(4, &d, &d), None);
    assert_eq!(pin.on_time(5, &d, &d), Some(true));
    assert!(pin.is_active());
    assert_eq!(pin.on_level(false, 10, &d, &d), None);
    assert_eq!(pin.on_level(true, 12, &d, &d), None);
    assert_eq!(pin.on_time(16, &d, &d), None);
    assert!(pin.is_active());
    assert_eq!(pin.on_level(false, 20, &d, &d), None);
    assert_eq!(pin.on_time(24, &d, &d), None);
    assert_eq!(pin.on_time(25, &d, &d), Some(false));
    assert!(!pin.is_active());
}

#[test]
fn eager_change_is_reported_at_once_then_ignored() {
    let d = Debounce::Eager { duration: 100 };
    let mut pin = PinDebouncer::new();
    assert_eq!(pin.on_level(true, 0, &d, &d), Some(true));
    assert_eq!(pin.on_level(false, 50, &d, &d), None);
    assert_eq!(pin.on_time(99, &d, &d), None);
    assert_eq!(pin.on_time(100, &d, &d), Some(false));
}

#[test]
fn disabled_debounce_follows_the_pin() {
    let d = Debounce::Disabled;
    let mut pin = PinDebouncer::new();
    assert_eq!(pin.on_level(true, 0, &d, &d), Some(true));
    assert_eq!(pin.on_level(true, 1, &d, &d), None);
    assert_eq!(pin.on_level(false, 2, &d, &d), Some(false));
}

#[test]
fn press_and_release_use_their_own_debouncer() {
    let press = Debounce::Disabled;
    let release = Debounce::Defer { duration: 10 };
    let mut pin = PinDebouncer::new();
    assert_eq!(pin.on_level(true, 0, &press, &release), Some(true));
    assert_eq!(pin.on_level(false, 1, &press, &release), None);
    assert_eq!(pin.on_time(11, &press, &release), Some(false));
}

#[test]
fn reports_alternate_starting_with_press() {
    let d = Debounce::Disabled;
    let mut pin = PinDebouncer::new();
    assert_eq!(pin.on_level(true, 0, &d, &d), Some(true));
    assert_eq!(pin.on_level(true, 1, &d, &d), None);
    assert_eq!(pin.on_level(false, 2, &d, &d), Some(false));
    assert_eq!(pin.on_level(false, 3, &d, &d), None);
    assert_eq!(pin.on_level(true, 4, &d, &d), Some(true));
}
