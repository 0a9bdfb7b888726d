use lokey::keyboard::Message;
use lokey::matrix::{
    Debounce, DirectPins, DirectPinsConfig, Matrix, MatrixConfig, MatrixScanState, Scanner,
};

#[test]
fn debounce_defaults_and_waits() {
    assert_eq!(Debounce::default(), Debounce::Defer { duration: 5000 });
    assert_eq!(Debounce::Eager { duration: 700 }.wait_after_change(), 700);
    assert_eq!(Debounce::Defer { duration: 700 }.wait_after_change(), 0);
    assert_eq!(Debounce::Disabled.wait_after_change(), 0);
    let config = MatrixConfig::default();
    assert_eq!(config.debounce_key_press, Debounce::Defer { duration: 5000 });
    let config = DirectPinsConfig::default();
    assert_eq!(config.debounce_key_release, Debounce::Defer { duration: 5000 });
}

#[test]
fn matrix_mapping() {
    let matrix = Matrix::<u8, u8, 2, 2, 0>::new::<4>([0, 1], [0, 1]);
    let matrix = matrix.map::<1, 0, 3>();
    let matrix = matrix.map_next::<0, 0>();
    assert_eq!(matrix.key_index(0, 0), Some(0));
    assert_eq!(matrix.key_index(1, 0), Some(3));
    assert_eq!(matrix.key_index(1, 1), None);
}

#[test]
fn matrix_rows_and_cols() {
    let matrix = Matrix::<u8, u8, 2, 3, 0>::new::<6>([0, 1], [0, 1, 2]);
    let matrix = matrix.map_rows_and_cols::<2, 3>([0, 1], [0, 1, 2], 0);
    assert_eq!(matrix.key_index(0, 0), Some(0));
    assert_eq!(matrix.key_index(0, 2), Some(2));
    assert_eq!(matrix.key_index(1, 0), Some(3));
    assert_eq!(matrix.key_index(1, 2), Some(5));
}

#[test]
fn direct_pins_mapping() {
    let pins = DirectPins::<u8, 3, 0>::new::<5>([0, 1, 2]);
    let pins = pins.continuous::<2>();
    assert_eq!(pins.key_index(0), Some(2));
    assert_eq!(pins.key_index(2), Some(4));
    let pins = pins.map::<0, 0>();
    assert_eq!(pins.key_index(0), Some(0));
}

#[test]
fn scanner_keeps_config() {
    let scanner = Scanner::<MatrixConfig, 4>::with_config(MatrixConfig {
        debounce_key_press: Debounce::Disabled,
        debounce_key_release: Debounce::Eager { duration: 3 },
    });
    let config = scanner.into_config();
    assert_eq!(config.debounce_key_press, Debounce::Disabled);
    let scanner = Scanner::<MatrixConfig, 4>::new();
    assert_eq!(scanner.into_config().debounce_key_press, Debounce::Defer { duration: 5000 });
}

#[test]
fn deferred_press_is_reported_after_stable_period() {
    let config = MatrixConfig::default();
    let mut state = MatrixScanState::new(1, 1);
    assert_eq!(state.scan_key(&config, 0, 0, 7, true, 100), None);
    assert_eq!(state.scan_key(&config, 0, 0, 7, true, 3000), None);
    assert_eq!(state.scan_key(&config, 0, 0, 7, true, 5101), Some(Message::Press { key_index: 7 }));
    assert!(!state.is_settled(true));
    assert_eq!(state.scan_key(&config, 0, 0, 7, false, 6000), None);
    assert_eq!(state.scan_key(&config, 0, 0, 7, false, 11001), Some(Message::Release { key_index: 7 }));
    assert!(state.is_settled(false));
}

#[test]
fn deferred_change_is_dropped_when_the_switch_bounces_back() {
    let config = MatrixConfig {
        debounce_key_press: Debounce::Defer { duration: 1000 },
        debounce_key_release: Debounce::Defer { duration: 1000 },
    };
    let mut state = MatrixScanState::new(1, 1);
    assert_eq!(state.scan_key(&config, 0, 0, 1, true, 0), None);
    assert_eq!(state.scan_key(&config, 0, 0, 1, false, 500), None);
    assert_eq!(state.scan_key(&config, 0, 0, 1, false, 1001), None);
    assert_eq!(state.scan_key(&config, 0, 0, 1, false, 6000), None);
    assert!(state.is_settled(false));
}

#[test]
fn deferred_change_is_timed_from_the_last_change() {
    let config = MatrixConfig {
        debounce_key_press: Debounce::Defer { duration: 1000 },
        debounce_key_release: Debounce::Defer { duration: 1000 },
    };
    let mut state = MatrixScanState::new(1, 1);
    assert_eq!(state.scan_key(&config, 0, 0, 1, true, 0), None);
    assert_eq!(state.scan_key(&config, 0, 0, 1, false, 500), None);
    assert_eq!(state.scan_key(&config, 0, 0, 1, true, 700), None);
    assert_eq!(state.scan_key(&config, 0, 0, 1, true, 1500), None);
    assert_eq!(state.scan_key(&config, 0, 0, 1, true, 1701), Some(Message::Press { key_index: 1 }));
    assert_eq!(state.scan_key(&config, 0, 0, 1, false, 2000), None);
    assert_eq!(state.scan_key(&config, 0, 0, 1, false, 3001), Some(Message::Release { key_index: 1 }));
}

#[test]
fn disabled_debounce_reports_on_next_scan() {
    let config = MatrixConfig {
        debounce_key_press: Debounce::Disabled,
        debounce_key_release: Debounce::Disabled,
    };
    let mut state = MatrixScanState::new(2, 2);
    assert_eq!(state.scan_key(&config, 1, 0, 2, true, 10), None);
    assert_eq!(state.scan_key(&config, 1, 0, 2, true, 11), Some(Message::Press { key_index: 2 }));
}

#[test]
fn eager_debounce_ignores_changes_within_duration() {
    let config = MatrixConfig {
        debounce_key_press: Debounce::Eager { duration: 1000 },
        debounce_key_release: Debounce::Eager { duration: 1000 },
    };
    let mut state = MatrixScanState::new(1, 1);
    assert_eq!(state.scan_key(&config, 0, 0, 0, true, 0), None);
    assert_eq!(state.scan_key(&config, 0, 0, 0, true, 1), Some(Message::Press { key_index: 0 }));
    assert_eq!(state.scan_key(&config, 0, 0, 0, false, 500), None);
    assert_eq!(state.scan_key(&config, 0, 0, 0, false, 2000), None);
    assert_eq!(state.scan_key(&config, 0, 0, 0, false, 2001), Some(Message::Release { key_index: 0 }));
}
