use lokey::ble_link::{Message as LinkMessage, MAX_SIZE, MIN_SIZE};
use lokey::layout::{layer_actions, layer_ids, LayoutEntry, UnequalLayers};
use lokey::layer::LayerId;
use lokey::mcu::{nrf52840, rp2040};
use lokey::midi::CableNumber;
use lokey::state::StateQueryRef;
use lokey::storage::{is_unexpected_error, EmptyStorage, EmptyStorageDriver, Entry, Error, SequentialStorageError, StorageDriver, ENTRY_TAG_SIZE};
use lokey::switch::{ActiveHigh, ActiveLow, IntoSwitch, Switch};
use lokey::usb::{DeviceHandler, TransportConfig as UsbConfig};
use lokey::usb_ble::{Message as UsbBleMessage, TransportConfig, TransportSelection, TransportSwitch, MESSAGE_TAG};

#[test]
fn cable_numbers() {
    assert_eq!(CableNumber::default(), CableNumber::Cable0);
    assert_eq!(CableNumber::Cable10.value(), 10);
    assert_eq!(CableNumber::from_value(15), Some(CableNumber::Cable15));
    assert_eq!(CableNumber::from_value(16), None);
    for v in 0..16u8 {
        assert_eq!(CableNumber::from_value(v).unwrap().value(), v);
    }
}

#[test]
fn usb_ble_message_bytes() {
    assert_eq!(UsbBleMessage::SetActive(TransportSelection::Usb).to_bytes(), [0]);
    assert_eq!(UsbBleMessage::SetActive(TransportSelection::Ble).to_bytes(), [1]);
    assert_eq!(UsbBleMessage::from_bytes([1]), Some(UsbBleMessage::SetActive(TransportSelection::Ble)));
    assert_eq!(UsbBleMessage::from_bytes([2]), None);
    assert_eq!(MESSAGE_TAG, [0x73, 0xe2, 0x8c, 0xcf]);
}

#[test]
fn transport_switch_follows_requests() {
    let mut switch = TransportSwitch::new(true);
    assert_eq!(switch.route(), TransportSelection::Ble);
    assert_eq!(switch.set_active_values(true), (false, true));
    assert_eq!(switch.set_active_values(false), (false, false));
    let calls = switch.handle_activation_request(TransportSelection::Usb);
    assert_eq!(calls, vec![(TransportSelection::Usb, true), (TransportSelection::Usb, false)]);
    assert_eq!(switch.route(), TransportSelection::Usb);
    assert!(switch.handle_activation_request(TransportSelection::Usb).is_empty());
    switch.handle_message(UsbBleMessage::SetActive(TransportSelection::Ble));
    assert_eq!(switch.route(), TransportSelection::Ble);
    let mut keep_both = TransportSwitch::new(false);
    assert!(keep_both.handle_activation_request(TransportSelection::Usb).is_empty());
    assert_eq!(keep_both.set_active_values(true), (true, true));
}

#[test]
fn usb_ble_config_defaults() {
    let config = TransportConfig::default();
    assert_eq!(config.name, "Lokey Device");
    assert_eq!(config.num_ble_profiles, 4);
    assert!(config.deactivate_unused_transport);
    let usb = config.to_usb_config();
    assert_eq!(usb.vendor_id, 0x1d51);
    assert_eq!(usb.product_id, 0x615f);
    let usb = UsbConfig::default();
    assert!(!usb.self_powered);
}

#[test]
fn usb_device_handler_states() {
    let mut handler = DeviceHandler::new();
    handler.configured(true);
    handler.suspended(true);
    handler.reset();
    handler.addressed(5);
    assert!(handler.take_activation_request());
    assert!(!handler.take_activation_request());
    handler.enabled(true);
}

#[test]
fn layout_resolves_transparent_keys() {
    let layers = vec![
        vec![LayoutEntry::Action(1u8), LayoutEntry::Transparent, LayoutEntry::Action(3)],
        vec![LayoutEntry::Transparent, LayoutEntry::Action(5), LayoutEntry::Action(6)],
        vec![LayoutEntry::Transparent, LayoutEntry::Transparent, LayoutEntry::Transparent],
    ];
    let keys = layer_actions(&layers, 0u8).unwrap();
    assert_eq!(keys, vec![vec![1, 1, 1], vec![0, 5, 5], vec![3, 6, 6]]);
    assert_eq!(layer_ids(3), vec![LayerId(0), LayerId(1), LayerId(2)]);
}

#[test]
fn layout_rejects_unequal_layers() {
    let layers = vec![
        vec![LayoutEntry::Action(1u8)],
        vec![LayoutEntry::Action(1u8)],
        vec![LayoutEntry::Action(1u8), LayoutEntry::Transparent],
    ];
    assert_eq!(layer_actions(&layers, 0u8), Err(UnequalLayers { layer: 2 }));
    let empty: Vec<Vec<LayoutEntry<u8>>> = Vec::new();
    assert_eq!(layer_actions(&empty, 0u8), Ok(vec![]));
}

struct Counter(u8);

impl Entry for Counter {
    type TagParams = u8;

    fn size() -> usize {
        1
    }

    fn tag(params: u8) -> [u8; ENTRY_TAG_SIZE] {
        [0, 0, 0, 0, 0, 0, 0, params]
    }

    fn from_bytes(bytes: &[u8]) -> Option<Self> {
        bytes.first().map(|b| Counter(*b))
    }

    fn to_bytes(&self) -> Vec<u8> {
        vec![self.0]
    }
}

#[test]
fn empty_storage_keeps_nothing() {
    let storage = EmptyStorage;
    assert!(storage.store::<Counter>(1, &Counter(3)).is_ok());
    assert!(matches!(storage.fetch::<Counter>(1), Ok(None)));
    assert!(storage.remove::<Counter>(1).is_ok());
    let mcu: &'static () = Box::leak(Box::new(()));
    let _storage: EmptyStorage = EmptyStorageDriver::<()>::create_storage(mcu, ());
    assert_eq!(Counter::tag(4)[7], 4);
    assert_eq!(Counter::size(), Counter(9).to_bytes().len());
    assert_eq!(Counter::from_bytes(&[9]).map(|c| c.0), Some(9));
}

#[test]
fn storage_errors_map_one_to_one() {
    assert!(matches!(
        Error::from_sequential_storage(SequentialStorageError::Storage { value: 7u8 }),
        Error::Flash(7)
    ));
    assert!(matches!(
        Error::<u8>::from_sequential_storage(SequentialStorageError::FullStorage),
        Error::FullStorage
    ));
    assert!(matches!(
        Error::<u8>::from_sequential_storage(SequentialStorageError::Corrupted),
        Error::Corrupted
    ));
    assert!(matches!(
        Error::<u8>::from_sequential_storage(SequentialStorageError::ItemTooBig),
        Error::EntryTooBig
    ));
}

#[test]
fn switches_keep_their_pin() {
    let switch: Switch<u8, ActiveHigh> = Switch::new(7);
    assert!(switch.is_active_at(true));
    assert!(switch.pin_level_for(true));
    assert_eq!(switch.into_pin(), 7);
    let low = 9u8.into_active_low_switch();
    assert!(low.is_active_at(false));
    assert!(!low.pin_level_for(true));
    assert_eq!(low.into_pin(), 9);
    let high: Switch<u8, ActiveHigh> = 3u8.into_active_high_switch();
    assert_eq!(high.into_pin(), 3);
    let generic: Switch<u8, ActiveLow> = 4u8.into_switch::<ActiveLow>();
    assert!(!generic.is_active_at(true));
}

#[test]
fn state_query_ref_derefs_to_value() {
    let query = StateQueryRef::new(5u32);
    assert_eq!(*query, 5);
    assert_eq!(*query.get(), 5);
}

#[test]
fn link_messages_keep_bytes() {
    let message = LinkMessage::from_gatt(&[1, 2, 3]);
    assert_eq!(message.to_gatt(), &[1, 2, 3]);
    assert_eq!(message.into_bytes(), vec![1, 2, 3]);
    assert_eq!(LinkMessage::from_bytes(vec![4]).to_gatt(), &[4]);
    assert_eq!((MIN_SIZE, MAX_SIZE), (0, 128));
}

#[test]
fn mcu_config_defaults() {
    let nrf = nrf52840::Config::default();
    assert_eq!(nrf.storage_flash_range, 0x6_0000..0x7_0000);
    assert!(nrf.ble_gap_device_name.is_none());
    let rp = rp2040::Config::default();
    assert_eq!(rp.storage_flash_range, 0..0x1_0000);
    assert_eq!(lokey::nrf::StorageConfig::default().flash_range, 0x6_0000..0x7_0000);
    assert!(lokey::nrf::Config::default().ble_gap_device_name.is_none());
    assert_eq!(lokey::rp::StorageConfig::default().flash_range, 0..0x1_0000);
    let _ = lokey::rp::Config::default();
}

#[test]
fn unexpected_storage_errors_are_recognized() {
    assert!(!is_unexpected_error(&SequentialStorageError::Storage { value: 1u8 }));
    assert!(!is_unexpected_error(&SequentialStorageError::<u8>::FullStorage));
    assert!(is_unexpected_error(&SequentialStorageError::<u8>::BufferTooBig));
    assert!(is_unexpected_error(&SequentialStorageError::<u8>::BufferTooSmall(3)));
    assert!(is_unexpected_error(&SequentialStorageError::<u8>::LogicBug));
    assert!(is_unexpected_error(&SequentialStorageError::<u8>::SerializationError));
    assert!(is_unexpected_error(&SequentialStorageError::<u8>::Other));
}
