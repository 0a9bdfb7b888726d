pub mod layer;
pub mod pubsub;
pub mod channel;
pub mod keyboard;
pub mod key_override;
pub mod matrix;
pub mod device;
pub mod ble;
pub mod status_led;
pub mod usb_ble;
pub mod action;
pub mod mouse;
pub mod midi;
pub mod switch;
pub mod state;
pub mod storage;
pub mod mcu;
pub mod nrf;
pub mod rp;
pub mod usb;
pub mod ble_link;
pub mod layout;
pub mod debounce;
