//! Configuration of nRF microcontrollers.
use core::ops::Range;
use vstd::prelude::*;

verus! {

/// Where the storage lies in flash.
pub struct StorageConfig {
    pub flash_range: Range<u32>,
}

impl Default for StorageConfig {
    /// The flash from 0x60000 up to 0x70000.
    fn default() -> (r: Self)
        ensures
            r.flash_range.start == 0x6_0000,
            r.flash_range.end == 0x7_0000,
    {
        StorageConfig { flash_range: 0x6_0000..0x7_0000 }
    }
}

/// Configuration of nRF microcontrollers.
pub struct Config {
    /// The device name in the BLE GAP service, if any.
    pub ble_gap_device_name: Option<&'static str>,
}

impl Default for Config {
    /// No device name.
    fn default() -> (r: Self)
        ensures
            r.ble_gap_device_name.is_none(),
    {
        Config { ble_gap_device_name: None }
    }
}

} // verus!
