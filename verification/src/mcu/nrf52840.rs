//! Configuration of the nRF52840.
use core::ops::Range;
use vstd::prelude::*;

verus! {

/// Configuration of the nRF52840.
pub struct Config {
    /// The flash addresses that the storage uses.
    pub storage_flash_range: Range<u32>,
    /// The device name in the BLE GAP service, if any.
    pub ble_gap_device_name: Option<&'static str>,
}

impl Default for Config {
    /// The storage uses the flash from 0x60000 up to 0x70000; no device name.
    fn default() -> (r: Self)
        ensures
            r.storage_flash_range.start == 0x6_0000,
            r.storage_flash_range.end == 0x7_0000,
            r.ble_gap_device_name.is_none(),
    {
        Config { storage_flash_range: 0x6_0000..0x7_0000, ble_gap_device_name: None }
    }
}

} // verus!
