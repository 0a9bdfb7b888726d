//! Configuration of Raspberry Pi microcontrollers.
use core::ops::Range;
use vstd::prelude::*;

verus! {

/// Where the storage lies in flash.
pub struct StorageConfig {
    pub flash_range: Range<u32>,
}

impl Default for StorageConfig {
    /// The first 64 KiB of flash.
    fn default() -> (r: Self)
        ensures
            r.flash_range.start == 0,
            r.flash_range.end == 0x1_0000,
    {
        StorageConfig { flash_range: 0..0x1_0000 }
    }
}

/// Configuration of the RP2040; it has no settings.
#[derive(Default)]
pub struct Config {}

} // verus!
