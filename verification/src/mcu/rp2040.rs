//! Configuration of the RP2040.
use core::ops::Range;
use vstd::prelude::*;

verus! {

/// Configuration of the RP2040.
pub struct Config {
    /// The flash addresses that the storage uses.
    pub storage_flash_range: Range<u32>,
}

impl Default for Config {
    /// The storage uses the first 64 KiB of flash.
    fn default() -> (r: Self)
        ensures
            r.storage_flash_range.start == 0,
            r.storage_flash_range.end == 0x1_0000,
    {
        Config { storage_flash_range: 0..0x1_0000 }
    }
}

} // verus!
