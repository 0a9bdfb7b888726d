//! The USB transport: its configuration and how it follows the state of the USB device.
use vstd::prelude::*;

verus! {

/// Configuration of the USB transport.
#[derive(Clone)]
pub struct TransportConfig {
    pub vendor_id: u16,
    pub product_id: u16,
    pub manufacturer: Option<&'static str>,
    pub product: Option<&'static str>,
    pub serial_number: Option<&'static str>,
    pub self_powered: bool,
}

impl Default for TransportConfig {
    /// The vendor and product IDs of the framework, no strings, bus powered.
    fn default() -> (r: Self)
        ensures
            r.vendor_id == 0x1d51,
            r.product_id == 0x615f,
            r.manufacturer.is_none(),
            r.product.is_none(),
            r.serial_number.is_none(),
            !r.self_powered,
    {
        TransportConfig {
            vendor_id: 0x1d51,
            product_id: 0x615f,
            manufacturer: None,
            product: None,
            serial_number: None,
            self_powered: false,
        }
    }
}

/// Follows the state of the USB device as the USB stack reports it.
pub struct DeviceHandler {
    configured: bool,
    suspended: bool,
    activation_requested: bool,
}

impl DeviceHandler {
    /// Whether the host has configured the device.
    pub closed spec fn is_configured(&self) -> bool {
        self.configured
    }

    /// Whether the bus is suspended.
    pub closed spec fn is_suspended(&self) -> bool {
        self.suspended
    }

    /// Whether the device asked to become the active transport and nobody has taken the request.
    pub closed spec fn activation_requested(&self) -> bool {
        self.activation_requested
    }

    /// A device that is neither configured nor suspended.
    pub fn new() -> (r: Self)
        ensures
            !r.is_configured(),
            !r.is_suspended(),
            !r.activation_requested(),
    {
        DeviceHandler { configured: false, suspended: false, activation_requested: false }
    }

    /// The device was enabled or disabled: it is no longer configured nor suspended.
    pub fn enabled(&mut self, enabled: bool)
        ensures
            !final(self).is_configured(),
            !final(self).is_suspended(),
            final(self).activation_requested() == old(self).activation_requested(),
    {
        self.configured = false;
        self.suspended = false;
    }

    /// The bus was reset: the device is no longer configured.
    pub fn reset(&mut self)
        ensures
            !final(self).is_configured(),
            final(self).is_suspended() == old(self).is_suspended(),
            final(self).activation_requested() == old(self).activation_requested(),
    {
        self.configured = false;
    }

    /// The host gave the device an address: the device is not configured yet, and it asks to
    /// become the active transport.
    pub fn addressed(&mut self, addr: u8)
        ensures
            !final(self).is_configured(),
            final(self).is_suspended() == old(self).is_suspended(),
            final(self).activation_requested(),
    {
        self.configured = false;
        self.activation_requested = true;
    }

    /// The host configured or unconfigured the device.
    pub fn configured(&mut self, configured: bool)
        ensures
            final(self).is_configured() == configured,
            final(self).is_suspended() == old(self).is_suspended(),
            final(self).activation_requested() == old(self).activation_requested(),
    {
        self.configured = configured;
    }

    /// The bus was suspended or resumed.
    pub fn suspended(&mut self, suspended: bool)
        ensures
            final(self).is_suspended() == suspended,
            final(self).is_configured() == old(self).is_configured(),
            final(self).activation_requested() == old(self).activation_requested(),
    {
        self.suspended = suspended;
    }

    /// Takes the pending activation request, if there is one.
    pub fn take_activation_request(&mut self) -> (r: bool)
        ensures
            r == old(self).activation_requested(),
            !final(self).activation_requested(),
            final(self).is_configured() == old(self).is_configured(),
            final(self).is_suspended() == old(self).is_suspended(),
    {
        let requested = self.activation_requested;
        self.activation_requested = false;
        requested
    }
}

} // verus!
