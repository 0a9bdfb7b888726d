//! The transport that sends over USB or BLE: which of the two is active, and what it asks of
//! each of them.
use vstd::prelude::*;

verus! {

/// One of the two transports.
#[derive(Debug, Clone, Copy, PartialEq, Eq, Hash, Structural)]
pub enum TransportSelection {
    Usb,
    Ble,
}

/// Requests for the combined transport.
#[derive(Debug, Clone, Copy, PartialEq, Eq, Structural)]
pub enum Message {
    /// Makes the given transport the one that sends and receives.
    SetActive(TransportSelection),
}

/// The tag that identifies the message type on the internal channel.
pub const MESSAGE_TAG: [u8; 4] = [0x73, 0xe2, 0x8c, 0xcf];

/// The byte that encodes a transport selection.
pub open spec fn selection_byte(selection: TransportSelection) -> u8 {
    match selection {
        TransportSelection::Usb => 0,
        TransportSelection::Ble => 1,
    }
}

impl Message {
    /// The encoding of the message: one byte, 0 for USB and 1 for BLE.
    pub fn to_bytes(&self) -> (r: [u8; 1])
        ensures
            r@ == seq![selection_byte(self->0)],
    {
        match self {
            Message::SetActive(TransportSelection::Usb) => [0],
            Message::SetActive(TransportSelection::Ble) => [1],
        }
    }

    /// Decodes a message; `None` for a byte that names no transport.
    pub fn from_bytes(bytes: [u8; 1]) -> (r: Option<Self>)
        ensures
            bytes@[0] == 0 ==> r == Some(Message::SetActive(TransportSelection::Usb)),
            bytes@[0] == 1 ==> r == Some(Message::SetActive(TransportSelection::Ble)),
            bytes@[0] > 1 ==> r.is_none(),
    {
        match bytes[0] {
            0 => Some(Message::SetActive(TransportSelection::Usb)),
            1 => Some(Message::SetActive(TransportSelection::Ble)),
            _ => None,
        }
    }
}

/// Decoding the encoding of a message gives the message back.
pub proof fn law_message_roundtrip(m: Message, bytes: [u8; 1])
    requires
        bytes@ == seq![selection_byte(m->0)],
    ensures
        bytes@[0] == 0 ==> m == Message::SetActive(TransportSelection::Usb),
        bytes@[0] == 1 ==> m == Message::SetActive(TransportSelection::Ble),
        bytes@[0] <= 1,
{
}

/// Which transport of the two is active.
pub struct TransportSwitch {
    active: TransportSelection,
    deactivate_unused_transport: bool,
}

impl TransportSwitch {
    /// The active transport.
    pub closed spec fn active(&self) -> TransportSelection {
        self.active
    }

    /// Whether the transport that is not active is switched off.
    pub closed spec fn deactivates_unused(&self) -> bool {
        self.deactivate_unused_transport
    }

    /// A switch on which BLE is active.
    pub fn new(deactivate_unused_transport: bool) -> (r: Self)
        ensures
            r.active() == TransportSelection::Ble,
            r.deactivates_unused() == deactivate_unused_transport,
    {
        TransportSwitch { active: TransportSelection::Ble, deactivate_unused_transport }
    }

    /// The transport that messages are sent over and received from.
    pub fn route(&self) -> (r: TransportSelection)
        ensures
            r == self.active(),
    {
        self.active
    }

    /// Handles a request for the combined transport.
    pub fn handle_message(&mut self, message: Message)
        ensures
            final(self).active() == message->0,
            final(self).deactivates_unused() == old(self).deactivates_unused(),
    {
        match message {
            Message::SetActive(selection) => {
                self.active = selection;
            },
        }
    }

    /// Makes `requested` active because one of the transports asked to be, and returns the calls
    /// of `set_active` to make, in order, each as the transport and the value. When the active
    /// transport changes and unused transports are switched off, both calls go to the USB
    /// transport: first with whether USB is now active, then with whether BLE is.
    pub fn handle_activation_request(&mut self, requested: TransportSelection) -> (r: Vec<
        (TransportSelection, bool),
    >)
        ensures
            final(self).active() == requested,
            final(self).deactivates_unused() == old(self).deactivates_unused(),
            r@ == (if old(self).deactivates_unused() && old(self).active() != requested {
                seq![
                    (TransportSelection::Usb, requested == TransportSelection::Usb),
                    (TransportSelection::Usb, requested == TransportSelection::Ble),
                ]
            } else {
                Seq::empty()
            }),
    {
        let previous = self.active;
        self.active = requested;
        let mut calls: Vec<(TransportSelection, bool)> = Vec::new();
        if self.deactivate_unused_transport && previous != requested {
            calls.push((TransportSelection::Usb, requested == TransportSelection::Usb));
            calls.push((TransportSelection::Usb, requested == TransportSelection::Ble));
        }
        calls
    }

    /// The values to hand to `set_active` of the USB and the BLE transport when the combined
    /// transport is switched on or off: when switched on with unused transports switched off,
    /// only the active one is on; otherwise both get `value`.
    pub fn set_active_values(&self, value: bool) -> (r: (bool, bool))
        ensures
            r == (if value && self.deactivates_unused() {
                (self.active() == TransportSelection::Usb, self.active() == TransportSelection::Ble)
            } else {
                (value, value)
            }),
            value && self.deactivates_unused() ==> r.0 != r.1,
    {
        if value && self.deactivate_unused_transport {
            (self.active == TransportSelection::Usb, self.active == TransportSelection::Ble)
        } else {
            (value, value)
        }
    }
}


/// Configuration of the combined USB and BLE transport.
pub struct TransportConfig {
    pub name: &'static str,
    pub vendor_id: u16,
    pub product_id: u16,
    pub product_version: u16,
    pub manufacturer: Option<&'static str>,
    pub product: Option<&'static str>,
    pub model_number: Option<&'static str>,
    pub serial_number: Option<&'static str>,
    pub self_powered: bool,
    pub num_ble_profiles: u8,
    /// The BLE appearance value (the icon that hosts show).
    pub appearance: u16,
    /// Whether the transport that is not active is switched off.
    pub deactivate_unused_transport: bool,
}

impl Default for TransportConfig {
    /// The framework's IDs, four BLE profiles, the unknown appearance, and unused transports
    /// switched off.
    fn default() -> (r: Self)
        ensures
            r.vendor_id == 0x1d51,
            r.product_id == 0x615f,
            r.product_version == 0,
            r.manufacturer.is_none(),
            r.product.is_none(),
            r.model_number.is_none(),
            r.serial_number.is_none(),
            !r.self_powered,
            r.num_ble_profiles == 4,
            r.appearance == 0,
            r.deactivate_unused_transport,
    {
        TransportConfig {
            name: "Lokey Device",
            vendor_id: 0x1d51,
            product_id: 0x615f,
            product_version: 0,
            manufacturer: None,
            product: None,
            model_number: None,
            serial_number: None,
            self_powered: false,
            num_ble_profiles: 4,
            appearance: 0,
            deactivate_unused_transport: true,
        }
    }
}

impl TransportConfig {
    /// The configuration of the USB transport: the IDs, strings and power setting.
    pub fn to_usb_config(&self) -> (r: crate::usb::TransportConfig)
        ensures
            r.vendor_id == self.vendor_id,
            r.product_id == self.product_id,
            r.manufacturer == self.manufacturer,
            r.product == self.product,
            r.serial_number == self.serial_number,
            r.self_powered == self.self_powered,
    {
        crate::usb::TransportConfig {
            vendor_id: self.vendor_id,
            product_id: self.product_id,
            manufacturer: self.manufacturer,
            product: self.product,
            serial_number: self.serial_number,
            self_powered: self.self_powered,
        }
    }
}

} // verus!
