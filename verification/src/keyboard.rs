//! Keys, key messages and the keyboard report sent to the host.
use vstd::prelude::*;

verus! {

/// A key, by its usage ID on the keyboard page of the HID usage tables.
#[derive(Debug, Clone, Copy, PartialEq, Eq, Structural)]
pub struct Key(pub u8);

/// The usage ID of the first modifier key (left control); the eight modifier keys follow it.
pub const FIRST_MODIFIER_USAGE: u8 = 0xe0;

/// How a key shows up in a keyboard report: as a key code, or as a bit of the modifier byte.
#[derive(Debug, Clone, Copy, PartialEq, Eq, Structural)]
pub enum HidReportByte {
    /// The key code of a key that is not a modifier.
    Key(u8),
    /// The bit of a modifier key in the modifier byte.
    Modifier(u8),
}

/// The bit of the modifier byte that belongs to the modifier key with the given index
/// (0 = left control, ..., 7 = right GUI).
pub open spec fn modifier_bit(index: int) -> u8 {
    if index == 0 {
        1
    } else if index == 1 {
        2
    } else if index == 2 {
        4
    } else if index == 3 {
        8
    } else if index == 4 {
        16
    } else if index == 5 {
        32
    } else if index == 6 {
        64
    } else {
        128
    }
}

/// The modifier key with usage 0xE0 + n has bit n of the modifier byte (0 = left control, ...,
/// 7 = right GUI), so a press of it sets exactly that bit of the report and a release clears it.
pub proof fn law_modifier_usage_is_its_bit(usage: u8, modifier: u8, codes: Seq<u8>)
    requires
        is_modifier_usage(usage),
    ensures
        modifier_bit(usage - FIRST_MODIFIER_USAGE) == 1u8 << ((usage - FIRST_MODIFIER_USAGE) as u8),
        updated_report(ExternalMessage::KeyPress(Key(usage)), modifier, codes).0 == modifier | (1u8
            << ((usage - FIRST_MODIFIER_USAGE) as u8)),
        updated_report(ExternalMessage::KeyRelease(Key(usage)), modifier, codes).0 == modifier & !(
        1u8 << ((usage - FIRST_MODIFIER_USAGE) as u8)),
{
    assert(1u8 << 0u8 == 1u8) by (bit_vector);
    assert(1u8 << 1u8 == 2u8) by (bit_vector);
    assert(1u8 << 2u8 == 4u8) by (bit_vector);
    assert(1u8 << 3u8 == 8u8) by (bit_vector);
    assert(1u8 << 4u8 == 16u8) by (bit_vector);
    assert(1u8 << 5u8 == 32u8) by (bit_vector);
    assert(1u8 << 6u8 == 64u8) by (bit_vector);
    assert(1u8 << 7u8 == 128u8) by (bit_vector);
    lemma_single_bit_set_clear(modifier, modifier_bit(usage - FIRST_MODIFIER_USAGE));
}

proof fn lemma_single_bit_set_clear(m: u8, b: u8)
    by (bit_vector)
    requires
        b == 1 || b == 2 || b == 4 || b == 8 || b == 16 || b == 32 || b == 64 || b == 128,
    ensures
        m & b != 0 ==> m | b == m,
        m & b != b ==> m & !b == m,
{
}

/// Whether the usage ID belongs to one of the eight modifier keys.
pub open spec fn is_modifier_usage(usage: u8) -> bool {
    FIRST_MODIFIER_USAGE <= usage <= FIRST_MODIFIER_USAGE + 7
}

impl Key {
    /// How the key shows up in a keyboard report.
    pub fn to_hid_report_byte(&self) -> (r: HidReportByte)
        ensures
            is_modifier_usage(self.0) ==> r == HidReportByte::Modifier(
                modifier_bit(self.0 - FIRST_MODIFIER_USAGE),
            ),
            !is_modifier_usage(self.0) ==> r == HidReportByte::Key(self.0),
    {
        if self.0 >= FIRST_MODIFIER_USAGE && self.0 <= FIRST_MODIFIER_USAGE + 7 {
            let index = self.0 - FIRST_MODIFIER_USAGE;
            let bit: u8 = if index == 0 {
                1
            } else if index == 1 {
                2
            } else if index == 2 {
                4
            } else if index == 3 {
                8
            } else if index == 4 {
                16
            } else if index == 5 {
                32
            } else if index == 6 {
                64
            } else {
                128
            };
            HidReportByte::Modifier(bit)
        } else {
            HidReportByte::Key(self.0)
        }
    }

    /// Whether the key is one of the eight modifier keys.
    pub fn is_modifier(&self) -> (r: bool)
        ensures
            r == is_modifier_usage(self.0),
    {
        self.0 >= FIRST_MODIFIER_USAGE && self.0 <= FIRST_MODIFIER_USAGE + 7
    }
}

/// A message type for key press and key release events.
#[derive(Debug, Clone, Copy, PartialEq, Eq, Structural)]
pub enum Message {
    /// The key at the specified index was pressed.
    Press { key_index: u16 },
    /// The key at the specified index was released.
    Release { key_index: u16 },
}

/// The tag that identifies [`Message`] on the internal channel.
pub const MESSAGE_TAG: [u8; 4] = [0x7f, 0xc4, 0xf7, 0xc7];

/// The three bytes of a message: a tag byte (0 for a press, 1 for a release) followed by the key
/// index in big-endian order.
pub open spec fn message_bytes(m: Message) -> Seq<u8> {
    match m {
        Message::Press { key_index } => seq![0u8, (key_index / 256) as u8, (key_index % 256) as u8],
        Message::Release { key_index } => seq![
            1u8,
            (key_index / 256) as u8,
            (key_index % 256) as u8,
        ],
    }
}

impl Message {
    /// Serializes the message to its three bytes.
    pub fn to_bytes(&self) -> (r: [u8; 3])
        ensures
            r@ == message_bytes(*self),
    {
        match self {
            Message::Press { key_index } => [0, (*key_index / 256) as u8, (*key_index % 256) as u8],
            Message::Release { key_index } => [
                1,
                (*key_index / 256) as u8,
                (*key_index % 256) as u8,
            ],
        }
    }

    /// Deserializes a message from its three bytes. Returns `None` for an unknown tag byte.
    pub fn from_bytes(bytes: [u8; 3]) -> (r: Option<Self>)
        ensures
            bytes@[0] == 0 ==> r == Some(
                Message::Press { key_index: (bytes@[1] * 256 + bytes@[2]) as u16 },
            ),
            bytes@[0] == 1 ==> r == Some(
                Message::Release { key_index: (bytes@[1] * 256 + bytes@[2]) as u16 },
            ),
            bytes@[0] > 1 ==> r is None,
    {
        let key_index: u16 = bytes[1] as u16 * 256 + bytes[2] as u16;
        if bytes[0] == 0 {
            Some(Message::Press { key_index })
        } else if bytes[0] == 1 {
            Some(Message::Release { key_index })
        } else {
            None
        }
    }
}

/// Deserializing the bytes of a message gives back the message.
pub proof fn law_message_roundtrip(m: Message)
    ensures
        ({
            let b = message_bytes(m);
            &&& b.len() == 3
            &&& b[0] <= 1
            &&& (b[0] == 0 ==> m == Message::Press { key_index: (b[1] * 256 + b[2]) as u16 })
            &&& (b[0] == 1 ==> m == Message::Release { key_index: (b[1] * 256 + b[2]) as u16 })
        }),
{
}

/// Serializing a deserialized message gives back its bytes.
pub proof fn law_message_bytes_roundtrip(b0: u8, b1: u8, b2: u8)
    requires
        b0 <= 1,
    ensures
        ({
            let k = (b1 * 256 + b2) as u16;
            let m = if b0 == 0 {
                Message::Press { key_index: k }
            } else {
                Message::Release { key_index: k }
            };
            message_bytes(m) == seq![b0, b1, b2]
        }),
{
    let k = (b1 * 256 + b2) as u16;
    assert(k / 256 == b1 && k % 256 == b2);
    let m = if b0 == 0 {
        Message::Press { key_index: k }
    } else {
        Message::Release { key_index: k }
    };
    assert(message_bytes(m) =~= seq![b0, b1, b2]);
}

/// A message for the host: a key press or a key release.
#[derive(Debug, Clone, Copy, PartialEq, Eq, Structural)]
pub enum ExternalMessage {
    KeyPress(Key),
    KeyRelease(Key),
}

/// The keyboard input report: the modifier byte and six key codes (0 marks a free slot).
#[derive(Debug, Clone, Copy)]
pub struct KeyboardReport {
    pub modifier: u8,
    pub reserved: u8,
    pub leds: u8,
    pub keycodes: [u8; 6],
}

impl KeyboardReport {
    /// A report without pressed keys.
    pub fn empty() -> (r: Self)
        ensures
            r.modifier == 0,
            r.reserved == 0,
            r.leds == 0,
            r.keycodes@ == seq![0u8, 0, 0, 0, 0, 0],
    {
        let r = KeyboardReport { modifier: 0, reserved: 0, leds: 0, keycodes: [0, 0, 0, 0, 0, 0] };
        proof {
            assert(r.keycodes@ =~= seq![0u8, 0, 0, 0, 0, 0]);
        }
        r
    }
}

/// The index of the first occurrence of `v` in `s`, if there is one.
pub open spec fn first_index_of(s: Seq<u8>, v: u8) -> Option<int>
    decreases s.len(),
{
    if s.len() == 0 {
        None
    } else if s[0] == v {
        Some(0)
    } else {
        match first_index_of(s.drop_first(), v) {
            Some(i) => Some(i + 1),
            None => None,
        }
    }
}

/// The modifier byte and the key codes of the report after `message`, and whether the report
/// changed.
pub open spec fn updated_report(message: ExternalMessage, modifier: u8, codes: Seq<u8>) -> (
    u8,
    Seq<u8>,
    bool,
) {
    match message {
        ExternalMessage::KeyPress(key) => {
            if is_modifier_usage(key.0) {
                let bit = modifier_bit(key.0 - FIRST_MODIFIER_USAGE);
                if modifier & bit == 0 {
                    (modifier | bit, codes, true)
                } else {
                    (modifier, codes, false)
                }
            } else if codes.contains(key.0) {
                (modifier, codes, false)
            } else {
                match first_index_of(codes, 0) {
                    Some(i) => (modifier, codes.update(i, key.0), true),
                    None => (modifier, codes, true),
                }
            }
        },
        ExternalMessage::KeyRelease(key) => {
            if is_modifier_usage(key.0) {
                let bit = modifier_bit(key.0 - FIRST_MODIFIER_USAGE);
                if modifier & bit == bit {
                    (modifier & !bit, codes, true)
                } else {
                    (modifier, codes, false)
                }
            } else {
                match first_index_of(codes, key.0) {
                    Some(i) => (modifier, codes.update(i, 0), true),
                    None => (modifier, codes, false),
                }
            }
        },
    }
}

fn position_of(codes: &[u8; 6], v: u8) -> (r: Option<usize>)
    ensures
        r matches Some(i) ==> i < 6 && first_index_of(codes@, v) == Some(i as int),
        r is None ==> first_index_of(codes@, v) is None,
{
    let mut i: usize = 0;
    while i < 6
        invariant
            i <= 6,
            codes@.len() == 6,
            forall|j: int| 0 <= j < i ==> codes@[j] != v,
        decreases 6 - i,
    {
        if codes[i] == v {
            proof {
                lemma_first_index(codes@, v, i as int);
            }
            return Some(i);
        }
        i += 1;
    }
    proof {
        lemma_first_index_none(codes@, v);
    }
    None
}

proof fn lemma_first_index(s: Seq<u8>, v: u8, i: int)
    requires
        0 <= i < s.len(),
        s[i] == v,
        forall|j: int| 0 <= j < i ==> s[j] != v,
    ensures
        first_index_of(s, v) == Some(i),
    decreases i,
{
    if i > 0 {
        lemma_first_index(s.drop_first(), v, i - 1);
    }
}

proof fn lemma_first_index_none(s: Seq<u8>, v: u8)
    requires
        forall|j: int| 0 <= j < s.len() ==> s[j] != v,
    ensures
        first_index_of(s, v) is None,
        !s.contains(v),
    decreases s.len(),
{
    if s.len() > 0 {
        lemma_first_index_none(s.drop_first(), v);
    }
}

proof fn lemma_first_index_some(s: Seq<u8>, v: u8)
    ensures
        first_index_of(s, v) matches Some(i) ==> 0 <= i < s.len() && s[i] == v,
        first_index_of(s, v) is None ==> !s.contains(v),
    decreases s.len(),
{
    if s.len() > 0 {
        lemma_first_index_some(s.drop_first(), v);
        if s[0] != v && first_index_of(s, v) is None {
            assert forall|j: int| 0 <= j < s.len() implies s[j] != v by {
                if j > 0 {
                    assert(s.drop_first()[j - 1] == s[j]);
                }
            }
        }
    }
}

impl ExternalMessage {
    /// Applies the key press or key release to the keyboard report and returns whether the
    /// report changed.
    ///
    /// A pressed key takes the first free key code slot; if no slot is free the report stays the
    /// same, but the press still counts as a change.
    pub fn update_keyboard_report(&self, report: &mut KeyboardReport) -> (changed: bool)
        ensures
            (final(report).modifier, final(report).keycodes@, changed) == updated_report(
                *self,
                old(report).modifier,
                old(report).keycodes@,
            ),
            final(report).reserved == old(report).reserved,
            final(report).leds == old(report).leds,
    {
        let mut changed = false;
        match self {
            ExternalMessage::KeyPress(key) => match key.to_hid_report_byte() {
                HidReportByte::Key(v) => {
                    let present = position_of(&report.keycodes, v);
                    proof {
                        lemma_first_index_some(report.keycodes@, v);
                        if present is Some {
                            assert(report.keycodes@.contains(v));
                        }
                    }
                    if present.is_none() {
                        if let Some(i) = position_of(&report.keycodes, 0) {
                            report.keycodes[i] = v;
                        }
                        changed = true;
                    }
                },
                HidReportByte::Modifier(v) => {
                    if report.modifier & v == 0 {
                        report.modifier = report.modifier | v;
                        changed = true;
                    }
                },
            },
            ExternalMessage::KeyRelease(key) => match key.to_hid_report_byte() {
                HidReportByte::Key(v) => {
                    if let Some(i) = position_of(&report.keycodes, v) {
                        report.keycodes[i] = 0;
                        changed = true;
                    }
                },
                HidReportByte::Modifier(v) => {
                    if report.modifier & v == v {
                        report.modifier = report.modifier & !v;
                        changed = true;
                    }
                },
            },
        }
        changed
    }
}

/// The input report of a keyboard report as the host receives it: the modifier byte, the
/// reserved byte and the six key codes (the LED byte is an output and is not sent).
pub open spec fn input_report_bytes(report: KeyboardReport) -> Seq<u8> {
    seq![report.modifier, report.reserved].add(report.keycodes@)
}

/// Serializes the input part of `report` with `AsInputReport::serialize` of the HID keyboard
/// report of `usbd_hid`, into a buffer of 9 bytes. The serializer that the descriptor macro
/// generates writes the input fields in order (modifier, reserved, then the six key codes) and
/// returns their length, 8, which fits the buffer.
#[verifier::external_body]
fn serialize_input_report(report: &KeyboardReport) -> (r: Option<Vec<u8>>)
    ensures
        r.is_some(),
        r.unwrap()@ == input_report_bytes(*report),
{
    let hid = usbd_hid::descriptor::KeyboardReport {
        modifier: report.modifier,
        reserved: report.reserved,
        leds: report.leds,
        keycodes: report.keycodes,
    };
    let mut buffer = [0u8; 9];
    match usbd_hid::descriptor::AsInputReport::serialize(&hid, &mut buffer) {
        Ok(len) => Some(buffer[..len].to_vec()),
        Err(_) => None,
    }
}

impl KeyboardReport {
    /// The bytes of the input report, as they are sent to the host.
    pub fn to_input_report_bytes(&self) -> (r: Vec<u8>)
        ensures
            r@ == input_report_bytes(*self),
    {
        serialize_input_report(self).unwrap()
    }
}

/// Applies a key message to the report that the USB transport keeps, and returns the bytes of
/// the input report to send if the report changed; nothing is sent otherwise.
pub fn report_bytes_for_message(message: &ExternalMessage, report: &mut KeyboardReport) -> (r:
    Option<Vec<u8>>)
    ensures
        (final(report).modifier, final(report).keycodes@, r is Some) == updated_report(
            *message,
            old(report).modifier,
            old(report).keycodes@,
        ),
        final(report).reserved == old(report).reserved,
        final(report).leds == old(report).leds,
        r matches Some(bytes) ==> bytes@ == input_report_bytes(*final(report)),
{
    let changed = message.update_keyboard_report(report);
    if changed {
        serialize_input_report(report)
    } else {
        None
    }
}

/// Pressing a key and then releasing it leaves the keyboard report as it was, when the key was
/// not in the report before and the report had a free key code slot.
pub proof fn law_press_release_restores_report(key: Key, modifier: u8, codes: Seq<u8>)
    requires
        !is_modifier_usage(key.0),
        key.0 != 0,
        !codes.contains(key.0),
        codes.contains(0u8),
    ensures
        ({
            let (m1, k1, c1) = updated_report(ExternalMessage::KeyPress(key), modifier, codes);
            let (m2, k2, c2) = updated_report(ExternalMessage::KeyRelease(key), m1, k1);
            c1 && c2 && m2 == modifier && k2 == codes
        }),
{
    lemma_first_index_some(codes, 0);
    let i = first_index_of(codes, 0)->0;
    let p = updated_report(ExternalMessage::KeyPress(key), modifier, codes).1;
    assert(p == codes.update(i, key.0));
    assert forall|j: int| 0 <= j < i implies p[j] != key.0 by {
        assert(codes[j] != key.0) by {
            if codes[j] == key.0 {
                assert(codes.contains(key.0));
            }
        }
    }
    lemma_first_index(p, key.0, i);
    assert(p.update(i, 0) =~= codes);
}

/// Pressing a modifier key and then releasing it leaves the keyboard report as it was, when the
/// modifier was not pressed before.
pub proof fn law_press_release_modifier_restores_report(key: Key, modifier: u8, codes: Seq<u8>)
    requires
        is_modifier_usage(key.0),
        modifier & modifier_bit(key.0 - FIRST_MODIFIER_USAGE) == 0,
    ensures
        ({
            let (m1, k1, c1) = updated_report(ExternalMessage::KeyPress(key), modifier, codes);
            let (m2, k2, c2) = updated_report(ExternalMessage::KeyRelease(key), m1, k1);
            c1 && c2 && m2 == modifier && k2 == codes
        }),
{
    let bit = modifier_bit(key.0 - FIRST_MODIFIER_USAGE);
    let m = modifier;
    assert(bit == 1 || bit == 2 || bit == 4 || bit == 8 || bit == 16 || bit == 32 || bit == 64
        || bit == 128);
    assert((m | bit) & bit == bit && (m | bit) & !bit == m) by (bit_vector)
        requires
            m & bit == 0,
            bit == 1 || bit == 2 || bit == 4 || bit == 8 || bit == 16 || bit == 32 || bit == 64
                || bit == 128,
    ;
}

/// The error for an action container that has no child at the given index.
#[derive(Debug, Clone, Copy, PartialEq, Eq, Structural)]
pub struct InvalidChildActionIndex {
    pub index: usize,
}

} // verus!
