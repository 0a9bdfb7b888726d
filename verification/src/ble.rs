//! BLE profiles: selecting and clearing the profile that the device advertises for, and the bond
//! information that is stored for each profile.
use crate::device::Address;
use crate::storage::{Entry, Error as StorageError, ENTRY_TAG_SIZE};
use vstd::prelude::*;

verus! {

/// Requests for the BLE transport, sent by key actions.
#[derive(Debug, Clone, Copy, PartialEq, Eq, Structural)]
pub enum Message {
    /// Disconnects the active connection.
    DisconnectActive,
    /// Removes the bond information of a profile.
    Clear { profile_index: u8 },
    /// Removes the bond information of the active profile.
    ClearActive,
    /// Removes the bond information of all profiles.
    ClearAll,
    /// Switches to a profile.
    SelectProfile { index: u8 },
    /// Switches to the next profile, after the last one to the first.
    SelectNextProfile,
    /// Switches to the previous profile, before the first one to the last.
    SelectPreviousProfile,
}

/// Events of the BLE transport.
#[derive(Debug, Clone, Copy)]
pub enum Event {
    StartedAdvertising { scannable: bool },
    StoppedAdvertising { scannable: bool },
    Connected { device_address: Address },
    Disconnected { device_address: Address },
    SwitchedProfile { profile_index: u8, changed: bool },
}

/// What the transport does in response to a [`Message`].
pub struct ProfileReaction {
    /// The profile that is active afterwards.
    pub active_profile: u8,
    /// The profiles whose bond information is removed, in order.
    pub clear_profiles: Vec<u8>,
    /// Whether the active connection is disconnected.
    pub disconnect: bool,
    /// Whether the running advertisement is cancelled (and restarted for the active profile).
    pub cancel_advertisement: bool,
    /// The profile switch to report, with whether the profile changed.
    pub switched_profile: Option<(u8, bool)>,
    /// Whether the message was rejected because it names a profile that does not exist.
    pub rejected: bool,
}

/// The reaction to `message` while `active` is the active profile of `num_profiles` profiles, as
/// (active profile afterwards, cleared profiles, disconnect, cancel advertisement, reported switch,
/// rejected).
pub open spec fn profile_reaction(active: u8, num_profiles: u8, message: Message) -> (
    u8,
    Seq<u8>,
    bool,
    bool,
    Option<(u8, bool)>,
    bool,
) {
    match message {
        Message::SelectProfile { index } => if index >= num_profiles {
            (active, Seq::empty(), false, false, None, true)
        } else {
            let changed = active != index;
            (index, Seq::empty(), changed, changed, Some((index, changed)), false)
        },
        Message::SelectNextProfile => {
            let next = if active == num_profiles - 1 {
                0
            } else {
                active + 1
            } as u8;
            (next, Seq::empty(), true, true, Some((next, num_profiles > 1)), false)
        },
        Message::SelectPreviousProfile => {
            let previous = if active == 0 {
                num_profiles - 1
            } else {
                active - 1
            } as u8;
            (previous, Seq::empty(), true, true, Some((previous, num_profiles > 1)), false)
        },
        Message::DisconnectActive => (active, Seq::empty(), true, false, None, false),
        Message::Clear { profile_index } => if profile_index >= num_profiles {
            (active, Seq::empty(), false, false, None, true)
        } else {
            let is_active = active == profile_index;
            (active, seq![profile_index], is_active, is_active, None, false)
        },
        Message::ClearActive => (active, seq![active], true, true, None, false),
        Message::ClearAll => (
            active,
            Seq::new(num_profiles as nat, |i: int| i as u8),
            true,
            true,
            None,
            false,
        ),
    }
}

/// Decides how the BLE transport reacts to `message` while `active` is the active profile of
/// `num_profiles` profiles.
pub fn handle_profile_message(active: u8, num_profiles: u8, message: Message) -> (r:
    ProfileReaction)
    requires
        num_profiles > 0,
        active < num_profiles,
    ensures
        (
            r.active_profile,
            r.clear_profiles@,
            r.disconnect,
            r.cancel_advertisement,
            r.switched_profile,
            r.rejected,
        ) == profile_reaction(active, num_profiles, message),
        r.active_profile < num_profiles,
{
    let mut r = ProfileReaction {
        active_profile: active,
        clear_profiles: Vec::new(),
        disconnect: false,
        cancel_advertisement: false,
        switched_profile: None,
        rejected: false,
    };
    match message {
        Message::SelectProfile { index } => {
            if index >= num_profiles {
                r.rejected = true;
            } else {
                let changed = active != index;
                if changed {
                    r.active_profile = index;
                    r.disconnect = true;
                    r.cancel_advertisement = true;
                }
                r.switched_profile = Some((index, changed));
            }
        },
        Message::SelectNextProfile => {
            let next = if active == num_profiles - 1 {
                0
            } else {
                active + 1
            };
            r.active_profile = next;
            r.disconnect = true;
            r.cancel_advertisement = true;
            r.switched_profile = Some((next, num_profiles > 1));
        },
        Message::SelectPreviousProfile => {
            let previous = if active == 0 {
                num_profiles - 1
            } else {
                active - 1
            };
            r.active_profile = previous;
            r.disconnect = true;
            r.cancel_advertisement = true;
            r.switched_profile = Some((previous, num_profiles > 1));
        },
        Message::DisconnectActive => {
            r.disconnect = true;
        },
        Message::Clear { profile_index } => {
            if profile_index >= num_profiles {
                r.rejected = true;
            } else {
                r.clear_profiles.push(profile_index);
                if active == profile_index {
                    r.disconnect = true;
                    r.cancel_advertisement = true;
                }
                proof {
                    assert(r.clear_profiles@ =~= seq![profile_index]);
                }
            }
        },
        Message::ClearActive => {
            r.clear_profiles.push(active);
            r.disconnect = true;
            r.cancel_advertisement = true;
            proof {
                assert(r.clear_profiles@ =~= seq![active]);
            }
        },
        Message::ClearAll => {
            let mut i: u8 = 0;
            while i < num_profiles
                invariant
                    i <= num_profiles,
                    active < num_profiles,
                    r.clear_profiles@ == Seq::new(i as nat, |j: int| j as u8),
                    r.active_profile == active,
                    !r.disconnect,
                    !r.cancel_advertisement,
                    r.switched_profile is None,
                    !r.rejected,
                decreases num_profiles - i,
            {
                r.clear_profiles.push(i);
                proof {
                    assert(r.clear_profiles@ =~= Seq::new((i + 1) as nat, |j: int| j as u8));
                }
                i += 1;
            }
            r.disconnect = true;
            r.cancel_advertisement = true;
        },
    }
    r
}

/// Removing the bond of the active profile (by `ClearActive`, `ClearAll`, or `Clear` of its index)
/// always drops the active connection and restarts the advertisement: the host whose bond is gone
/// does not stay connected.
pub proof fn law_clearing_active_bond_disconnects(active: u8, num_profiles: u8, message: Message)
    requires
        num_profiles > 0,
        active < num_profiles,
    ensures
        ({
            let r = profile_reaction(active, num_profiles, message);
            r.1.contains(active) ==> r.2 && r.3
        }),
        (message is ClearActive || message is ClearAll || message == (Message::Clear {
            profile_index: active,
        })) ==> profile_reaction(active, num_profiles, message).1.contains(active),
{
    let r = profile_reaction(active, num_profiles, message);
    match message {
        Message::ClearActive => {
            assert(r.1[0] == active);
        },
        Message::ClearAll => {
            assert(r.1[active as int] == active);
        },
        Message::Clear { profile_index } => {
            if r.1.contains(active) {
                assert(r.1[0] == profile_index);
            }
            if profile_index == active {
                assert(r.1[0] == active);
            }
        },
        _ => {},
    }
}

/// Switching to the next profile and then to the previous one leads back to the profile that was
/// active before, and the active profile always stays one of the profiles.
pub proof fn law_next_then_previous_profile(active: u8, num_profiles: u8)
    requires
        0 < num_profiles,
        active < num_profiles,
    ensures
        ({
            let next = profile_reaction(active, num_profiles, Message::SelectNextProfile).0;
            &&& next < num_profiles
            &&& profile_reaction(next, num_profiles, Message::SelectPreviousProfile).0 == active
        }),
{
}

/// Every message leaves a valid profile active.
pub proof fn law_active_profile_stays_valid(active: u8, num_profiles: u8, message: Message)
    requires
        0 < num_profiles,
        active < num_profiles,
    ensures
        profile_reaction(active, num_profiles, message).0 < num_profiles,
{
}

/// The security level of a bond.
#[derive(Debug, Clone, Copy, PartialEq, Eq, Structural)]
pub enum SecurityLevel {
    NoEncryption,
    Encrypted,
    EncryptedAuthenticated,
}

/// The identity of a bonded device: its address and, if it has one, its identity resolving key
/// (in little-endian byte order).
#[derive(Debug, Clone, Copy)]
pub struct Identity {
    pub bd_addr: [u8; 6],
    pub irk: Option<[u8; 16]>,
}

/// The information that is stored for a bond. The long-term key is kept in little-endian byte
/// order.
#[derive(Debug, Clone, Copy)]
pub struct BondInformation {
    pub identity: Identity,
    pub ltk: [u8; 16],
    pub security_level: SecurityLevel,
    pub is_bonded: bool,
}

/// A structure of the advertisement data.
#[derive(Debug, Clone, Copy, PartialEq, Eq, Structural)]
pub enum AdvertisementPart {
    /// The flags: general discoverable, BR/EDR not supported.
    Flags,
    /// The device's complete local name.
    CompleteLocalName,
    /// The 16-bit service UUIDs of the messages the device sends.
    ServiceUuids16Tx,
    /// The 16-bit service UUIDs of the messages the device receives.
    ServiceUuids16Rx,
    /// The 128-bit service UUIDs of the messages the device sends.
    ServiceUuids128Tx,
    /// The 128-bit service UUIDs of the messages the device receives.
    ServiceUuids128Rx,
}

/// `part` alone if `present`, and nothing otherwise.
pub open spec fn part_if(present: bool, part: AdvertisementPart) -> Seq<AdvertisementPart> {
    if present {
        seq![part]
    } else {
        Seq::empty()
    }
}

fn push_if(parts: &mut Vec<AdvertisementPart>, present: bool, part: AdvertisementPart)
    ensures
        final(parts)@ == old(parts)@ + part_if(present, part),
{
    if present {
        parts.push(part);
    }
    assert(parts@ =~= old(parts)@ + part_if(present, part));
}

/// The structures of the advertisement data, in order: the flags, the name, and each list of
/// service UUIDs that is not empty (`has_*` tells whether it has any).
pub fn advertisement_parts(
    has_uuids_16_tx: bool,
    has_uuids_16_rx: bool,
    has_uuids_128_tx: bool,
    has_uuids_128_rx: bool,
) -> (r: Vec<AdvertisementPart>)
    ensures
        r@ == seq![AdvertisementPart::Flags, AdvertisementPart::CompleteLocalName]
            + part_if(has_uuids_16_tx, AdvertisementPart::ServiceUuids16Tx)
            + part_if(has_uuids_16_rx, AdvertisementPart::ServiceUuids16Rx)
            + part_if(has_uuids_128_tx, AdvertisementPart::ServiceUuids128Tx)
            + part_if(has_uuids_128_rx, AdvertisementPart::ServiceUuids128Rx),
{
    let mut parts: Vec<AdvertisementPart> = Vec::new();
    parts.push(AdvertisementPart::Flags);
    parts.push(AdvertisementPart::CompleteLocalName);
    push_if(&mut parts, has_uuids_16_tx, AdvertisementPart::ServiceUuids16Tx);
    push_if(&mut parts, has_uuids_16_rx, AdvertisementPart::ServiceUuids16Rx);
    push_if(&mut parts, has_uuids_128_tx, AdvertisementPart::ServiceUuids128Tx);
    push_if(&mut parts, has_uuids_128_rx, AdvertisementPart::ServiceUuids128Rx);
    proof {
        assert(seq![AdvertisementPart::Flags, AdvertisementPart::CompleteLocalName] =~= seq![
            AdvertisementPart::Flags,
        ].push(AdvertisementPart::CompleteLocalName));
    }
    parts
}

/// The bond information of each profile, from what was fetched from storage for it: what was
/// found, and nothing where the fetch failed.
pub fn bond_slots<E>(fetched: Vec<Result<Option<BondInformation>, StorageError<E>>>) -> (r: Vec<
    Option<BondInformation>,
>)
    ensures
        r@.len() == fetched@.len(),
        forall|i: int|
            0 <= i < fetched@.len() ==> #[trigger] r@[i] == match fetched@[i] {
                Ok(stored) => stored,
                Err(_) => None,
            },
{
    let mut slots: Vec<Option<BondInformation>> = Vec::new();
    let mut i: usize = 0;
    while i < fetched.len()
        invariant
            i <= fetched@.len(),
            slots@.len() == i,
            forall|j: int|
                0 <= j < i ==> #[trigger] slots@[j] == match fetched@[j] {
                    Ok(stored) => stored,
                    Err(_) => None,
                },
        decreases fetched@.len() - i,
    {
        let slot = match &fetched[i] {
            Ok(stored) => *stored,
            Err(_) => None,
        };
        slots.push(slot);
        i += 1;
    }
    slots
}

/// The number of bytes of stored bond information.
pub const BOND_INFO_SIZE: usize = 40;

/// The storage tag of the bond information of a profile.
pub fn bond_info_tag(profile_index: u8) -> (r: [u8; 8])
    ensures
        r@ == seq![0x68u8, 0xb6, 0xa9, 0x22, 0xdc, 0xd9, 0xef, profile_index],
{
    let r = [0x68, 0xb6, 0xa9, 0x22, 0xdc, 0xd9, 0xef, profile_index];
    proof {
        assert(r@ =~= seq![0x68u8, 0xb6, 0xa9, 0x22, 0xdc, 0xd9, 0xef, profile_index]);
    }
    r
}

/// The byte of a security level.
pub open spec fn security_level_byte(level: SecurityLevel) -> u8 {
    match level {
        SecurityLevel::NoEncryption => 0,
        SecurityLevel::Encrypted => 1,
        SecurityLevel::EncryptedAuthenticated => 2,
    }
}

/// The 40 bytes of stored bond information: a flag byte (bit 0: there is an identity resolving
/// key, bit 1: bonded), the long-term key, the address, the identity resolving key (zeros if
/// there is none) and the security level.
pub open spec fn bond_info_bytes(info: BondInformation) -> Seq<u8> {
    seq![((if info.identity.irk is Some { 1u8 } else { 0u8 }) | (if info.is_bonded {
        2u8
    } else {
        0u8
    }))] + info.ltk@ + info.identity.bd_addr@ + match info.identity.irk {
        Some(irk) => irk@,
        None => Seq::new(16, |i: int| 0u8),
    } + seq![security_level_byte(info.security_level)]
}

/// Whether the 40 bytes `b` decode to `info`.
pub open spec fn bond_info_decodes_to(b: Seq<u8>, info: BondInformation) -> bool {
    &&& b.len() == 40
    &&& b[39] <= 2
    &&& security_level_byte(info.security_level) == b[39]
    &&& info.is_bonded == (b[0] & 2 != 0)
    &&& info.ltk@ == b.subrange(1, 17)
    &&& info.identity.bd_addr@ == b.subrange(17, 23)
    &&& (b[0] & 1 != 0) == info.identity.irk is Some
    &&& info.identity.irk matches Some(irk) ==> irk@ == b.subrange(23, 39)
}

fn copy_bytes<const N: usize>(bytes: &[u8; 40], start: usize) -> (r: [u8; N])
    requires
        start + N <= 40,
        N > 0,
    ensures
        r@ == bytes@.subrange(start as int, start + N),
{
    let mut r = [bytes[start]; N];
    let mut i: usize = 0;
    while i < N
        invariant
            i <= N,
            start + N <= 40,
            r@.len() == N,
            forall|j: int| 0 <= j < i ==> r@[j] == bytes@[start + j],
        decreases N - i,
    {
        r[i] = bytes[start + i];
        i += 1;
    }
    proof {
        assert(r@ =~= bytes@.subrange(start as int, start + N));
    }
    r
}

/// Deserializes stored bond information. Returns `None` for an unknown security level.
pub fn bond_info_from_bytes(bytes: &[u8; 40]) -> (r: Option<BondInformation>)
    ensures
        r is Some <==> bytes@[39] <= 2,
        r matches Some(info) ==> bond_info_decodes_to(bytes@, info),
{
    let has_irk = bytes[0] & 1 != 0;
    let is_bonded = bytes[0] & 2 != 0;
    let ltk: [u8; 16] = copy_bytes(bytes, 1);
    let bd_addr: [u8; 6] = copy_bytes(bytes, 17);
    let irk = if has_irk {
        let irk: [u8; 16] = copy_bytes(bytes, 23);
        Some(irk)
    } else {
        None
    };
    let security_level = if bytes[39] == 0 {
        SecurityLevel::NoEncryption
    } else if bytes[39] == 1 {
        SecurityLevel::Encrypted
    } else if bytes[39] == 2 {
        SecurityLevel::EncryptedAuthenticated
    } else {
        return None;
    };
    Some(BondInformation { identity: Identity { bd_addr, irk }, ltk, security_level, is_bonded })
}

/// Serializes bond information to its 40 bytes.
pub fn bond_info_to_bytes(info: &BondInformation) -> (r: [u8; 40])
    ensures
        r@ == bond_info_bytes(*info),
{
    let mut bytes = [0u8; 40];
    let irk_bit: u8 = if info.identity.irk.is_some() {
        1
    } else {
        0
    };
    let bonded_bit: u8 = if info.is_bonded {
        2
    } else {
        0
    };
    bytes[0] = irk_bit | bonded_bit;
    let mut i: usize = 0;
    while i < 16
        invariant
            i <= 16,
            bytes@.len() == 40,
            bytes@[0] == irk_bit | bonded_bit,
            forall|j: int| 0 <= j < i ==> bytes@[1 + j] == info.ltk@[j],
            forall|j: int| 17 <= j < 40 ==> bytes@[j] == 0,
        decreases 16 - i,
    {
        bytes[1 + i] = info.ltk[i];
        i += 1;
    }
    let mut i: usize = 0;
    while i < 6
        invariant
            i <= 6,
            bytes@.len() == 40,
            bytes@[0] == irk_bit | bonded_bit,
            forall|j: int| 0 <= j < 16 ==> bytes@[1 + j] == info.ltk@[j],
            forall|j: int| 0 <= j < i ==> bytes@[17 + j] == info.identity.bd_addr@[j],
            forall|j: int| 23 <= j < 40 ==> bytes@[j] == 0,
        decreases 6 - i,
    {
        bytes[17 + i] = info.identity.bd_addr[i];
        i += 1;
    }
    if let Some(irk) = &info.identity.irk {
        let mut i: usize = 0;
        while i < 16
            invariant
                i <= 16,
                bytes@.len() == 40,
                bytes@[0] == irk_bit | bonded_bit,
                forall|j: int| 0 <= j < 16 ==> bytes@[1 + j] == info.ltk@[j],
                forall|j: int| 0 <= j < 6 ==> bytes@[17 + j] == info.identity.bd_addr@[j],
                forall|j: int| 0 <= j < i ==> bytes@[23 + j] == irk@[j],
                forall|j: int| 23 + i <= j < 40 ==> bytes@[j] == 0,
            decreases 16 - i,
        {
            bytes[23 + i] = irk[i];
            i += 1;
        }
    }
    bytes[39] = match info.security_level {
        SecurityLevel::NoEncryption => 0,
        SecurityLevel::Encrypted => 1,
        SecurityLevel::EncryptedAuthenticated => 2,
    };
    proof {
        assert(bytes@ =~= bond_info_bytes(*info));
    }
    bytes
}

/// Deserializing the stored bytes of bond information gives back the same bond information.
pub proof fn law_bond_info_roundtrip(info: BondInformation)
    ensures
        bond_info_decodes_to(bond_info_bytes(info), info),
{
    let b = bond_info_bytes(info);
    let i: u8 = if info.identity.irk is Some {
        1u8
    } else {
        0u8
    };
    let k: u8 = if info.is_bonded {
        2u8
    } else {
        0u8
    };
    assert(((i | k) & 2 != 0) == (k == 2) && ((i | k) & 1 != 0) == (i == 1)) by (bit_vector)
        requires
            i == 0 || i == 1,
            k == 0 || k == 2,
    ;
    assert(b.subrange(1, 17) =~= info.ltk@);
    assert(b.subrange(17, 23) =~= info.identity.bd_addr@);
    if let Some(irk) = info.identity.irk {
        assert(b.subrange(23, 39) =~= irk@);
    }
}

/// What to do with the bond of a completed pairing, given the bond stored for the profile.
#[derive(Debug, Clone, Copy, PartialEq, Eq, Structural)]
pub enum BondDecision {
    /// The long-term key differs from the stored one: the connection is dropped.
    Reject,
    /// The bond is stored: there is none yet, or the address changed.
    Store,
    /// The stored bond stays as it is.
    Keep,
}

fn same_bytes<const N: usize>(a: &[u8; N], b: &[u8; N]) -> (r: bool)
    ensures
        r == (a@ == b@),
{
    let mut i: usize = 0;
    while i < N
        invariant
            i <= N,
            a@.len() == N,
            b@.len() == N,
            forall|j: int| 0 <= j < i ==> a@[j] == b@[j],
        decreases N - i,
    {
        if a[i] != b[i] {
            return false;
        }
        i += 1;
    }
    proof {
        assert(a@ =~= b@);
    }
    true
}

/// What happens with the bond of a completed pairing, given the bond stored for the profile.
pub open spec fn pairing_decision_spec(stored: Option<BondInformation>, bond: BondInformation) -> BondDecision {
    match stored {
        Some(s) => if s.ltk@ != bond.ltk@ {
            BondDecision::Reject
        } else if s.identity.bd_addr@ != bond.identity.bd_addr@ {
            BondDecision::Store
        } else {
            BondDecision::Keep
        },
        None => BondDecision::Store,
    }
}

/// Decides what happens with the bond of a completed pairing, given the bond stored for the
/// active profile.
pub fn pairing_decision(stored: &Option<BondInformation>, bond: &BondInformation) -> (r:
    BondDecision)
    ensures
        r == pairing_decision_spec(*stored, *bond),
{
    match stored {
        Some(s) => {
            if !same_bytes(&s.ltk, &bond.ltk) {
                BondDecision::Reject
            } else if !same_bytes(&s.identity.bd_addr, &bond.identity.bd_addr) {
                BondDecision::Store
            } else {
                BondDecision::Keep
            }
        },
        None => BondDecision::Store,
    }
}

/// Whether the advertisement for a profile is scannable: the profile has no bond yet.
pub fn advertise_scannable(stored: &Option<BondInformation>) -> (r: bool)
    ensures
        r == stored is None,
{
    stored.is_none()
}


/// The GATT system attributes (such as which notifications a host enabled) stored with a bond:
/// the first `length` bytes of `data`.
#[derive(Debug, Clone, Copy)]
pub struct SystemAttribute {
    pub length: usize,
    pub data: [u8; 62],
}

impl SystemAttribute {
    /// No stored attributes.
    pub fn new() -> (r: Self)
        ensures
            r.length == 0,
            r.data@ == Seq::new(62, |i: int| 0u8),
    {
        SystemAttribute { length: 0, data: [0; 62] }
    }

    /// The stored attributes.
    pub open spec fn bytes(self) -> Seq<u8> {
        self.data@.take(self.length as int)
    }
}

/// The system attributes to store when a connection ends and the connection's attributes are
/// `current`: the new attributes if they differ from the stored ones, nothing if they are the
/// same.
pub fn sys_attrs_to_store(stored: &SystemAttribute, current: &[u8]) -> (r: Option<SystemAttribute>)
    requires
        stored.length <= 62,
        current@.len() <= 62,
    ensures
        (stored.bytes() == current@) ==> r.is_none(),
        (stored.bytes() != current@) ==> (r matches Some(a) && a.length == current@.len()
            && a.bytes() == current@ && a.data@.skip(current@.len() as int) == stored.data@.skip(
            current@.len() as int,
        )),
{
    let length = current.len();
    let mut same = stored.length == length;
    if same {
        let mut i: usize = 0;
        while i < length
            invariant
                i <= length,
                length == current@.len(),
                stored.length == length,
                length <= 62,
                stored.data@.len() == 62,
                same == forall|j: int| 0 <= j < i ==> stored.data@[j] == current@[j],
            decreases length - i,
        {
            if stored.data[i] != current[i] {
                same = false;
            }
            i += 1;
        }
        proof {
            if same {
                assert(stored.bytes() =~= current@);
            } else {
                let j = choose|j: int| 0 <= j < length && stored.data@[j] != current@[j];
                assert(stored.bytes()[j] != current@[j]);
            }
        }
    }
    if same {
        None
    } else {
        let mut updated = *stored;
        let mut i: usize = 0;
        while i < length
            invariant
                i <= length,
                length == current@.len(),
                length <= 62,
                updated.data@.len() == 62,
                stored.data@.len() == 62,
                forall|j: int| 0 <= j < i ==> updated.data@[j] == current@[j],
                forall|j: int| i <= j < 62 ==> updated.data@[j] == stored.data@[j],
            decreases length - i,
        {
            updated.data[i] = current[i];
            i += 1;
        }
        updated.length = length;
        proof {
            assert(updated.bytes() =~= current@);
            assert(updated.data@.skip(length as int) =~= stored.data@.skip(length as int));
        }
        Some(updated)
    }
}

/// The system attributes to hand to a new connection: the stored ones if there are any and the
/// connected host is the bonded one.
pub fn sys_attrs_to_load(stored: &SystemAttribute, peer_matches: bool) -> (r: Option<Vec<u8>>)
    requires
        stored.length <= 62,
    ensures
        (stored.length != 0 && peer_matches) ==> (r matches Some(bytes) && bytes@ == stored.bytes()),
        !(stored.length != 0 && peer_matches) ==> r.is_none(),
{
    if stored.length != 0 && peer_matches {
        let mut bytes: Vec<u8> = Vec::new();
        let mut i: usize = 0;
        while i < stored.length
            invariant
                i <= stored.length <= 62,
                stored.data@.len() == 62,
                bytes@ == stored.data@.take(i as int),
            decreases stored.length - i,
        {
            bytes.push(stored.data[i]);
            proof {
                assert(stored.data@.take(i as int + 1) =~= stored.data@.take(i as int).push(
                    stored.data@[i as int],
                ));
            }
            i += 1;
        }
        Some(bytes)
    } else {
        None
    }
}


/// The bond information of a profile as a storage entry: tagged by the profile index, 40 bytes.
impl Entry for BondInformation {
    type TagParams = u8;

    fn size() -> (r: usize)
        ensures
            r == BOND_INFO_SIZE,
    {
        BOND_INFO_SIZE
    }

    fn tag(params: u8) -> (r: [u8; ENTRY_TAG_SIZE])
        ensures
            r@ == seq![0x68u8, 0xb6, 0xa9, 0x22, 0xdc, 0xd9, 0xef, params],
    {
        bond_info_tag(params)
    }

    /// `None` unless there are 40 bytes with a known security level.
    fn from_bytes(bytes: &[u8]) -> (r: Option<Self>)
        ensures
            r is Some <==> (bytes@.len() == BOND_INFO_SIZE && bytes@[39] <= 2),
            r matches Some(info) ==> bond_info_decodes_to(bytes@, info),
    {
        if bytes.len() != BOND_INFO_SIZE {
            return None;
        }
        let mut array = [0u8; 40];
        let mut i: usize = 0;
        while i < 40
            invariant
                i <= 40,
                bytes@.len() == 40,
                array@.len() == 40,
                forall|j: int| 0 <= j < i ==> array@[j] == bytes@[j],
            decreases 40 - i,
        {
            array[i] = bytes[i];
            i += 1;
        }
        proof {
            assert(array@ =~= bytes@);
        }
        bond_info_from_bytes(&array)
    }

    fn to_bytes(&self) -> (r: Vec<u8>)
        ensures
            r@ == bond_info_bytes(*self),
    {
        let array = bond_info_to_bytes(self);
        let mut bytes: Vec<u8> = Vec::new();
        let mut i: usize = 0;
        while i < 40
            invariant
                i <= 40,
                array@.len() == 40,
                bytes@ == array@.take(i as int),
            decreases 40 - i,
        {
            bytes.push(array[i]);
            proof {
                assert(array@.take(i as int + 1) =~= array@.take(i as int).push(array@[i as int]));
            }
            i += 1;
        }
        proof {
            assert(array@.take(40) =~= array@);
        }
        bytes
    }
}


/// Where the connection of the BLE transport stands.
#[derive(Debug, Clone, Copy)]
pub enum LinkPhase {
    /// Neither advertising nor connected.
    Idle,
    /// Advertising for the active profile; scannable when the profile has no bond yet.
    Advertising { scannable: bool },
    /// Connected to the host with the address.
    Connected { peer: Address },
}

/// How an advertisement ended.
#[derive(Debug, Clone, Copy)]
pub enum AdvertisingOutcome {
    /// Advertising or accepting the connection failed.
    Failed,
    /// The advertisement was cancelled (the profile changed or the transport was switched off).
    Cancelled,
    /// A host connected, but the GATT server could not be attached to the connection.
    ServerFailed { peer: Address },
    /// A host with the address connected.
    Connected { peer: Address },
}

/// The connection of the BLE transport: advertising, connecting, pairing and disconnecting, with
/// the events that each step reports.
pub struct BleLink {
    phase: LinkPhase,
}

impl BleLink {
    /// Where the connection stands.
    pub closed spec fn phase(&self) -> LinkPhase {
        self.phase
    }

    /// A link that is neither advertising nor connected.
    pub fn new() -> (r: Self)
        ensures
            r.phase() is Idle,
    {
        BleLink { phase: LinkPhase::Idle }
    }

    /// Starts advertising for a profile with the stored bond `stored`; the advertisement is
    /// scannable when there is none.
    pub fn start_advertising(&mut self, stored: &Option<BondInformation>) -> (r: Event)
        ensures
            final(self).phase() == (LinkPhase::Advertising { scannable: stored.is_none() }),
            r == (Event::StartedAdvertising { scannable: stored.is_none() }),
    {
        let scannable = advertise_scannable(stored);
        self.phase = LinkPhase::Advertising { scannable };
        Event::StartedAdvertising { scannable }
    }

    /// The advertisement ended: the stop is reported with the advertisement's scannability, and a
    /// connection to which the GATT server was attached is reported as well.
    pub fn advertising_ended(&mut self, outcome: AdvertisingOutcome) -> (r: Vec<Event>)
        requires
            old(self).phase() is Advertising,
        ensures
            ({
                let scannable = old(self).phase()->scannable;
                match outcome {
                    AdvertisingOutcome::Connected { peer } => {
                        &&& final(self).phase() == (LinkPhase::Connected { peer })
                        &&& r@ == seq![
                            Event::StoppedAdvertising { scannable },
                            Event::Connected { device_address: peer },
                        ]
                    },
                    _ => {
                        &&& final(self).phase() is Idle
                        &&& r@ == seq![Event::StoppedAdvertising { scannable }]
                    },
                }
            }),
    {
        let scannable = match self.phase {
            LinkPhase::Advertising { scannable } => scannable,
            _ => false,
        };
        let mut events: Vec<Event> = Vec::new();
        events.push(Event::StoppedAdvertising { scannable });
        match outcome {
            AdvertisingOutcome::Connected { peer } => {
                self.phase = LinkPhase::Connected { peer };
                events.push(Event::Connected { device_address: peer });
            },
            _ => {
                self.phase = LinkPhase::Idle;
            },
        }
        events
    }

    /// The connection ended: the disconnection is reported twice, once when the connection loop
    /// notices it and once when it leaves.
    pub fn connection_ended(&mut self) -> (r: Vec<Event>)
        requires
            old(self).phase() is Connected,
        ensures
            final(self).phase() is Idle,
            ({
                let peer = old(self).phase()->peer;
                r@ == seq![
                    Event::Disconnected { device_address: peer },
                    Event::Disconnected { device_address: peer },
                ]
            }),
    {
        let peer = match self.phase {
            LinkPhase::Connected { peer } => peer,
            _ => Address([0; 6]),
        };
        self.phase = LinkPhase::Idle;
        let mut events: Vec<Event> = Vec::new();
        events.push(Event::Disconnected { device_address: peer });
        events.push(Event::Disconnected { device_address: peer });
        events
    }

    /// A pairing completed with `bond` while `stored` is the bond of the active profile. A bond
    /// whose key differs from the stored one ends the connection.
    pub fn pairing_complete(&mut self, stored: &Option<BondInformation>, bond: &BondInformation) -> (r: (
        BondDecision,
        Vec<Event>,
    ))
        requires
            old(self).phase() is Connected,
        ensures
            r.0 == pairing_decision_spec(*stored, *bond),
            r.0 is Reject ==> {
                let peer = old(self).phase()->peer;
                &&& final(self).phase() is Idle
                &&& r.1@ == seq![
                    Event::Disconnected { device_address: peer },
                    Event::Disconnected { device_address: peer },
                ]
            },
            !(r.0 is Reject) ==> {
                &&& final(self).phase() == old(self).phase()
                &&& r.1@.len() == 0
            },
    {
        let decision = pairing_decision(stored, bond);
        match decision {
            BondDecision::Reject => (decision, self.connection_ended()),
            _ => (decision, Vec::new()),
        }
    }
}

/// Whether a GATT request on a connection with the given security is served: only on an
/// encrypted connection; an unknown security level counts as unencrypted.
pub fn accepts_gatt_request(encrypted: Option<bool>) -> (r: bool)
    ensures
        r == (encrypted == Some(true)),
{
    match encrypted {
        Some(v) => v,
        None => false,
    }
}

} // verus!
