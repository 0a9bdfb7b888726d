//! Messages between the halves of a split keyboard over BLE: raw bytes in a GATT characteristic.
use vstd::prelude::*;

verus! {

/// The smallest value of the characteristic, in bytes.
pub const MIN_SIZE: usize = 0;

/// The largest value of the characteristic, in bytes.
pub const MAX_SIZE: usize = 128;

/// The bytes of a message between the halves.
pub struct Message(Vec<u8>);

impl Message {
    /// The bytes of the message.
    pub closed spec fn bytes(&self) -> Seq<u8> {
        self.0@
    }

    /// The message with the bytes of a characteristic value.
    pub fn from_gatt(data: &[u8]) -> (r: Self)
        ensures
            r.bytes() == data@,
    {
        let mut bytes: Vec<u8> = Vec::new();
        let mut i: usize = 0;
        while i < data.len()
            invariant
                i <= data@.len(),
                bytes@ == data@.take(i as int),
            decreases data@.len() - i,
        {
            bytes.push(data[i]);
            proof {
                assert(data@.take(i as int + 1) == data@.take(i as int).push(data@[i as int]));
            }
            i += 1;
        }
        proof {
            assert(data@.take(data@.len() as int) == data@);
        }
        Message(bytes)
    }

    /// The characteristic value of the message.
    pub fn to_gatt(&self) -> (r: &[u8])
        ensures
            r@ == self.bytes(),
    {
        self.0.as_slice()
    }

    /// The message with the given bytes, as the transport sends them.
    pub fn from_bytes(bytes: Vec<u8>) -> (r: Self)
        ensures
            r.bytes() == bytes@,
    {
        Message(bytes)
    }

    /// The bytes of the message, as the transport hands them on.
    pub fn into_bytes(self) -> (r: Vec<u8>)
        ensures
            r@ == self.bytes(),
    {
        self.0
    }
}

} // verus!
