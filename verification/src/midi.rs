//! MIDI cable numbers.
use vstd::prelude::*;

verus! {

/// A USB MIDI cable number, 0 to 15.
#[derive(Debug, Clone, Copy, PartialEq, Eq, Structural)]
pub enum CableNumber {
    Cable0,
    Cable1,
    Cable2,
    Cable3,
    Cable4,
    Cable5,
    Cable6,
    Cable7,
    Cable8,
    Cable9,
    Cable10,
    Cable11,
    Cable12,
    Cable13,
    Cable14,
    Cable15,
}

/// The number of the cable.
pub open spec fn cable_value(cable: CableNumber) -> u8 {
    match cable {
        CableNumber::Cable0 => 0,
        CableNumber::Cable1 => 1,
        CableNumber::Cable2 => 2,
        CableNumber::Cable3 => 3,
        CableNumber::Cable4 => 4,
        CableNumber::Cable5 => 5,
        CableNumber::Cable6 => 6,
        CableNumber::Cable7 => 7,
        CableNumber::Cable8 => 8,
        CableNumber::Cable9 => 9,
        CableNumber::Cable10 => 10,
        CableNumber::Cable11 => 11,
        CableNumber::Cable12 => 12,
        CableNumber::Cable13 => 13,
        CableNumber::Cable14 => 14,
        CableNumber::Cable15 => 15,
    }
}

impl CableNumber {
    /// The number of the cable.
    pub fn value(&self) -> (r: u8)
        ensures
            r == cable_value(*self),
            r < 16,
    {
        match self {
            CableNumber::Cable0 => 0,
            CableNumber::Cable1 => 1,
            CableNumber::Cable2 => 2,
            CableNumber::Cable3 => 3,
            CableNumber::Cable4 => 4,
            CableNumber::Cable5 => 5,
            CableNumber::Cable6 => 6,
            CableNumber::Cable7 => 7,
            CableNumber::Cable8 => 8,
            CableNumber::Cable9 => 9,
            CableNumber::Cable10 => 10,
            CableNumber::Cable11 => 11,
            CableNumber::Cable12 => 12,
            CableNumber::Cable13 => 13,
            CableNumber::Cable14 => 14,
            CableNumber::Cable15 => 15,
        }
    }

    /// The cable with the number `value`; `None` for a number above 15.
    pub fn from_value(value: u8) -> (r: Option<Self>)
        ensures
            value < 16 <==> r.is_some(),
            r matches Some(c) ==> cable_value(c) == value,
    {
        match value {
            0 => Some(CableNumber::Cable0),
            1 => Some(CableNumber::Cable1),
            2 => Some(CableNumber::Cable2),
            3 => Some(CableNumber::Cable3),
            4 => Some(CableNumber::Cable4),
            5 => Some(CableNumber::Cable5),
            6 => Some(CableNumber::Cable6),
            7 => Some(CableNumber::Cable7),
            8 => Some(CableNumber::Cable8),
            9 => Some(CableNumber::Cable9),
            10 => Some(CableNumber::Cable10),
            11 => Some(CableNumber::Cable11),
            12 => Some(CableNumber::Cable12),
            13 => Some(CableNumber::Cable13),
            14 => Some(CableNumber::Cable14),
            15 => Some(CableNumber::Cable15),
            _ => None,
        }
    }
}

impl Default for CableNumber {
    /// Cable 0.
    fn default() -> (r: Self)
        ensures
            r == CableNumber::Cable0,
    {
        CableNumber::Cable0
    }
}

/// Distinct cables have distinct numbers, so a cable is given back by its number.
pub proof fn law_cable_value_roundtrip(a: CableNumber, b: CableNumber)
    ensures
        cable_value(a) == cable_value(b) ==> a == b,
{
}

} // verus!
