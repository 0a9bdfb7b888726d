//! Identification of a device.
use vstd::prelude::*;

verus! {

/// The address of a device.
#[derive(Debug, Clone, Copy)]
pub struct Address(pub [u8; 6]);

impl Address {
    /// Whether two addresses are equal: they have the same bytes.
    pub fn same_as(&self, other: &Address) -> (r: bool)
        ensures
            r == (self.0@ == other.0@),
    {
        let mut i: usize = 0;
        while i < 6
            invariant
                i <= 6,
                self.0@.len() == 6,
                other.0@.len() == 6,
                forall|j: int| 0 <= j < i ==> self.0@[j] == other.0@[j],
            decreases 6 - i,
        {
            if self.0[i] != other.0[i] {
                return false;
            }
            i += 1;
        }
        proof {
            assert(self.0@ =~= other.0@);
        }
        true
    }
}

} // verus!
