//! Device identity.

use vstd::prelude::*;

verus! {

/// A device of one node, by its ordinal.
#[derive(Clone, Copy, Debug, Hash, PartialEq, Eq, Structural)]
pub struct DeviceId(pub u32);

impl DeviceId {
    #[must_use]
    pub fn new(value: u32) -> (r: Self)
        ensures
            r.0 == value,
    {
        DeviceId(value)
    }

    #[must_use]
    pub fn get(self) -> (r: u32)
        ensures
            r == self.0,
    {
        self.0
    }
}

} // verus!
