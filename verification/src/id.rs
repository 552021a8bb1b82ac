//! Opaque 128-bit identifiers drawn at random.

use vstd::prelude::*;

verus! {

/// A random 128-bit identifier.
#[derive(Debug, Clone, Copy, PartialEq, Eq, Hash, Structural)]
pub struct GenericId {
    pub id: u128,
}

impl GenericId {
    /// A freshly drawn identifier.
    pub fn new() -> Self {
        Self { id: rand::random::<u128>() }
    }

    /// The identifier holding exactly this value.
    pub fn from_int(id: u128) -> (r: Self)
        ensures
            r.id == id,
    {
        Self { id }
    }

    /// The value of the identifier.
    pub fn to_int(&self) -> (r: u128)
        ensures
            r == self.id,
    {
        self.id
    }
}

} // verus!
