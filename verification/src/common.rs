//! Identity of stored records: every record type names its id type and can
//! read, set and mint ids.

use vstd::prelude::*;

verus! {

/// A record type with an identifying key.
pub trait HasId {
    type Id;

    /// The identifying key of this record.
    spec fn spec_id(&self) -> Self::Id;
}

/// Read access to the id.
pub trait GetId: HasId {
    fn id(&self) -> (r: &Self::Id)
        ensures
            *r == self.spec_id(),
    ;
}

/// Write access to the id.
pub trait SetId: HasId {
    fn set_id(&mut self, id: Self::Id)
        ensures
            final(self).spec_id() == id,
    ;
}

/// Minting fresh ids; usually random, so nothing is promised of the value.
pub trait NewId: HasId {
    fn new_id() -> Self::Id;
}

} // verus!
