//! Incident statistics: how often each kind of incident occurred.

use vstd::prelude::*;

verus! {

/// A count of incidents of one kind.
#[derive(Debug, Clone)]
pub struct IncidentStats {
    pub kind: String,
    pub count: i32,
}

impl IncidentStats {
    /// The kind of incident counted.
    pub fn kind(&self) -> (r: &str)
        ensures
            r@ == self.kind@,
    {
        self.kind.as_str()
    }

    /// How many incidents of this kind occurred.
    pub fn count(&self) -> (r: i32)
        ensures
            r == self.count,
    {
        self.count
    }
}

} // verus!
