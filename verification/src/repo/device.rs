//! Devices: equipment owned by a person.

use crate::common::{GetId, HasId};
use vstd::prelude::*;

verus! {

/// A device and the person it belongs to.
#[derive(Debug, Clone)]
pub struct Device {
    pub id: String,
    pub owner_id: String,
}

impl HasId for Device {
    type Id = String;

    open spec fn spec_id(&self) -> String {
        self.id
    }
}

impl GetId for Device {
    fn id(&self) -> (r: &String)
        ensures
            *r == self.spec_id(),
    {
        &self.id
    }
}

/// Filter for listing devices.
#[derive(Debug, Clone)]
pub struct DeviceFilter {
    pub owner_ids: Option<Vec<String>>,
}

impl Default for DeviceFilter {
    fn default() -> (r: Self)
        ensures
            r.owner_ids is None,
    {
        DeviceFilter { owner_ids: None }
    }
}

} // verus!
