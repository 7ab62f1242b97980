//! Driver sandboxes, locked down until access is granted explicitly.
use vstd::prelude::*;
use crate::common::{owned, ObjectId};

verus! {

#[derive(Debug, Clone)]
pub struct Sandbox {
    pub id: ObjectId,
    pub name: String,
    pub isolated_resources: bool,
    pub network_access: bool,
    pub filesystem_access: bool,
}

/// Isolated, and neither network nor filesystem access.
pub open spec fn locked_down(s: Sandbox) -> bool {
    s.isolated_resources && !s.network_access && !s.filesystem_access
}

impl Sandbox {
    /// A fully locked-down sandbox named `name` with a fresh identity.
    pub fn new(name: &str) -> (s: Sandbox)
        ensures
            s.id.value != 0,
            s.name@ == name@,
            locked_down(s),
    {
        Sandbox {
            id: ObjectId::new(),
            name: owned(name),
            isolated_resources: true,
            network_access: false,
            filesystem_access: false,
        }
    }

    pub fn allow_network(self) -> (s: Sandbox)
        ensures
            s == (Sandbox { network_access: true, ..self }),
    {
        let mut s = self;
        s.network_access = true;
        s
    }

    pub fn allow_filesystem(self) -> (s: Sandbox)
        ensures
            s == (Sandbox { filesystem_access: true, ..self }),
    {
        let mut s = self;
        s.filesystem_access = true;
        s
    }

    pub fn is_fully_locked_down(&self) -> (b: bool)
        ensures
            b == locked_down(*self),
    {
        self.isolated_resources && !self.network_access && !self.filesystem_access
    }
}

} // verus!
