//! Sandbox bring-up for a driver loading on first access.
use vstd::prelude::*;
use crate::security::isolation::{locked_down, Sandbox};

verus! {

/// A fresh, fully locked-down sandbox for `driver_name`.
pub fn init(driver_name: &str) -> (s: Sandbox)
    ensures
        s.id.value != 0,
        s.name@ == driver_name@,
        locked_down(s),
{
    Sandbox::new(driver_name)
}

} // verus!
