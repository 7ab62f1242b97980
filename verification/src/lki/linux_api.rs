//! The table of Linux APIs a driver may call through the interface.
use vstd::prelude::*;
use crate::common::{owned, Error, ObjectId, Result};
use crate::keyed::str_eq;

verus! {

/// The API names every interface supports, in order.
pub open spec fn default_apis() -> Seq<Seq<char>> {
    seq!["kmalloc"@, "kzalloc"@, "vmalloc"@, "kfree"@, "request_irq"@, "pci_driver_register"@]
}

#[derive(Debug, Clone)]
pub struct LinuxKernelInterface {
    pub driver_id: ObjectId,
    pub supported_apis: Vec<String>,
}

impl LinuxKernelInterface {
    pub open spec fn api_names(&self) -> Seq<Seq<char>> {
        self.supported_apis@.map_values(|s: String| s@)
    }

    /// An interface for `driver_id` supporting the default APIs.
    pub fn new(driver_id: ObjectId) -> (k: LinuxKernelInterface)
        ensures
            k.driver_id == driver_id,
            k.api_names() == default_apis(),
    {
        let mut apis: Vec<String> = Vec::new();
        apis.push(owned("kmalloc"));
        apis.push(owned("kzalloc"));
        apis.push(owned("vmalloc"));
        apis.push(owned("kfree"));
        apis.push(owned("request_irq"));
        apis.push(owned("pci_driver_register"));
        let k = LinuxKernelInterface { driver_id, supported_apis: apis };
        assert(k.api_names() =~= default_apis());
        k
    }

    /// Whether `api_name` is one of the supported APIs.
    pub fn supports_api(&self, api_name: &str) -> (b: bool)
        ensures
            b == self.api_names().contains(api_name@),
    {
        let mut i: usize = 0;
        while i < self.supported_apis.len()
            invariant
                i <= self.supported_apis@.len(),
                forall|j: int| 0 <= j < i ==> self.supported_apis@[j]@ != api_name@,
            decreases self.supported_apis@.len() - i,
        {
            if str_eq(self.supported_apis[i].as_str(), api_name) {
                assert(self.api_names()[i as int] == api_name@);
                return true;
            }
            i = i + 1;
        }
        assert(!self.api_names().contains(api_name@)) by {
            if self.api_names().contains(api_name@) {
                let j = choose|j: int| 0 <= j < self.api_names().len() && self.api_names()[j] == api_name@;
                assert(self.supported_apis@[j]@ == api_name@);
            }
        }
        false
    }

    /// `Ok("Translated: <name>")` for a supported API, otherwise
    /// `Error::Driver("Unsupported API: <name>")`. The arguments are not
    /// inspected.
    pub fn call_api(&self, api_name: &str, _args: Vec<String>) -> (r: Result<String>)
        ensures
            self.api_names().contains(api_name@) ==> (r matches Ok(s) && s@ == "Translated: "@ + api_name@),
            !self.api_names().contains(api_name@) ==> (r matches Err(Error::Driver(m))
                && m@ == "Unsupported API: "@ + api_name@),
    {
        if self.supports_api(api_name) {
            Ok(owned("Translated: ").concat(api_name))
        } else {
            Err(Error::Driver(owned("Unsupported API: ").concat(api_name)))
        }
    }
}

} // verus!
