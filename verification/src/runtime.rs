//! On-demand service loading: services are registered up front and loaded
//! the first time they are needed.
use vstd::prelude::*;
use crate::common::{owned, Error, Result};
use crate::keyed::{str_eq, VecMap};

verus! {

pub struct ServiceDescriptor {
    pub name: String,
    pub required_for: Vec<String>,
    pub lazy: bool,
}

pub struct ServiceRegistry {
    services: VecMap<String, ServiceDescriptor>,
    loaded: Vec<String>,
}

/// Whether `name` is among the texts of `s`.
pub open spec fn names_contain(s: Seq<String>, name: Seq<char>) -> bool {
    exists|i: int| 0 <= i < s.len() && (#[trigger] s[i])@ == name
}

impl Default for ServiceRegistry {
    fn default() -> (r: ServiceRegistry)
        ensures
            r.wf(),
            r.services_view() == Map::<Seq<char>, ServiceDescriptor>::empty(),
            r.loaded_view().len() == 0,
    {
        ServiceRegistry::new()
    }
}

impl ServiceRegistry {
    pub closed spec fn wf(&self) -> bool {
        self.services.wf()
    }

    /// Registered services by name.
    pub closed spec fn services_view(&self) -> Map<Seq<char>, ServiceDescriptor> {
        self.services@
    }

    /// Loaded services, in load order.
    pub closed spec fn loaded_view(&self) -> Seq<String> {
        self.loaded@
    }

    pub fn new() -> (r: ServiceRegistry)
        ensures
            r.wf(),
            r.services_view() == Map::<Seq<char>, ServiceDescriptor>::empty(),
            r.loaded_view().len() == 0,
    {
        ServiceRegistry { services: VecMap::new(), loaded: Vec::new() }
    }

    /// Register `descriptor` under its name (replacing an older one).
    pub fn register(&mut self, descriptor: ServiceDescriptor)
        requires
            old(self).wf(),
        ensures
            final(self).wf(),
            final(self).services_view() == old(self).services_view().insert(descriptor.name@, descriptor),
            final(self).loaded_view() == old(self).loaded_view(),
    {
        let key = descriptor.name.clone();
        self.services.insert(key, descriptor);
    }

    /// Load service `name`: nothing to do when already loaded; otherwise it
    /// must be registered (else `Error::Unknown("Service not found: name")`)
    /// and is appended to the loaded list.
    pub fn load_service(&mut self, name: &str) -> (r: Result<()>)
        requires
            old(self).wf(),
        ensures
            final(self).wf(),
            final(self).services_view() == old(self).services_view(),
            names_contain(old(self).loaded_view(), name@) ==> r.is_ok() && final(self).loaded_view() == old(self).loaded_view(),
            !names_contain(old(self).loaded_view(), name@) && old(self).services_view().contains_key(name@) ==> r.is_ok()
                && final(self).loaded_view().len() == old(self).loaded_view().len() + 1
                && final(self).loaded_view().drop_last() == old(self).loaded_view()
                && final(self).loaded_view().last()@ == name@,
            !names_contain(old(self).loaded_view(), name@) && !old(self).services_view().contains_key(name@) ==>
                (r matches Err(Error::Unknown(m)) && m@ == "Service not found: "@ + name@)
                && final(self).loaded_view() == old(self).loaded_view(),
    {
        if self.is_loaded(name) {
            return Ok(());
        }
        if self.services.contains_key(&owned(name)) {
            self.loaded.push(owned(name));
            assert(self.loaded@.drop_last() =~= old(self).loaded@);
            Ok(())
        } else {
            Err(Error::Unknown(owned("Service not found: ").concat(name)))
        }
    }

    pub fn is_loaded(&self, name: &str) -> (b: bool)
        ensures
            b == names_contain(self.loaded_view(), name@),
    {
        let mut i: usize = 0;
        while i < self.loaded.len()
            invariant
                i <= self.loaded@.len(),
                forall|j: int| 0 <= j < i ==> (#[trigger] self.loaded@[j])@ != name@,
            decreases self.loaded@.len() - i,
        {
            if str_eq(self.loaded[i].as_str(), name) {
                return true;
            }
            i = i + 1;
        }
        false
    }

    pub fn loaded_services(&self) -> (r: &[String])
        ensures
            r@ == self.loaded_view(),
    {
        self.loaded.as_slice()
    }

    pub fn is_registered(&self, name: &str) -> (b: bool)
        requires
            self.wf(),
        ensures
            b == self.services_view().contains_key(name@),
    {
        self.services.contains_key(&owned(name))
    }
}

/// A service that has been loaded counts as loaded, so loading it again
/// leaves the loaded list as it is: `after` is the list a successful first
/// load of `name` leaves behind.
pub proof fn lemma_load_marks_loaded(before: Seq<String>, after: Seq<String>, name: Seq<char>)
    requires
        after.len() == before.len() + 1,
        after.drop_last() == before,
        after.last()@ == name,
    ensures
        names_contain(after, name),
{
    assert(after[after.len() - 1]@ == name);
}

} // verus!
