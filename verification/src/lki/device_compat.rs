//! The `pci_driver_register` / `pci_driver_unregister` compatibility entry
//! points: a plain list of registered driver identities.
use vstd::prelude::*;
use crate::common::{ObjectId, Result};

verus! {

#[derive(Debug, Clone)]
pub struct LinuxDeviceApi {
    pub registered_drivers: Vec<ObjectId>,
}

impl Default for LinuxDeviceApi {
    fn default() -> (a: LinuxDeviceApi)
        ensures
            a.registered_drivers@.len() == 0,
    {
        LinuxDeviceApi { registered_drivers: Vec::new() }
    }
}

impl LinuxDeviceApi {
    /// Append `driver_id` (repeats are kept). Always `Ok`.
    pub fn pci_driver_register(&mut self, driver_id: ObjectId) -> (r: Result<()>)
        ensures
            r.is_ok(),
            final(self).registered_drivers@ == old(self).registered_drivers@.push(driver_id),
    {
        self.registered_drivers.push(driver_id);
        Ok(())
    }

    /// Drop every registration of `driver_id`. Always `Ok`.
    pub fn pci_driver_unregister(&mut self, driver_id: ObjectId) -> (r: Result<()>)
        ensures
            r.is_ok(),
            final(self).registered_drivers@ == old(self).registered_drivers@.filter(|d: ObjectId| d != driver_id),
    {
        let ghost pred = |d: ObjectId| d != driver_id;
        let ghost l = self.registered_drivers@;
        let mut kept: Vec<ObjectId> = Vec::new();
        let mut i: usize = 0;
        while i < self.registered_drivers.len()
            invariant
                l == self.registered_drivers@,
                i <= l.len(),
                pred == (|d: ObjectId| d != driver_id),
                kept@ == l.subrange(0, i as int).filter(pred),
            decreases l.len() - i,
        {
            proof {
                assert(l.subrange(0, i as int + 1) =~= l.subrange(0, i as int).push(l[i as int]));
                l.subrange(0, i as int).lemma_filter_push(l[i as int], pred);
            }
            if self.registered_drivers[i] != driver_id {
                kept.push(self.registered_drivers[i]);
            }
            i = i + 1;
        }
        assert(l.subrange(0, l.len() as int) =~= l);
        self.registered_drivers = kept;
        Ok(())
    }

    /// The registrations, in order.
    pub fn get_registered_drivers(&self) -> (r: Vec<ObjectId>)
        ensures
            r@ == self.registered_drivers@,
    {
        let mut out: Vec<ObjectId> = Vec::new();
        let mut i: usize = 0;
        while i < self.registered_drivers.len()
            invariant
                i <= self.registered_drivers@.len(),
                out@ == self.registered_drivers@.subrange(0, i as int),
            decreases self.registered_drivers@.len() - i,
        {
            out.push(self.registered_drivers[i]);
            assert(self.registered_drivers@.subrange(0, i as int + 1)
                =~= self.registered_drivers@.subrange(0, i as int).push(self.registered_drivers@[i as int]));
            i = i + 1;
        }
        assert(self.registered_drivers@.subrange(0, i as int) =~= self.registered_drivers@);
        out
    }
}

} // verus!
