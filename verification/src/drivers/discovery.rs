//! Hardware discovery over a simulated bus that callers populate.
use vstd::prelude::*;
use crate::common::{owned, ObjectId};
use crate::keyed::str_eq;

verus! {

#[derive(Debug, Clone, PartialEq, Eq)]
pub struct DiscoveredDevice {
    pub id: ObjectId,
    pub vendor: String,
    pub device_class: String,
}

impl DiscoveredDevice {
    pub fn new(vendor: &str, device_class: &str) -> (d: DiscoveredDevice)
        ensures
            d.id.value != 0,
            d.vendor@ == vendor@,
            d.device_class@ == device_class@,
    {
        DiscoveredDevice { id: ObjectId::new(), vendor: owned(vendor), device_class: owned(device_class) }
    }

    pub fn duplicate(&self) -> (d: DiscoveredDevice)
        ensures
            d == *self,
    {
        DiscoveredDevice { id: self.id, vendor: self.vendor.clone(), device_class: self.device_class.clone() }
    }
}

#[derive(Debug)]
pub struct HardwareDiscovery {
    bus: Vec<DiscoveredDevice>,
}

impl Default for HardwareDiscovery {
    fn default() -> (h: HardwareDiscovery)
        ensures
            h.devices().len() == 0,
    {
        HardwareDiscovery { bus: Vec::new() }
    }
}

impl HardwareDiscovery {
    /// The devices on the bus, in the order they were found.
    pub closed spec fn devices(&self) -> Seq<DiscoveredDevice> {
        self.bus@
    }

    pub fn new() -> (h: HardwareDiscovery)
        ensures
            h.devices().len() == 0,
    {
        HardwareDiscovery { bus: Vec::new() }
    }

    pub fn add_device(&mut self, device: DiscoveredDevice)
        ensures
            final(self).devices() == old(self).devices().push(device),
    {
        self.bus.push(device);
    }

    /// Every device on the bus, in order.
    pub fn scan(&self) -> (r: Vec<DiscoveredDevice>)
        ensures
            r@ == self.devices(),
    {
        let mut out: Vec<DiscoveredDevice> = Vec::new();
        let mut i: usize = 0;
        while i < self.bus.len()
            invariant
                i <= self.bus@.len(),
                out@ == self.bus@.subrange(0, i as int),
            decreases self.bus@.len() - i,
        {
            out.push(self.bus[i].duplicate());
            assert(self.bus@.subrange(0, i as int + 1) =~= self.bus@.subrange(0, i as int).push(self.bus@[i as int]));
            i = i + 1;
        }
        assert(self.bus@.subrange(0, i as int) =~= self.bus@);
        out
    }

    /// The devices of class `device_class`, in order.
    pub fn scan_by_class(&self, device_class: &str) -> (r: Vec<DiscoveredDevice>)
        ensures
            r@ == self.devices().filter(|d: DiscoveredDevice| d.device_class@ == device_class@),
    {
        let ghost pred = |d: DiscoveredDevice| d.device_class@ == device_class@;
        let ghost l = self.bus@;
        let mut out: Vec<DiscoveredDevice> = Vec::new();
        let mut i: usize = 0;
        while i < self.bus.len()
            invariant
                l == self.bus@,
                i <= l.len(),
                pred == (|d: DiscoveredDevice| d.device_class@ == device_class@),
                out@ == l.subrange(0, i as int).filter(pred),
            decreases l.len() - i,
        {
            proof {
                assert(l.subrange(0, i as int + 1) =~= l.subrange(0, i as int).push(l[i as int]));
                l.subrange(0, i as int).lemma_filter_push(l[i as int], pred);
            }
            if str_eq(self.bus[i].device_class.as_str(), device_class) {
                out.push(self.bus[i].duplicate());
            }
            i = i + 1;
        }
        assert(l.subrange(0, l.len() as int) =~= l);
        out
    }
}

} // verus!
