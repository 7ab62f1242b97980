//! Network device descriptors.
use vstd::prelude::*;
use crate::common::{owned, ObjectId};

verus! {

#[derive(Debug, Clone)]
pub struct NetworkDevice {
    pub id: ObjectId,
    pub name: String,
    pub mac_address: String,
    pub mtu: u16,
}

impl NetworkDevice {
    /// A device with a fresh identity and the Ethernet MTU of 1500.
    pub fn new(name: &str, mac_address: &str) -> (d: NetworkDevice)
        ensures
            d.id.value != 0,
            d.name@ == name@,
            d.mac_address@ == mac_address@,
            d.mtu == 1500,
    {
        NetworkDevice { id: ObjectId::new(), name: owned(name), mac_address: owned(mac_address), mtu: 1500 }
    }

    pub fn with_mtu(self, mtu: u16) -> (d: NetworkDevice)
        ensures
            d == (NetworkDevice { mtu, ..self }),
    {
        let mut d = self;
        d.mtu = mtu;
        d
    }
}

} // verus!
