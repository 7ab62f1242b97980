//! In-process network stack: a device registry with per-device send and
//! receive counters. No bytes leave the process.
use vstd::prelude::*;
use crate::common::{owned, Error, ObjectId, Result};
use crate::keyed::VecMap;
use crate::networking::device::NetworkDevice;
use crate::networking::protocol::{protocol_label, NetworkProtocol};
use crate::text::{decimal, u64_to_decimal};

verus! {

#[derive(Debug, Clone, Copy)]
pub struct DeviceStats {
    pub packets_sent: u64,
    pub packets_received: u64,
    pub bytes_sent: u64,
    pub bytes_received: u64,
}

/// Counters of a freshly registered device.
pub open spec fn zero_stats() -> DeviceStats {
    DeviceStats { packets_sent: 0, packets_received: 0, bytes_sent: 0, bytes_received: 0 }
}

pub struct NetworkStack {
    devices: VecMap<ObjectId, (NetworkDevice, DeviceStats)>,
}

impl Default for NetworkStack {
    fn default() -> (s: NetworkStack)
        ensures
            s.wf(),
            s.table() == Map::<ObjectId, (NetworkDevice, DeviceStats)>::empty(),
    {
        NetworkStack::new()
    }
}

impl NetworkStack {
    pub closed spec fn wf(&self) -> bool {
        self.devices.wf()
    }

    /// Devices and their counters, by identity.
    pub closed spec fn table(&self) -> Map<ObjectId, (NetworkDevice, DeviceStats)> {
        self.devices@
    }

    pub fn new() -> (s: NetworkStack)
        ensures
            s.wf(),
            s.table() == Map::<ObjectId, (NetworkDevice, DeviceStats)>::empty(),
    {
        NetworkStack { devices: VecMap::new() }
    }

    /// Add `device` with zero counters (replacing a device with the same
    /// identity) and return its identity.
    pub fn register(&mut self, device: NetworkDevice) -> (id: ObjectId)
        requires
            old(self).wf(),
        ensures
            final(self).wf(),
            id == device.id,
            final(self).table() == old(self).table().insert(id, (device, zero_stats())),
    {
        let id = device.id;
        self.devices.insert(id, (device, DeviceStats { packets_sent: 0, packets_received: 0, bytes_sent: 0, bytes_received: 0 }));
        id
    }

    /// Remove device `id`; whether it was registered.
    pub fn unregister(&mut self, id: ObjectId) -> (b: bool)
        requires
            old(self).wf(),
        ensures
            final(self).wf(),
            b == old(self).table().contains_key(id),
            final(self).table() == old(self).table().remove(id),
    {
        self.devices.remove(&id).is_some()
    }

    pub fn device(&self, id: ObjectId) -> (r: Option<&NetworkDevice>)
        requires
            self.wf(),
        ensures
            match r {
                Some(d) => self.table().contains_key(id) && *d == self.table()[id].0,
                None => !self.table().contains_key(id),
            },
    {
        match self.devices.get(&id) {
            Some(e) => Some(&e.0),
            None => None,
        }
    }

    pub fn device_count(&self) -> (n: usize)
        requires
            self.wf(),
        ensures
            n == self.table().len(),
    {
        self.devices.len()
    }

    /// Send `payload` on device `id` with `protocol`: refused with
    /// `Error::Networking` for an unknown device or a payload longer than
    /// the device's MTU; otherwise one more packet and its bytes are counted.
    pub fn send(&mut self, id: ObjectId, protocol: NetworkProtocol, payload: &[u8]) -> (r: Result<()>)
        requires
            old(self).wf(),
            old(self).table().contains_key(id) && payload@.len() <= old(self).table()[id].0.mtu ==> {
                let st = old(self).table()[id].1;
                &&& st.packets_sent < u64::MAX
                &&& st.bytes_sent + payload@.len() <= u64::MAX
            },
        ensures
            final(self).wf(),
            !old(self).table().contains_key(id) ==> (r matches Err(Error::Networking(m))
                && m@ == "unknown device: "@ + decimal(id.value as nat))
                && final(self).table() == old(self).table(),
            old(self).table().contains_key(id) && payload@.len() > old(self).table()[id].0.mtu ==> (r matches Err(Error::Networking(m))
                && m@ == protocol_label(protocol) + " payload of "@ + decimal(payload@.len()) + " bytes exceeds MTU "@
                    + decimal(old(self).table()[id].0.mtu as nat) + " on device '"@ + old(self).table()[id].0.name@ + "'"@)
                && final(self).table() == old(self).table(),
            old(self).table().contains_key(id) && payload@.len() <= old(self).table()[id].0.mtu ==> r.is_ok()
                && final(self).table() == old(self).table().insert(id, (old(self).table()[id].0, DeviceStats {
                    packets_sent: (old(self).table()[id].1.packets_sent + 1) as u64,
                    bytes_sent: (old(self).table()[id].1.bytes_sent + payload@.len()) as u64,
                    ..old(self).table()[id].1 })),
    {
        let pos = match self.devices.index_of(&id) {
            Some(p) => p,
            None => {
                return Err(Error::Networking(owned("unknown device: ").concat(id.to_text().as_str())));
            },
        };
        let mtu = self.devices.entries[pos].1.0.mtu;
        if payload.len() > mtu as usize {
            let msg = protocol.to_string()
                .concat(" payload of ")
                .concat(u64_to_decimal(payload.len() as u64).as_str())
                .concat(" bytes exceeds MTU ")
                .concat(u64_to_decimal(mtu as u64).as_str())
                .concat(" on device '")
                .concat(self.devices.entries[pos].1.0.name.as_str())
                .concat("'");
            return Err(Error::Networking(msg));
        }
        let mut stats = self.devices.entries[pos].1.1;
        stats.packets_sent = stats.packets_sent + 1;
        stats.bytes_sent = stats.bytes_sent + payload.len() as u64;
        self.set_stats(pos, stats);
        Ok(())
    }

    /// Receive `payload` on device `id`: `Error::Networking` for an unknown
    /// device; otherwise one more packet and its bytes are counted.
    pub fn receive(&mut self, id: ObjectId, payload: &[u8]) -> (r: Result<()>)
        requires
            old(self).wf(),
            old(self).table().contains_key(id) ==> {
                let st = old(self).table()[id].1;
                &&& st.packets_received < u64::MAX
                &&& st.bytes_received + payload@.len() <= u64::MAX
            },
        ensures
            final(self).wf(),
            !old(self).table().contains_key(id) ==> (r matches Err(Error::Networking(m))
                && m@ == "unknown device: "@ + decimal(id.value as nat))
                && final(self).table() == old(self).table(),
            old(self).table().contains_key(id) ==> r.is_ok()
                && final(self).table() == old(self).table().insert(id, (old(self).table()[id].0, DeviceStats {
                    packets_received: (old(self).table()[id].1.packets_received + 1) as u64,
                    bytes_received: (old(self).table()[id].1.bytes_received + payload@.len()) as u64,
                    ..old(self).table()[id].1 })),
    {
        let pos = match self.devices.index_of(&id) {
            Some(p) => p,
            None => {
                return Err(Error::Networking(owned("unknown device: ").concat(id.to_text().as_str())));
            },
        };
        let mut stats = self.devices.entries[pos].1.1;
        stats.packets_received = stats.packets_received + 1;
        stats.bytes_received = stats.bytes_received + payload.len() as u64;
        self.set_stats(pos, stats);
        Ok(())
    }

    /// Replace the counters of entry `pos`, keeping its device.
    fn set_stats(&mut self, pos: usize, stats: DeviceStats)
        requires
            old(self).wf(),
            pos < old(self).devices.entries@.len(),
        ensures
            final(self).wf(),
            final(self).table() == old(self).table().insert(old(self).devices.entries@[pos as int].0,
                (old(self).devices.entries@[pos as int].1.0, stats)),
    {
        let ghost s0 = self.devices.entries@;
        proof {
            crate::keyed::lemma_map_of_index(s0, pos as int);
        }
        self.devices.entries[pos].1.1 = stats;
        let ghost e = self.devices.entries@[pos as int];
        proof {
            assert(self.devices.entries@ == s0.update(pos as int, e));
            crate::keyed::lemma_map_of_update(s0, pos as int, e);
        }
    }

    /// Packets sent on `id` (0 for an unknown device).
    pub fn packets_sent(&self, id: ObjectId) -> (n: u64)
        requires
            self.wf(),
        ensures
            n == if self.table().contains_key(id) { self.table()[id].1.packets_sent } else { 0 },
    {
        match self.devices.get(&id) {
            Some(e) => e.1.packets_sent,
            None => 0,
        }
    }

    /// Packets received on `id` (0 for an unknown device).
    pub fn packets_received(&self, id: ObjectId) -> (n: u64)
        requires
            self.wf(),
        ensures
            n == if self.table().contains_key(id) { self.table()[id].1.packets_received } else { 0 },
    {
        match self.devices.get(&id) {
            Some(e) => e.1.packets_received,
            None => 0,
        }
    }
}

} // verus!
