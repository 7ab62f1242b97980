//! Hardware abstraction: the device table filled by probing the registered
//! hardware drivers, memory-mapped I/O windows, and register access routed
//! to the driver of each device's type.
use vstd::prelude::*;
use crate::common::{owned, Error, ObjectId, Result};
use crate::keyed::VecMap;
use crate::lki::validation::clone_strings;

verus! {

#[derive(Clone, Copy, Debug, PartialEq, Eq, Hash, Structural)]
pub enum DeviceType {
    Gpu,
    Audio,
    Input,
    Network,
    Storage,
    Unknown,
}

impl View for DeviceType {
    type V = DeviceType;

    open spec fn view(&self) -> DeviceType {
        *self
    }
}

#[derive(Clone, Debug)]
pub struct DeviceInfo {
    pub id: ObjectId,
    pub device_type: DeviceType,
    pub name: String,
    pub vendor_id: u32,
    pub device_id: u32,
    pub capabilities: Vec<String>,
    pub mmio_base: Option<usize>,
    pub mmio_size: Option<usize>,
    pub irq: Option<usize>,
}

/// What a device description says, with its capabilities as a sequence.
pub struct DeviceInfoView {
    pub id: ObjectId,
    pub device_type: DeviceType,
    pub name: String,
    pub vendor_id: u32,
    pub device_id: u32,
    pub capabilities: Seq<String>,
    pub mmio_base: Option<usize>,
    pub mmio_size: Option<usize>,
    pub irq: Option<usize>,
}

impl View for DeviceInfo {
    type V = DeviceInfoView;

    open spec fn view(&self) -> DeviceInfoView {
        DeviceInfoView {
            id: self.id,
            device_type: self.device_type,
            name: self.name,
            vendor_id: self.vendor_id,
            device_id: self.device_id,
            capabilities: self.capabilities@,
            mmio_base: self.mmio_base,
            mmio_size: self.mmio_size,
            irq: self.irq,
        }
    }
}

impl DeviceInfo {
    /// A field-for-field duplicate.
    pub fn duplicate(&self) -> (d: DeviceInfo)
        ensures
            d@ == self@,
    {
        DeviceInfo {
            id: self.id,
            device_type: self.device_type,
            name: self.name.clone(),
            vendor_id: self.vendor_id,
            device_id: self.device_id,
            capabilities: clone_strings(&self.capabilities),
            mmio_base: self.mmio_base,
            mmio_size: self.mmio_size,
            irq: self.irq,
        }
    }
}

#[derive(Clone, Copy, Debug, PartialEq, Eq, Structural)]
pub struct MemoryMapping {
    pub physical_addr: usize,
    pub virtual_addr: usize,
    pub size: usize,
    pub write_protected: bool,
}

/// A driver for one type of hardware, supplied by the user of the layer.
/// Nothing is assumed of what its methods return.
pub trait HardwareDriver: Send + Sync {
    fn probe(&self) -> Result<Vec<DeviceInfo>>;

    fn initialize(&mut self, device: &DeviceInfo) -> Result<()>;

    fn shutdown(&mut self, device_id: &ObjectId) -> Result<()>;

    fn get_capabilities(&self, device_id: &ObjectId) -> Result<Vec<String>>;

    fn read_register(&self, device_id: &ObjectId, offset: usize) -> Result<u32>;

    fn write_register(&self, device_id: &ObjectId, offset: usize, value: u32) -> Result<()>;
}

impl<T: HardwareDriver + ?Sized> HardwareDriver for Box<T> {
    fn probe(&self) -> Result<Vec<DeviceInfo>> {
        (**self).probe()
    }

    fn initialize(&mut self, device: &DeviceInfo) -> Result<()> {
        (**self).initialize(device)
    }

    fn shutdown(&mut self, device_id: &ObjectId) -> Result<()> {
        (**self).shutdown(device_id)
    }

    fn get_capabilities(&self, device_id: &ObjectId) -> Result<Vec<String>> {
        (**self).get_capabilities(device_id)
    }

    fn read_register(&self, device_id: &ObjectId, offset: usize) -> Result<u32> {
        (**self).read_register(device_id, offset)
    }

    fn write_register(&self, device_id: &ObjectId, offset: usize, value: u32) -> Result<()> {
        (**self).write_register(device_id, offset, value)
    }
}

/// The table `m` after the devices of `s` are entered one after another,
/// each under its identity (a later one replacing an earlier).
pub open spec fn enter_devices(m: Map<ObjectId, DeviceInfoView>, s: Seq<DeviceInfoView>) -> Map<ObjectId, DeviceInfoView>
    decreases s.len(),
{
    if s.len() == 0 {
        m
    } else {
        enter_devices(m, s.drop_last()).insert(s.last().id, s.last())
    }
}

/// Every device a probe found can be looked up afterwards under its
/// identity, and nothing known before is forgotten.
pub proof fn lemma_probed_devices_found(m: Map<ObjectId, DeviceInfoView>, s: Seq<DeviceInfoView>, i: int)
    requires
        0 <= i < s.len(),
    ensures
        enter_devices(m, s).contains_key(s[i].id),
        m.dom().subset_of(enter_devices(m, s).dom()),
    decreases s.len(),
{
    lemma_entering_keeps_known(m, s);
    if i < s.len() - 1 {
        lemma_probed_devices_found(m, s.drop_last(), i);
    }
}

proof fn lemma_entering_keeps_known(m: Map<ObjectId, DeviceInfoView>, s: Seq<DeviceInfoView>)
    ensures
        m.dom().subset_of(enter_devices(m, s).dom()),
    decreases s.len(),
{
    if s.len() > 0 {
        lemma_entering_keeps_known(m, s.drop_last());
    }
}

/// The devices of `s` of type `t`, in order.
pub open spec fn devices_of_type(s: Seq<(ObjectId, DeviceInfo)>, t: DeviceType) -> Seq<DeviceInfoView>
    decreases s.len(),
{
    if s.len() == 0 {
        Seq::empty()
    } else {
        let r = devices_of_type(s.drop_last(), t);
        if s.last().1.device_type == t { r.push(s.last().1@) } else { r }
    }
}

/// Listing devices by type keeps exactly the devices of that type, in
/// order: every device listed has the type asked for, and every device of
/// that type is listed.
pub proof fn lemma_devices_of_type(s: Seq<(ObjectId, DeviceInfo)>, t: DeviceType)
    ensures
        devices_of_type(s, t).len() <= s.len(),
        forall|i: int| 0 <= i < devices_of_type(s, t).len() ==> (#[trigger] devices_of_type(s, t)[i]).device_type == t,
        forall|j: int| 0 <= j < s.len() && s[j].1.device_type == t ==> devices_of_type(s, t).contains(#[trigger] s[j].1@),
    decreases s.len(),
{
    if s.len() > 0 {
        let p = s.drop_last();
        lemma_devices_of_type(p, t);
        let r = devices_of_type(p, t);
        assert forall|j: int| 0 <= j < s.len() && s[j].1.device_type == t implies
            devices_of_type(s, t).contains(#[trigger] s[j].1@) by {
            if j < p.len() {
                assert(p[j] == s[j]);
                assert(r.contains(p[j].1@));
                let k = choose|k: int| 0 <= k < r.len() && r[k] == p[j].1@;
                assert(devices_of_type(s, t)[k] == r[k]);
            } else {
                assert(devices_of_type(s, t).last() == s[j].1@);
            }
        }
        assert forall|i: int| 0 <= i < devices_of_type(s, t).len() implies
            (#[trigger] devices_of_type(s, t)[i]).device_type == t by {
            if i < r.len() {
                assert(devices_of_type(s, t)[i] == r[i]);
            }
        }
    }
}

pub struct HardwareAbstractionLayer<D: HardwareDriver> {
    devices: VecMap<ObjectId, DeviceInfo>,
    mappings: VecMap<ObjectId, MemoryMapping>,
    drivers: Vec<(DeviceType, D)>,
}

impl<D: HardwareDriver> HardwareAbstractionLayer<D> {
    pub closed spec fn wf(&self) -> bool {
        &&& self.devices.wf()
        &&& self.mappings.wf()
        &&& forall|a: int, b: int| 0 <= a < b < self.drivers@.len() ==> self.drivers@[a].0 != self.drivers@[b].0
    }

    /// Known devices by identity.
    pub closed spec fn devices_view(&self) -> Map<ObjectId, DeviceInfoView> {
        Map::new(|k: ObjectId| self.devices@.contains_key(k), |k: ObjectId| self.devices@[k]@)
    }

    /// Known devices in the order they were first entered.
    pub closed spec fn device_entries(&self) -> Seq<(ObjectId, DeviceInfo)> {
        self.devices.entries@
    }

    /// Memory windows by device.
    pub closed spec fn mappings_view(&self) -> Map<ObjectId, MemoryMapping> {
        self.mappings@
    }

    /// The device types that have a driver.
    pub closed spec fn driver_types(&self) -> Set<DeviceType> {
        Set::new(|t: DeviceType| exists|i: int| 0 <= i < self.drivers@.len() && self.drivers@[i].0 == t)
    }

    pub fn new() -> (h: HardwareAbstractionLayer<D>)
        ensures
            h.wf(),
            h.devices_view() == Map::<ObjectId, DeviceInfoView>::empty(),
            h.mappings_view() == Map::<ObjectId, MemoryMapping>::empty(),
            h.driver_types() == Set::<DeviceType>::empty(),
    {
        let h = HardwareAbstractionLayer { devices: VecMap::new(), mappings: VecMap::new(), drivers: Vec::new() };
        assert(h.devices_view() =~= Map::<ObjectId, DeviceInfoView>::empty());
        assert(h.driver_types() =~= Set::<DeviceType>::empty());
        h
    }

    /// Position of the driver of `device_type`, if there is one.
    fn driver_index(&self, device_type: DeviceType) -> (r: Option<usize>)
        ensures
            match r {
                Some(i) => i < self.drivers@.len() && self.drivers@[i as int].0 == device_type,
                None => !self.driver_types().contains(device_type),
            },
    {
        let mut i: usize = 0;
        while i < self.drivers.len()
            invariant
                i <= self.drivers@.len(),
                forall|j: int| 0 <= j < i ==> self.drivers@[j].0 != device_type,
            decreases self.drivers@.len() - i,
        {
            if self.drivers[i].0 == device_type {
                return Some(i);
            }
            i = i + 1;
        }
        None
    }

    /// Make `driver` the driver of `device_type` (replacing an earlier one).
    pub fn register_driver(&mut self, device_type: DeviceType, driver: D) -> (r: Result<()>)
        requires
            old(self).wf(),
        ensures
            final(self).wf(),
            r.is_ok(),
            final(self).driver_types() == old(self).driver_types().insert(device_type),
            final(self).devices_view() == old(self).devices_view(),
            final(self).mappings_view() == old(self).mappings_view(),
    {
        let ghost s0 = self.drivers@;
        match self.driver_index(device_type) {
            Some(i) => {
                self.drivers.set(i, (device_type, driver));
                assert(forall|j: int| 0 <= j < s0.len() ==> #[trigger] self.drivers@[j].0 == s0[j].0);
            },
            None => {
                self.drivers.push((device_type, driver));
                assert(forall|j: int| 0 <= j < s0.len() ==> #[trigger] self.drivers@[j].0 == s0[j].0);
                assert(self.drivers@[s0.len() as int].0 == device_type);
            },
        }
        assert forall|t: DeviceType| #[trigger] self.driver_types().contains(t)
            <==> old(self).driver_types().insert(device_type).contains(t) by {
            if old(self).driver_types().contains(t) {
                let j = choose|j: int| 0 <= j < s0.len() && s0[j].0 == t;
                assert(self.drivers@[j].0 == t);
            }
            if t == device_type {
                if s0.len() < self.drivers@.len() {
                    assert(self.drivers@[s0.len() as int].0 == t);
                } else {
                    let i = choose|i: int| 0 <= i < s0.len() && s0[i].0 == device_type;
                    assert(self.drivers@[i].0 == t);
                }
            }
        }
        assert(self.driver_types() =~= old(self).driver_types().insert(device_type));
        Ok(())
    }

    /// Ask every driver, in registration order, for its devices, and enter
    /// each device found under its identity. The devices found are returned
    /// in that order. The first driver that fails stops the probe, and its
    /// error is returned (devices entered before it stay).
    pub fn probe_devices(&mut self) -> (r: Result<Vec<DeviceInfo>>)
        requires
            old(self).wf(),
        ensures
            final(self).wf(),
            final(self).driver_types() == old(self).driver_types(),
            final(self).mappings_view() == old(self).mappings_view(),
            old(self).devices_view().dom().subset_of(final(self).devices_view().dom()),
            r matches Ok(v) ==> final(self).devices_view() == enter_devices(old(self).devices_view(),
                v@.map_values(|d: DeviceInfo| d@)),
            old(self).driver_types() == Set::<DeviceType>::empty() ==> (r matches Ok(v) && v@.len() == 0)
                && final(self).devices_view() == old(self).devices_view(),
    {
        let ghost m0 = self.devices_view();
        proof {
            if old(self).driver_types() == Set::<DeviceType>::empty() && self.drivers@.len() > 0 {
                assert(self.driver_types().contains(self.drivers@[0].0));
            }
        }
        let mut all: Vec<DeviceInfo> = Vec::new();
        let mut i: usize = 0;
        while i < self.drivers.len()
            invariant
                self.wf(),
                i <= self.drivers@.len(),
                self.drivers == old(self).drivers,
                self.mappings == old(self).mappings,
                m0 == old(self).devices_view(),
                m0.dom().subset_of(self.devices_view().dom()),
                self.devices_view() == enter_devices(m0, all@.map_values(|d: DeviceInfo| d@)),
                i == 0 ==> all@.len() == 0,
                old(self).driver_types() == Set::<DeviceType>::empty() ==> self.drivers@.len() == 0,
            decreases self.drivers@.len() - i,
        {
            let found = match self.drivers[i].1.probe() {
                Ok(v) => v,
                Err(e) => return Err(e),
            };
            let mut j: usize = 0;
            while j < found.len()
                invariant
                    self.wf(),
                    j <= found@.len(),
                    self.drivers == old(self).drivers,
                    self.mappings == old(self).mappings,
                    m0 == old(self).devices_view(),
                    m0.dom().subset_of(self.devices_view().dom()),
                    self.devices_view() == enter_devices(m0, all@.map_values(|d: DeviceInfo| d@)),
                decreases found@.len() - j,
            {
                let d = found[j].duplicate();
                let ghost before = self.devices_view();
                let ghost all0 = all@;
                self.devices.insert(d.id, d);
                all.push(found[j].duplicate());
                proof {
                    assert(self.devices_view() =~= before.insert(found@[j as int].id, found@[j as int]@));
                    let s = all@.map_values(|x: DeviceInfo| x@);
                    assert(s.drop_last() =~= all0.map_values(|x: DeviceInfo| x@));
                    assert(s.last() == found@[j as int]@);
                }
                j = j + 1;
            }
            i = i + 1;
        }
        proof {
            if all@.len() == 0 {
                assert(all@.map_values(|d: DeviceInfo| d@) =~= Seq::<DeviceInfoView>::empty());
            }
        }
        Ok(all)
    }

    /// A duplicate of device `device_id`, if known.
    pub fn get_device(&self, device_id: &ObjectId) -> (r: Option<DeviceInfo>)
        requires
            self.wf(),
        ensures
            match r {
                Some(d) => self.devices_view().contains_key(*device_id) && d@ == self.devices_view()[*device_id],
                None => !self.devices_view().contains_key(*device_id),
            },
    {
        match self.devices.get(device_id) {
            Some(d) => Some(d.duplicate()),
            None => None,
        }
    }

    /// Duplicates of the devices of type `device_type`, in the order they
    /// were entered.
    pub fn get_devices_by_type(&self, device_type: DeviceType) -> (r: Vec<DeviceInfo>)
        ensures
            r@.map_values(|d: DeviceInfo| d@) == devices_of_type(self.device_entries(), device_type),
    {
        let ghost s = self.devices.entries@;
        let mut out: Vec<DeviceInfo> = Vec::new();
        let mut i: usize = 0;
        while i < self.devices.entries.len()
            invariant
                s == self.devices.entries@,
                i <= s.len(),
                out@.map_values(|d: DeviceInfo| d@) == devices_of_type(s.subrange(0, i as int), device_type),
            decreases s.len() - i,
        {
            assert(s.subrange(0, i as int + 1).drop_last() =~= s.subrange(0, i as int));
            if self.devices.entries[i].1.device_type == device_type {
                let ghost out0 = out@;
                out.push(self.devices.entries[i].1.duplicate());
                assert(out@.map_values(|d: DeviceInfo| d@) =~= out0.map_values(|d: DeviceInfo| d@).push(s[i as int].1@));
            }
            i = i + 1;
        }
        assert(s.subrange(0, s.len() as int) =~= s);
        out
    }

    /// Map `size` bytes of device memory at `physical_addr` for `device_id`,
    /// identity-mapped and writable (replacing an earlier window of that
    /// device). Returns the virtual address.
    pub fn map_memory(&mut self, device_id: &ObjectId, physical_addr: usize, size: usize) -> (r: Result<usize>)
        requires
            old(self).wf(),
        ensures
            final(self).wf(),
            r == Ok::<usize, Error>(physical_addr),
            final(self).mappings_view() == old(self).mappings_view().insert(*device_id,
                MemoryMapping { physical_addr, virtual_addr: physical_addr, size, write_protected: false }),
            final(self).devices_view() == old(self).devices_view(),
            final(self).driver_types() == old(self).driver_types(),
    {
        let mapping = MemoryMapping { physical_addr, virtual_addr: physical_addr, size, write_protected: false };
        self.mappings.insert(*device_id, mapping);
        Ok(physical_addr)
    }

    /// The memory window of `device_id`, if mapped.
    pub fn get_mapping(&self, device_id: &ObjectId) -> (r: Option<MemoryMapping>)
        requires
            self.wf(),
        ensures
            match r {
                Some(m) => self.mappings_view().contains_key(*device_id) && m == self.mappings_view()[*device_id],
                None => !self.mappings_view().contains_key(*device_id),
            },
    {
        match self.mappings.get(device_id) {
            Some(m) => Some(*m),
            None => None,
        }
    }

    /// The driver of the type of device `device_id`: `Error::Device` when the
    /// device is unknown or its type has no driver.
    fn driver_for(&self, device_id: &ObjectId) -> (r: Result<&D>)
        requires
            self.wf(),
        ensures
            !self.devices_view().contains_key(*device_id) ==> (r matches Err(Error::Device(m)) && m@ == "Device not found"@),
            self.devices_view().contains_key(*device_id)
                && !self.driver_types().contains(self.devices_view()[*device_id].device_type)
                ==> (r matches Err(Error::Device(m)) && m@ == "No driver for device type"@),
            r.is_ok() == (self.devices_view().contains_key(*device_id)
                && self.driver_types().contains(self.devices_view()[*device_id].device_type)),
    {
        let t = match self.devices.get(device_id) {
            Some(d) => d.device_type,
            None => return Err(Error::Device(owned("Device not found"))),
        };
        match self.driver_index(t) {
            Some(i) => Ok(&self.drivers[i].1),
            None => Err(Error::Device(owned("No driver for device type"))),
        }
    }

    /// Read the register at `offset` of device `device_id` through the driver
    /// of its type, which decides the value. `Error::Device` when the device
    /// is unknown or its type has no driver.
    pub fn read_register(&self, device_id: &ObjectId, offset: usize) -> (r: Result<u32>)
        requires
            self.wf(),
        ensures
            !self.devices_view().contains_key(*device_id) ==> (r matches Err(Error::Device(m)) && m@ == "Device not found"@),
            self.devices_view().contains_key(*device_id)
                && !self.driver_types().contains(self.devices_view()[*device_id].device_type)
                ==> (r matches Err(Error::Device(m)) && m@ == "No driver for device type"@),
    {
        let drv = self.driver_for(device_id)?;
        drv.read_register(device_id, offset)
    }

    /// Write `value` to the register at `offset` of device `device_id`
    /// through the driver of its type, which decides the outcome.
    /// `Error::Device` when the device is unknown or its type has no driver.
    pub fn write_register(&self, device_id: &ObjectId, offset: usize, value: u32) -> (r: Result<()>)
        requires
            self.wf(),
        ensures
            !self.devices_view().contains_key(*device_id) ==> (r matches Err(Error::Device(m)) && m@ == "Device not found"@),
            self.devices_view().contains_key(*device_id)
                && !self.driver_types().contains(self.devices_view()[*device_id].device_type)
                ==> (r matches Err(Error::Device(m)) && m@ == "No driver for device type"@),
    {
        let drv = self.driver_for(device_id)?;
        drv.write_register(device_id, offset, value)
    }

    pub fn device_count(&self) -> (n: usize)
        requires
            self.wf(),
        ensures
            n == self.devices_view().len(),
    {
        let n = self.devices.len();
        assert(self.devices_view().dom() =~= self.devices@.dom());
        n
    }
}

} // verus!
