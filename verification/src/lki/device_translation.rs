//! Translation of the Linux device model (PCI devices and drivers, buses,
//! block and network devices) onto SHER device records.
use vstd::prelude::*;
use crate::common::{owned, Error, ObjectId, Result};
use crate::keyed::{lemma_map_of_index, lemma_map_of_update, VecMap};

verus! {

/// The PCI wildcard: an identity field equal to it matches any value.
pub const PCI_ANY_ID: u16 = 0xFFFF;

#[derive(Debug, Clone, Copy, PartialEq, Eq, Structural)]
pub struct PciDeviceId {
    pub vendor: u16,
    pub device: u16,
    pub subvendor: u16,
    pub subdevice: u16,
}

/// Each field of the pattern `p` is the wildcard or equals that of `id`.
pub open spec fn id_matches(p: PciDeviceId, id: PciDeviceId) -> bool {
    &&& (p.vendor == PCI_ANY_ID || p.vendor == id.vendor)
    &&& (p.device == PCI_ANY_ID || p.device == id.device)
    &&& (p.subvendor == PCI_ANY_ID || p.subvendor == id.subvendor)
    &&& (p.subdevice == PCI_ANY_ID || p.subdevice == id.subdevice)
}

/// How a pattern matches identities: a pattern field that is not the
/// wildcard rules out every identity that differs in that field; an
/// identity read as a pattern matches itself; a pattern of wildcards
/// matches everything; and the pattern `PciDeviceId::new(v, d)` (any
/// subsystem) matches exactly the identities with vendor `v` and device
/// `d`, when neither is the wildcard.
pub proof fn lemma_id_matching(p: PciDeviceId, id: PciDeviceId)
    ensures
        p.vendor != PCI_ANY_ID && p.vendor != id.vendor ==> !id_matches(p, id),
        p.device != PCI_ANY_ID && p.device != id.device ==> !id_matches(p, id),
        p.subvendor != PCI_ANY_ID && p.subvendor != id.subvendor ==> !id_matches(p, id),
        p.subdevice != PCI_ANY_ID && p.subdevice != id.subdevice ==> !id_matches(p, id),
        id_matches(id, id),
        id_matches(
            PciDeviceId { vendor: PCI_ANY_ID, device: PCI_ANY_ID, subvendor: PCI_ANY_ID, subdevice: PCI_ANY_ID },
            id,
        ),
        p.vendor != PCI_ANY_ID && p.device != PCI_ANY_ID && p.subvendor == PCI_ANY_ID && p.subdevice == PCI_ANY_ID
            ==> (id_matches(p, id) <==> p.vendor == id.vendor && p.device == id.device),
{
}

impl PciDeviceId {
    /// Vendor and device as given, any subsystem.
    pub fn new(vendor: u16, device: u16) -> (id: PciDeviceId)
        ensures
            id == (PciDeviceId { vendor, device, subvendor: PCI_ANY_ID, subdevice: PCI_ANY_ID }),
    {
        PciDeviceId { vendor, device, subvendor: PCI_ANY_ID, subdevice: PCI_ANY_ID }
    }

    /// Whether this identity, read as a pattern, matches `other`.
    pub fn matches(&self, other: &PciDeviceId) -> (b: bool)
        ensures
            b == id_matches(*self, *other),
    {
        (self.vendor == PCI_ANY_ID || self.vendor == other.vendor)
            && (self.device == PCI_ANY_ID || self.device == other.device)
            && (self.subvendor == PCI_ANY_ID || self.subvendor == other.subvendor)
            && (self.subdevice == PCI_ANY_ID || self.subdevice == other.subdevice)
    }
}

/// The bus/device/function address of a PCI function.
pub open spec fn bdf_of(bus: u8, slot: u8, function: u8) -> u32 {
    ((bus as u32) << 16u32) | ((slot as u32) << 11u32) | (function as u32)
}

#[derive(Debug, Clone)]
pub struct PciDevice {
    pub device_id: ObjectId,
    pub pci_id: PciDeviceId,
    pub bus: u8,
    pub slot: u8,
    pub function: u8,
    pub class_code: u32,
    pub revision: u8,
    pub bar_regions: Vec<(u32, u32)>,
    pub irq: u32,
    pub enabled: bool,
}

impl PciDevice {
    /// A disabled device with a fresh identity, class and revision 0, no
    /// BARs and no IRQ.
    pub fn new(pci_id: PciDeviceId, bus: u8, slot: u8, function: u8) -> (d: PciDevice)
        ensures
            d.device_id.value != 0,
            d.pci_id == pci_id,
            d.bus == bus && d.slot == slot && d.function == function,
            d.class_code == 0 && d.revision == 0 && d.irq == 0,
            d.bar_regions@.len() == 0,
            !d.enabled,
    {
        PciDevice {
            device_id: ObjectId::new(),
            pci_id,
            bus,
            slot,
            function,
            class_code: 0,
            revision: 0,
            bar_regions: Vec::new(),
            irq: 0,
            enabled: false,
        }
    }

    pub fn bdf(&self) -> (r: u32)
        ensures
            r == bdf_of(self.bus, self.slot, self.function),
    {
        ((self.bus as u32) << 16u32) | ((self.slot as u32) << 11u32) | (self.function as u32)
    }

    pub fn enable(&mut self)
        ensures
            *final(self) == (PciDevice { enabled: true, ..*old(self) }),
    {
        self.enabled = true;
    }

    pub fn disable(&mut self)
        ensures
            *final(self) == (PciDevice { enabled: false, ..*old(self) }),
    {
        self.enabled = false;
    }

    /// Append the region (`address`, `size`).
    pub fn add_bar(&mut self, address: u32, size: u32)
        ensures
            final(self).bar_regions@ == old(self).bar_regions@.push((address, size)),
            final(self).device_id == old(self).device_id,
            final(self).pci_id == old(self).pci_id,
            final(self).bus == old(self).bus,
            final(self).slot == old(self).slot,
            final(self).function == old(self).function,
            final(self).class_code == old(self).class_code,
            final(self).revision == old(self).revision,
            final(self).irq == old(self).irq,
            final(self).enabled == old(self).enabled,
    {
        self.bar_regions.push((address, size));
    }
}

#[derive(Debug, Clone)]
pub struct PciDriver {
    pub driver_id: ObjectId,
    pub driver_name: String,
    pub supported_devices: Vec<PciDeviceId>,
    pub registered_at: u64,
    pub probed_devices: u64,
    pub successful_probes: u64,
    pub failed_probes: u64,
}

/// Some identity pattern of `d` matches `id`.
pub open spec fn driver_supports(d: PciDriver, id: PciDeviceId) -> bool {
    exists|i: int| 0 <= i < d.supported_devices@.len() && id_matches(#[trigger] d.supported_devices@[i], id)
}

/// `d` after recording one probe, successful or not.
pub open spec fn probed(d: PciDriver, success: bool) -> PciDriver {
    PciDriver {
        probed_devices: (d.probed_devices + 1) as u64,
        successful_probes: if success { (d.successful_probes + 1) as u64 } else { d.successful_probes },
        failed_probes: if success { d.failed_probes } else { (d.failed_probes + 1) as u64 },
        ..d
    }
}

/// No probe counter of `d` would overflow on one more probe.
pub open spec fn can_probe(d: PciDriver) -> bool {
    d.probed_devices < u64::MAX && d.successful_probes < u64::MAX && d.failed_probes < u64::MAX
}

/// Recording a probe counts it once, as a success or as a failure: a
/// driver whose probes add up (every probe either succeeded or failed)
/// keeps adding up, and the outcome raises exactly the matching count.
pub proof fn lemma_probe_counts(d: PciDriver, success: bool)
    requires
        d.probed_devices == d.successful_probes + d.failed_probes,
    ensures
        can_probe(d) ==> {
            let e = probed(d, success);
            &&& e.probed_devices == e.successful_probes + e.failed_probes
            &&& e.probed_devices == d.probed_devices + 1
            &&& success ==> e.successful_probes > d.successful_probes && e.failed_probes == d.failed_probes
            &&& !success ==> e.failed_probes > d.failed_probes && e.successful_probes == d.successful_probes
        },
{
}

/// A driver supports every device whose identity it lists.
pub proof fn lemma_driver_supports_listed(d: PciDriver, id: PciDeviceId, i: int)
    requires
        0 <= i < d.supported_devices@.len(),
        d.supported_devices@[i] == id,
    ensures
        driver_supports(d, id),
{
    lemma_id_matching(id, id);
}

impl PciDriver {
    /// A driver named `name` with a fresh identity, no supported devices and
    /// zero counters.
    pub fn new(name: &str) -> (d: PciDriver)
        ensures
            d.driver_id.value != 0,
            d.driver_name@ == name@,
            d.supported_devices@.len() == 0,
            d.registered_at == 0,
            d.probed_devices == 0 && d.successful_probes == 0 && d.failed_probes == 0,
    {
        PciDriver {
            driver_id: ObjectId::new(),
            driver_name: owned(name),
            supported_devices: Vec::new(),
            registered_at: 0,
            probed_devices: 0,
            successful_probes: 0,
            failed_probes: 0,
        }
    }

    pub fn add_device(&mut self, device_id: PciDeviceId)
        ensures
            *final(self) == (PciDriver {
                supported_devices: final(self).supported_devices,
                ..*old(self)
            }),
            final(self).supported_devices@ == old(self).supported_devices@.push(device_id),
    {
        self.supported_devices.push(device_id);
    }

    /// Whether one of the driver's identity patterns matches `device_id`.
    pub fn supports_device(&self, device_id: &PciDeviceId) -> (b: bool)
        ensures
            b == driver_supports(*self, *device_id),
    {
        let mut i: usize = 0;
        while i < self.supported_devices.len()
            invariant
                i <= self.supported_devices@.len(),
                forall|j: int| 0 <= j < i ==> !id_matches(#[trigger] self.supported_devices@[j], *device_id),
            decreases self.supported_devices@.len() - i,
        {
            if self.supported_devices[i].matches(device_id) {
                assert(id_matches(self.supported_devices@[i as int], *device_id));
                return true;
            }
            i = i + 1;
        }
        false
    }

    pub fn record_probe(&mut self, success: bool)
        requires
            can_probe(*old(self)),
        ensures
            *final(self) == probed(*old(self), success),
    {
        self.probed_devices = self.probed_devices + 1;
        if success {
            self.successful_probes = self.successful_probes + 1;
        } else {
            self.failed_probes = self.failed_probes + 1;
        }
    }
}

#[derive(Debug, Clone, Copy, PartialEq, Eq, Structural)]
pub enum BusType {
    Pci,
    Usb,
    I2c,
    Spi,
    Platform,
    Acpi,
}

#[derive(Debug, Clone)]
pub struct DeviceBus {
    pub bus_id: ObjectId,
    pub bus_type: BusType,
    pub bus_name: String,
    pub devices: Vec<ObjectId>,
    pub drivers: Vec<ObjectId>,
}

/// `s` with `x` appended unless it is already there.
pub open spec fn push_new(s: Seq<ObjectId>, x: ObjectId) -> Seq<ObjectId> {
    if s.contains(x) { s } else { s.push(x) }
}

/// Whether `x` occurs in `v`.
fn holds_id(v: &Vec<ObjectId>, x: ObjectId) -> (b: bool)
    ensures
        b == v@.contains(x),
{
    let mut i: usize = 0;
    while i < v.len()
        invariant
            i <= v@.len(),
            forall|j: int| 0 <= j < i ==> v@[j] != x,
        decreases v@.len() - i,
    {
        if v[i] == x {
            assert(v@[i as int] == x);
            return true;
        }
        i = i + 1;
    }
    false
}

impl DeviceBus {
    /// An empty bus of `bus_type` named `name`, with a fresh identity.
    pub fn new(bus_type: BusType, name: &str) -> (b: DeviceBus)
        ensures
            b.bus_id.value != 0,
            b.bus_type == bus_type,
            b.bus_name@ == name@,
            b.devices@.len() == 0,
            b.drivers@.len() == 0,
    {
        DeviceBus {
            bus_id: ObjectId::new(),
            bus_type,
            bus_name: owned(name),
            devices: Vec::new(),
            drivers: Vec::new(),
        }
    }

    /// Attach `device_id` unless it is already attached.
    pub fn add_device(&mut self, device_id: ObjectId)
        ensures
            final(self).devices@ == push_new(old(self).devices@, device_id),
            final(self).drivers@ == old(self).drivers@,
            final(self).bus_id == old(self).bus_id,
            final(self).bus_type == old(self).bus_type,
            final(self).bus_name == old(self).bus_name,
    {
        if !holds_id(&self.devices, device_id) {
            self.devices.push(device_id);
        }
    }

    /// Detach every occurrence of `device_id`.
    pub fn remove_device(&mut self, device_id: ObjectId)
        ensures
            final(self).devices@ == old(self).devices@.filter(|d: ObjectId| d != device_id),
            final(self).drivers@ == old(self).drivers@,
            final(self).bus_id == old(self).bus_id,
            final(self).bus_type == old(self).bus_type,
            final(self).bus_name == old(self).bus_name,
    {
        let ghost pred = |d: ObjectId| d != device_id;
        let ghost l = self.devices@;
        let mut kept: Vec<ObjectId> = Vec::new();
        let mut i: usize = 0;
        while i < self.devices.len()
            invariant
                l == self.devices@,
                i <= l.len(),
                pred == (|d: ObjectId| d != device_id),
                kept@ == l.subrange(0, i as int).filter(pred),
            decreases l.len() - i,
        {
            proof {
                assert(l.subrange(0, i as int + 1) =~= l.subrange(0, i as int).push(l[i as int]));
                l.subrange(0, i as int).lemma_filter_push(l[i as int], pred);
            }
            if self.devices[i] != device_id {
                kept.push(self.devices[i]);
            }
            i = i + 1;
        }
        assert(l.subrange(0, l.len() as int) =~= l);
        self.devices = kept;
    }

    /// Attach `driver_id` unless it is already attached.
    pub fn add_driver(&mut self, driver_id: ObjectId)
        ensures
            final(self).drivers@ == push_new(old(self).drivers@, driver_id),
            final(self).devices@ == old(self).devices@,
            final(self).bus_id == old(self).bus_id,
            final(self).bus_type == old(self).bus_type,
            final(self).bus_name == old(self).bus_name,
    {
        if !holds_id(&self.drivers, driver_id) {
            self.drivers.push(driver_id);
        }
    }

    pub fn device_count(&self) -> (n: usize)
        ensures
            n == self.devices@.len(),
    {
        self.devices.len()
    }

    pub fn driver_count(&self) -> (n: usize)
        ensures
            n == self.drivers@.len(),
    {
        self.drivers.len()
    }
}

/// Position of the first driver in `s` that supports `id`, or `s.len()`
/// when none does.
pub open spec fn first_supporting(s: Seq<(ObjectId, PciDriver)>, id: PciDeviceId) -> int {
    if exists|k: int| 0 <= k < s.len() && driver_supports(#[trigger] s[k].1, id) {
        choose|k: int| 0 <= k < s.len() && driver_supports(s[k].1, id)
            && forall|j: int| 0 <= j < k ==> !driver_supports(#[trigger] s[j].1, id)
    } else {
        s.len() as int
    }
}

proof fn lemma_first_supporting_is(s: Seq<(ObjectId, PciDriver)>, id: PciDeviceId, k: int)
    requires
        0 <= k <= s.len(),
        k < s.len() ==> driver_supports(s[k].1, id),
        forall|j: int| 0 <= j < k ==> !driver_supports(#[trigger] s[j].1, id),
    ensures
        first_supporting(s, id) == k,
{
    if k < s.len() {
        let f = first_supporting(s, id);
        assert(0 <= f < s.len() && driver_supports(s[f].1, id)
            && forall|j: int| 0 <= j < f ==> !driver_supports(#[trigger] s[j].1, id));
        if f < k {
        } else if f > k {
        }
    } else {
        if exists|m: int| 0 <= m < s.len() && driver_supports(#[trigger] s[m].1, id) {
            let m = choose|m: int| 0 <= m < s.len() && driver_supports(#[trigger] s[m].1, id);
            assert(!driver_supports(s[m].1, id));
        }
    }
}

/// Driver table `s1` is `s0` after probing a device with identity `id`:
/// drivers before the first supporting one record a failed probe, that one
/// a successful probe, the rest nothing.
pub open spec fn probe_outcome(s0: Seq<(ObjectId, PciDriver)>, s1: Seq<(ObjectId, PciDriver)>, id: PciDeviceId) -> bool {
    let k = first_supporting(s0, id);
    &&& s1.len() == s0.len()
    &&& forall|j: int| 0 <= j < s0.len() ==> (#[trigger] s1[j]).0 == s0[j].0
    &&& forall|j: int| 0 <= j < s0.len() ==> (#[trigger] s1[j]).1 == if j < k {
        probed(s0[j].1, false)
    } else if j == k {
        probed(s0[j].1, true)
    } else {
        s0[j].1
    }
}

#[derive(Debug, Clone, Copy)]
pub struct DeviceStats {
    pub total_devices: u64,
    pub registered_devices: u64,
    pub enabled_devices: u64,
    pub total_drivers: u64,
    pub matched_pairs: u64,
    pub total_buses: u64,
}

/// Number of enabled devices in `s`.
pub open spec fn count_enabled_devices(s: Seq<(u32, PciDevice)>) -> nat
    decreases s.len(),
{
    if s.len() == 0 { 0 } else { count_enabled_devices(s.drop_last()) + if s.last().1.enabled { 1nat } else { 0nat } }
}

/// PCI devices by BDF address, PCI drivers, buses, and which driver each
/// device was bound to.
#[derive(Debug, Clone)]
pub struct DeviceManager {
    pub pci_devices: VecMap<u32, PciDevice>,
    pub pci_drivers: VecMap<ObjectId, PciDriver>,
    pub buses: VecMap<ObjectId, DeviceBus>,
    pub device_to_driver: VecMap<ObjectId, ObjectId>,
    pub total_devices: u64,
    pub total_drivers: u64,
}

impl Default for DeviceManager {
    fn default() -> (m: DeviceManager)
        ensures
            m.wf(),
            m.pci_devices@ == Map::<u32, PciDevice>::empty(),
            m.pci_drivers@ == Map::<ObjectId, PciDriver>::empty(),
            m.buses@ == Map::<ObjectId, DeviceBus>::empty(),
            m.device_to_driver@ == Map::<ObjectId, ObjectId>::empty(),
            m.total_devices == 0 && m.total_drivers == 0,
    {
        DeviceManager::new()
    }
}

impl DeviceManager {
    pub open spec fn wf(&self) -> bool {
        &&& self.pci_devices.wf()
        &&& self.pci_drivers.wf()
        &&& self.buses.wf()
        &&& self.device_to_driver.wf()
    }

    /// Every driver can record one more probe.
    pub open spec fn drivers_can_probe(&self) -> bool {
        forall|j: int| 0 <= j < self.pci_drivers.entries@.len() ==> can_probe(#[trigger] self.pci_drivers.entries@[j].1)
    }

    pub fn new() -> (m: DeviceManager)
        ensures
            m.wf(),
            m.pci_devices@ == Map::<u32, PciDevice>::empty(),
            m.pci_drivers@ == Map::<ObjectId, PciDriver>::empty(),
            m.buses@ == Map::<ObjectId, DeviceBus>::empty(),
            m.device_to_driver@ == Map::<ObjectId, ObjectId>::empty(),
            m.total_devices == 0 && m.total_drivers == 0,
    {
        DeviceManager {
            pci_devices: VecMap::new(),
            pci_drivers: VecMap::new(),
            buses: VecMap::new(),
            device_to_driver: VecMap::new(),
            total_devices: 0,
            total_drivers: 0,
        }
    }

    /// `pci_register_driver`: a new driver named `name` supporting
    /// `device_ids`, in that order. Always succeeds with the driver's id.
    pub fn register_pci_driver(&mut self, name: &str, device_ids: Vec<PciDeviceId>) -> (r: Result<ObjectId>)
        requires
            old(self).wf(),
            old(self).total_drivers < u64::MAX,
        ensures
            final(self).wf(),
            r matches Ok(id) && {
                let d = final(self).pci_drivers@[id];
                &&& final(self).pci_drivers@ == old(self).pci_drivers@.insert(id, d)
                &&& d.driver_id == id
                &&& id.value != 0
                &&& d.driver_name@ == name@
                &&& d.supported_devices@ == device_ids@
                &&& d.registered_at == 0
                &&& d.probed_devices == 0 && d.successful_probes == 0 && d.failed_probes == 0
            },
            final(self).total_drivers == old(self).total_drivers + 1,
            final(self).total_devices == old(self).total_devices,
            final(self).pci_devices@ == old(self).pci_devices@,
            final(self).buses@ == old(self).buses@,
            final(self).device_to_driver@ == old(self).device_to_driver@,
    {
        let mut driver = PciDriver::new(name);
        let mut i: usize = 0;
        while i < device_ids.len()
            invariant
                i <= device_ids@.len(),
                driver.supported_devices@ == device_ids@.subrange(0, i as int),
                driver.driver_name@ == name@,
                driver.driver_id.value != 0,
                driver.registered_at == 0,
                driver.probed_devices == 0 && driver.successful_probes == 0 && driver.failed_probes == 0,
            decreases device_ids@.len() - i,
        {
            driver.add_device(device_ids[i]);
            assert(device_ids@.subrange(0, i as int + 1) =~= device_ids@.subrange(0, i as int).push(device_ids@[i as int]));
            i = i + 1;
        }
        assert(device_ids@.subrange(0, i as int) =~= device_ids@);
        let driver_id = driver.driver_id;
        self.pci_drivers.insert(driver_id, driver);
        self.total_drivers = self.total_drivers + 1;
        Ok(driver_id)
    }

    /// `pci_unregister_driver`: drop the driver; `Error::Driver` when it is
    /// unknown. Bindings of devices to it are left as they are.
    pub fn unregister_pci_driver(&mut self, driver_id: ObjectId) -> (r: Result<()>)
        requires
            old(self).wf(),
        ensures
            final(self).wf(),
            final(self).pci_drivers@ == old(self).pci_drivers@.remove(driver_id),
            old(self).pci_drivers@.contains_key(driver_id) ==> r.is_ok(),
            !old(self).pci_drivers@.contains_key(driver_id) ==> r matches Err(Error::Driver(_)),
            final(self).pci_devices@ == old(self).pci_devices@,
            final(self).buses@ == old(self).buses@,
            final(self).device_to_driver@ == old(self).device_to_driver@,
            final(self).total_devices == old(self).total_devices,
            final(self).total_drivers == old(self).total_drivers,
    {
        match self.pci_drivers.remove(&driver_id) {
            Some(_) => Ok(()),
            None => Err(Error::Driver(owned("Driver not found"))),
        }
    }

    /// Record a new device at its BDF address (replacing any device there)
    /// and bind it to the first driver that supports it.
    pub fn register_pci_device(&mut self, pci_id: PciDeviceId, bus: u8, slot: u8, func: u8) -> (r: Result<ObjectId>)
        requires
            old(self).wf(),
            old(self).total_devices < u64::MAX,
            old(self).drivers_can_probe(),
        ensures
            final(self).wf(),
            r matches Ok(id) && {
                let bdf = bdf_of(bus, slot, func);
                let d = final(self).pci_devices@[bdf];
                &&& final(self).pci_devices@ == old(self).pci_devices@.insert(bdf, d)
                &&& d.device_id == id
                &&& id.value != 0
                &&& d.pci_id == pci_id
                &&& d.bus == bus && d.slot == slot && d.function == func
                &&& d.class_code == 0 && d.revision == 0 && d.irq == 0
                &&& d.bar_regions@.len() == 0
                &&& !d.enabled
                &&& probe_outcome(old(self).pci_drivers.entries@, final(self).pci_drivers.entries@, pci_id)
                &&& first_supporting(old(self).pci_drivers.entries@, pci_id) < old(self).pci_drivers.entries@.len()
                    ==> final(self).device_to_driver@ == old(self).device_to_driver@.insert(id,
                        old(self).pci_drivers.entries@[first_supporting(old(self).pci_drivers.entries@, pci_id)].0)
                &&& first_supporting(old(self).pci_drivers.entries@, pci_id) == old(self).pci_drivers.entries@.len()
                    ==> final(self).device_to_driver@ == old(self).device_to_driver@
            },
            final(self).total_devices == old(self).total_devices + 1,
            final(self).total_drivers == old(self).total_drivers,
            final(self).buses@ == old(self).buses@,
    {
        let device = PciDevice::new(pci_id, bus, slot, func);
        let bdf = device.bdf();
        let device_id = device.device_id;
        self.pci_devices.insert(bdf, device);
        self.total_devices = self.total_devices + 1;
        match self.probe_device_drivers(device_id, pci_id) {
            Ok(()) => {},
            Err(e) => {
                return Err(e);
            },
        }
        Ok(device_id)
    }

    /// Offer the device to the drivers in table order: each driver that does
    /// not support it records a failed probe, the first that does records a
    /// successful one and the device is bound to it. Always `Ok`.
    pub fn probe_device_drivers(&mut self, device_id: ObjectId, pci_id: PciDeviceId) -> (r: Result<()>)
        requires
            old(self).wf(),
            old(self).drivers_can_probe(),
        ensures
            final(self).wf(),
            r.is_ok(),
            probe_outcome(old(self).pci_drivers.entries@, final(self).pci_drivers.entries@, pci_id),
            first_supporting(old(self).pci_drivers.entries@, pci_id) < old(self).pci_drivers.entries@.len()
                ==> final(self).device_to_driver@ == old(self).device_to_driver@.insert(device_id,
                    old(self).pci_drivers.entries@[first_supporting(old(self).pci_drivers.entries@, pci_id)].0),
            first_supporting(old(self).pci_drivers.entries@, pci_id) == old(self).pci_drivers.entries@.len()
                ==> final(self).device_to_driver@ == old(self).device_to_driver@,
            final(self).pci_devices@ == old(self).pci_devices@,
            final(self).buses@ == old(self).buses@,
            final(self).total_devices == old(self).total_devices,
            final(self).total_drivers == old(self).total_drivers,
    {
        let ghost s0 = self.pci_drivers.entries@;
        let n = self.pci_drivers.entries.len();
        let mut matched: Option<usize> = None;
        let mut i: usize = 0;
        while i < n && matched.is_none()
            invariant
                self.wf(),
                s0 == old(self).pci_drivers.entries@,
                n == s0.len(),
                i <= n,
                self.pci_drivers.entries@.len() == n,
                self.pci_devices == old(self).pci_devices,
                self.buses == old(self).buses,
                self.device_to_driver == old(self).device_to_driver,
                self.total_devices == old(self).total_devices,
                self.total_drivers == old(self).total_drivers,
                forall|j: int| 0 <= j < n ==> can_probe(#[trigger] s0[j].1),
                forall|j: int| 0 <= j < n ==> (#[trigger] self.pci_drivers.entries@[j]).0 == s0[j].0,
                matched.is_none() ==> forall|j: int| 0 <= j < i ==> !driver_supports(#[trigger] s0[j].1, pci_id),
                matched.is_none() ==> forall|j: int| 0 <= j < i ==> (#[trigger] self.pci_drivers.entries@[j]).1 == probed(s0[j].1, false),
                matched.is_none() ==> forall|j: int| i <= j < n ==> (#[trigger] self.pci_drivers.entries@[j]).1 == s0[j].1,
                matched matches Some(k) ==> {
                    &&& k + 1 == i
                    &&& driver_supports(s0[k as int].1, pci_id)
                    &&& forall|j: int| 0 <= j < k ==> !driver_supports(#[trigger] s0[j].1, pci_id)
                    &&& forall|j: int| 0 <= j < n ==> (#[trigger] self.pci_drivers.entries@[j]).1 == if j < k {
                        probed(s0[j].1, false)
                    } else if j == k {
                        probed(s0[j].1, true)
                    } else {
                        s0[j].1
                    }
                },
            decreases n - i,
        {
            let ghost before = self.pci_drivers.entries@;
            let supported = self.pci_drivers.entries[i].1.supports_device(&pci_id);
            self.pci_drivers.entries[i].1.record_probe(supported);
            proof {
                assert(crate::keyed::keys_of(self.pci_drivers.entries@) =~= crate::keyed::keys_of(before));
            }
            if supported {
                matched = Some(i);
            }
            i = i + 1;
        }
        match matched {
            Some(k) => {
                proof {
                    lemma_first_supporting_is(s0, pci_id, k as int);
                }
                let driver_id = self.pci_drivers.entries[k].0;
                self.device_to_driver.insert(device_id, driver_id);
            },
            None => {
                proof {
                    lemma_first_supporting_is(s0, pci_id, n as int);
                }
            },
        }
        Ok(())
    }

    /// The driver bound to `device_id`, if it is bound to a registered one.
    pub fn get_driver_for_device(&self, device_id: ObjectId) -> (r: Option<&PciDriver>)
        requires
            self.wf(),
        ensures
            match r {
                Some(d) => self.device_to_driver@.contains_key(device_id)
                    && self.pci_drivers@.contains_key(self.device_to_driver@[device_id])
                    && *d == self.pci_drivers@[self.device_to_driver@[device_id]],
                None => !self.device_to_driver@.contains_key(device_id)
                    || !self.pci_drivers@.contains_key(self.device_to_driver@[device_id]),
            },
    {
        match self.device_to_driver.get(&device_id) {
            Some(driver_id) => self.pci_drivers.get(driver_id),
            None => None,
        }
    }

    /// `bus_register`: a new empty bus; always `Ok` with its id.
    pub fn register_bus(&mut self, bus_type: BusType, name: &str) -> (r: Result<ObjectId>)
        requires
            old(self).wf(),
        ensures
            final(self).wf(),
            r matches Ok(id) && {
                let b = final(self).buses@[id];
                &&& final(self).buses@ == old(self).buses@.insert(id, b)
                &&& b.bus_id == id && id.value != 0
                &&& b.bus_type == bus_type
                &&& b.bus_name@ == name@
                &&& b.devices@.len() == 0 && b.drivers@.len() == 0
            },
            final(self).pci_devices@ == old(self).pci_devices@,
            final(self).pci_drivers@ == old(self).pci_drivers@,
            final(self).device_to_driver@ == old(self).device_to_driver@,
            final(self).total_devices == old(self).total_devices,
            final(self).total_drivers == old(self).total_drivers,
    {
        let bus = DeviceBus::new(bus_type, name);
        let bus_id = bus.bus_id;
        self.buses.insert(bus_id, bus);
        Ok(bus_id)
    }

    /// Attach `device_id` to bus `bus_id`; `Error::Driver` for an unknown bus.
    pub fn bus_add_device(&mut self, bus_id: ObjectId, device_id: ObjectId) -> (r: Result<()>)
        requires
            old(self).wf(),
        ensures
            final(self).wf(),
            !old(self).buses@.contains_key(bus_id) ==> (r matches Err(Error::Driver(_)))
                && final(self).buses@ == old(self).buses@,
            old(self).buses@.contains_key(bus_id) ==> r.is_ok() && {
                let b0 = old(self).buses@[bus_id];
                let b1 = final(self).buses@[bus_id];
                &&& final(self).buses@ == old(self).buses@.insert(bus_id, b1)
                &&& b1.devices@ == push_new(b0.devices@, device_id)
                &&& b1.drivers@ == b0.drivers@
                &&& b1.bus_id == b0.bus_id && b1.bus_type == b0.bus_type && b1.bus_name == b0.bus_name
            },
            final(self).pci_devices@ == old(self).pci_devices@,
            final(self).pci_drivers@ == old(self).pci_drivers@,
            final(self).device_to_driver@ == old(self).device_to_driver@,
    {
        match self.buses.index_of(&bus_id) {
            Some(pos) => {
                let ghost s0 = self.buses.entries@;
                proof {
                    lemma_map_of_index(s0, pos as int);
                }
                self.buses.entries[pos].1.add_device(device_id);
                let ghost e = self.buses.entries@[pos as int];
                proof {
                    assert(self.buses.entries@ == s0.update(pos as int, e));
                    lemma_map_of_update(s0, pos as int, e);
                }
                Ok(())
            },
            None => Err(Error::Driver(owned("Bus not found"))),
        }
    }

    /// Attach `driver_id` to bus `bus_id`; `Error::Driver` for an unknown bus.
    pub fn bus_add_driver(&mut self, bus_id: ObjectId, driver_id: ObjectId) -> (r: Result<()>)
        requires
            old(self).wf(),
        ensures
            final(self).wf(),
            !old(self).buses@.contains_key(bus_id) ==> (r matches Err(Error::Driver(_)))
                && final(self).buses@ == old(self).buses@,
            old(self).buses@.contains_key(bus_id) ==> r.is_ok() && {
                let b0 = old(self).buses@[bus_id];
                let b1 = final(self).buses@[bus_id];
                &&& final(self).buses@ == old(self).buses@.insert(bus_id, b1)
                &&& b1.drivers@ == push_new(b0.drivers@, driver_id)
                &&& b1.devices@ == b0.devices@
                &&& b1.bus_id == b0.bus_id && b1.bus_type == b0.bus_type && b1.bus_name == b0.bus_name
            },
            final(self).pci_devices@ == old(self).pci_devices@,
            final(self).pci_drivers@ == old(self).pci_drivers@,
            final(self).device_to_driver@ == old(self).device_to_driver@,
    {
        match self.buses.index_of(&bus_id) {
            Some(pos) => {
                let ghost s0 = self.buses.entries@;
                proof {
                    lemma_map_of_index(s0, pos as int);
                }
                self.buses.entries[pos].1.add_driver(driver_id);
                let ghost e = self.buses.entries@[pos as int];
                proof {
                    assert(self.buses.entries@ == s0.update(pos as int, e));
                    lemma_map_of_update(s0, pos as int, e);
                }
                Ok(())
            },
            None => Err(Error::Driver(owned("Bus not found"))),
        }
    }

    pub fn get_device_by_bdf(&self, bdf: u32) -> (r: Option<&PciDevice>)
        requires
            self.wf(),
        ensures
            match r {
                Some(d) => self.pci_devices@.contains_key(bdf) && *d == self.pci_devices@[bdf],
                None => !self.pci_devices@.contains_key(bdf),
            },
    {
        self.pci_devices.get(&bdf)
    }

    /// Devices whose vendor is `vendor`, in table order.
    pub fn find_devices_by_vendor(&self, vendor: u16) -> (r: Vec<&PciDevice>)
        ensures
            r@.map_values(|d: &PciDevice| *d) == self.pci_devices.entries@.map_values(
                |e: (u32, PciDevice)| e.1).filter(|d: PciDevice| d.pci_id.vendor == vendor),
    {
        let ghost ds = self.pci_devices.entries@.map_values(|e: (u32, PciDevice)| e.1);
        let ghost pred = |d: PciDevice| d.pci_id.vendor == vendor;
        let mut out: Vec<&PciDevice> = Vec::new();
        let mut i: usize = 0;
        while i < self.pci_devices.entries.len()
            invariant
                i <= self.pci_devices.entries@.len(),
                ds == self.pci_devices.entries@.map_values(|e: (u32, PciDevice)| e.1),
                pred == (|d: PciDevice| d.pci_id.vendor == vendor),
                out@.map_values(|d: &PciDevice| *d) == ds.subrange(0, i as int).filter(pred),
            decreases self.pci_devices.entries@.len() - i,
        {
            proof {
                assert(ds.subrange(0, i as int + 1) =~= ds.subrange(0, i as int).push(ds[i as int]));
                ds.subrange(0, i as int).lemma_filter_push(ds[i as int], pred);
            }
            let d = &self.pci_devices.entries[i].1;
            if d.pci_id.vendor == vendor {
                out.push(d);
                assert(out@.map_values(|d: &PciDevice| *d) =~= ds.subrange(0, i as int).filter(pred).push(ds[i as int]));
            }
            i = i + 1;
        }
        assert(ds.subrange(0, i as int) =~= ds);
        out
    }

    /// Devices whose class code is `class_code`, in table order.
    pub fn find_devices_by_class(&self, class_code: u32) -> (r: Vec<&PciDevice>)
        ensures
            r@.map_values(|d: &PciDevice| *d) == self.pci_devices.entries@.map_values(
                |e: (u32, PciDevice)| e.1).filter(|d: PciDevice| d.class_code == class_code),
    {
        let ghost ds = self.pci_devices.entries@.map_values(|e: (u32, PciDevice)| e.1);
        let ghost pred = |d: PciDevice| d.class_code == class_code;
        let mut out: Vec<&PciDevice> = Vec::new();
        let mut i: usize = 0;
        while i < self.pci_devices.entries.len()
            invariant
                i <= self.pci_devices.entries@.len(),
                ds == self.pci_devices.entries@.map_values(|e: (u32, PciDevice)| e.1),
                pred == (|d: PciDevice| d.class_code == class_code),
                out@.map_values(|d: &PciDevice| *d) == ds.subrange(0, i as int).filter(pred),
            decreases self.pci_devices.entries@.len() - i,
        {
            proof {
                assert(ds.subrange(0, i as int + 1) =~= ds.subrange(0, i as int).push(ds[i as int]));
                ds.subrange(0, i as int).lemma_filter_push(ds[i as int], pred);
            }
            let d = &self.pci_devices.entries[i].1;
            if d.class_code == class_code {
                out.push(d);
                assert(out@.map_values(|d: &PciDevice| *d) =~= ds.subrange(0, i as int).filter(pred).push(ds[i as int]));
            }
            i = i + 1;
        }
        assert(ds.subrange(0, i as int) =~= ds);
        out
    }

    /// Enable the device at BDF `device_id`; `Error::Driver` when there is none.
    pub fn enable_device(&mut self, device_id: u32) -> (r: Result<()>)
        requires
            old(self).wf(),
        ensures
            final(self).wf(),
            old(self).pci_devices@.contains_key(device_id) ==> r.is_ok() && final(self).pci_devices@
                == old(self).pci_devices@.insert(device_id, PciDevice { enabled: true, ..old(self).pci_devices@[device_id] }),
            !old(self).pci_devices@.contains_key(device_id) ==> (r matches Err(Error::Driver(_)))
                && final(self).pci_devices@ == old(self).pci_devices@,
            final(self).pci_drivers@ == old(self).pci_drivers@,
            final(self).buses@ == old(self).buses@,
            final(self).device_to_driver@ == old(self).device_to_driver@,
    {
        self.set_device_enabled(device_id, true)
    }

    /// Disable the device at BDF `device_id`; `Error::Driver` when there is none.
    pub fn disable_device(&mut self, device_id: u32) -> (r: Result<()>)
        requires
            old(self).wf(),
        ensures
            final(self).wf(),
            old(self).pci_devices@.contains_key(device_id) ==> r.is_ok() && final(self).pci_devices@
                == old(self).pci_devices@.insert(device_id, PciDevice { enabled: false, ..old(self).pci_devices@[device_id] }),
            !old(self).pci_devices@.contains_key(device_id) ==> (r matches Err(Error::Driver(_)))
                && final(self).pci_devices@ == old(self).pci_devices@,
            final(self).pci_drivers@ == old(self).pci_drivers@,
            final(self).buses@ == old(self).buses@,
            final(self).device_to_driver@ == old(self).device_to_driver@,
    {
        self.set_device_enabled(device_id, false)
    }

    fn set_device_enabled(&mut self, bdf: u32, on: bool) -> (r: Result<()>)
        requires
            old(self).wf(),
        ensures
            final(self).wf(),
            old(self).pci_devices@.contains_key(bdf) ==> r.is_ok() && final(self).pci_devices@
                == old(self).pci_devices@.insert(bdf, PciDevice { enabled: on, ..old(self).pci_devices@[bdf] }),
            !old(self).pci_devices@.contains_key(bdf) ==> (r matches Err(Error::Driver(_)))
                && final(self).pci_devices@ == old(self).pci_devices@,
            final(self).pci_drivers@ == old(self).pci_drivers@,
            final(self).buses@ == old(self).buses@,
            final(self).device_to_driver@ == old(self).device_to_driver@,
    {
        match self.pci_devices.index_of(&bdf) {
            Some(pos) => {
                let ghost s0 = self.pci_devices.entries@;
                proof {
                    lemma_map_of_index(s0, pos as int);
                }
                self.pci_devices.entries[pos].1.enabled = on;
                let ghost e = self.pci_devices.entries@[pos as int];
                proof {
                    assert(self.pci_devices.entries@ == s0.update(pos as int, e));
                    lemma_map_of_update(s0, pos as int, e);
                }
                Ok(())
            },
            None => Err(Error::Driver(owned("Device not found"))),
        }
    }

    /// Counters, table sizes, and how many devices are enabled.
    pub fn get_stats(&self) -> (st: DeviceStats)
        requires
            self.wf(),
        ensures
            st.total_devices == self.total_devices,
            st.registered_devices == self.pci_devices@.len(),
            st.enabled_devices == count_enabled_devices(self.pci_devices.entries@),
            st.total_drivers == self.total_drivers,
            st.matched_pairs == self.device_to_driver@.len(),
            st.total_buses == self.buses@.len(),
    {
        let mut enabled: u64 = 0;
        let mut i: usize = 0;
        while i < self.pci_devices.entries.len()
            invariant
                i <= self.pci_devices.entries@.len(),
                enabled <= i,
                enabled == count_enabled_devices(self.pci_devices.entries@.subrange(0, i as int)),
            decreases self.pci_devices.entries@.len() - i,
        {
            assert(self.pci_devices.entries@.subrange(0, i as int + 1).drop_last()
                =~= self.pci_devices.entries@.subrange(0, i as int));
            if self.pci_devices.entries[i].1.enabled {
                enabled = enabled + 1;
            }
            i = i + 1;
        }
        assert(self.pci_devices.entries@.subrange(0, i as int) =~= self.pci_devices.entries@);
        DeviceStats {
            total_devices: self.total_devices,
            registered_devices: self.pci_devices.len() as u64,
            enabled_devices: enabled,
            total_drivers: self.total_drivers,
            matched_pairs: self.device_to_driver.len() as u64,
            total_buses: self.buses.len() as u64,
        }
    }
}

#[derive(Debug, Clone, Copy, PartialEq, Eq, Structural)]
pub enum BlockDeviceType {
    HardDrive,
    SolidState,
    Nvme,
    Ramdisk,
    LoopbackDevice,
}

#[derive(Debug, Clone, Copy)]
pub struct BlockDevice {
    pub device_id: ObjectId,
    pub device_type: BlockDeviceType,
    pub major_number: u32,
    pub minor_number: u32,
    pub capacity_bytes: u64,
    pub block_size: u32,
    pub read_only: bool,
    pub registered: bool,
}

impl BlockDevice {
    /// A writable, unregistered device with 4096-byte blocks.
    pub fn new(device_type: BlockDeviceType, major: u32, minor: u32, capacity: u64) -> (d: BlockDevice)
        ensures
            d.device_id.value != 0,
            d.device_type == device_type,
            d.major_number == major && d.minor_number == minor,
            d.capacity_bytes == capacity,
            d.block_size == 4096,
            !d.read_only && !d.registered,
    {
        BlockDevice {
            device_id: ObjectId::new(),
            device_type,
            major_number: major,
            minor_number: minor,
            capacity_bytes: capacity,
            block_size: 4096,
            read_only: false,
            registered: false,
        }
    }

    pub fn set_read_only(&mut self, read_only: bool)
        ensures
            *final(self) == (BlockDevice { read_only, ..*old(self) }),
    {
        self.read_only = read_only;
    }

    pub fn register(&mut self)
        ensures
            *final(self) == (BlockDevice { registered: true, ..*old(self) }),
    {
        self.registered = true;
    }

    pub fn unregister(&mut self)
        ensures
            *final(self) == (BlockDevice { registered: false, ..*old(self) }),
    {
        self.registered = false;
    }
}

/// Block devices by (major, minor) number.
#[derive(Debug, Clone)]
pub struct BlockDeviceManager {
    pub devices: VecMap<(u32, u32), BlockDevice>,
    pub total_registered: u64,
}

impl Default for BlockDeviceManager {
    fn default() -> (m: BlockDeviceManager)
        ensures
            m.devices.wf(),
            m.devices@ == Map::<(u32, u32), BlockDevice>::empty(),
            m.total_registered == 0,
    {
        BlockDeviceManager::new()
    }
}

impl BlockDeviceManager {
    pub fn new() -> (m: BlockDeviceManager)
        ensures
            m.devices.wf(),
            m.devices@ == Map::<(u32, u32), BlockDevice>::empty(),
            m.total_registered == 0,
    {
        BlockDeviceManager { devices: VecMap::new(), total_registered: 0 }
    }

    /// Record `device` as registered under its numbers; refused with
    /// `Error::Driver` when the numbers are taken.
    pub fn register_block_device(&mut self, device: BlockDevice) -> (r: Result<ObjectId>)
        requires
            old(self).devices.wf(),
            old(self).total_registered < u64::MAX,
        ensures
            final(self).devices.wf(),
            old(self).devices@.contains_key((device.major_number, device.minor_number)) ==> {
                &&& r matches Err(Error::Driver(_))
                &&& *final(self) == *old(self)
            },
            !old(self).devices@.contains_key((device.major_number, device.minor_number)) ==> {
                &&& r == Ok::<ObjectId, Error>(device.device_id)
                &&& final(self).devices@ == old(self).devices@.insert((device.major_number, device.minor_number),
                    BlockDevice { registered: true, ..device })
                &&& final(self).total_registered == old(self).total_registered + 1
            },
    {
        let key = (device.major_number, device.minor_number);
        if self.devices.contains_key(&key) {
            return Err(Error::Driver(owned("Device already registered")));
        }
        let device_id = device.device_id;
        let mut d = device;
        d.register();
        self.devices.insert(key, d);
        self.total_registered = self.total_registered + 1;
        Ok(device_id)
    }

    /// Forget the device numbered (`major`, `minor`); `Error::Driver` when
    /// there is none.
    pub fn unregister_block_device(&mut self, major: u32, minor: u32) -> (r: Result<()>)
        requires
            old(self).devices.wf(),
        ensures
            final(self).devices.wf(),
            final(self).devices@ == old(self).devices@.remove((major, minor)),
            final(self).total_registered == old(self).total_registered,
            old(self).devices@.contains_key((major, minor)) ==> r.is_ok(),
            !old(self).devices@.contains_key((major, minor)) ==> r matches Err(Error::Driver(_)),
    {
        match self.devices.remove(&(major, minor)) {
            Some(_) => Ok(()),
            None => Err(Error::Driver(owned("Device not found"))),
        }
    }

    pub fn get_device(&self, major: u32, minor: u32) -> (r: Option<&BlockDevice>)
        requires
            self.devices.wf(),
        ensures
            match r {
                Some(d) => self.devices@.contains_key((major, minor)) && *d == self.devices@[(major, minor)],
                None => !self.devices@.contains_key((major, minor)),
            },
    {
        self.devices.get(&(major, minor))
    }
}

#[derive(Debug, Clone, Copy, PartialEq, Eq, Structural)]
pub enum NetDeviceType {
    Ethernet,
    Wireless,
    Loopback,
    Bridge,
    Vlan,
}

#[derive(Debug, Clone)]
pub struct NetworkDevice {
    pub device_id: ObjectId,
    pub device_type: NetDeviceType,
    pub name: String,
    pub mac_address: [u8; 6],
    pub mtu: u32,
    pub registered: bool,
}

impl NetworkDevice {
    /// An unregistered device named `name` with a zero MAC and MTU 1500.
    pub fn new(device_type: NetDeviceType, name: &str) -> (d: NetworkDevice)
        ensures
            d.device_id.value != 0,
            d.device_type == device_type,
            d.name@ == name@,
            d.mac_address@ == seq![0u8, 0u8, 0u8, 0u8, 0u8, 0u8],
            d.mtu == 1500,
            !d.registered,
    {
        let d = NetworkDevice {
            device_id: ObjectId::new(),
            device_type,
            name: owned(name),
            mac_address: [0u8; 6],
            mtu: 1500,
            registered: false,
        };
        assert(d.mac_address@ =~= seq![0u8, 0u8, 0u8, 0u8, 0u8, 0u8]);
        d
    }

    pub fn set_mac(&mut self, mac: [u8; 6])
        ensures
            *final(self) == (NetworkDevice { mac_address: mac, ..*old(self) }),
    {
        self.mac_address = mac;
    }

    pub fn register(&mut self)
        ensures
            *final(self) == (NetworkDevice { registered: true, ..*old(self) }),
    {
        self.registered = true;
    }

    pub fn unregister(&mut self)
        ensures
            *final(self) == (NetworkDevice { registered: false, ..*old(self) }),
    {
        self.registered = false;
    }
}

/// Network devices by interface name.
#[derive(Debug, Clone)]
pub struct NetworkDeviceManager {
    pub devices: VecMap<String, NetworkDevice>,
    pub total_registered: u64,
}

impl Default for NetworkDeviceManager {
    fn default() -> (m: NetworkDeviceManager)
        ensures
            m.devices.wf(),
            m.devices@ == Map::<Seq<char>, NetworkDevice>::empty(),
            m.total_registered == 0,
    {
        NetworkDeviceManager::new()
    }
}

impl NetworkDeviceManager {
    pub fn new() -> (m: NetworkDeviceManager)
        ensures
            m.devices.wf(),
            m.devices@ == Map::<Seq<char>, NetworkDevice>::empty(),
            m.total_registered == 0,
    {
        NetworkDeviceManager { devices: VecMap::new(), total_registered: 0 }
    }

    /// Record `device` as registered under its name; refused with
    /// `Error::Driver` when the name is taken.
    pub fn register_net_device(&mut self, device: NetworkDevice) -> (r: Result<ObjectId>)
        requires
            old(self).devices.wf(),
            old(self).total_registered < u64::MAX,
        ensures
            final(self).devices.wf(),
            old(self).devices@.contains_key(device.name@) ==> {
                &&& r matches Err(Error::Driver(_))
                &&& *final(self) == *old(self)
            },
            !old(self).devices@.contains_key(device.name@) ==> {
                &&& r == Ok::<ObjectId, Error>(device.device_id)
                &&& final(self).devices@ == old(self).devices@.insert(device.name@,
                    NetworkDevice { registered: true, ..device })
                &&& final(self).total_registered == old(self).total_registered + 1
            },
    {
        if self.devices.contains_key(&device.name) {
            return Err(Error::Driver(owned("Device already registered")));
        }
        let device_id = device.device_id;
        let mut d = device;
        d.register();
        let key = d.name.clone();
        self.devices.insert(key, d);
        self.total_registered = self.total_registered + 1;
        Ok(device_id)
    }

    /// Forget the device named `name`; `Error::Driver` when there is none.
    pub fn unregister_net_device(&mut self, name: &str) -> (r: Result<()>)
        requires
            old(self).devices.wf(),
        ensures
            final(self).devices.wf(),
            final(self).devices@ == old(self).devices@.remove(name@),
            final(self).total_registered == old(self).total_registered,
            old(self).devices@.contains_key(name@) ==> r.is_ok(),
            !old(self).devices@.contains_key(name@) ==> r matches Err(Error::Driver(_)),
    {
        match self.devices.remove(&owned(name)) {
            Some(_) => Ok(()),
            None => Err(Error::Driver(owned("Device not found"))),
        }
    }

    pub fn get_device(&self, name: &str) -> (r: Option<&NetworkDevice>)
        requires
            self.devices.wf(),
        ensures
            match r {
                Some(d) => self.devices@.contains_key(name@) && *d == self.devices@[name@],
                None => !self.devices@.contains_key(name@),
            },
    {
        self.devices.get(&owned(name))
    }

    /// Every registered device, in registration order.
    pub fn list_devices(&self) -> (r: Vec<&NetworkDevice>)
        ensures
            r@.map_values(|d: &NetworkDevice| *d) == self.devices.entries@.map_values(|e: (String, NetworkDevice)| e.1),
    {
        let ghost all = self.devices.entries@.map_values(|e: (String, NetworkDevice)| e.1);
        let mut out: Vec<&NetworkDevice> = Vec::new();
        let mut i: usize = 0;
        while i < self.devices.entries.len()
            invariant
                i <= self.devices.entries@.len(),
                all == self.devices.entries@.map_values(|e: (String, NetworkDevice)| e.1),
                out@.len() == i,
                forall|k: int| 0 <= k < i ==> *(#[trigger] out@[k]) == all[k],
            decreases self.devices.entries@.len() - i,
        {
            out.push(&self.devices.entries[i].1);
            i = i + 1;
        }
        assert(out@.map_values(|d: &NetworkDevice| *d) =~= all);
        out
    }
}

} // verus!
