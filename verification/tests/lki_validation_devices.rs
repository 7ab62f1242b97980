use sher::common::ObjectId;
use sher::lki::device_translation::{
    BlockDevice, BlockDeviceManager, BlockDeviceType, BusType, DeviceBus, DeviceManager, NetDeviceType,
    NetworkDevice, NetworkDeviceManager, PciDevice, PciDeviceId, PciDriver,
};
use sher::lki::interrupt_translation::{InterruptHandler, InterruptManager, IrqPriority, IrqTrigger};
use sher::lki::validation::{ValidationError, Validator};

#[test]
fn test_validate_allocation_valid() {
    let mut validator = Validator::new();
    let result = validator.validate_allocation(1024, 0);
    assert!(result.is_ok());
    assert_eq!(validator.total_validations, 1);
    assert_eq!(validator.failed_validations, 0);
}

#[test]
fn test_validate_allocation_zero_size() {
    let mut validator = Validator::new();
    let result = validator.validate_allocation(0, 0);
    assert!(result.is_err());
    assert_eq!(validator.failed_validations, 1);
}

#[test]
fn test_validate_allocation_too_large() {
    let mut validator = Validator::new();
    let result = validator.validate_allocation(2 * 1024 * 1024 * 1024, 0);
    assert!(result.is_err());
}

#[test]
fn test_validate_alignment_power_of_two() {
    let mut validator = Validator::new();
    assert!(validator.validate_allocation(1024, 16).is_ok());
    assert!(validator.validate_allocation(1024, 32).is_ok());
    assert!(validator.validate_allocation(1024, 64).is_ok());
}

#[test]
fn test_validate_alignment_non_power_of_two() {
    let mut validator = Validator::new();
    let result = validator.validate_allocation(1024, 7);
    assert!(result.is_err());
}

#[test]
fn test_validate_deallocation_valid() {
    let mut validator = Validator::new();
    let result = validator.validate_deallocation(0x1000);
    assert!(result.is_ok());
}

#[test]
fn test_validate_deallocation_null() {
    let mut validator = Validator::new();
    let result = validator.validate_deallocation(0);
    assert!(result.is_err());
}

#[test]
fn test_validate_irq_valid() {
    let mut validator = Validator::new();
    let result = validator.validate_irq(32);
    assert!(result.is_ok());
}

#[test]
fn test_validate_irq_out_of_range() {
    let mut validator = Validator::new();
    let result = validator.validate_irq(256);
    assert!(result.is_err());
}

#[test]
fn validation_errors_carry_their_messages() {
    let mut validator = Validator::new();
    assert_eq!(validator.validate_irq(300), Err(ValidationError::InvalidIrq));
    assert_eq!(ValidationError::InvalidIrq.to_string(), "Invalid IRQ number");
    assert_eq!(validator.validate_allocation(1024, 3), Err(ValidationError::AlignmentViolation));
    assert_eq!(validator.validate_allocation(0, 0), Err(ValidationError::InvalidSize));
    assert_eq!(validator.validate_deallocation(0), Err(ValidationError::NullPointer));
    assert_eq!(validator.total_validations, 4);
    assert_eq!(validator.failed_validations, 4);
}

// ----------------------------------------------------------------------
// Interrupts
// ----------------------------------------------------------------------

#[test]
fn test_interrupt_manager_new() {
    let manager = InterruptManager::new();
    assert_eq!(manager.registered_interrupts(), 0);
    assert_eq!(manager.active_interrupts(), 0);
}

#[test]
fn test_request_irq_basic() {
    let mut manager = InterruptManager::new();
    let driver_id = ObjectId::new();

    let result = manager.request_irq(driver_id, 32, IrqTrigger::Rising, 0);
    assert!(result.is_ok());
    assert_eq!(manager.registered_interrupts(), 1);
    assert_eq!(manager.active_interrupts(), 1);
}

#[test]
fn test_request_irq_duplicate_non_shared() {
    let mut manager = InterruptManager::new();
    let driver1 = ObjectId::new();
    let driver2 = ObjectId::new();

    manager.request_irq(driver1, 32, IrqTrigger::Rising, 0).ok();
    let result = manager.request_irq(driver2, 32, IrqTrigger::Rising, 0);

    assert!(result.is_err());
}

#[test]
fn test_request_irq_shared() {
    let mut manager = InterruptManager::new();
    let driver1 = ObjectId::new();
    let driver2 = ObjectId::new();

    const IRQF_SHARED: u32 = 0x00000080;

    manager.request_irq(driver1, 32, IrqTrigger::Rising, IRQF_SHARED).ok();
    let result = manager.request_irq(driver2, 32, IrqTrigger::Rising, IRQF_SHARED);

    assert!(result.is_ok());
    assert_eq!(manager.registered_interrupts(), 1);
}

#[test]
fn test_free_irq() {
    let mut manager = InterruptManager::new();
    let driver_id = ObjectId::new();

    manager.request_irq(driver_id, 32, IrqTrigger::Rising, 0).ok();
    let result = manager.free_irq(32, driver_id);

    assert!(result.is_ok());
    assert_eq!(manager.registered_interrupts(), 0);
}

#[test]
fn test_free_irq_wrong_driver() {
    let mut manager = InterruptManager::new();
    let driver1 = ObjectId::new();
    let driver2 = ObjectId::new();

    manager.request_irq(driver1, 32, IrqTrigger::Rising, 0).ok();
    let result = manager.free_irq(32, driver2);

    assert!(result.is_err());
}

#[test]
fn test_enable_disable_irq() {
    let mut manager = InterruptManager::new();
    let driver_id = ObjectId::new();

    manager.request_irq(driver_id, 32, IrqTrigger::Rising, 0).ok();
    assert_eq!(manager.active_interrupts(), 1);

    manager.disable_irq(32).ok();
    assert_eq!(manager.active_interrupts(), 0);

    manager.enable_irq(32).ok();
    assert_eq!(manager.active_interrupts(), 1);
}

#[test]
fn test_interrupt_handler_latency() {
    let mut handler = InterruptHandler::new(ObjectId::new(), 32, IrqTrigger::Rising);

    handler.record_call(100);
    handler.record_call(150);
    handler.record_call(200);

    assert_eq!(handler.call_count, 3);
    assert_eq!(handler.peak_latency_us, 200);
    assert_eq!(handler.avg_latency_us, 150);
}

#[test]
fn test_interrupt_stats() {
    let mut manager = InterruptManager::new();
    let driver1 = ObjectId::new();
    let driver2 = ObjectId::new();

    manager.request_irq(driver1, 32, IrqTrigger::Rising, 0).ok();
    manager.request_irq(driver2, 33, IrqTrigger::Falling, 0).ok();

    let stats = manager.get_stats();
    assert_eq!(stats.total_registered, 2);
    assert_eq!(stats.active_interrupts, 2);
}

#[test]
fn shared_line_survives_until_last_sharer_frees_it() {
    let mut manager = InterruptManager::new();
    let a = ObjectId::new();
    let b = ObjectId::new();
    let id = manager.request_irq(a, 40, IrqTrigger::HighLevel, 0x80 | 0x2).unwrap();
    assert_eq!(manager.request_irq(b, 40, IrqTrigger::HighLevel, 0x80).unwrap(), id);
    assert_eq!(manager.get_handler(40).unwrap().priority, IrqPriority::Critical);
    assert!(manager.is_shared_irq(40, b));
    assert!(manager.free_irq(40, a).is_ok());
    assert_eq!(manager.registered_interrupts(), 1);
    assert_eq!(manager.active_interrupts(), 0);
    assert!(manager.free_irq(40, b).is_ok());
    assert_eq!(manager.registered_interrupts(), 0);
    assert!(manager.request_irq(a, 999, IrqTrigger::Rising, 0).is_err());
    assert_eq!(manager.total_interrupts, 2);
}

#[test]
fn high_latency_handlers_are_found() {
    let mut manager = InterruptManager::new();
    manager.request_irq(ObjectId::new(), 1, IrqTrigger::Rising, 0x1).ok();
    manager.request_irq(ObjectId::new(), 2, IrqTrigger::Rising, 0).ok();
    assert_eq!(manager.get_handler(1).unwrap().priority, IrqPriority::High);
    assert!(manager.find_high_latency_irqs(0).is_empty());
    let stats = manager.get_stats();
    assert_eq!(stats.peak_latency_us, 0);
    assert_eq!(stats.avg_latency_us, 0);
}

// ----------------------------------------------------------------------
// Devices
// ----------------------------------------------------------------------

#[test]
fn test_pci_device_id_new() {
    let pci_id = PciDeviceId::new(0x8086, 0x1234);
    assert_eq!(pci_id.vendor, 0x8086);
    assert_eq!(pci_id.device, 0x1234);
    assert_eq!(pci_id.subvendor, 0xFFFF);
    assert_eq!(pci_id.subdevice, 0xFFFF);
}

#[test]
fn test_pci_device_id_matches_exact() {
    let id1 = PciDeviceId::new(0x8086, 0x1234);
    let id2 = PciDeviceId::new(0x8086, 0x1234);

    assert!(id1.matches(&id2));
    assert!(id2.matches(&id1));
}

#[test]
fn test_pci_device_id_matches_wildcard() {
    let wildcard = PciDeviceId { vendor: 0xFFFF, device: 0x1234, subvendor: 0xFFFF, subdevice: 0xFFFF };
    let specific = PciDeviceId::new(0x8086, 0x1234);

    assert!(wildcard.matches(&specific));
}

#[test]
fn test_pci_device_bdf() {
    let pci_id = PciDeviceId::new(0x8086, 0x1234);
    let device = PciDevice::new(pci_id, 5, 10, 2);

    let bdf = device.bdf();
    let expected = ((5 as u32) << 16) | ((10 as u32) << 11) | 2;
    assert_eq!(bdf, expected);
}

#[test]
fn test_pci_device_enable_disable() {
    let pci_id = PciDeviceId::new(0x8086, 0x1234);
    let mut device = PciDevice::new(pci_id, 5, 10, 2);

    assert!(!device.enabled);
    device.enable();
    assert!(device.enabled);
    device.disable();
    assert!(!device.enabled);
}

#[test]
fn test_pci_device_add_bar() {
    let pci_id = PciDeviceId::new(0x8086, 0x1234);
    let mut device = PciDevice::new(pci_id, 5, 10, 2);

    device.add_bar(0xF0000000, 0x10000);
    device.add_bar(0xF0010000, 0x1000);

    assert_eq!(device.bar_regions.len(), 2);
    assert_eq!(device.bar_regions[0], (0xF0000000, 0x10000));
}

#[test]
fn test_pci_driver_new() {
    let driver = PciDriver::new("intel_ether");
    assert_eq!(driver.driver_name, "intel_ether");
    assert_eq!(driver.supported_devices.len(), 0);
    assert_eq!(driver.probed_devices, 0);
}

#[test]
fn test_pci_driver_add_device() {
    let mut driver = PciDriver::new("intel_ether");
    let id1 = PciDeviceId::new(0x8086, 0x1234);
    let id2 = PciDeviceId::new(0x8086, 0x5678);

    driver.add_device(id1);
    driver.add_device(id2);

    assert_eq!(driver.supported_devices.len(), 2);
}

#[test]
fn test_pci_driver_supports_device() {
    let mut driver = PciDriver::new("intel_ether");
    let supported = PciDeviceId::new(0x8086, 0x1234);
    let unsupported = PciDeviceId::new(0x1000, 0x9999);

    driver.add_device(supported);

    assert!(driver.supports_device(&supported));
    assert!(!driver.supports_device(&unsupported));
}

#[test]
fn test_pci_driver_probe_tracking() {
    let mut driver = PciDriver::new("intel_ether");

    driver.record_probe(true);
    driver.record_probe(true);
    driver.record_probe(false);

    assert_eq!(driver.probed_devices, 3);
    assert_eq!(driver.successful_probes, 2);
    assert_eq!(driver.failed_probes, 1);
}

#[test]
fn test_device_bus_new() {
    let bus = DeviceBus::new(BusType::Pci, "pci0");
    assert_eq!(bus.bus_type, BusType::Pci);
    assert_eq!(bus.bus_name, "pci0");
    assert_eq!(bus.device_count(), 0);
    assert_eq!(bus.driver_count(), 0);
}

#[test]
fn test_device_bus_add_device() {
    let mut bus = DeviceBus::new(BusType::Pci, "pci0");
    let dev_id = ObjectId::new();

    bus.add_device(dev_id);
    assert_eq!(bus.device_count(), 1);

    bus.add_device(dev_id);
    assert_eq!(bus.device_count(), 1);
}

#[test]
fn test_device_bus_remove_device() {
    let mut bus = DeviceBus::new(BusType::Pci, "pci0");
    let dev_id = ObjectId::new();

    bus.add_device(dev_id);
    bus.remove_device(dev_id);
    assert_eq!(bus.device_count(), 0);
}

#[test]
fn test_device_manager_new() {
    let manager = DeviceManager::new();
    assert_eq!(manager.total_devices, 0);
    assert_eq!(manager.total_drivers, 0);
}

#[test]
fn test_device_manager_register_pci_driver() {
    let mut manager = DeviceManager::new();
    let device_ids = vec![PciDeviceId::new(0x8086, 0x1234)];

    let result = manager.register_pci_driver("intel_ether", device_ids);
    assert!(result.is_ok());
    assert_eq!(manager.total_drivers, 1);
}

#[test]
fn test_device_manager_register_pci_device() {
    let mut manager = DeviceManager::new();
    let pci_id = PciDeviceId::new(0x8086, 0x1234);

    let result = manager.register_pci_device(pci_id, 0, 15, 0);
    assert!(result.is_ok());
    assert_eq!(manager.total_devices, 1);
}

#[test]
fn test_device_manager_driver_device_matching() {
    let mut manager = DeviceManager::new();
    let device_ids = vec![PciDeviceId::new(0x8086, 0x1234)];

    manager.register_pci_driver("intel_ether", device_ids).ok();
    let device_id = manager.register_pci_device(PciDeviceId::new(0x8086, 0x1234), 0, 15, 0).ok();

    if let Some(dev_id) = device_id {
        let driver = manager.get_driver_for_device(dev_id);
        assert!(driver.is_some());
    }
}

#[test]
fn test_device_manager_register_bus() {
    let mut manager = DeviceManager::new();

    let result = manager.register_bus(BusType::Pci, "pci0");
    assert!(result.is_ok());
}

#[test]
fn test_device_manager_bus_add_device() {
    let mut manager = DeviceManager::new();
    let bus_id = manager.register_bus(BusType::Pci, "pci0").unwrap();
    let dev_id = ObjectId::new();

    let result = manager.bus_add_device(bus_id, dev_id);
    assert!(result.is_ok());
}

#[test]
fn test_device_manager_find_by_vendor() {
    let mut manager = DeviceManager::new();

    manager.register_pci_device(PciDeviceId::new(0x8086, 0x1234), 0, 15, 0).ok();
    manager.register_pci_device(PciDeviceId::new(0x8086, 0x5678), 0, 16, 0).ok();
    manager.register_pci_device(PciDeviceId::new(0x1000, 0x9999), 0, 17, 0).ok();

    let devices = manager.find_devices_by_vendor(0x8086);
    assert_eq!(devices.len(), 2);
}

#[test]
fn test_device_manager_enable_disable() {
    let mut manager = DeviceManager::new();
    let pci_id = PciDeviceId::new(0x8086, 0x1234);
    manager.register_pci_device(pci_id, 0, 15, 0).ok();

    let bdf = ((0 as u32) << 16) | ((15 as u32) << 11) | 0;
    manager.enable_device(bdf).ok();

    if let Some(device) = manager.get_device_by_bdf(bdf) {
        assert!(device.enabled);
    }
}

#[test]
fn test_device_manager_stats() {
    let mut manager = DeviceManager::new();

    manager.register_pci_driver("driver1", vec![PciDeviceId::new(0x8086, 0x1234)]).ok();
    manager.register_pci_driver("driver2", vec![PciDeviceId::new(0x1000, 0x5678)]).ok();
    manager.register_pci_device(PciDeviceId::new(0x8086, 0x1234), 0, 15, 0).ok();

    let stats = manager.get_stats();
    assert_eq!(stats.total_drivers, 2);
    assert_eq!(stats.registered_devices, 1);
}

#[test]
fn probing_counts_failures_before_the_matching_driver() {
    let mut manager = DeviceManager::new();
    let first = manager.register_pci_driver("first", vec![PciDeviceId::new(0x1000, 0x1)]).unwrap();
    let second = manager.register_pci_driver("second", vec![PciDeviceId::new(0x8086, 0xFFFF)]).unwrap();
    let dev = manager.register_pci_device(PciDeviceId::new(0x8086, 0x42), 1, 2, 3).unwrap();
    assert_eq!(manager.get_driver_for_device(dev).unwrap().driver_id, second);
    let d1 = manager.pci_drivers.get(&first).unwrap();
    assert_eq!((d1.probed_devices, d1.failed_probes, d1.successful_probes), (1, 1, 0));
    let d2 = manager.pci_drivers.get(&second).unwrap();
    assert_eq!((d2.probed_devices, d2.failed_probes, d2.successful_probes), (1, 0, 1));
    assert!(manager.enable_device(12345).is_err());
    assert!(manager.unregister_pci_driver(first).is_ok());
    assert!(manager.unregister_pci_driver(first).is_err());
    assert!(manager.bus_add_device(ObjectId::new(), dev).is_err());
}

#[test]
fn test_block_device_new() {
    let device = BlockDevice::new(BlockDeviceType::HardDrive, 8, 0, 1024 * 1024 * 1024);
    assert_eq!(device.major_number, 8);
    assert_eq!(device.minor_number, 0);
    assert_eq!(device.capacity_bytes, 1024 * 1024 * 1024);
    assert!(!device.registered);
}

#[test]
fn test_block_device_register() {
    let mut device = BlockDevice::new(BlockDeviceType::HardDrive, 8, 0, 1024 * 1024 * 1024);
    assert!(!device.registered);

    device.register();
    assert!(device.registered);

    device.unregister();
    assert!(!device.registered);
}

#[test]
fn test_block_device_manager_register() {
    let mut manager = BlockDeviceManager::new();
    let device = BlockDevice::new(BlockDeviceType::HardDrive, 8, 0, 1024 * 1024 * 1024);

    let result = manager.register_block_device(device);
    assert!(result.is_ok());
    assert_eq!(manager.total_registered, 1);
}

#[test]
fn test_block_device_manager_duplicate() {
    let mut manager = BlockDeviceManager::new();
    let device1 = BlockDevice::new(BlockDeviceType::HardDrive, 8, 0, 1024 * 1024 * 1024);
    let device2 = BlockDevice::new(BlockDeviceType::HardDrive, 8, 0, 1024 * 1024 * 1024);

    manager.register_block_device(device1).ok();
    let result = manager.register_block_device(device2);

    assert!(result.is_err());
}

#[test]
fn test_network_device_new() {
    let device = NetworkDevice::new(NetDeviceType::Ethernet, "eth0");
    assert_eq!(device.name, "eth0");
    assert_eq!(device.device_type, NetDeviceType::Ethernet);
    assert_eq!(device.mtu, 1500);
    assert!(!device.registered);
}

#[test]
fn test_network_device_set_mac() {
    let mut device = NetworkDevice::new(NetDeviceType::Ethernet, "eth0");
    let mac = [0xDE, 0xAD, 0xBE, 0xEF, 0xCA, 0xFE];

    device.set_mac(mac);
    assert_eq!(device.mac_address, mac);
}

#[test]
fn test_network_device_manager_register() {
    let mut manager = NetworkDeviceManager::new();
    let device = NetworkDevice::new(NetDeviceType::Ethernet, "eth0");

    let result = manager.register_net_device(device);
    assert!(result.is_ok());
    assert_eq!(manager.total_registered, 1);
}

#[test]
fn test_network_device_manager_duplicate() {
    let mut manager = NetworkDeviceManager::new();
    let device1 = NetworkDevice::new(NetDeviceType::Ethernet, "eth0");
    let device2 = NetworkDevice::new(NetDeviceType::Ethernet, "eth0");

    manager.register_net_device(device1).ok();
    let result = manager.register_net_device(device2);

    assert!(result.is_err());
}

#[test]
fn test_network_device_manager_list() {
    let mut manager = NetworkDeviceManager::new();

    manager.register_net_device(NetworkDevice::new(NetDeviceType::Ethernet, "eth0")).ok();
    manager.register_net_device(NetworkDevice::new(NetDeviceType::Ethernet, "eth1")).ok();
    manager.register_net_device(NetworkDevice::new(NetDeviceType::Loopback, "lo")).ok();

    let devices = manager.list_devices();
    assert_eq!(devices.len(), 3);
}

#[test]
fn network_devices_unregister_by_name() {
    let mut manager = NetworkDeviceManager::new();
    manager.register_net_device(NetworkDevice::new(NetDeviceType::Wireless, "wlan0")).ok();
    assert!(manager.get_device("wlan0").unwrap().registered);
    assert!(manager.unregister_net_device("wlan0").is_ok());
    assert!(manager.get_device("wlan0").is_none());
    assert!(manager.unregister_net_device("wlan0").is_err());
}

fn success_rate(v: &Validator) -> f64 {
    if v.total_validations == 0 {
        100.0
    } else {
        ((v.total_validations - v.failed_validations) as f64 / v.total_validations as f64) * 100.0
    }
}

#[test]
fn test_validator_new() {
    let validator = Validator::new();
    assert_eq!(validator.total_validations, 0);
    assert_eq!(validator.failed_validations, 0);
    assert_eq!(success_rate(&validator), 100.0);
}

#[test]
fn test_validator_success_rate() {
    let mut validator = Validator::new();
    validator.validate_allocation(1024, 0).ok();
    validator.validate_allocation(0, 0).ok();
    let rate = success_rate(&validator);
    assert!(rate > 40.0 && rate < 60.0);
}
