use sher::common::{Error, ObjectId, Result};
use sher::hal::{DeviceInfo, DeviceType, HardwareAbstractionLayer, HardwareDriver, MemoryMapping};

type Hal = HardwareAbstractionLayer<Box<dyn HardwareDriver>>;

struct MockDriver;

impl HardwareDriver for MockDriver {
    fn probe(&self) -> Result<Vec<DeviceInfo>> {
        Ok(vec![DeviceInfo {
            id: ObjectId::new(),
            device_type: DeviceType::Gpu,
            name: "Mock GPU".to_string(),
            vendor_id: 0x1234,
            device_id: 0x5678,
            capabilities: vec!["3D".to_string(), "2D".to_string()],
            mmio_base: Some(0x1000),
            mmio_size: Some(0x1000),
            irq: Some(10),
        }])
    }

    fn initialize(&mut self, _device: &DeviceInfo) -> Result<()> {
        Ok(())
    }

    fn shutdown(&mut self, _device_id: &ObjectId) -> Result<()> {
        Ok(())
    }

    fn get_capabilities(&self, _device_id: &ObjectId) -> Result<Vec<String>> {
        Ok(vec!["3D".to_string()])
    }

    fn read_register(&self, _device_id: &ObjectId, _offset: usize) -> Result<u32> {
        Ok(0x12345678)
    }

    fn write_register(&self, _device_id: &ObjectId, _offset: usize, _value: u32) -> Result<()> {
        Ok(())
    }
}

struct BrokenDriver;

impl HardwareDriver for BrokenDriver {
    fn probe(&self) -> Result<Vec<DeviceInfo>> {
        Err(Error::Device("bus error".to_string()))
    }

    fn initialize(&mut self, _device: &DeviceInfo) -> Result<()> {
        Ok(())
    }

    fn shutdown(&mut self, _device_id: &ObjectId) -> Result<()> {
        Ok(())
    }

    fn get_capabilities(&self, _device_id: &ObjectId) -> Result<Vec<String>> {
        Ok(vec![])
    }

    fn read_register(&self, _device_id: &ObjectId, _offset: usize) -> Result<u32> {
        Ok(0)
    }

    fn write_register(&self, _device_id: &ObjectId, _offset: usize, _value: u32) -> Result<()> {
        Ok(())
    }
}

#[test]
fn test_hal_creation() {
    let hal: Hal = HardwareAbstractionLayer::new();
    assert_eq!(hal.device_count(), 0);
}

#[test]
fn test_driver_registration() {
    let mut hal: Hal = HardwareAbstractionLayer::new();
    let driver = Box::new(MockDriver);
    let result = hal.register_driver(DeviceType::Gpu, driver);
    assert!(result.is_ok());
}

#[test]
fn test_device_probing() {
    let mut hal: Hal = HardwareAbstractionLayer::new();
    let driver = Box::new(MockDriver);
    let _ = hal.register_driver(DeviceType::Gpu, driver);

    let devices = hal.probe_devices().unwrap();
    assert_eq!(devices.len(), 1);
    assert_eq!(devices[0].device_type, DeviceType::Gpu);
}

#[test]
fn test_device_retrieval() {
    let mut hal: Hal = HardwareAbstractionLayer::new();
    let driver = Box::new(MockDriver);
    let _ = hal.register_driver(DeviceType::Gpu, driver);

    let devices = hal.probe_devices().unwrap();
    let device_id = devices[0].id.clone();

    let retrieved = hal.get_device(&device_id);
    assert!(retrieved.is_some());
}

#[test]
fn test_get_devices_by_type() {
    let mut hal: Hal = HardwareAbstractionLayer::new();
    let driver = Box::new(MockDriver);
    let _ = hal.register_driver(DeviceType::Gpu, driver);

    let _ = hal.probe_devices();
    let gpu_devices = hal.get_devices_by_type(DeviceType::Gpu);

    assert_eq!(gpu_devices.len(), 1);
}

#[test]
fn test_memory_mapping() {
    let mut hal: Hal = HardwareAbstractionLayer::new();
    let device_id = ObjectId::new();

    let result = hal.map_memory(&device_id, 0x1000, 0x1000);
    assert!(result.is_ok());

    let mapping = hal.get_mapping(&device_id);
    assert!(mapping.is_some());
    assert_eq!(mapping.unwrap().size, 0x1000);
}

#[test]
fn test_register_operations() {
    let mut hal: Hal = HardwareAbstractionLayer::new();
    let driver = Box::new(MockDriver);
    let _ = hal.register_driver(DeviceType::Gpu, driver);

    let devices = hal.probe_devices().unwrap();
    let device_id = devices[0].id.clone();

    let value = hal.read_register(&device_id, 0);
    assert!(value.is_ok());
    assert_eq!(value.unwrap(), 0x12345678);

    let write_result = hal.write_register(&device_id, 0, 0x87654321);
    assert!(write_result.is_ok());
}

#[test]
fn mapping_is_identity_and_writable() {
    let mut hal: Hal = HardwareAbstractionLayer::new();
    let id = ObjectId::new();
    assert_eq!(hal.map_memory(&id, 0xfee0_0000, 0x2000), Ok(0xfee0_0000));
    assert_eq!(
        hal.get_mapping(&id),
        Some(MemoryMapping { physical_addr: 0xfee0_0000, virtual_addr: 0xfee0_0000, size: 0x2000, write_protected: false })
    );
    assert!(hal.get_mapping(&ObjectId::new()).is_none());
}

#[test]
fn register_access_needs_a_known_device_with_a_driver() {
    let mut hal: Hal = HardwareAbstractionLayer::new();
    assert!(matches!(hal.read_register(&ObjectId::new(), 0), Err(Error::Device(_))));
    hal.register_driver(DeviceType::Gpu, Box::new(MockDriver)).unwrap();
    let devices = hal.probe_devices().unwrap();
    let id = devices[0].id;
    // a device whose type has no driver cannot be reached
    let mut other: Hal = HardwareAbstractionLayer::new();
    other.register_driver(DeviceType::Audio, Box::new(MockDriver)).unwrap();
    let _ = other.probe_devices().unwrap();
    let gpu = other.get_devices_by_type(DeviceType::Gpu);
    assert_eq!(gpu.len(), 1);
    let gid = gpu[0].id;
    assert!(matches!(other.read_register(&gid, 4), Err(Error::Device(_))));
    assert_eq!(hal.read_register(&id, 4), Ok(0x12345678));
    assert!(matches!(hal.write_register(&ObjectId::new(), 0, 1), Err(Error::Device(_))));
    assert_eq!(hal.get_device(&id).unwrap().capabilities, vec!["3D".to_string(), "2D".to_string()]);
}

#[test]
fn failing_probe_stops_with_its_error() {
    let mut hal: Hal = HardwareAbstractionLayer::new();
    hal.register_driver(DeviceType::Gpu, Box::new(MockDriver)).unwrap();
    hal.register_driver(DeviceType::Storage, Box::new(BrokenDriver)).unwrap();
    assert!(matches!(hal.probe_devices(), Err(Error::Device(ref m)) if m == "bus error"));
    // the device of the driver probed first was entered
    assert_eq!(hal.device_count(), 1);
}
