use sher::common::{Error, ObjectId};
use sher::gpu_driver::{Connector, ConnectorStatus, ConnectorType, DisplayMode, GPUDriver, GPUMemory, PIXEL_FORMAT_ARGB8888};

fn mode_1080p() -> DisplayMode {
    DisplayMode { width: 1920, height: 1080, refresh_rate: 60, clock: 148500 }
}

#[test]
fn test_gpu_driver_creation() {
    let driver = GPUDriver::new(256 * 1024 * 1024);
    assert!(!driver.is_initialized());
}

#[test]
fn test_gpu_driver_initialization() {
    let mut driver = GPUDriver::new(256 * 1024 * 1024);
    let result = driver.initialize();
    assert!(result.is_ok());
    assert!(driver.is_initialized());
}

#[test]
fn test_register_connector() {
    let mut driver = GPUDriver::new(256 * 1024 * 1024);
    let connector = Connector {
        id: ObjectId::new(),
        connector_type: ConnectorType::HDMI,
        status: ConnectorStatus::Connected,
        supported_modes: vec![DisplayMode { width: 1920, height: 1080, refresh_rate: 60, clock: 148500 }],
        current_mode: None,
    };

    let result = driver.register_connector(connector.clone());
    assert!(result.is_ok());

    let retrieved = driver.get_connector(&connector.id);
    assert!(retrieved.is_some());
}

#[test]
fn test_get_connectors() {
    let mut driver = GPUDriver::new(256 * 1024 * 1024);
    let connector1 = Connector {
        id: ObjectId::new(),
        connector_type: ConnectorType::HDMI,
        status: ConnectorStatus::Connected,
        supported_modes: vec![],
        current_mode: None,
    };
    let connector2 = Connector {
        id: ObjectId::new(),
        connector_type: ConnectorType::DisplayPort,
        status: ConnectorStatus::Disconnected,
        supported_modes: vec![],
        current_mode: None,
    };

    let _ = driver.register_connector(connector1);
    let _ = driver.register_connector(connector2);

    let connectors = driver.get_connectors();
    assert_eq!(connectors.len(), 2);
}

#[test]
fn test_set_mode() {
    let mut driver = GPUDriver::new(256 * 1024 * 1024);
    let mode = mode_1080p();
    let connector = Connector {
        id: ObjectId::new(),
        connector_type: ConnectorType::HDMI,
        status: ConnectorStatus::Connected,
        supported_modes: vec![mode.clone()],
        current_mode: None,
    };

    let connector_id = connector.id;
    let _ = driver.register_connector(connector);

    let result = driver.set_mode(&connector_id, mode);
    assert!(result.is_ok());
}

#[test]
fn test_unsupported_mode() {
    let mut driver = GPUDriver::new(256 * 1024 * 1024);
    let connector = Connector {
        id: ObjectId::new(),
        connector_type: ConnectorType::HDMI,
        status: ConnectorStatus::Connected,
        supported_modes: vec![mode_1080p()],
        current_mode: None,
    };

    let connector_id = connector.id;
    let _ = driver.register_connector(connector);

    let unsupported_mode = DisplayMode { width: 7680, height: 4320, refresh_rate: 120, clock: 2000000 };

    let result = driver.set_mode(&connector_id, unsupported_mode);
    assert!(result.is_err());
}

#[test]
fn test_allocate_framebuffer() {
    let mut driver = GPUDriver::new(256 * 1024 * 1024);
    let result = driver.allocate_framebuffer(1920, 1080);
    assert!(result.is_ok());

    let fb = result.unwrap();
    assert_eq!(fb.width, 1920);
    assert_eq!(fb.height, 1080);
}

#[test]
fn test_allocate_multiple_framebuffers() {
    let mut driver = GPUDriver::new(256 * 1024 * 1024);
    let fb1 = driver.allocate_framebuffer(1920, 1080).unwrap();
    let fb2 = driver.allocate_framebuffer(1280, 720).unwrap();

    assert_eq!(driver.framebuffer_count(), 2);
    assert_ne!(fb1.id, fb2.id);
}

#[test]
fn test_out_of_vram() {
    let mut driver = GPUDriver::new(1024);
    let result = driver.allocate_framebuffer(1920, 1080);
    assert!(result.is_err());
}

#[test]
fn test_free_framebuffer() {
    let mut driver = GPUDriver::new(256 * 1024 * 1024);
    let fb = driver.allocate_framebuffer(1920, 1080).unwrap();

    let result = driver.free_framebuffer(&fb.id);
    assert!(result.is_ok());
    assert_eq!(driver.framebuffer_count(), 0);
}

#[test]
fn test_vram_tracking() {
    let mut driver = GPUDriver::new(256 * 1024 * 1024);
    let initial_available = driver.get_memory_info().available_bytes;

    let _fb = driver.allocate_framebuffer(1920, 1080).unwrap();
    let after_alloc = driver.get_memory_info().available_bytes;

    assert!(after_alloc < initial_available);
}

#[test]
fn test_page_flip() {
    let mut driver = GPUDriver::new(256 * 1024 * 1024);
    let connector = Connector {
        id: ObjectId::new(),
        connector_type: ConnectorType::HDMI,
        status: ConnectorStatus::Connected,
        supported_modes: vec![],
        current_mode: None,
    };

    let connector_id = connector.id;
    let _ = driver.register_connector(connector);

    let fb = driver.allocate_framebuffer(1920, 1080).unwrap();

    let result = driver.page_flip(&connector_id, &fb.id);
    assert!(result.is_ok());
}

#[test]
fn test_hotplug_detection() {
    let mut driver = GPUDriver::new(256 * 1024 * 1024);
    let connector = Connector {
        id: ObjectId::new(),
        connector_type: ConnectorType::HDMI,
        status: ConnectorStatus::Connected,
        supported_modes: vec![],
        current_mode: None,
    };

    let connector_id = connector.id;
    let _ = driver.register_connector(connector);

    let result = driver.detect_hotplug(&connector_id, false);
    assert!(result.is_ok());

    let updated = driver.get_connector(&connector_id).unwrap();
    assert_eq!(updated.status, ConnectorStatus::Disconnected);
}

#[test]
fn test_primary_display_selection() {
    let mut driver = GPUDriver::new(256 * 1024 * 1024);
    let mode = mode_1080p();
    let connector = Connector {
        id: ObjectId::new(),
        connector_type: ConnectorType::HDMI,
        status: ConnectorStatus::Connected,
        supported_modes: vec![mode.clone()],
        current_mode: None,
    };

    let connector_id = connector.id;
    let _ = driver.register_connector(connector);

    assert!(driver.get_primary_display().is_none());

    let _ = driver.set_mode(&connector_id, mode);

    assert!(driver.get_primary_display().is_some());
}

#[test]
fn test_framebuffer_vram_cleanup() {
    let mut driver = GPUDriver::new(256 * 1024 * 1024);
    let initial = driver.get_memory_info().available_bytes;

    let fb1 = driver.allocate_framebuffer(1920, 1080).unwrap();
    let fb2 = driver.allocate_framebuffer(1280, 720).unwrap();

    let allocated = driver.get_memory_info().available_bytes;
    assert!(allocated < initial);

    driver.free_framebuffer(&fb1.id).unwrap();
    driver.free_framebuffer(&fb2.id).unwrap();

    let final_available = driver.get_memory_info().available_bytes;
    assert_eq!(final_available, initial);
}

#[test]
fn framebuffers_are_laid_out_one_after_another() {
    let mut driver = GPUDriver::new(100_000);
    let fb1 = driver.allocate_framebuffer(100, 50).unwrap();
    assert_eq!(fb1.size_bytes, 20_000);
    assert_eq!(fb1.gpu_address, 0);
    assert_eq!(fb1.pixel_format, PIXEL_FORMAT_ARGB8888);
    let fb2 = driver.allocate_framebuffer(10, 10).unwrap();
    assert_eq!(fb2.gpu_address, 20_000);
    assert_eq!(
        driver.get_memory_info(),
        GPUMemory { total_bytes: 100_000, available_bytes: 79_600, allocated_bytes: 20_400 }
    );
    assert_eq!(driver.get_framebuffer(&fb2.id).unwrap().size_bytes, 400);
    // exactly what is left still fits; one more byte does not
    let rest = driver.allocate_framebuffer(199, 100).unwrap();
    assert_eq!(rest.size_bytes, 79_600);
    assert!(matches!(driver.allocate_framebuffer(1, 1), Err(Error::Memory(_))));
}

#[test]
fn unknown_ids_are_refused_as_device_errors() {
    let mut driver = GPUDriver::new(4096);
    let nobody = ObjectId::new();
    assert!(matches!(driver.free_framebuffer(&nobody), Err(Error::Device(_))));
    assert!(matches!(driver.detect_hotplug(&nobody, true), Err(Error::Device(_))));
    assert!(matches!(driver.set_mode(&nobody, mode_1080p()), Err(Error::Device(_))));
    assert!(matches!(driver.page_flip(&nobody, &nobody), Err(Error::Device(_))));
    let c = Connector {
        id: ObjectId::new(),
        connector_type: ConnectorType::EDP,
        status: ConnectorStatus::Unknown,
        supported_modes: vec![],
        current_mode: None,
    };
    let cid = c.id;
    driver.register_connector(c).unwrap();
    assert!(matches!(driver.page_flip(&cid, &nobody), Err(Error::Device(_))));
    assert_eq!(driver.connector_count(), 1);
    assert_eq!(driver.get_memory_info().available_bytes, 4096);
}

#[test]
fn primary_display_stays_with_the_first_mode_set() {
    let mut driver = GPUDriver::new(4096);
    let mode = mode_1080p();
    let a = Connector { id: ObjectId::new(), connector_type: ConnectorType::HDMI, status: ConnectorStatus::Connected, supported_modes: vec![mode], current_mode: None };
    let b = Connector { id: ObjectId::new(), connector_type: ConnectorType::DVI, status: ConnectorStatus::Connected, supported_modes: vec![mode], current_mode: None };
    let (ia, ib) = (a.id, b.id);
    driver.register_connector(a).unwrap();
    driver.register_connector(b).unwrap();
    driver.set_mode(&ib, mode).unwrap();
    driver.set_mode(&ia, mode).unwrap();
    assert_eq!(driver.get_primary_display(), Some(ib));
    assert_eq!(driver.get_connector(&ia).unwrap().current_mode, Some(mode));
}
