use sher::common::ObjectId;
use sher::networking::device::NetworkDevice;
use sher::networking::protocol::NetworkProtocol;
use sher::networking::stack::NetworkStack;
use sher::runtime::{ServiceDescriptor, ServiceRegistry};

#[test]
fn new_device_defaults_to_1500_mtu() {
    let dev = NetworkDevice::new("eth0", "00:11:22:33:44:55");
    assert_eq!(dev.mtu, 1500);
    assert_eq!(dev.name, "eth0");
}

#[test]
fn with_mtu_overrides_default() {
    let dev = NetworkDevice::new("eth0", "00:11:22:33:44:55").with_mtu(9000);
    assert_eq!(dev.mtu, 9000);
}

#[test]
fn register_and_lookup() {
    let mut stack = NetworkStack::new();
    let id = stack.register(NetworkDevice::new("eth0", "00:11:22:33:44:55"));
    assert!(stack.device(id).is_some());
    assert_eq!(stack.device_count(), 1);
}

#[test]
fn send_within_mtu_updates_counters() {
    let mut stack = NetworkStack::new();
    let id = stack.register(NetworkDevice::new("eth0", "00:11:22:33:44:55"));
    stack.send(id, NetworkProtocol::Ethernet, &[0u8; 100]).unwrap();
    assert_eq!(stack.packets_sent(id), 1);
}

#[test]
fn send_over_mtu_is_rejected() {
    let mut stack = NetworkStack::new();
    let id = stack.register(NetworkDevice::new("eth0", "00:11:22:33:44:55"));
    let oversized = vec![0u8; 2000]; // default MTU is 1500
    assert!(stack.send(id, NetworkProtocol::Ethernet, &oversized).is_err());
    assert_eq!(stack.packets_sent(id), 0);
}

#[test]
fn send_to_unknown_device_errors() {
    let mut stack = NetworkStack::new();
    assert!(stack.send(ObjectId::new(), NetworkProtocol::WiFi, &[1]).is_err());
}

#[test]
fn unregister_removes_device() {
    let mut stack = NetworkStack::new();
    let id = stack.register(NetworkDevice::new("wlan0", "aa:bb:cc:dd:ee:ff"));
    assert!(stack.unregister(id));
    assert!(stack.device(id).is_none());
}

#[test]
fn receive_updates_counters() {
    let mut stack = NetworkStack::new();
    let id = stack.register(NetworkDevice::new("eth0", "00:11:22:33:44:55"));
    stack.receive(id, &[1, 2, 3]).unwrap();
    assert_eq!(stack.packets_received(id), 1);
}

#[test]
fn payload_of_exactly_the_mtu_is_sent() {
    let mut stack = NetworkStack::new();
    let id = stack.register(NetworkDevice::new("eth0", "00:11:22:33:44:55").with_mtu(64));
    stack.send(id, NetworkProtocol::Can, &[7u8; 64]).unwrap();
    assert!(stack.send(id, NetworkProtocol::Can, &[7u8; 65]).is_err());
    assert_eq!(stack.packets_sent(id), 1);
    assert!(!stack.unregister(ObjectId::new()));
    assert_eq!(stack.packets_received(ObjectId::new()), 0);
}

#[test]
fn protocol_names() {
    assert_eq!(NetworkProtocol::Ethernet.to_string(), "Ethernet");
    assert_eq!(NetworkProtocol::Rdma.to_string(), "Rdma");
}

fn descriptor(name: &str, lazy: bool) -> ServiceDescriptor {
    ServiceDescriptor {
        name: name.to_string(),
        required_for: Vec::new(),
        lazy,
    }
}

#[test]
fn loading_unregistered_service_errors() {
    let mut registry = ServiceRegistry::new();
    assert!(registry.load_service("storage").is_err());
}

#[test]
fn registered_service_loads_and_is_tracked() {
    let mut registry = ServiceRegistry::new();
    registry.register(descriptor("networking", true));
    assert!(registry.is_registered("networking"));
    assert!(!registry.is_loaded("networking"));

    registry.load_service("networking").unwrap();
    assert!(registry.is_loaded("networking"));
    assert_eq!(registry.loaded_services(), &["networking".to_string()]);
}

#[test]
fn loading_twice_is_idempotent() {
    let mut registry = ServiceRegistry::new();
    registry.register(descriptor("gpu", true));
    registry.load_service("gpu").unwrap();
    registry.load_service("gpu").unwrap();
    assert_eq!(registry.loaded_services().len(), 1);
}

#[test]
fn fresh_identities_are_never_nil() {
    let a = ObjectId::new();
    let b = ObjectId::new();
    assert!(!a.is_nil());
    assert!(!b.is_nil());
    assert_ne!(a, b);
    assert!(ObjectId::nil().is_nil());
    assert_eq!(ObjectId { value: 42 }.to_text(), "42");
}
