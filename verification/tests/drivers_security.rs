use sher::common::ObjectId;
use sher::drivers::discovery::{DiscoveredDevice, HardwareDiscovery};
use sher::drivers::registry::DriverRegistry;
use sher::drivers::sandbox::init;
use sher::security::audit::AuditLog;
use sher::security::capabilities::SecurityContext;
use sher::security::isolation::Sandbox;

#[test]
fn register_and_match() {
    let mut registry = DriverRegistry::new();
    registry.register("network", "e1000e");
    assert_eq!(registry.match_driver("network"), Some("e1000e"));
}

#[test]
fn unmatched_class_returns_none() {
    let registry = DriverRegistry::new();
    assert_eq!(registry.match_driver("gpu"), None);
}

#[test]
fn re_registering_replaces_driver() {
    let mut registry = DriverRegistry::new();
    registry.register("network", "e1000e");
    registry.register("network", "r8169");
    assert_eq!(registry.match_driver("network"), Some("r8169"));
}

#[test]
fn unregister_removes_mapping() {
    let mut registry = DriverRegistry::new();
    registry.register("audio", "snd_hda_intel");
    assert!(registry.unregister("audio"));
    assert_eq!(registry.match_driver("audio"), None);
    assert!(!registry.unregister("audio"));
}

#[test]
fn registered_classes_are_sorted() {
    let mut registry = DriverRegistry::new();
    registry.register("storage", "nvme");
    registry.register("audio", "snd_hda_intel");
    registry.register("network", "e1000e");
    assert_eq!(registry.registered_classes(), vec!["audio", "network", "storage"]);
}

#[test]
fn scan_returns_all_added_devices() {
    let mut discovery = HardwareDiscovery::new();
    discovery.add_device(DiscoveredDevice::new("intel", "network"));
    discovery.add_device(DiscoveredDevice::new("nvidia", "gpu"));
    assert_eq!(discovery.scan().len(), 2);
}

#[test]
fn scan_by_class_filters() {
    let mut discovery = HardwareDiscovery::new();
    discovery.add_device(DiscoveredDevice::new("intel", "network"));
    discovery.add_device(DiscoveredDevice::new("realtek", "network"));
    discovery.add_device(DiscoveredDevice::new("nvidia", "gpu"));

    let network_devices = discovery.scan_by_class("network");
    assert_eq!(network_devices.len(), 2);
}

#[test]
fn empty_bus_scans_to_empty() {
    let discovery = HardwareDiscovery::new();
    assert!(discovery.scan().is_empty());
}

#[test]
fn init_creates_locked_down_sandbox() {
    let sandbox = init("e1000e");
    assert_eq!(sandbox.name, "e1000e");
    assert!(sandbox.isolated_resources);
    assert!(!sandbox.network_access);
    assert!(!sandbox.filesystem_access);
}

#[test]
fn each_init_call_creates_a_distinct_sandbox() {
    let a = init("driver-a");
    let b = init("driver-a");
    assert_ne!(a.id, b.id);
}

#[test]
fn new_sandbox_denies_by_default() {
    let sb = Sandbox::new("driver-a");
    assert!(sb.isolated_resources);
    assert!(!sb.network_access);
    assert!(!sb.filesystem_access);
    assert!(sb.is_fully_locked_down());
}

#[test]
fn allow_methods_opt_in_to_access() {
    let sb = Sandbox::new("driver-b").allow_network();
    assert!(sb.network_access);
    assert!(!sb.is_fully_locked_down());

    let sb2 = Sandbox::new("driver-c").allow_filesystem().allow_network();
    assert!(sb2.filesystem_access);
    assert!(sb2.network_access);
}

#[test]
fn new_context_has_no_capabilities_and_audit_on() {
    let ctx = SecurityContext::new(ObjectId::new());
    assert!(ctx.capabilities.is_empty());
    assert!(ctx.audit_enabled);
}

#[test]
fn grant_is_idempotent() {
    let mut ctx = SecurityContext::new(ObjectId::new());
    ctx.grant("read");
    ctx.grant("read");
    assert_eq!(ctx.capabilities.len(), 1);
    assert!(ctx.has_capability("read"));
}

#[test]
fn revoke_removes_capability() {
    let mut ctx = SecurityContext::new(ObjectId::new());
    ctx.grant("write");
    ctx.revoke("write");
    assert!(!ctx.has_capability("write"));
}

#[test]
fn log_appends_event_with_timestamp() {
    let mut log = AuditLog::default();
    let actor = ObjectId::new();
    log.log(actor, "grant_capability", true);
    assert_eq!(log.events.len(), 1);
    assert_eq!(log.events[0].actor, actor);
    assert_eq!(log.events[0].action, "grant_capability");
    assert!(log.events[0].result);
}

#[test]
fn failed_events_filters_correctly() {
    let mut log = AuditLog::default();
    let actor = ObjectId::new();
    log.log(actor, "allowed_op", true);
    log.log(actor, "denied_op", false);
    let failed = log.failed_events();
    assert_eq!(failed.len(), 1);
    assert_eq!(failed[0].action, "denied_op");
}

#[test]
fn events_by_actor_filters_correctly() {
    let mut log = AuditLog::default();
    let a = ObjectId::new();
    let b = ObjectId::new();
    log.log(a, "op1", true);
    log.log(b, "op2", true);
    assert_eq!(log.events_by_actor(a).len(), 1);
    assert_eq!(log.events_by_actor(b).len(), 1);
}

#[test]
fn registered_classes_lists_each_class_once() {
    let mut registry = DriverRegistry::new();
    registry.register("network", "e1000e");
    registry.register("audio", "snd_hda_intel");
    registry.register("network", "r8169");
    assert_eq!(registry.registered_classes(), vec!["audio", "network"]);
}
