use sher::common::{Error, ObjectId};
use sher::lki::device_compat::LinuxDeviceApi;
use sher::lki::enforcement::{PermissionChecker, SecurityContext, SecurityEnforcer};
use sher::lki::linux_api::LinuxKernelInterface;
use sher::lki::memory_compat::LinuxMemoryApi;
use sher::lki::security::{
    Capability, CapabilityGrant, CapabilityManager, PermissionTier, ReauthMethod, SecurityLevel, SecurityPolicy,
};

#[test]
fn test_capability_grant_new() {
    let driver_id = ObjectId::new();
    let grant = CapabilityGrant::new(driver_id, Capability::AllocateMemory, PermissionTier::Low);

    assert_eq!(grant.driver_id, driver_id);
    assert_eq!(grant.capability, Capability::AllocateMemory);
    assert_eq!(grant.tier, PermissionTier::Low);
}

#[test]
fn test_capability_grant_with_duration() {
    let driver_id = ObjectId::new();
    let grant = CapabilityGrant::new(driver_id, Capability::AllocateMemory, PermissionTier::Low)
        .with_duration(1_800_000)
        .unwrap();

    assert_eq!(grant.lifetime_ms(), 1_800_000);
}

#[test]
fn test_capability_grant_duration_limit() {
    let driver_id = ObjectId::new();
    let grant = CapabilityGrant::new(driver_id, Capability::AllocateMemory, PermissionTier::High);

    let result = grant.with_duration(14_400_000);
    assert!(result.is_err());
}

#[test]
fn test_capability_grant_validity() {
    let driver_id = ObjectId::new();
    let mut grant = CapabilityGrant::new(driver_id, Capability::AllocateMemory, PermissionTier::Low);
    grant.granted_at_ms = 1000;
    grant.expires_at_ms = 5000;

    assert!(grant.is_valid(2000));
    assert!(grant.is_valid(4999));
    assert!(!grant.is_valid(5000));
    assert!(!grant.is_valid(6000));
}

#[test]
fn test_capability_grant_time_remaining() {
    let driver_id = ObjectId::new();
    let mut grant = CapabilityGrant::new(driver_id, Capability::AllocateMemory, PermissionTier::Low);
    grant.granted_at_ms = 1000;
    grant.expires_at_ms = 5000;

    assert_eq!(grant.time_remaining_ms(1000), 4000);
    assert_eq!(grant.time_remaining_ms(3000), 2000);
    assert_eq!(grant.time_remaining_ms(5000), 0);
}

#[test]
fn test_permission_tier_durations() {
    assert_eq!(PermissionTier::Low.max_duration_ms(), 3_600_000);
    assert_eq!(PermissionTier::Medium.max_duration_ms(), 86_400_000);
    assert_eq!(PermissionTier::High.max_duration_ms(), 7_200_000);
    assert_eq!(PermissionTier::Critical.max_duration_ms(), 1_800_000);
}

#[test]
fn test_capability_manager_grant() {
    let mut manager = CapabilityManager::new();
    let driver_id = ObjectId::new();
    let grant = CapabilityGrant::new(driver_id, Capability::AllocateMemory, PermissionTier::Low);

    let result = manager.grant(grant);
    assert!(result.is_ok());
    assert_eq!(manager.total_grants, 1);
}

#[test]
fn test_capability_manager_has_capability() {
    let mut manager = CapabilityManager::new();
    let driver_id = ObjectId::new();
    let mut grant = CapabilityGrant::new(driver_id, Capability::AllocateMemory, PermissionTier::Low);
    grant.granted_at_ms = 1000;
    grant.expires_at_ms = 5000;

    manager.grant(grant).ok();

    assert!(manager.has_capability(driver_id, Capability::AllocateMemory, 2000));
    assert!(!manager.has_capability(driver_id, Capability::AllocateMemory, 6000));
}

#[test]
fn test_capability_manager_revoke() {
    let mut manager = CapabilityManager::new();
    let driver_id = ObjectId::new();
    let grant = CapabilityGrant::new(driver_id, Capability::AllocateMemory, PermissionTier::Low);

    manager.grant(grant).ok();
    assert_eq!(manager.total_grants, 1);

    let result = manager.revoke(driver_id, Capability::AllocateMemory);
    assert!(result.is_ok());
    assert_eq!(manager.revoked_grants, 1);
}

#[test]
fn test_security_policy_new() {
    let driver_id = ObjectId::new();
    let policy = SecurityPolicy::new(driver_id, SecurityLevel::Balanced);

    assert_eq!(policy.driver_id, driver_id);
    assert_eq!(policy.security_level, SecurityLevel::Balanced);
    assert_eq!(policy.max_capability_tier, PermissionTier::High);
}

#[test]
fn test_security_policy_tier_limits() {
    let driver_id = ObjectId::new();

    let permissive = SecurityPolicy::new(driver_id, SecurityLevel::Permissive);
    assert_eq!(permissive.max_capability_tier, PermissionTier::Critical);

    let strict = SecurityPolicy::new(driver_id, SecurityLevel::Strict);
    assert_eq!(strict.max_capability_tier, PermissionTier::Medium);

    let critical = SecurityPolicy::new(driver_id, SecurityLevel::Critical);
    assert_eq!(critical.max_capability_tier, PermissionTier::Low);
}

#[test]
fn test_security_policy_allows_tier() {
    let driver_id = ObjectId::new();
    let policy = SecurityPolicy::new(driver_id, SecurityLevel::Balanced);

    assert!(policy.allows_tier(PermissionTier::Low));
    assert!(policy.allows_tier(PermissionTier::Medium));
    assert!(policy.allows_tier(PermissionTier::High));
    assert!(!policy.allows_tier(PermissionTier::Critical));
}

#[test]
fn test_security_context_check_unrestricted() {
    let driver_id = ObjectId::new();
    let policy = SecurityPolicy::new(driver_id, SecurityLevel::Unrestricted);
    let mut context = SecurityContext::new(driver_id, policy);

    let result = context.check_operation(Capability::AllocateMemory, 1000);
    assert!(result.is_ok());
    assert_eq!(context.approved_operations, 1);
}

#[test]
fn test_security_context_check_with_grant() {
    let driver_id = ObjectId::new();
    let policy = SecurityPolicy::new(driver_id, SecurityLevel::Strict);
    let mut context = SecurityContext::new(driver_id, policy);

    let mut grant = CapabilityGrant::new(driver_id, Capability::AllocateMemory, PermissionTier::Low);
    grant.granted_at_ms = 1000;
    grant.expires_at_ms = 5000;

    context.capability_manager.grant(grant).ok();

    let result = context.check_operation(Capability::AllocateMemory, 2000);
    assert!(result.is_ok());
    assert_eq!(context.approved_operations, 1);
}

#[test]
fn test_security_enforcer_register() {
    let mut enforcer = SecurityEnforcer::new();
    let driver_id = ObjectId::new();
    let policy = SecurityPolicy::new(driver_id, SecurityLevel::Balanced);

    let result = enforcer.register_driver(driver_id, policy);
    assert!(result.is_ok());
    assert_eq!(enforcer.contexts.len(), 1);
}

#[test]
fn test_security_enforcer_enforce() {
    let mut enforcer = SecurityEnforcer::new();
    let driver_id = ObjectId::new();
    let policy = SecurityPolicy::new(driver_id, SecurityLevel::Unrestricted);

    let context_id = enforcer.register_driver(driver_id, policy).unwrap();

    let result = enforcer.enforce(context_id, Capability::AllocateMemory, 1000);
    assert!(result.is_ok());
    assert_eq!(enforcer.total_checks, 1);
}

#[test]
fn test_security_enforcer_denial() {
    let mut enforcer = SecurityEnforcer::new();
    let driver_id = ObjectId::new();
    let policy = SecurityPolicy::new(driver_id, SecurityLevel::Strict);

    let context_id = enforcer.register_driver(driver_id, policy).unwrap();

    let result = enforcer.enforce(context_id, Capability::AllocateMemory, 1000);
    assert!(result.is_err());
    assert_eq!(enforcer.total_denials, 1);
}

#[test]
fn test_permission_checker_caching() {
    let mut enforcer = SecurityEnforcer::new();
    let mut checker = PermissionChecker::new();
    let driver_id = ObjectId::new();
    let policy = SecurityPolicy::new(driver_id, SecurityLevel::Unrestricted);

    let context_id = enforcer.register_driver(driver_id, policy).unwrap();

    let _ = checker.check(&mut enforcer, context_id, Capability::AllocateMemory, 1000);
    let _ = checker.check(&mut enforcer, context_id, Capability::AllocateMemory, 1000);

    assert_eq!(checker.checks_performed, 2);
    assert_eq!(checker.capability_cache.len(), 1);
}

#[test]
fn test_permission_checker_cache_clear() {
    let mut enforcer = SecurityEnforcer::new();
    let mut checker = PermissionChecker::new();
    let driver_id = ObjectId::new();
    let policy = SecurityPolicy::new(driver_id, SecurityLevel::Unrestricted);

    let context_id = enforcer.register_driver(driver_id, policy).unwrap();

    let _ = checker.check(&mut enforcer, context_id, Capability::AllocateMemory, 1000);
    assert_eq!(checker.capability_cache.len(), 1);

    checker.clear_cache(context_id);
    assert_eq!(checker.capability_cache.len(), 0);
}

#[test]
fn test_capability_manager_cleanup_expired() {
    let mut manager = CapabilityManager::new();
    let driver_id = ObjectId::new();

    let mut grant1 = CapabilityGrant::new(driver_id, Capability::AllocateMemory, PermissionTier::Low);
    grant1.granted_at_ms = 1000;
    grant1.expires_at_ms = 2000;

    let mut grant2 = CapabilityGrant::new(driver_id, Capability::RegisterDevice, PermissionTier::Low);
    grant2.granted_at_ms = 1000;
    grant2.expires_at_ms = 5000;

    manager.grant(grant1).ok();
    manager.grant(grant2).ok();

    manager.cleanup_expired(3000);
    assert_eq!(manager.expired_grants, 1);
}

#[test]
fn test_reauth_requirement() {
    let driver_id = ObjectId::new();
    let grant = CapabilityGrant::new(driver_id, Capability::RegisterDevice, PermissionTier::High)
        .with_reauth(ReauthMethod::Biometric);

    assert!(grant.reauth_required);
    assert_eq!(grant.reauth_method, ReauthMethod::Biometric);
}

#[test]
fn denied_context_counts_denials() {
    let driver_id = ObjectId::new();
    let policy = SecurityPolicy::new(driver_id, SecurityLevel::Strict);
    let mut context = SecurityContext::new(driver_id, policy);

    let _ = context.check_operation(Capability::AllocateMemory, 1000);
    let _ = context.check_operation(Capability::RegisterDevice, 1000);
    let _ = context.check_operation(Capability::NetworkAccess, 1000);

    assert_eq!(context.denied_operations, 3);
    assert_eq!(context.operation_count, 3);
}

#[test]
fn reauth_enforcement_reports_the_grant_requirement() {
    let mut enforcer = SecurityEnforcer::new();
    let driver_id = ObjectId::new();
    let policy = SecurityPolicy::new(driver_id, SecurityLevel::Critical);
    let cid = enforcer.register_driver(driver_id, policy).unwrap();
    assert!(enforcer.enforce_with_reauth(cid, Capability::DmaAccess, 10).is_err());
    assert_eq!(enforcer.critical_denials, 1);
    let mut grant = CapabilityGrant::new(driver_id, Capability::DmaAccess, PermissionTier::High)
        .with_reauth(ReauthMethod::Password);
    grant.granted_at_ms = 0;
    grant.expires_at_ms = 100;
    let ctx = enforcer.contexts.entries.iter_mut().find(|e| e.0 == cid).unwrap();
    ctx.1.capability_manager.grant(grant).unwrap();
    assert_eq!(enforcer.enforce_with_reauth(cid, Capability::DmaAccess, 10), Ok(true));
    assert_eq!(enforcer.get_context(cid).unwrap().capability_manager.reauth_requests, 1);
    assert!(enforcer.enforce(ObjectId::new(), Capability::DmaAccess, 10).is_err());
    assert_eq!(enforcer.total_checks, 3);
    assert_eq!(enforcer.total_denials, 2);
    assert!(enforcer.unregister_driver(cid).is_ok());
    assert!(enforcer.unregister_driver(cid).is_err());
}

#[test]
fn cached_denials_are_answered_from_the_cache() {
    let mut enforcer = SecurityEnforcer::new();
    let mut checker = PermissionChecker::new();
    let driver_id = ObjectId::new();
    let cid = enforcer.register_driver(driver_id, SecurityPolicy::new(driver_id, SecurityLevel::Strict)).unwrap();
    assert!(checker.check(&mut enforcer, cid, Capability::ReadMemory, 1).is_err());
    assert!(checker.check(&mut enforcer, cid, Capability::ReadMemory, 1).is_err());
    assert_eq!(enforcer.total_checks, 1);
    assert_eq!(checker.checks_failed, 2);
    checker.clear_all();
    assert_eq!(checker.capability_cache.len(), 0);
}

#[test]
fn grants_beyond_the_tier_limit_are_refused() {
    let mut manager = CapabilityManager::new();
    let driver_id = ObjectId::new();
    let mut grant = CapabilityGrant::new(driver_id, Capability::AllocateMemory, PermissionTier::Critical);
    grant.granted_at_ms = 0;
    grant.expires_at_ms = 1_800_001;
    assert!(manager.grant(grant).is_err());
    assert_eq!(manager.total_grants, 0);
    assert!(manager.revoke(driver_id, Capability::AllocateMemory).is_err());
    assert!(manager.check_with_reauth(driver_id, Capability::AllocateMemory, 0).is_err());
}

#[test]
fn linux_compat_entry_points() {
    let mut api = LinuxDeviceApi::default();
    let d = ObjectId::new();
    api.pci_driver_register(d).unwrap();
    api.pci_driver_register(d).unwrap();
    assert_eq!(api.get_registered_drivers().len(), 2);
    api.pci_driver_unregister(d).unwrap();
    assert!(api.get_registered_drivers().is_empty());

    let lki = LinuxKernelInterface::new(d);
    assert!(lki.supports_api("kmalloc"));
    assert!(!lki.supports_api("kthread_run"));
    assert_eq!(lki.call_api("vmalloc", Vec::new()).unwrap(), "Translated: vmalloc");
    assert!(lki.call_api("kthread_run", Vec::new()).is_err());

    let mut mem = LinuxMemoryApi::default();
    assert_eq!(mem.kmalloc(64).unwrap(), 0x1000 + 64);
    assert_eq!(mem.kmalloc(8).unwrap(), 0x2000 + 8);
    mem.kfree().unwrap();
    assert_eq!(mem.kfree_count, 1);
}

#[test]
fn context_can_be_updated_in_place() {
    let mut enforcer = SecurityEnforcer::new();
    let driver_id = ObjectId::new();
    let policy = SecurityPolicy::new(driver_id, SecurityLevel::Balanced);
    let context_id = enforcer.register_driver(driver_id, policy).unwrap();
    {
        let ctx = enforcer.get_context_mut(context_id).unwrap();
        ctx.operation_count = 7;
    }
    assert_eq!(enforcer.get_context(context_id).unwrap().operation_count, 7);
    assert!(enforcer.get_context_mut(ObjectId::new()).is_none());
}

#[test]
fn test_security_context_denial_rate() {
    let driver_id = ObjectId::new();
    let policy = SecurityPolicy::new(driver_id, SecurityLevel::Strict);
    let mut context = SecurityContext::new(driver_id, policy);

    let _ = context.check_operation(Capability::AllocateMemory, 1000);
    let _ = context.check_operation(Capability::RegisterDevice, 1000);
    let _ = context.check_operation(Capability::NetworkAccess, 1000);

    assert_eq!(context.denied_operations, 3);
    let denial_rate = (context.denied_operations as f64 / context.operation_count as f64) * 100.0;
    assert_eq!(denial_rate, 100.0);
}

#[test]
fn test_enforcer_stats() {
    let mut enforcer = SecurityEnforcer::new();
    let driver_id = ObjectId::new();
    let policy = SecurityPolicy::new(driver_id, SecurityLevel::Unrestricted);

    let context_id = enforcer.register_driver(driver_id, policy).unwrap();

    enforcer.enforce(context_id, Capability::AllocateMemory, 1000).ok();
    enforcer.enforce(context_id, Capability::RegisterDevice, 1000).ok();

    assert_eq!(enforcer.total_checks, 2);
    assert_eq!(enforcer.contexts.len(), 1);
}

#[test]
fn test_permission_checker_stats() {
    let mut enforcer = SecurityEnforcer::new();
    let mut checker = PermissionChecker::new();
    let driver_id = ObjectId::new();
    let policy = SecurityPolicy::new(driver_id, SecurityLevel::Unrestricted);

    let context_id = enforcer.register_driver(driver_id, policy).unwrap();

    let _ = checker.check(&mut enforcer, context_id, Capability::AllocateMemory, 1000);
    let _ = checker.check(&mut enforcer, context_id, Capability::RegisterDevice, 1000);

    assert_eq!(checker.checks_performed, 2);
    assert_eq!(checker.checks_passed, 2);
    let success_rate = (checker.checks_passed as f64 / checker.checks_performed as f64) * 100.0;
    assert!(success_rate > 99.0);
}

#[test]
fn denied_operation_names_the_missing_capability() {
    let driver_id = ObjectId::new();
    let policy = SecurityPolicy::new(driver_id, SecurityLevel::Strict);
    let mut context = SecurityContext::new(driver_id, policy);
    match context.check_operation(Capability::AllocateMemory, 1000) {
        Err(Error::Driver(message)) => assert_eq!(message, "Capability not granted"),
        other => panic!("expected a denial, got {:?}", other),
    }
    assert_eq!(context.denied_operations, 1);
}

#[test]
fn enforcement_denials_say_why() {
    let mut enforcer = SecurityEnforcer::new();
    let mut checker = PermissionChecker::new();
    let driver_id = ObjectId::new();
    let policy = SecurityPolicy::new(driver_id, SecurityLevel::Strict);
    let context_id = enforcer.register_driver(driver_id, policy).unwrap();
    let unknown = ObjectId { value: 12345 };
    let message = |r: Result<(), Error>| match r {
        Err(Error::Driver(m)) => m,
        other => panic!("expected a denial, got {:?}", other),
    };
    assert_eq!(message(enforcer.enforce(unknown, Capability::AllocateMemory, 1000)), "Context not found");
    assert_eq!(message(enforcer.enforce(context_id, Capability::AllocateMemory, 1000)), "Capability not granted");
    assert_eq!(
        message(checker.check(&mut enforcer, context_id, Capability::RegisterDevice, 1000)),
        "Capability not granted"
    );
    assert_eq!(
        message(checker.check(&mut enforcer, context_id, Capability::RegisterDevice, 1000)),
        "Permission denied (cached)"
    );
}
