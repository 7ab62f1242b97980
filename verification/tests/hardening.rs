use sher::common::ObjectId;
use sher::hardening::memory_safety::MemorySafetyValidator;
use sher::hardening::syscall_hardening::{SyscallHardener, SyscallPolicy, SyscallType};

#[test]
fn test_syscall_policy_default() {
    let policy = SyscallPolicy::default();
    assert!(policy.allowed_syscalls.contains(&SyscallType::Read));
}

#[test]
fn test_allowed_syscall() {
    let policy = SyscallPolicy::default();
    let mut hardener = SyscallHardener::new(policy);
    let driver_id = ObjectId::new();

    let result = hardener.validate_syscall(&driver_id, SyscallType::Read);
    assert!(result.is_ok());
}

#[test]
fn test_blocked_syscall() {
    let policy = SyscallPolicy::default();
    let mut hardener = SyscallHardener::new(policy);
    let driver_id = ObjectId::new();

    let result = hardener.validate_syscall(&driver_id, SyscallType::Fork);
    assert!(result.is_err());
}

#[test]
fn test_parameter_validation() {
    let policy = SyscallPolicy::default();
    let hardener = SyscallHardener::new(policy);

    let result = hardener.validate_parameters(&SyscallType::Read, &[0]);
    assert!(result.is_err());
}

#[test]
fn test_return_value_validation() {
    let policy = SyscallPolicy::default();
    let hardener = SyscallHardener::new(policy);

    let result = hardener.validate_return_value(&SyscallType::Read, -5000);
    assert!(result.is_err());
}

#[test]
fn test_add_syscall() {
    let policy = SyscallPolicy::default();
    let mut hardener = SyscallHardener::new(policy);

    hardener.add_allowed_syscall(SyscallType::Fork);
    let driver_id = ObjectId::new();
    let result = hardener.validate_syscall(&driver_id, SyscallType::Fork);

    assert!(result.is_ok());
}

#[test]
fn test_remove_syscall() {
    let policy = SyscallPolicy::default();
    let mut hardener = SyscallHardener::new(policy);
    let driver_id = ObjectId::new();

    hardener.remove_allowed_syscall(SyscallType::Read);
    let result = hardener.validate_syscall(&driver_id, SyscallType::Read);

    assert!(result.is_err());
}

#[test]
fn test_audit_tracking() {
    let policy = SyscallPolicy::default();
    let mut hardener = SyscallHardener::new(policy);
    let driver_id = ObjectId::new();

    let _ = hardener.validate_syscall(&driver_id, SyscallType::Read);
    let audit = hardener.get_audit(&driver_id, &SyscallType::Read);

    assert!(audit.is_some());
}

#[test]
fn syscall_hardening_test_reset() {
    let policy = SyscallPolicy::default();
    let mut hardener = SyscallHardener::new(policy);
    let driver_id = ObjectId::new();

    let _ = hardener.validate_syscall(&driver_id, SyscallType::Read);
    hardener.reset(&driver_id);

    let audit = hardener.get_audit(&driver_id, &SyscallType::Read);
    assert!(audit.is_none());
}

#[test]
fn rate_limit_refuses_calls_beyond_the_window_budget() {
    let mut policy = SyscallPolicy::default();
    policy.max_calls_per_second = 2;
    let mut hardener = SyscallHardener::new(policy);
    let d = ObjectId::new();
    assert!(hardener.validate_syscall_at(&d, SyscallType::Write, 10_000).is_ok());
    assert!(hardener.validate_syscall_at(&d, SyscallType::Write, 10_100).is_ok());
    assert!(hardener.validate_syscall_at(&d, SyscallType::Write, 10_200).is_err());
    assert!(hardener.validate_syscall_at(&d, SyscallType::Write, 11_050).is_ok());
    let audit = hardener.get_audit(&d, &SyscallType::Write).unwrap();
    assert_eq!(audit.count, 3);
    assert!(hardener.validate_syscall_at(&d, SyscallType::Execve, 20_000).is_err());
    assert_eq!(hardener.get_audit(&d, &SyscallType::Execve).unwrap().blocked, 1);
    assert_eq!(hardener.get_driver_audit(&d).len(), 2);
}

#[test]
fn test_allocation_registration() {
    let mut validator = MemorySafetyValidator::new();
    let id = ObjectId::new();

    let result = validator.register_allocation(id.clone(), 256, 8);
    assert!(result.is_ok());
}

#[test]
fn test_zero_size_allocation() {
    let mut validator = MemorySafetyValidator::new();
    let id = ObjectId::new();

    let result = validator.register_allocation(id, 0, 8);
    assert!(result.is_err());
}

#[test]
fn test_use_after_free_detection() {
    let mut validator = MemorySafetyValidator::new();
    let id = ObjectId::new();

    let _ = validator.register_allocation(id.clone(), 256, 8);
    let _ = validator.record_free(&id);
    let result = validator.record_use(&id);

    assert!(result.is_err());
    assert_eq!(validator.get_use_after_free_count(), 1);
}

#[test]
fn test_double_free_detection() {
    let mut validator = MemorySafetyValidator::new();
    let id = ObjectId::new();

    let _ = validator.register_allocation(id.clone(), 256, 8);
    let _ = validator.record_free(&id);
    let result = validator.record_free(&id);

    assert!(result.is_err());
    assert_eq!(validator.get_double_free_count(), 1);
}

#[test]
fn test_bounds_checking() {
    let mut validator = MemorySafetyValidator::new();
    let id = ObjectId::new();

    let _ = validator.register_allocation(id.clone(), 256, 8);
    let result = validator.check_bounds(&id, 200, 100);

    assert!(result.is_err());
}

#[test]
fn test_audit() {
    let mut validator = MemorySafetyValidator::new();
    let id = ObjectId::new();

    let _ = validator.register_allocation(id, 256, 8);
    let audit = validator.audit();

    assert!(audit.passed);
}

#[test]
fn test_leaked_allocations() {
    let mut validator = MemorySafetyValidator::new();
    let id = ObjectId::new();

    let _ = validator.register_allocation(id, 256, 8);
    let leaked = validator.get_leaked_allocations();

    assert_eq!(leaked.len(), 1);
}

#[test]
fn test_invalid_alignment() {
    let mut validator = MemorySafetyValidator::new();
    let id = ObjectId::new();

    let result = validator.register_allocation(id, 256, 7);
    assert!(result.is_err());
}

#[test]
fn audit_reports_use_after_free_by_identity() {
    let mut validator = MemorySafetyValidator::new();
    let id = ObjectId { value: 77 };
    validator.register_allocation(id, 64, 16).unwrap();
    validator.record_use(&id).unwrap();
    validator.record_free(&id).unwrap();
    let report = validator.audit();
    assert!(!report.passed);
    assert_eq!(report.failed_checks, 1);
    assert_eq!(report.issues, vec!["Potential use-after-free: 77".to_string()]);
    assert_eq!(report.total_checks, 3);
    assert!(validator.get_leaked_allocations().is_empty());
    assert!(validator.check_bounds(&id, 0, 64).is_ok());
    assert!(validator.check_bounds(&ObjectId { value: 1 }, 0, 1).is_err());
    validator.reset();
    assert_eq!(validator.get_use_after_free_count(), 0);
}
