use sher::release::{ChangeLogEntry, ChangeType, ReleaseArtifact, ReleaseManager, ReleaseStatus, Version};

fn entry(version: Version, change_type: ChangeType, description: &str, breaking: bool) -> ChangeLogEntry {
    ChangeLogEntry {
        version,
        date: "2026-08-07".to_string(),
        change_type,
        description: description.to_string(),
        breaking,
    }
}

#[test]
fn test_version_creation() {
    let version = Version::new(1, 2, 3);
    assert_eq!(version.major, 1);
    assert_eq!(version.minor, 2);
    assert_eq!(version.patch, 3);
}

#[test]
fn test_version_to_string() {
    let version = Version::new(1, 2, 3);
    assert_eq!(version.to_string(), "1.2.3");
}

#[test]
fn test_version_bumping() {
    let version = Version::new(1, 2, 3);

    let major_bump = version.bump_major();
    assert_eq!(major_bump.to_string(), "2.0.0");

    let minor_bump = version.bump_minor();
    assert_eq!(minor_bump.to_string(), "1.3.0");

    let patch_bump = version.bump_patch();
    assert_eq!(patch_bump.to_string(), "1.2.4");
}

#[test]
fn test_version_comparison() {
    let v1 = Version::new(1, 0, 0);
    let v2 = Version::new(1, 1, 0);
    let v3 = Version::new(2, 0, 0);

    assert!(v1 < v2);
    assert!(v2 < v3);
    assert!(v1 < v3);
}

#[test]
fn precedes_agrees_with_the_derived_order() {
    let vs = [Version::new(1, 0, 0), Version::new(1, 1, 0), Version::new(2, 0, 0), Version::new(1, 0, 9), Version::new(0, 9, 9)];
    for a in vs.iter() {
        for b in vs.iter() {
            assert_eq!(a.precedes(b), a < b);
        }
    }
    assert_eq!(Version::new(10, 20, 305).to_string(), "10.20.305");
}

#[test]
fn test_release_manager_creation() {
    let manager = ReleaseManager::new(1, 0, 0);
    assert_eq!(manager.get_version().to_string(), "1.0.0");
    assert_eq!(*manager.get_status(), ReleaseStatus::Development);
}

#[test]
fn test_changelog_entries() {
    let mut manager = ReleaseManager::new(1, 0, 0);
    manager.add_changelog_entry(entry(Version::new(1, 0, 0), ChangeType::Feature, "Initial release", false));
    assert_eq!(manager.get_changelog().len(), 1);
}

#[test]
fn test_release_artifacts() {
    let mut manager = ReleaseManager::new(1, 0, 0);

    let artifact = ReleaseArtifact {
        version: Version::new(1, 0, 0),
        artifact_type: "binary".to_string(),
        size_bytes: 1024 * 1024,
        checksum: "abc123def456".to_string(),
        download_url: "https://releases.example.com/sher-1.0.0".to_string(),
    };

    manager.register_artifact(artifact);
    assert_eq!(manager.total_artifacts(), 1);
    assert_eq!(manager.total_artifact_size(), 1024 * 1024);
}

#[test]
fn test_quality_gates() {
    let mut manager = ReleaseManager::new(1, 0, 0);

    manager.set_quality_gate("tests_passing".to_string(), true);
    manager.set_quality_gate("security_audit".to_string(), true);

    assert!(manager.gate_status("tests_passing").unwrap());
    assert!(manager.all_gates_passed());
}

#[test]
fn test_quality_gate_failure() {
    let mut manager = ReleaseManager::new(1, 0, 0);

    manager.set_quality_gate("tests_passing".to_string(), true);
    manager.set_quality_gate("security_audit".to_string(), false);

    assert!(!manager.all_gates_passed());
}

#[test]
fn test_release_readiness() {
    let mut manager = ReleaseManager::new(1, 0, 0);

    assert!(!manager.is_release_ready());

    manager.set_quality_gate("tests".to_string(), true);
    manager.add_changelog_entry(entry(Version::new(1, 0, 0), ChangeType::Feature, "Feature", false));

    let artifact = ReleaseArtifact {
        version: Version::new(1, 0, 0),
        artifact_type: "binary".to_string(),
        size_bytes: 1024,
        checksum: "abc123".to_string(),
        download_url: "https://example.com/release".to_string(),
    };
    manager.register_artifact(artifact);

    assert!(manager.is_release_ready());
}

#[test]
fn test_breaking_changes() {
    let mut manager = ReleaseManager::new(1, 0, 0);
    manager.add_changelog_entry(entry(Version::new(1, 0, 0), ChangeType::Feature, "Breaking change", true));
    assert!(manager.has_breaking_changes());
}

#[test]
fn test_feature_and_security_counts() {
    let mut manager = ReleaseManager::new(1, 0, 0);

    for i in 0..3 {
        manager.add_changelog_entry(entry(Version::new(1, 0, 0), ChangeType::Feature, &format!("Feature {}", i), false));
    }

    for i in 0..2 {
        manager.add_changelog_entry(entry(Version::new(1, 0, 0), ChangeType::Security, &format!("Security fix {}", i), false));
    }

    assert_eq!(manager.get_feature_count(), 3);
    assert_eq!(manager.get_security_fix_count(), 2);
}

#[test]
fn test_changelog_for_version() {
    let mut manager = ReleaseManager::new(1, 0, 0);

    let entry1 = ChangeLogEntry {
        version: Version::new(1, 0, 0),
        date: "2026-08-07".to_string(),
        change_type: ChangeType::Feature,
        description: "Feature 1".to_string(),
        breaking: false,
    };

    let entry2 = ChangeLogEntry {
        version: Version::new(1, 1, 0),
        date: "2026-08-08".to_string(),
        change_type: ChangeType::Feature,
        description: "Feature 2".to_string(),
        breaking: false,
    };

    manager.add_changelog_entry(entry1);
    manager.add_changelog_entry(entry2);

    let v1_changes = manager.changelog_summary(&Version::new(1, 0, 0));
    assert_eq!(v1_changes.len(), 1);
}

#[test]
fn test_release_status_transitions() {
    let mut manager = ReleaseManager::new(1, 0, 0);

    assert_eq!(*manager.get_status(), ReleaseStatus::Development);

    manager.set_status(ReleaseStatus::Beta);
    assert_eq!(*manager.get_status(), ReleaseStatus::Beta);

    manager.set_status(ReleaseStatus::Stable);
    assert_eq!(*manager.get_status(), ReleaseStatus::Stable);
}

#[test]
fn test_multiple_artifacts() {
    let mut manager = ReleaseManager::new(1, 0, 0);

    for i in 0..5 {
        let artifact = ReleaseArtifact {
            version: Version::new(1, 0, 0),
            artifact_type: format!("artifact_{}", i),
            size_bytes: (i + 1) * 1024,
            checksum: format!("checksum_{}", i),
            download_url: format!("https://example.com/artifact_{}", i),
        };
        manager.register_artifact(artifact);
    }

    assert_eq!(manager.total_artifacts(), 5);
    assert_eq!(manager.total_artifact_size(), 15 * 1024);
}

#[test]
fn unknown_gate_has_no_status_and_default_is_one_oh() {
    let manager = ReleaseManager::default();
    assert_eq!(manager.gate_status("missing"), None);
    assert!(manager.all_gates_passed());
    assert_eq!(manager.get_version().to_string(), "1.0.0");
}
