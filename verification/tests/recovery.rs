use sher::recovery::bootptr::BootPointer;
use sher::recovery::healthcheck::{check, check_default, BuiltinProbe};
use sher::recovery::partition::{ImmutablePartition, PartitionSlot};

#[test]
fn empty_partition_is_not_verified() {
    let p = ImmutablePartition::empty(PartitionSlot::A);
    assert!(p.is_empty());
    assert!(!p.verify());
}

#[test]
fn written_image_verifies() {
    let mut p = ImmutablePartition::empty(PartitionSlot::B);
    p.write_image("1.2.0", vec![1, 2, 3, 4]);
    assert!(!p.is_empty());
    assert!(p.verify());
    assert_eq!(p.version.as_deref(), Some("1.2.0"));
}

#[test]
fn other_slot_flips() {
    assert_eq!(PartitionSlot::A.other(), PartitionSlot::B);
    assert_eq!(PartitionSlot::B.other(), PartitionSlot::A);
}

#[test]
fn defaults_to_slot_a() {
    let ptr = BootPointer::default();
    assert_eq!(ptr.active(), PartitionSlot::A);
    assert!(ptr.history().is_empty());
}

#[test]
fn switch_to_updates_active_and_records_history() {
    let mut ptr = BootPointer::default();
    ptr.switch_to(PartitionSlot::B, "update verified");
    assert_eq!(ptr.active(), PartitionSlot::B);
    assert_eq!(ptr.history().len(), 1);
    assert_eq!(ptr.history()[0].from, PartitionSlot::A);
    assert_eq!(ptr.history()[0].to, PartitionSlot::B);
}

#[test]
fn rollback_flips_to_other_slot() {
    let mut ptr = BootPointer::default();
    ptr.switch_to(PartitionSlot::B, "update");
    ptr.rollback("boot test failed");
    assert_eq!(ptr.active(), PartitionSlot::A);
    assert_eq!(ptr.history().len(), 2);
    assert_eq!(ptr.history()[1].reason, "boot test failed");
}

#[test]
fn empty_partition_fails_health_check() {
    let partition = ImmutablePartition::empty(PartitionSlot::B);
    let report = check_default(&partition);
    assert!(!report.all_passed());
    assert_eq!(report.failures().len(), 2);
}

#[test]
fn staged_partition_passes_health_check() {
    let mut partition = ImmutablePartition::empty(PartitionSlot::B);
    partition.write_image("2.0.0", vec![1, 2, 3]);
    let report = check_default(&partition);
    assert!(report.all_passed());
    assert!(report.failures().is_empty());
}

#[test]
fn probe_details_describe_the_image() {
    let mut partition = ImmutablePartition::empty(PartitionSlot::A);
    partition.write_image("3.1.4", vec![7; 12]);
    let report = check(&partition, &[BuiltinProbe::NotEmpty, BuiltinProbe::Integrity]);
    assert_eq!(report.results[0].name, "not_empty");
    assert_eq!(report.results[0].detail, "12 bytes staged");
    assert_eq!(report.results[1].detail, "checksum matches");
    assert!(!check(&partition, &[]).all_passed());
    assert_eq!(partition.image_len(), 12);
}
