use sher::common::ObjectId;
use sher::memory::allocator::MemoryAllocator;
use sher::memory::dma::DmaManager;
use sher::memory::paging::PageTable;
use sher::memory::tier0_slab::{CpuSlabCache, ObjectPtr, SizeClass as Tier0Class, Tier0Allocator};
use sher::memory::tier1_slab::{SizeClass, SlabPage, SocketSlabCache, Tier1Allocator};

#[test]
fn allocate_reduces_free_and_increases_allocated() {
    let mut alloc = MemoryAllocator::new(1000);
    alloc.allocate(300).unwrap();
    assert_eq!(alloc.allocated, 300);
    assert_eq!(alloc.free, 700);
}

#[test]
fn allocate_beyond_available_fails() {
    let mut alloc = MemoryAllocator::new(100);
    assert!(alloc.allocate(200).is_err());
    assert_eq!(alloc.allocated, 0);
}

#[test]
fn deallocate_returns_memory_to_free_pool() {
    let mut alloc = MemoryAllocator::new(1000);
    alloc.allocate(400).unwrap();
    alloc.deallocate(400).unwrap();
    assert_eq!(alloc.allocated, 0);
    assert_eq!(alloc.free, 1000);
}

#[test]
fn deallocate_saturates_rather_than_underflows() {
    let mut alloc = MemoryAllocator::new(1000);
    alloc.deallocate(500).unwrap();
    assert_eq!(alloc.allocated, 0);
}

#[test]
fn unmapped_address_translates_to_none() {
    let table = PageTable::new(4096);
    assert_eq!(table.translate(0x1000), None);
}

#[test]
fn map_then_translate_round_trips() {
    let mut table = PageTable::new(4096);
    table.map(0x1000, 0x9000);
    assert_eq!(table.translate(0x1000), Some(0x9000));
}

#[test]
fn unmap_removes_mapping() {
    let mut table = PageTable::new(4096);
    table.map(0x1000, 0x9000);
    table.unmap(0x1000);
    assert_eq!(table.translate(0x1000), None);
}

#[test]
fn remapping_overwrites_previous_translation() {
    let mut table = PageTable::new(4096);
    table.map(0x1000, 0x9000);
    table.map(0x1000, 0xA000);
    assert_eq!(table.translate(0x1000), Some(0xA000));
}

#[test]
fn allocate_buffer_is_retrievable() {
    let mut mgr = DmaManager::default();
    let owner = ObjectId::new();
    let id = mgr.allocate_buffer(4096, owner).unwrap();
    let buf = mgr.get_buffer(id).unwrap();
    assert_eq!(buf.size, 4096);
    assert_eq!(buf.owner, owner);
}

#[test]
fn buffers_get_distinct_physical_addresses() {
    let mut mgr = DmaManager::default();
    let owner = ObjectId::new();
    let a = mgr.allocate_buffer(100, owner).unwrap();
    let b = mgr.allocate_buffer(100, owner).unwrap();
    assert_ne!(mgr.get_buffer(a).unwrap().physical_addr, mgr.get_buffer(b).unwrap().physical_addr);
}

#[test]
fn free_buffer_removes_it() {
    let mut mgr = DmaManager::default();
    let id = mgr.allocate_buffer(64, ObjectId::new()).unwrap();
    mgr.free_buffer(id).unwrap();
    assert!(mgr.get_buffer(id).is_none());
}

#[test]
fn tier0_slab_test_size_class_selection() {
    assert_eq!(Tier0Class::from_size(1), Some(Tier0Class::Bytes8));
    assert_eq!(Tier0Class::from_size(8), Some(Tier0Class::Bytes8));
    assert_eq!(Tier0Class::from_size(9), Some(Tier0Class::Bytes16));
    assert_eq!(Tier0Class::from_size(16), Some(Tier0Class::Bytes16));
    assert_eq!(Tier0Class::from_size(25), Some(Tier0Class::Bytes32));
    assert_eq!(Tier0Class::from_size(64), Some(Tier0Class::Bytes64));
    assert_eq!(Tier0Class::from_size(65), None);
}

#[test]
fn tier0_slab_test_size_class_actual_sizes() {
    assert_eq!(Tier0Class::Bytes8.actual_size(), 8);
    assert_eq!(Tier0Class::Bytes16.actual_size(), 16);
    assert_eq!(Tier0Class::Bytes24.actual_size(), 24);
    assert_eq!(Tier0Class::Bytes32.actual_size(), 32);
    assert_eq!(Tier0Class::Bytes48.actual_size(), 48);
    assert_eq!(Tier0Class::Bytes64.actual_size(), 64);
}

#[test]
fn test_size_class_objects_per_page() {
    assert_eq!(Tier0Class::Bytes8.objects_per_page(), 512);
    assert_eq!(Tier0Class::Bytes16.objects_per_page(), 256);
    assert_eq!(Tier0Class::Bytes32.objects_per_page(), 128);
    assert_eq!(Tier0Class::Bytes64.objects_per_page(), 64);
}

#[test]
fn test_cpu_slab_cache_new() {
    let cache = CpuSlabCache::new(Tier0Class::Bytes32);
    assert_eq!(cache.object_size(), 32);
    assert_eq!(cache.current_count(), 0);
    assert!(cache.is_empty());
}

#[test]
fn test_cpu_slab_cache_empty_allocation() {
    let mut cache = CpuSlabCache::new(Tier0Class::Bytes32);
    assert!(cache.allocate().is_none());
}

#[test]
fn test_tier0_allocator_new() {
    let allocator = Tier0Allocator::new(4).expect("Failed to create allocator");
    assert_eq!(allocator.get_cpu_count(), 4);
}

#[test]
fn test_tier0_allocator_empty_allocation() {
    let mut allocator = Tier0Allocator::new(4).expect("Failed to create allocator");
    assert!(allocator.allocate(0, 32).is_none());
}

#[test]
fn test_tier0_allocator_refill_and_allocate() {
    let mut allocator = Tier0Allocator::new(1).expect("Failed to create allocator");
    allocator.refill_all_caches(10).expect("Failed to refill");
    let ptr = allocator.allocate(0, 32);
    assert!(ptr.is_some());
    assert!(!ptr.unwrap().is_null());
}

#[test]
fn test_tier0_allocator_allocate_deallocate_cycle() {
    let mut allocator = Tier0Allocator::new(1).expect("Failed to create allocator");
    allocator.refill_all_caches(10).expect("Failed to refill");

    let ptr1 = allocator.allocate(0, 32).expect("First allocation failed");
    assert!(!ptr1.is_null());
    assert!(allocator.deallocate(0, ptr1, 32));
    let ptr2 = allocator.allocate(0, 32).expect("Second allocation failed");
    assert_eq!(ptr1, ptr2);
}

#[test]
fn test_tier0_allocator_multiple_size_classes() {
    let mut allocator = Tier0Allocator::new(1).expect("Failed to create allocator");
    allocator.refill_all_caches(5).expect("Failed to refill");

    let ptr8 = allocator.allocate(0, 8).expect("8B allocation failed");
    let ptr32 = allocator.allocate(0, 32).expect("32B allocation failed");
    let ptr64 = allocator.allocate(0, 64).expect("64B allocation failed");

    assert!(!ptr8.is_null());
    assert!(!ptr32.is_null());
    assert!(!ptr64.is_null());
    assert_ne!(ptr8, ptr32);
    assert_ne!(ptr32, ptr64);
}

#[test]
fn test_tier0_allocator_cache_full() {
    let mut allocator = Tier0Allocator::new(1).expect("Failed to create allocator");
    allocator.refill_all_caches(100).expect("Failed to refill");

    let mut ptrs = Vec::new();
    for _ in 0..100 {
        if let Some(ptr) = allocator.allocate(0, 32) {
            ptrs.push(ptr);
        } else {
            break;
        }
    }
    for ptr in ptrs.iter().take(50) {
        assert!(allocator.deallocate(0, *ptr, 32));
    }
    let ptr = allocator.allocate(0, 32).expect("Allocation after deallocation failed");
    assert!(!ptr.is_null());
}

#[test]
fn test_cpu_slab_cache_drain() {
    let mut cache = CpuSlabCache::new(Tier0Class::Bytes32);
    cache.refill_cache(10).expect("Failed to refill");

    assert!(!cache.is_empty());
    cache.drain_cache().expect("Failed to drain");
    assert!(cache.is_empty());
}

#[test]
fn tier1_slab_test_size_class_selection() {
    assert_eq!(SizeClass::from_size(1), Some(SizeClass::Bytes80));
    assert_eq!(SizeClass::from_size(80), Some(SizeClass::Bytes80));
    assert_eq!(SizeClass::from_size(81), Some(SizeClass::Bytes128));
    assert_eq!(SizeClass::from_size(128), Some(SizeClass::Bytes128));
    assert_eq!(SizeClass::from_size(256), Some(SizeClass::Bytes256));
    assert_eq!(SizeClass::from_size(1024), Some(SizeClass::Bytes1K));
    assert_eq!(SizeClass::from_size(65536), Some(SizeClass::Bytes64K));
    assert_eq!(SizeClass::from_size(65537), None);
}

#[test]
fn tier1_slab_test_size_class_actual_sizes() {
    assert_eq!(SizeClass::Bytes80.actual_size(), 80);
    assert_eq!(SizeClass::Bytes256.actual_size(), 256);
    assert_eq!(SizeClass::Bytes1K.actual_size(), 1024);
    assert_eq!(SizeClass::Bytes64K.actual_size(), 65536);
}

#[test]
fn test_slab_page_new() {
    let slab = SlabPage::new(SizeClass::Bytes256, 0).expect("Failed to create slab");
    assert_eq!(slab.size_class(), SizeClass::Bytes256);
    assert_eq!(slab.available_count(), 16);
    assert_eq!(slab.allocation_count(), 0);
    assert!(!slab.is_full());
    assert!(slab.is_empty());
}

#[test]
fn test_slab_page_allocate() {
    let mut slab = SlabPage::new(SizeClass::Bytes256, 0).expect("Failed to create slab");

    let ptr1 = slab.allocate();
    assert!(ptr1.is_some());
    assert!(!ptr1.unwrap().is_null());
    assert_eq!(slab.allocation_count(), 1);
    assert_eq!(slab.available_count(), 15);

    let ptr2 = slab.allocate();
    assert!(ptr2.is_some());
    assert_ne!(ptr1, ptr2);
}

#[test]
fn test_slab_page_full() {
    let mut slab = SlabPage::new(SizeClass::Bytes256, 0).expect("Failed to create slab");
    for _ in 0..16 {
        assert!(slab.allocate().is_some());
    }
    assert!(slab.is_full());
    assert_eq!(slab.available_count(), 0);
    assert!(slab.allocate().is_none());
}

#[test]
fn test_slab_page_deallocate() {
    let mut slab = SlabPage::new(SizeClass::Bytes256, 0).expect("Failed to create slab");
    let ptr1 = slab.allocate().expect("First allocation failed");
    assert_eq!(slab.allocation_count(), 1);
    assert!(slab.deallocate(ptr1));
    assert_eq!(slab.allocation_count(), 0);
    assert!(slab.is_empty());
}

#[test]
fn test_socket_slab_cache_new() {
    let cache = SocketSlabCache::new(SizeClass::Bytes256);
    assert_eq!(cache.size_class(), SizeClass::Bytes256);
    assert_eq!(cache.slab_count(), 0);
}

#[test]
fn test_socket_slab_cache_allocate() {
    let mut cache = SocketSlabCache::new(SizeClass::Bytes256);
    let ptr1 = cache.allocate().expect("First allocation failed");
    assert!(!ptr1.is_null());
    assert_eq!(cache.slab_count(), 1);
    let ptr2 = cache.allocate().expect("Second allocation failed");
    assert_ne!(ptr1, ptr2);
}

#[test]
fn test_socket_slab_cache_deallocate() {
    let mut cache = SocketSlabCache::new(SizeClass::Bytes256);
    let ptr = cache.allocate().expect("Allocation failed");
    assert!(cache.deallocate(ptr));
    let ptr2 = cache.allocate().expect("Second allocation failed");
    assert_eq!(ptr, ptr2);
}

#[test]
fn test_tier1_allocator_new() {
    let allocator = Tier1Allocator::new(2).expect("Failed to create allocator");
    assert_eq!(allocator.get_socket_count(), 2);
}

#[test]
fn test_tier1_allocator_allocate() {
    let mut allocator = Tier1Allocator::new(1).expect("Failed to create allocator");
    let ptr = allocator.allocate(256, 0).expect("Allocation failed");
    assert!(!ptr.is_null());
}

#[test]
fn test_tier1_allocator_allocate_deallocate_cycle() {
    let mut allocator = Tier1Allocator::new(1).expect("Failed to create allocator");
    let ptr1 = allocator.allocate(256, 0).expect("First allocation failed");
    assert!(!ptr1.is_null());
    assert!(allocator.deallocate(ptr1, 256, 0));
    let ptr2 = allocator.allocate(256, 0).expect("Second allocation failed");
    assert_eq!(ptr1, ptr2);
}

#[test]
fn test_tier1_allocator_multiple_sizes() {
    let mut allocator = Tier1Allocator::new(1).expect("Failed to create allocator");
    let ptr80 = allocator.allocate(80, 0).expect("80B allocation failed");
    let ptr256 = allocator.allocate(256, 0).expect("256B allocation failed");
    let ptr1k = allocator.allocate(1024, 0).expect("1KB allocation failed");
    assert!(!ptr80.is_null());
    assert!(!ptr256.is_null());
    assert!(!ptr1k.is_null());
    assert_ne!(ptr80, ptr256);
    assert_ne!(ptr256, ptr1k);
}

#[test]
fn test_tier1_allocator_multiple_sockets() {
    let mut allocator = Tier1Allocator::new(2).expect("Failed to create allocator");
    let ptr_s0 = allocator.allocate(256, 0).expect("Socket 0 allocation failed");
    let ptr_s1 = allocator.allocate(256, 1).expect("Socket 1 allocation failed");
    assert_ne!(ptr_s0, ptr_s1);
    assert!(allocator.deallocate(ptr_s0, 256, 0));
    assert!(allocator.deallocate(ptr_s1, 256, 1));
}

#[test]
fn test_tier1_allocator_out_of_range() {
    let mut allocator = Tier1Allocator::new(1).expect("Failed to create allocator");
    assert!(allocator.allocate(65537, 0).is_err());
    let ptr = allocator.allocate(80, 0);
    assert!(ptr.is_ok());
}

#[test]
fn test_tier1_allocator_compact() {
    let mut allocator = Tier1Allocator::new(1).expect("Failed to create allocator");
    let mut ptrs = Vec::new();
    for _ in 0..16 {
        let ptr = allocator.allocate(256, 0).expect("Allocation failed");
        ptrs.push(ptr);
    }
    allocator.compact_all().expect("Compact failed");
    let ptr17 = allocator.allocate(256, 0).expect("Allocation failed");
    assert!(!ptr17.is_null());
}

#[test]
fn test_tier1_allocator_shrink() {
    let mut allocator = Tier1Allocator::new(1).expect("Failed to create allocator");
    let ptr = allocator.allocate(256, 0).expect("Allocation failed");
    allocator.deallocate(ptr, 256, 0);
    allocator.shrink_all().expect("Shrink failed");
}

#[test]
fn slab_rejects_a_second_free_and_out_of_page_pointers() {
    let mut slab = SlabPage::new(SizeClass::Bytes256, 0).unwrap();
    let q = slab.allocate().unwrap();
    assert!(!slab.deallocate(sher::memory::tier0_slab::ObjectPtr { addr: q.addr + 4096 }));
    assert!(slab.deallocate(q));
    assert!(!slab.deallocate(q));
    assert_eq!(slab.available_count(), 16);
}

#[test]
fn usage_percent_reflects_allocation() {
    let mut alloc = MemoryAllocator::new(1000);
    alloc.allocate(250).unwrap();
    let usage_percent = (alloc.allocated as f64 / alloc.total_memory as f64) * 100.0;
    assert!((usage_percent - 25.0).abs() < f64::EPSILON);
}

#[test]
fn slab_coloured_past_object_size_refuses_its_first_object() {
    let mut slab = SlabPage::new(SizeClass::Bytes80, 128).expect("Failed to create slab");
    let ptr = slab.allocate().expect("Allocation failed");
    assert!(!slab.deallocate(ptr));
    assert_eq!(slab.allocation_count(), 1);
}

#[test]
fn objects_from_a_coloured_second_slab_are_taken_back() {
    let mut cache = SocketSlabCache::new(SizeClass::Bytes4K);
    let first = cache.allocate().expect("First allocation failed");
    let second = cache.allocate().expect("Second allocation failed");
    assert_eq!(cache.slab_count(), 2);
    assert_ne!(first, second);
    assert!(cache.deallocate(second));
    assert!(cache.deallocate(first));
    assert_eq!(cache.slab_count(), 2);
}

#[test]
fn freed_object_lets_shrink_drop_its_slab() {
    let mut cache = SocketSlabCache::new(SizeClass::Bytes256);
    let ptr = cache.allocate().expect("Allocation failed");
    assert!(cache.deallocate(ptr));
    cache.shrink();
    assert_eq!(cache.slab_count(), 0);
}

#[test]
fn tier0_out_of_range_size_needs_no_cpu() {
    let mut alloc = Tier0Allocator::new(0).expect("Failed to create allocator");
    assert!(alloc.allocate(0, 4096).is_none());
    assert!(!alloc.deallocate(0, ObjectPtr { addr: 64 }, 4096));
}

#[test]
fn slabs_start_on_a_page_boundary() {
    let mut slab = SlabPage::new(SizeClass::Bytes4K, 0).expect("Failed to create slab");
    let ptr = slab.allocate().expect("Allocation failed");
    assert_eq!(ptr.addr % 4096, 0);
    let mut coloured = SlabPage::new(SizeClass::Bytes8K, 64).expect("Failed to create slab");
    let ptr = coloured.allocate().expect("Allocation failed");
    assert_eq!(ptr.addr % 4096, 64);
}

#[test]
fn refilled_tier0_objects_are_word_aligned() {
    let mut allocator = Tier0Allocator::new(1).expect("Failed to create allocator");
    allocator.refill_all_caches(4).expect("Failed to refill");
    for size in [8, 24, 48, 64] {
        for _ in 0..4 {
            let ptr = allocator.allocate(0, size).expect("Allocation failed");
            assert_eq!(ptr.addr % 8, 0);
        }
    }
}

#[test]
fn freed_tier1_object_comes_back_on_the_next_allocation() {
    let mut allocator = Tier1Allocator::new(2).expect("Failed to create allocator");
    let first = allocator.allocate(1000, 3).expect("First allocation failed");
    let second = allocator.allocate(1000, 3).expect("Second allocation failed");
    assert!(allocator.deallocate(second, 1000, 3));
    assert_eq!(allocator.allocate(1000, 3).expect("Third allocation failed"), second);
    assert_ne!(first, second);
}

#[test]
fn a_fresh_slab_opens_beside_the_others() {
    let mut cache = SocketSlabCache::new(SizeClass::Bytes256);
    let first = cache.allocate().expect("Allocation failed");
    let fresh = SlabPage::new(SizeClass::Bytes256, 64).expect("Failed to create slab");
    let second = cache.open_slab(fresh).expect("Opening failed");
    assert_eq!(cache.slab_count(), 2);
    assert_ne!(first, second);
    assert!(cache.deallocate(first));
    assert!(cache.deallocate(second));
}

#[test]
fn refilled_tier0_objects_are_distinct() {
    let mut cache = CpuSlabCache::new(Tier0Class::Bytes16);
    cache.refill_cache(20).expect("Failed to refill");
    let mut seen = Vec::new();
    while let Some(ptr) = cache.allocate() {
        assert!(!seen.contains(&ptr));
        seen.push(ptr);
    }
    assert_eq!(seen.len(), 20);
}
