//! Memory management: a byte-budget allocator, page tables, DMA buffers and
//! the two slab tiers.
pub mod allocator;
pub mod dma;
pub mod paging;
pub mod tier0_slab;
pub mod tier1_slab;
pub mod stress_tests;
