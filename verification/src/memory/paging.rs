//! A flat page table: virtual addresses map to physical addresses.
use vstd::prelude::*;
use std::collections::HashMap;

verus! {

broadcast use vstd::std_specs::hash::group_hash_axioms;

#[derive(Debug, Clone)]
pub struct PageTable {
    pub entries: HashMap<u64, u64>,
    pub page_size: u64,
}

impl PageTable {
    pub fn new(page_size: u64) -> (t: PageTable)
        ensures
            t.entries@ == Map::<u64, u64>::empty(),
            t.page_size == page_size,
    {
        PageTable { entries: HashMap::new(), page_size }
    }

    /// Map `virtual_addr` to `physical_addr`, replacing any earlier mapping.
    pub fn map(&mut self, virtual_addr: u64, physical_addr: u64)
        ensures
            final(self).entries@ == old(self).entries@.insert(virtual_addr, physical_addr),
            final(self).page_size == old(self).page_size,
    {
        self.entries.insert(virtual_addr, physical_addr);
    }

    /// Drop the mapping of `virtual_addr`, if any.
    pub fn unmap(&mut self, virtual_addr: u64)
        ensures
            final(self).entries@ == old(self).entries@.remove(virtual_addr),
            final(self).page_size == old(self).page_size,
    {
        self.entries.remove(&virtual_addr);
    }

    /// The physical address `virtual_addr` maps to, if mapped.
    pub fn translate(&self, virtual_addr: u64) -> (r: Option<u64>)
        ensures
            r == (if self.entries@.contains_key(virtual_addr) {
                Some(self.entries@[virtual_addr])
            } else {
                None::<u64>
            }),
    {
        match self.entries.get(&virtual_addr) {
            Some(p) => Some(*p),
            None => None,
        }
    }
}

/// The translation a table gives for an address, as a spec function.
pub open spec fn translation(m: Map<u64, u64>, v: u64) -> Option<u64> {
    if m.contains_key(v) { Some(m[v]) } else { None }
}

/// After mapping `v` to `p`, `v` translates to `p` and every other address
/// translates as before.
pub proof fn lemma_map_then_translate(m: Map<u64, u64>, v: u64, p: u64, w: u64)
    ensures
        translation(m.insert(v, p), v) == Some(p),
        w != v ==> translation(m.insert(v, p), w) == translation(m, w),
{
}

/// After unmapping `v`, `v` does not translate and every other address
/// translates as before.
pub proof fn lemma_unmap_then_translate(m: Map<u64, u64>, v: u64, w: u64)
    ensures
        translation(m.remove(v), v).is_none(),
        w != v ==> translation(m.remove(v), w) == translation(m, w),
{
}

/// One change to a page table: map an address to a physical address, or
/// drop its mapping.
pub enum PageOp {
    MapTo(u64, u64),
    Unmap(u64),
}

/// Table `m` after the changes `ops`, in order (see `PageTable::map` and
/// `PageTable::unmap`).
pub open spec fn apply_ops(m: Map<u64, u64>, ops: Seq<PageOp>) -> Map<u64, u64>
    decreases ops.len(),
{
    if ops.len() == 0 {
        m
    } else {
        let before = apply_ops(m, ops.drop_last());
        match ops.last() {
            PageOp::MapTo(v, p) => before.insert(v, p),
            PageOp::Unmap(v) => before.remove(v),
        }
    }
}

/// What the last change among `ops` that touches `v` left it as: mapped to
/// `p` after a `MapTo(v, p)`, unmapped after an `Unmap(v)`, and as table `m`
/// has it when no change touches `v`.
pub open spec fn last_mapping(m: Map<u64, u64>, ops: Seq<PageOp>, v: u64) -> Option<u64>
    decreases ops.len(),
{
    if ops.len() == 0 {
        translation(m, v)
    } else {
        match ops.last() {
            PageOp::MapTo(w, p) => if w == v { Some(p) } else { last_mapping(m, ops.drop_last(), v) },
            PageOp::Unmap(w) => if w == v { None } else { last_mapping(m, ops.drop_last(), v) },
        }
    }
}

/// After any sequence of `map` and `unmap` calls, an address translates to
/// what the last call touching it left: the physical address of the last
/// `map` not undone by a later `unmap`, else nothing (from an empty table,
/// or as the table had it when no call touched the address).
pub proof fn lemma_translate_last_mapping(m: Map<u64, u64>, ops: Seq<PageOp>, v: u64)
    ensures
        translation(apply_ops(m, ops), v) == last_mapping(m, ops, v),
    decreases ops.len(),
{
    if ops.len() > 0 {
        lemma_translate_last_mapping(m, ops.drop_last(), v);
    }
}

} // verus!
