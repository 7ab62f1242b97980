//! DMA buffer bookkeeping: each buffer gets an identity and a physical
//! address derived from its position at allocation time.
use vstd::prelude::*;
use crate::common::{ObjectId, Result};

verus! {

#[derive(Debug, Clone, Copy, PartialEq, Eq, Structural)]
pub struct DmaBuffer {
    pub id: ObjectId,
    pub physical_addr: u64,
    pub size: u64,
    pub owner: ObjectId,
}

#[derive(Debug, Clone)]
pub struct DmaManager {
    pub buffers: Vec<DmaBuffer>,
}

impl Default for DmaManager {
    fn default() -> (m: DmaManager)
        ensures
            m.buffers@.len() == 0,
    {
        DmaManager { buffers: Vec::new() }
    }
}

impl DmaManager {
    /// Record a new buffer of `size` bytes for `owner`, at physical address
    /// `0x1000 * (number of buffers held before)`, and return its identity.
    pub fn allocate_buffer(&mut self, size: u64, owner: ObjectId) -> (r: Result<ObjectId>)
        requires
            0x1000 * old(self).buffers@.len() <= u64::MAX,
        ensures
            r.is_ok(),
            final(self).buffers@.len() == old(self).buffers@.len() + 1,
            final(self).buffers@.drop_last() == old(self).buffers@,
            final(self).buffers@.last() == (DmaBuffer {
                id: r.unwrap(),
                physical_addr: (0x1000 * old(self).buffers@.len()) as u64,
                size,
                owner,
            }),
            r.unwrap().value != 0,
    {
        let n = self.buffers.len() as u64;
        let buffer = DmaBuffer { id: ObjectId::new(), physical_addr: 0x1000 * n, size, owner };
        let buffer_id = buffer.id;
        self.buffers.push(buffer);
        assert(final(self).buffers@.drop_last() =~= old(self).buffers@);
        Ok(buffer_id)
    }

    /// The first buffer with identity `id`.
    pub fn get_buffer(&self, id: ObjectId) -> (r: Option<&DmaBuffer>)
        ensures
            match r {
                Some(b) => exists|i: int| 0 <= i < self.buffers@.len() && self.buffers@[i] == *b
                    && b.id == id && forall|j: int| 0 <= j < i ==> self.buffers@[j].id != id,
                None => forall|j: int| 0 <= j < self.buffers@.len() ==> self.buffers@[j].id != id,
            },
    {
        let mut i: usize = 0;
        while i < self.buffers.len()
            invariant
                i <= self.buffers@.len(),
                forall|j: int| 0 <= j < i ==> self.buffers@[j].id != id,
            decreases self.buffers@.len() - i,
        {
            if self.buffers[i].id == id {
                return Some(&self.buffers[i]);
            }
            i = i + 1;
        }
        None
    }

    /// Forget every buffer with identity `id`, keeping the others in order.
    pub fn free_buffer(&mut self, id: ObjectId) -> (r: Result<()>)
        ensures
            r.is_ok(),
            final(self).buffers@ == old(self).buffers@.filter(|b: DmaBuffer| b.id != id),
    {
        let ghost pred = |b: DmaBuffer| b.id != id;
        let ghost s0 = self.buffers@;
        let mut kept: Vec<DmaBuffer> = Vec::new();
        let mut i: usize = 0;
        while i < self.buffers.len()
            invariant
                self.buffers@ == s0,
                i <= s0.len(),
                kept@ == s0.subrange(0, i as int).filter(pred),
                pred == (|b: DmaBuffer| b.id != id),
            decreases s0.len() - i,
        {
            proof {
                assert(s0.subrange(0, i as int + 1) == s0.subrange(0, i as int).push(s0[i as int]));
                s0.subrange(0, i as int).lemma_filter_push(s0[i as int], pred);
            }
            if self.buffers[i].id != id {
                kept.push(self.buffers[i]);
            }
            i = i + 1;
        }
        assert(s0.subrange(0, s0.len() as int) == s0);
        self.buffers = kept;
        Ok(())
    }
}

} // verus!
