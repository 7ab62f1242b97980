//! Display side of the GPU: connectors and their modes, framebuffers carved
//! out of video memory, page flips and hot-plug.
//!
//! Video memory is accounted exactly: what is available plus what is
//! allocated is the total, and the live framebuffers never take more than
//! what is allocated.
use vstd::prelude::*;
use crate::common::{owned, Error, ObjectId, Result};
use crate::keyed::{keys_of, lemma_map_of_index, lemma_map_of_remove, lemma_map_of_update, VecMap};

verus! {

#[derive(Clone, Copy, Debug, PartialEq, Eq, Hash, Structural)]
pub enum ConnectorType {
    HDMI,
    DisplayPort,
    VGA,
    DVI,
    EDP,
    Unknown,
}

#[derive(Clone, Copy, Debug, PartialEq, Eq, Structural)]
pub enum ConnectorStatus {
    Connected,
    Disconnected,
    Unknown,
}

#[derive(Clone, Copy, Debug, PartialEq, Eq, Structural)]
pub struct DisplayMode {
    pub width: u32,
    pub height: u32,
    pub refresh_rate: u32,
    pub clock: u32,
}

#[derive(Clone, Debug)]
pub struct Connector {
    pub id: ObjectId,
    pub connector_type: ConnectorType,
    pub status: ConnectorStatus,
    pub supported_modes: Vec<DisplayMode>,
    pub current_mode: Option<DisplayMode>,
}

/// `a` and `b` describe the same connector, field by field.
pub open spec fn same_connector(a: Connector, b: Connector) -> bool {
    &&& a.id == b.id
    &&& a.connector_type == b.connector_type
    &&& a.status == b.status
    &&& a.supported_modes@ == b.supported_modes@
    &&& a.current_mode == b.current_mode
}

impl Connector {
    /// A field-for-field duplicate.
    pub fn duplicate(&self) -> (c: Connector)
        ensures
            same_connector(c, *self),
    {
        let mut modes: Vec<DisplayMode> = Vec::new();
        let mut i: usize = 0;
        while i < self.supported_modes.len()
            invariant
                i <= self.supported_modes@.len(),
                modes@ == self.supported_modes@.subrange(0, i as int),
            decreases self.supported_modes@.len() - i,
        {
            modes.push(self.supported_modes[i]);
            proof {
                assert(modes@ =~= self.supported_modes@.subrange(0, i as int + 1));
            }
            i = i + 1;
        }
        assert(self.supported_modes@.subrange(0, self.supported_modes@.len() as int) =~= self.supported_modes@);
        Connector {
            id: self.id,
            connector_type: self.connector_type,
            status: self.status,
            supported_modes: modes,
            current_mode: self.current_mode,
        }
    }

    /// Whether `mode` is among the supported modes.
    pub fn supports(&self, mode: &DisplayMode) -> (b: bool)
        ensures
            b == self.supported_modes@.contains(*mode),
    {
        let mut i: usize = 0;
        while i < self.supported_modes.len()
            invariant
                i <= self.supported_modes@.len(),
                forall|j: int| 0 <= j < i ==> self.supported_modes@[j] != *mode,
            decreases self.supported_modes@.len() - i,
        {
            if self.supported_modes[i] == *mode {
                assert(self.supported_modes@[i as int] == *mode);
                return true;
            }
            i = i + 1;
        }
        false
    }
}

/// The pixel format of every framebuffer: 32-bit ARGB ("AR24").
pub const PIXEL_FORMAT_ARGB8888: u32 = 0x34325241;

#[derive(Clone, Copy, Debug)]
pub struct Framebuffer {
    pub id: ObjectId,
    pub width: u32,
    pub height: u32,
    pub pixel_format: u32,
    pub gpu_address: u64,
    pub size_bytes: usize,
}

#[derive(Clone, Copy, Debug, PartialEq, Eq, Structural)]
pub struct GPUMemory {
    pub total_bytes: usize,
    pub available_bytes: usize,
    pub allocated_bytes: usize,
}

/// Bytes a framebuffer of `width` x `height` 32-bit pixels takes.
pub open spec fn framebuffer_bytes(width: u32, height: u32) -> int {
    width * height * 4
}

/// A framebuffer takes four bytes per pixel: none for an empty one, and
/// each further column of `height` pixels adds `4 * height` bytes; the size
/// does not depend on which side is the width.
pub proof fn lemma_framebuffer_bytes(width: u32, height: u32)
    ensures
        framebuffer_bytes(0, height) == 0,
        width < u32::MAX ==> framebuffer_bytes((width + 1) as u32, height) == framebuffer_bytes(width, height) + 4 * height,
        framebuffer_bytes(width, height) == framebuffer_bytes(height, width),
        framebuffer_bytes(width, height) >= 0,
{
    assert(((width + 1) * height * 4) == width * height * 4 + 4 * height) by (nonlinear_arith);
    assert(width * height * 4 == height * width * 4) by (nonlinear_arith);
    assert(width * height * 4 >= 0) by (nonlinear_arith);
}

/// Memory after `size` more bytes are allocated.
pub open spec fn memory_after_allocation(m: GPUMemory, size: int) -> GPUMemory {
    GPUMemory {
        total_bytes: m.total_bytes,
        available_bytes: (m.available_bytes - size) as usize,
        allocated_bytes: (m.allocated_bytes + size) as usize,
    }
}

/// Memory after `size` bytes are given back.
pub open spec fn memory_after_release(m: GPUMemory, size: int) -> GPUMemory {
    GPUMemory {
        total_bytes: m.total_bytes,
        available_bytes: (m.available_bytes + size) as usize,
        allocated_bytes: (m.allocated_bytes - size) as usize,
    }
}

/// Total size of the framebuffers in `s`.
pub open spec fn live_bytes(s: Seq<(ObjectId, Framebuffer)>) -> nat
    decreases s.len(),
{
    if s.len() == 0 { 0 } else { live_bytes(s.drop_last()) + s.last().1.size_bytes as nat }
}

proof fn lemma_live_bytes_remove(s: Seq<(ObjectId, Framebuffer)>, k: int)
    requires
        0 <= k < s.len(),
    ensures
        live_bytes(s) == live_bytes(s.remove(k)) + s[k].1.size_bytes,
    decreases s.len(),
{
    if k == s.len() - 1 {
        assert(s.remove(k) =~= s.drop_last());
    } else {
        lemma_live_bytes_remove(s.drop_last(), k);
        assert(s.remove(k).drop_last() =~= s.drop_last().remove(k));
        assert(s.remove(k).last() == s.last());
    }
}

proof fn lemma_live_bytes_update(s: Seq<(ObjectId, Framebuffer)>, k: int, e: (ObjectId, Framebuffer))
    requires
        0 <= k < s.len(),
    ensures
        live_bytes(s.update(k, e)) + s[k].1.size_bytes == live_bytes(s) + e.1.size_bytes,
{
    lemma_live_bytes_remove(s, k);
    lemma_live_bytes_remove(s.update(k, e), k);
    assert(s.update(k, e).remove(k) =~= s.remove(k));
}

pub struct GPUDriver {
    connectors: VecMap<ObjectId, Connector>,
    framebuffers: VecMap<ObjectId, Framebuffer>,
    gpu_memory: GPUMemory,
    primary_display: Option<ObjectId>,
    initialized: bool,
}

impl GPUDriver {
    pub closed spec fn wf(&self) -> bool {
        &&& self.connectors.wf()
        &&& self.framebuffers.wf()
        &&& self.gpu_memory.available_bytes + self.gpu_memory.allocated_bytes == self.gpu_memory.total_bytes
        &&& live_bytes(self.framebuffers.entries@) <= self.gpu_memory.allocated_bytes
        &&& forall|k: ObjectId| #[trigger] self.connectors@.contains_key(k) ==> self.connectors@[k].id == k
        &&& forall|k: ObjectId| #[trigger] self.framebuffers@.contains_key(k) ==> self.framebuffers@[k].id == k
    }

    /// Connectors by identity.
    pub closed spec fn connectors_view(&self) -> Map<ObjectId, Connector> {
        self.connectors@
    }

    /// Connectors in registration order.
    pub closed spec fn connector_entries(&self) -> Seq<(ObjectId, Connector)> {
        self.connectors.entries@
    }

    /// Live framebuffers by identity.
    pub closed spec fn framebuffers_view(&self) -> Map<ObjectId, Framebuffer> {
        self.framebuffers@
    }

    /// Live framebuffers in allocation order.
    pub closed spec fn framebuffer_entries(&self) -> Seq<(ObjectId, Framebuffer)> {
        self.framebuffers.entries@
    }

    pub closed spec fn memory(&self) -> GPUMemory {
        self.gpu_memory
    }

    pub closed spec fn primary(&self) -> Option<ObjectId> {
        self.primary_display
    }

    pub closed spec fn is_up(&self) -> bool {
        self.initialized
    }

    /// A driver with `total_vram` bytes of free video memory, no connectors
    /// and no framebuffers, not yet initialized.
    pub fn new(total_vram: usize) -> (d: GPUDriver)
        ensures
            d.wf(),
            d.connectors_view() == Map::<ObjectId, Connector>::empty(),
            d.framebuffers_view() == Map::<ObjectId, Framebuffer>::empty(),
            d.framebuffer_entries().len() == 0,
            d.memory() == (GPUMemory { total_bytes: total_vram, available_bytes: total_vram, allocated_bytes: 0 }),
            d.primary() is None,
            !d.is_up(),
    {
        let d = GPUDriver {
            connectors: VecMap::new(),
            framebuffers: VecMap::new(),
            gpu_memory: GPUMemory { total_bytes: total_vram, available_bytes: total_vram, allocated_bytes: 0 },
            primary_display: None,
            initialized: false,
        };
        assert(d.framebuffers.entries@ =~= Seq::<(ObjectId, Framebuffer)>::empty());
        d
    }

    pub fn initialize(&mut self) -> (r: Result<()>)
        requires
            old(self).wf(),
        ensures
            final(self).wf(),
            r.is_ok(),
            final(self).is_up(),
            final(self).connectors_view() == old(self).connectors_view(),
            final(self).framebuffers_view() == old(self).framebuffers_view(),
            final(self).memory() == old(self).memory(),
            final(self).primary() == old(self).primary(),
    {
        self.initialized = true;
        Ok(())
    }

    pub fn is_initialized(&self) -> (b: bool)
        ensures
            b == self.is_up(),
    {
        self.initialized
    }

    /// Add `connector` under its identity (replacing one registered before).
    pub fn register_connector(&mut self, connector: Connector) -> (r: Result<()>)
        requires
            old(self).wf(),
        ensures
            final(self).wf(),
            r.is_ok(),
            final(self).connectors_view() == old(self).connectors_view().insert(connector.id, connector),
            final(self).framebuffers_view() == old(self).framebuffers_view(),
            final(self).memory() == old(self).memory(),
            final(self).primary() == old(self).primary(),
            final(self).is_up() == old(self).is_up(),
    {
        let id = connector.id;
        self.connectors.insert(id, connector);
        Ok(())
    }

    /// A duplicate of the connector `connector_id`, if registered.
    pub fn get_connector(&self, connector_id: &ObjectId) -> (r: Option<Connector>)
        requires
            self.wf(),
        ensures
            match r {
                Some(c) => self.connectors_view().contains_key(*connector_id)
                    && same_connector(c, self.connectors_view()[*connector_id]),
                None => !self.connectors_view().contains_key(*connector_id),
            },
    {
        match self.connectors.get(connector_id) {
            Some(c) => Some(c.duplicate()),
            None => None,
        }
    }

    /// Duplicates of all connectors, in registration order.
    pub fn get_connectors(&self) -> (r: Vec<Connector>)
        requires
            self.wf(),
        ensures
            r@.len() == self.connector_entries().len(),
            r@.len() == self.connectors_view().len(),
            forall|i: int| 0 <= i < r@.len() ==> same_connector(#[trigger] r@[i], self.connector_entries()[i].1),
    {
        let mut out: Vec<Connector> = Vec::new();
        let mut i: usize = 0;
        while i < self.connectors.entries.len()
            invariant
                i <= self.connectors.entries@.len(),
                out@.len() == i,
                forall|j: int| 0 <= j < i ==> same_connector(#[trigger] out@[j], self.connectors.entries@[j].1),
            decreases self.connectors.entries@.len() - i,
        {
            out.push(self.connectors.entries[i].1.duplicate());
            i = i + 1;
        }
        let _ = self.connectors.len();
        out
    }

    /// Set `mode` on connector `connector_id`. Refused (`Error::Device`) for
    /// an unknown connector or a mode it does not support. The first
    /// connector given a mode becomes the primary display.
    pub fn set_mode(&mut self, connector_id: &ObjectId, mode: DisplayMode) -> (r: Result<()>)
        requires
            old(self).wf(),
        ensures
            final(self).wf(),
            final(self).framebuffers_view() == old(self).framebuffers_view(),
            final(self).memory() == old(self).memory(),
            final(self).is_up() == old(self).is_up(),
            !old(self).connectors_view().contains_key(*connector_id) ==> (r matches Err(Error::Device(m)) && m@ == "Connector not found"@),
            old(self).connectors_view().contains_key(*connector_id)
                && !old(self).connectors_view()[*connector_id].supported_modes@.contains(mode)
                ==> (r matches Err(Error::Device(m)) && m@ == "Unsupported mode"@),
            r.is_err() ==> final(self).connectors_view() == old(self).connectors_view()
                && final(self).primary() == old(self).primary(),
            r.is_ok() <==> old(self).connectors_view().contains_key(*connector_id)
                && old(self).connectors_view()[*connector_id].supported_modes@.contains(mode),
            r.is_ok() ==> {
                let c = old(self).connectors_view()[*connector_id];
                &&& final(self).connectors_view() == old(self).connectors_view().insert(*connector_id,
                    Connector { current_mode: Some(mode), ..c })
                &&& final(self).primary() == (match old(self).primary() {
                    Some(p) => Some(p),
                    None => Some(*connector_id),
                })
            },
    {
        match self.connectors.index_of(connector_id) {
            Some(i) => {
                if !self.connectors.entries[i].1.supports(&mode) {
                    return Err(Error::Device(owned("Unsupported mode")));
                }
                let ghost s0 = self.connectors.entries@;
                let ghost c0 = s0[i as int].1;
                self.connectors.entries[i].1.current_mode = Some(mode);
                proof {
                    let e = (s0[i as int].0, Connector { current_mode: Some(mode), ..c0 });
                    assert(self.connectors.entries@ =~= s0.update(i as int, e));
                    lemma_map_of_update(s0, i as int, e);
                }
                if self.primary_display.is_none() {
                    self.primary_display = Some(*connector_id);
                }
                Ok(())
            },
            None => Err(Error::Device(owned("Connector not found"))),
        }
    }

    /// Carve a `width` x `height` ARGB framebuffer out of video memory, at
    /// the offset of the bytes allocated so far. Refused (`Error::Memory`)
    /// when it needs more than is available.
    pub fn allocate_framebuffer(&mut self, width: u32, height: u32) -> (r: Result<Framebuffer>)
        requires
            old(self).wf(),
            framebuffer_bytes(width, height) <= usize::MAX,
        ensures
            final(self).wf(),
            final(self).connectors_view() == old(self).connectors_view(),
            final(self).primary() == old(self).primary(),
            final(self).is_up() == old(self).is_up(),
            framebuffer_bytes(width, height) > old(self).memory().available_bytes ==> {
                &&& r matches Err(Error::Memory(m)) && m@ == "Insufficient VRAM"@
                &&& final(self).framebuffers_view() == old(self).framebuffers_view()
                &&& final(self).memory() == old(self).memory()
            },
            framebuffer_bytes(width, height) <= old(self).memory().available_bytes ==> {
                &&& r matches Ok(fb)
                &&& fb.id.value != 0
                &&& fb.width == width
                &&& fb.height == height
                &&& fb.pixel_format == PIXEL_FORMAT_ARGB8888
                &&& fb.size_bytes == framebuffer_bytes(width, height)
                &&& fb.gpu_address == (old(self).memory().total_bytes - old(self).memory().available_bytes) as u64
                &&& final(self).framebuffers_view() == old(self).framebuffers_view().insert(fb.id, fb)
                &&& final(self).memory() == memory_after_allocation(old(self).memory(), framebuffer_bytes(width, height))
            },
    {
        let w = width as usize;
        let h = height as usize;
        assert(w * h * 4 <= usize::MAX) by (nonlinear_arith)
            requires
                w == width,
                h == height,
                framebuffer_bytes(width, height) <= usize::MAX,
        {
        }
        assert(w * h <= w * h * 4) by (nonlinear_arith);
        let size_bytes = w * h * 4;
        if size_bytes > self.gpu_memory.available_bytes {
            return Err(Error::Memory(owned("Insufficient VRAM")));
        }
        let fb = Framebuffer {
            id: ObjectId::new(),
            width,
            height,
            pixel_format: PIXEL_FORMAT_ARGB8888,
            gpu_address: (self.gpu_memory.total_bytes - self.gpu_memory.available_bytes) as u64,
            size_bytes,
        };
        self.gpu_memory.available_bytes = self.gpu_memory.available_bytes - size_bytes;
        self.gpu_memory.allocated_bytes = self.gpu_memory.allocated_bytes + size_bytes;
        let ghost s0 = self.framebuffers.entries@;
        match self.framebuffers.index_of(&fb.id) {
            Some(i) => {
                proof {
                    lemma_live_bytes_update(s0, i as int, (s0[i as int].0, fb));
                }
                self.framebuffers.set_value(i, fb);
            },
            None => {
                self.framebuffers.insert(fb.id, fb);
                assert(self.framebuffers.entries@.drop_last() =~= s0);
            },
        }
        Ok(fb)
    }

    /// The framebuffer `fb_id`, if live.
    pub fn get_framebuffer(&self, fb_id: &ObjectId) -> (r: Option<Framebuffer>)
        requires
            self.wf(),
        ensures
            match r {
                Some(fb) => self.framebuffers_view().contains_key(*fb_id) && fb == self.framebuffers_view()[*fb_id],
                None => !self.framebuffers_view().contains_key(*fb_id),
            },
    {
        match self.framebuffers.get(fb_id) {
            Some(fb) => Some(*fb),
            None => None,
        }
    }

    /// Release framebuffer `fb_id` and give its bytes back. Refused
    /// (`Error::Device`) for an unknown framebuffer.
    pub fn free_framebuffer(&mut self, fb_id: &ObjectId) -> (r: Result<()>)
        requires
            old(self).wf(),
        ensures
            final(self).wf(),
            final(self).connectors_view() == old(self).connectors_view(),
            final(self).primary() == old(self).primary(),
            final(self).is_up() == old(self).is_up(),
            r.is_ok() == old(self).framebuffers_view().contains_key(*fb_id),
            !old(self).framebuffers_view().contains_key(*fb_id) ==> {
                &&& r matches Err(Error::Device(m)) && m@ == "Framebuffer not found"@
                &&& final(self).framebuffers_view() == old(self).framebuffers_view()
                &&& final(self).memory() == old(self).memory()
            },
            old(self).framebuffers_view().contains_key(*fb_id) ==> {
                &&& final(self).framebuffers_view() == old(self).framebuffers_view().remove(*fb_id)
                &&& final(self).memory() == memory_after_release(old(self).memory(),
                    old(self).framebuffers_view()[*fb_id].size_bytes as int)
            },
    {
        match self.framebuffers.index_of(fb_id) {
            Some(i) => {
                let ghost s0 = self.framebuffers.entries@;
                let size = self.framebuffers.entries[i].1.size_bytes;
                proof {
                    lemma_live_bytes_remove(s0, i as int);
                    lemma_map_of_remove(s0, i as int);
                }
                let _ = self.framebuffers.entries.remove(i);
                assert(self.framebuffers.entries@ =~= s0.remove(i as int));
                self.gpu_memory.available_bytes = self.gpu_memory.available_bytes + size;
                self.gpu_memory.allocated_bytes = self.gpu_memory.allocated_bytes - size;
                Ok(())
            },
            None => Err(Error::Device(owned("Framebuffer not found"))),
        }
    }

    /// Check that framebuffer `fb_id` can be shown on connector
    /// `connector_id`: both must exist (`Error::Device` otherwise, the
    /// connector checked first).
    pub fn page_flip(&self, connector_id: &ObjectId, fb_id: &ObjectId) -> (r: Result<()>)
        requires
            self.wf(),
        ensures
            r.is_ok() == (self.connectors_view().contains_key(*connector_id)
                && self.framebuffers_view().contains_key(*fb_id)),
            !self.connectors_view().contains_key(*connector_id)
                ==> (r matches Err(Error::Device(m)) && m@ == "Connector not found"@),
            self.connectors_view().contains_key(*connector_id) && !self.framebuffers_view().contains_key(*fb_id)
                ==> (r matches Err(Error::Device(m)) && m@ == "Framebuffer not found"@),
    {
        if !self.connectors.contains_key(connector_id) {
            return Err(Error::Device(owned("Connector not found")));
        }
        if !self.framebuffers.contains_key(fb_id) {
            return Err(Error::Device(owned("Framebuffer not found")));
        }
        Ok(())
    }

    pub fn get_memory_info(&self) -> (m: GPUMemory)
        ensures
            m == self.memory(),
    {
        self.gpu_memory
    }

    /// Record that connector `connector_id` was plugged in or unplugged.
    /// Refused (`Error::Device`) for an unknown connector.
    pub fn detect_hotplug(&mut self, connector_id: &ObjectId, connected: bool) -> (r: Result<()>)
        requires
            old(self).wf(),
        ensures
            final(self).wf(),
            final(self).framebuffers_view() == old(self).framebuffers_view(),
            final(self).memory() == old(self).memory(),
            final(self).primary() == old(self).primary(),
            final(self).is_up() == old(self).is_up(),
            r.is_ok() == old(self).connectors_view().contains_key(*connector_id),
            r.is_err() ==> (r matches Err(Error::Device(m)) && m@ == "Connector not found"@)
                && final(self).connectors_view() == old(self).connectors_view(),
            r.is_ok() ==> final(self).connectors_view() == old(self).connectors_view().insert(*connector_id,
                Connector {
                    status: if connected { ConnectorStatus::Connected } else { ConnectorStatus::Disconnected },
                    ..old(self).connectors_view()[*connector_id]
                }),
    {
        match self.connectors.index_of(connector_id) {
            Some(i) => {
                let ghost s0 = self.connectors.entries@;
                let ghost c0 = s0[i as int].1;
                let status = if connected { ConnectorStatus::Connected } else { ConnectorStatus::Disconnected };
                self.connectors.entries[i].1.status = status;
                proof {
                    let e = (s0[i as int].0, Connector { status, ..c0 });
                    assert(self.connectors.entries@ =~= s0.update(i as int, e));
                    lemma_map_of_update(s0, i as int, e);
                }
                Ok(())
            },
            None => Err(Error::Device(owned("Connector not found"))),
        }
    }

    pub fn get_primary_display(&self) -> (r: Option<ObjectId>)
        ensures
            r == self.primary(),
    {
        self.primary_display
    }

    pub fn connector_count(&self) -> (n: usize)
        requires
            self.wf(),
        ensures
            n == self.connectors_view().len(),
    {
        self.connectors.len()
    }

    pub fn framebuffer_count(&self) -> (n: usize)
        requires
            self.wf(),
        ensures
            n == self.framebuffers_view().len(),
    {
        self.framebuffers.len()
    }
}

/// Video memory is accounted exactly in every well-formed driver: available
/// and allocated bytes add up to the total, and the live framebuffers take
/// no more than the allocated bytes.
pub proof fn lemma_vram_accounted(d: &GPUDriver)
    requires
        d.wf(),
    ensures
        d.memory().available_bytes + d.memory().allocated_bytes == d.memory().total_bytes,
        live_bytes(d.framebuffer_entries()) <= d.memory().allocated_bytes,
{
}

/// Freeing a framebuffer gives back exactly the bytes its allocation took:
/// allocating `size` bytes and then releasing them leaves the memory as it
/// was.
pub proof fn lemma_allocate_then_free_restores(m: GPUMemory, size: int)
    requires
        0 <= size <= m.available_bytes,
        m.available_bytes + m.allocated_bytes == m.total_bytes,
    ensures
        memory_after_release(memory_after_allocation(m, size), size) == m,
{
}

} // verus!
