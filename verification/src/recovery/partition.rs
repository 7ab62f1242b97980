//! Immutable bootable partitions (system A / system B), each holding one
//! versioned image and the checksum recorded when it was written.
use vstd::prelude::*;
use std::collections::hash_map::DefaultHasher;
use std::hash::Hasher;
use vstd::std_specs::hash::DefaultHasherAdditionalSpecFns;
use crate::common::owned;

verus! {

#[derive(Debug, Clone, Copy, PartialEq, Eq, Hash, Structural)]
pub enum PartitionSlot {
    A,
    B,
}

/// The slot that is not `s`.
pub open spec fn other_slot(s: PartitionSlot) -> PartitionSlot {
    match s {
        PartitionSlot::A => PartitionSlot::B,
        PartitionSlot::B => PartitionSlot::A,
    }
}

impl PartitionSlot {
    pub fn other(&self) -> (o: PartitionSlot)
        ensures
            o == other_slot(*self),
            o != *self,
    {
        match self {
            PartitionSlot::A => PartitionSlot::B,
            PartitionSlot::B => PartitionSlot::A,
        }
    }
}

/// The checksum of an image: the `DefaultHasher` digest of its bytes.
pub open spec fn image_checksum(image: Seq<u8>) -> u64 {
    DefaultHasher::spec_finish(seq![image])
}

#[derive(Debug, Clone)]
pub struct ImmutablePartition {
    pub slot: PartitionSlot,
    pub version: Option<String>,
    image: Vec<u8>,
    checksum: u64,
}

/// The digest of `image` with a fresh `DefaultHasher` (deterministic: the
/// default hasher uses fixed keys).
fn checksum_of(image: &[u8]) -> (c: u64)
    ensures
        c == image_checksum(image@),
{
    let mut hasher = DefaultHasher::new();
    hasher.write(image);
    assert(hasher@ =~= seq![image@]);
    hasher.finish()
}

impl ImmutablePartition {
    pub closed spec fn version_view(&self) -> Option<String> {
        self.version
    }

    pub closed spec fn slot_view(&self) -> PartitionSlot {
        self.slot
    }

    pub closed spec fn image_view(&self) -> Seq<u8> {
        self.image@
    }

    pub closed spec fn recorded_checksum(&self) -> u64 {
        self.checksum
    }

    /// Whether the partition holds an image whose bytes still match the
    /// checksum recorded when it was written.
    pub open spec fn verifies(&self) -> bool {
        self.version_view().is_some() && image_checksum(self.image_view()) == self.recorded_checksum()
    }

    /// A written partition still holds the checksum of its image: true of
    /// every partition made by `empty` and changed only by `write_image`.
    pub open spec fn sealed(&self) -> bool {
        self.version_view().is_some() ==> image_checksum(self.image_view()) == self.recorded_checksum()
    }

    /// An unwritten partition in `slot`.
    pub fn empty(slot: PartitionSlot) -> (p: ImmutablePartition)
        ensures
            p.sealed(),
            p.slot_view() == slot,
            p.version_view().is_none(),
            p.image_view().len() == 0,
            p.recorded_checksum() == 0,
    {
        ImmutablePartition { slot, version: None, image: Vec::new(), checksum: 0 }
    }

    /// Replace the image with `image`, labelled `version`, recording its
    /// checksum.
    pub fn write_image(&mut self, version: &str, image: Vec<u8>)
        ensures
            final(self).slot_view() == old(self).slot_view(),
            final(self).version_view() matches Some(v) && v@ == version@,
            final(self).image_view() == image@,
            final(self).recorded_checksum() == image_checksum(image@),
            final(self).verifies(),
            final(self).sealed(),
    {
        self.checksum = checksum_of(image.as_slice());
        self.image = image;
        self.version = Some(owned(version));
    }

    pub fn is_empty(&self) -> (b: bool)
        ensures
            b == self.version_view().is_none(),
    {
        self.version.is_none()
    }

    /// Integrity check before the partition may be booted: written, and the
    /// bytes match the recorded checksum.
    pub fn verify(&self) -> (b: bool)
        ensures
            b == self.verifies(),
    {
        !self.is_empty() && checksum_of(self.image.as_slice()) == self.checksum
    }

    /// A partition made by `empty` and changed only by `write_image`
    /// verifies exactly when it is not empty.
    pub proof fn lemma_sealed_verifies_iff_written(&self)
        requires
            self.sealed(),
        ensures
            self.verifies() == self.version_view().is_some(),
    {
    }

    pub fn image_len(&self) -> (n: usize)
        ensures
            n == self.image_view().len(),
    {
        self.image.len()
    }
}

} // verus!
