//! Identities, errors and the small shared vocabulary of the kernel model.
use vstd::prelude::*;
use crate::keyed::KeyEq;
use crate::text::{decimal, u128_to_decimal};

verus! {

/// A 128-bit identity for every managed kernel object.
#[derive(Debug, Clone, Copy, PartialEq, Eq, Hash, Structural)]
pub struct ObjectId {
    pub value: u128,
}

impl View for ObjectId {
    type V = ObjectId;

    open spec fn view(&self) -> ObjectId {
        *self
    }
}

impl KeyEq for ObjectId {
    fn key_eq(&self, other: &Self) -> (r: bool) {
        *self == *other
    }

    fn key_clone(&self) -> (r: Self) {
        *self
    }
}

/// Calls `uuid::Uuid::new_v4` and returns the UUID as a `u128` (`Uuid::as_u128`).
/// The value is random; the crate masks in the version nibble 4 and the
/// variant bits `10` (`new_v4` ORs in `0x4000_8000 << 48` after clearing
/// those bits), so it is never zero. Nothing else is promised.
#[verifier::external_body]
fn random_uuid_value() -> (r: u128)
    ensures
        r & 0xF000_C000_0000_0000_0000u128 == 0x4000_8000_0000_0000_0000u128,
        r != 0,
{
    uuid::Uuid::new_v4().as_u128()
}

impl ObjectId {
    /// A fresh random identity (a version-4 UUID); never the nil identity.
    pub fn new() -> (id: ObjectId)
        ensures
            id.value != 0,
            id.value & 0xF000_C000_0000_0000_0000u128 == 0x4000_8000_0000_0000_0000u128,
    {
        ObjectId { value: random_uuid_value() }
    }

    /// The all-zero identity.
    pub fn nil() -> (id: ObjectId)
        ensures
            id.value == 0,
    {
        ObjectId { value: 0 }
    }

    /// The identity as text: its 128-bit value in decimal.
    pub fn to_text(&self) -> (s: String)
        ensures
            s@ == decimal(self.value as nat),
    {
        u128_to_decimal(self.value)
    }

    pub fn is_nil(&self) -> (b: bool)
        ensures
            b == (self.value == 0),
    {
        self.value == 0
    }
}

/// Errors reported by the kernel subsystems. Each variant names the
/// subsystem that refused, with a message where the subsystem gives one.
#[derive(Debug, Clone, PartialEq, Eq)]
pub enum Error {
    Memory(String),
    Security(String),
    Device(String),
    Driver(String),
    Networking(String),
    Unknown(String),
    AllocationFailed(String),
    OutOfMemory,
}

pub type Result<T> = core::result::Result<T, Error>;

/// Kinds of kernel objects.
#[derive(Debug, Clone, Copy, PartialEq, Eq, Hash, Structural)]
pub enum ObjectType {
    Process,
    Thread,
    Driver,
    Device,
    Service,
    Memory,
}

/// Generic capabilities an object may be granted.
#[derive(Debug, Clone, Copy, PartialEq, Eq, Hash, Structural)]
pub enum Capability {
    Read,
    Write,
    Execute,
    NetworkAccess,
    FileAccess,
    DeviceAccess,
    Admin,
}

/// How sensitive a grant is; sets how long it may live.
#[derive(Debug, Clone, Copy, PartialEq, Eq, Hash, Structural)]
pub enum PermissionTier {
    Low,
    Medium,
    High,
    Critical,
}

/// Seconds since the Unix epoch, from `std::time::SystemTime::now()`
/// (zero if the clock reads before the epoch). Depends on the clock, so
/// nothing is promised about the value.
#[verifier::external_body]
pub(crate) fn unix_time_secs() -> (t: u64) {
    std::time::SystemTime::now().duration_since(std::time::UNIX_EPOCH).unwrap_or_default().as_secs()
}

/// Milliseconds since the Unix epoch, from `std::time::SystemTime::now()`
/// (zero if the clock reads before the epoch). Depends on the clock, so
/// nothing is promised about the value.
#[verifier::external_body]
pub(crate) fn unix_time_millis() -> (t: u64) {
    std::time::SystemTime::now().duration_since(std::time::UNIX_EPOCH).unwrap_or_default().as_millis() as u64
}

/// Address of the first word of a buffer of 64-bit words, from
/// `Vec::as_ptr`. The value is wherever the allocator placed the buffer;
/// what is claimed is only that it is aligned for `u64` (a `Vec<u64>`
/// always points at properly aligned memory, even when empty) and that the
/// buffer's bytes do not run past the end of the address space (a live
/// allocation never wraps around it).
#[verifier::external_body]
pub(crate) fn buffer_address(buf: &Vec<u64>) -> (a: usize)
    ensures
        a % 8 == 0,
        a as int + buf@.len() * 8 <= usize::MAX,
{
    buf.as_ptr() as usize
}

/// Copy of a string slice as an owned `String`.
pub fn owned(s: &str) -> (r: String)
    ensures
        r@ == s@,
{
    s.to_owned()
}

} // verus!
