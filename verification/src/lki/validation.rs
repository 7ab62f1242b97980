//! Validation layer: every Linux API call is checked before translation.
use vstd::prelude::*;
use crate::bits::{is_pow2, u32_is_power_of_two};
use crate::common::{owned, Error};
use crate::keyed::{str_eq, KeyEq, VecMap};

verus! {

#[derive(Debug, Clone, Copy, PartialEq, Eq, Structural)]
pub enum ValidationError {
    InvalidPointer,
    InvalidSize,
    InvalidFlags,
    NullPointer,
    AlignmentViolation,
    PermissionDenied,
    ResourceExhausted,
    InvalidIrq,
    InvalidBusId,
}

/// The message of each validation error.
pub open spec fn validation_message(e: ValidationError) -> Seq<char> {
    match e {
        ValidationError::InvalidPointer => "Invalid pointer"@,
        ValidationError::InvalidSize => "Invalid size"@,
        ValidationError::InvalidFlags => "Invalid flags"@,
        ValidationError::NullPointer => "Null pointer"@,
        ValidationError::AlignmentViolation => "Alignment violation"@,
        ValidationError::PermissionDenied => "Permission denied"@,
        ValidationError::ResourceExhausted => "Resource exhausted"@,
        ValidationError::InvalidIrq => "Invalid IRQ number"@,
        ValidationError::InvalidBusId => "Invalid bus ID"@,
    }
}

impl ValidationError {
    /// The error's message ("Invalid size", "Invalid IRQ number", ...).
    pub fn to_string(&self) -> (s: String)
        ensures
            s@ == validation_message(*self),
    {
        match self {
            ValidationError::InvalidPointer => owned("Invalid pointer"),
            ValidationError::InvalidSize => owned("Invalid size"),
            ValidationError::InvalidFlags => owned("Invalid flags"),
            ValidationError::NullPointer => owned("Null pointer"),
            ValidationError::AlignmentViolation => owned("Alignment violation"),
            ValidationError::PermissionDenied => owned("Permission denied"),
            ValidationError::ResourceExhausted => owned("Resource exhausted"),
            ValidationError::InvalidIrq => owned("Invalid IRQ number"),
            ValidationError::InvalidBusId => owned("Invalid bus ID"),
        }
    }

    /// The driver error that reports this validation failure.
    pub fn into_error(self) -> (e: Error)
        ensures
            e matches Error::Driver(m) && m@ == validation_message(self),
    {
        Error::Driver(self.to_string())
    }
}

pub type ValidationResult = core::result::Result<(), ValidationError>;

#[derive(Debug, Clone, Copy)]
pub struct Validator {
    pub total_validations: u64,
    pub failed_validations: u64,
    pub max_allocation_size: u64,
    pub valid_irq_range: (u32, u32),
}

/// `v` after one more validation, failed or not.
pub open spec fn counted(v: Validator, failed: bool) -> Validator {
    Validator {
        total_validations: (v.total_validations + 1) as u64,
        failed_validations: if failed { (v.failed_validations + 1) as u64 } else { v.failed_validations },
        ..v
    }
}

/// Both counters have room for one more validation.
pub open spec fn can_count(v: Validator) -> bool {
    v.total_validations < u64::MAX && v.failed_validations < u64::MAX
}

impl Default for Validator {
    /// All-zero limits: nothing but size-0... requests pass nothing.
    fn default() -> (v: Validator)
        ensures
            v.total_validations == 0,
            v.failed_validations == 0,
            v.max_allocation_size == 0,
            v.valid_irq_range == (0u32, 0u32),
    {
        Validator { total_validations: 0, failed_validations: 0, max_allocation_size: 0, valid_irq_range: (0, 0) }
    }
}

impl Validator {
    /// Counters at zero, 1 GiB allocation limit, IRQs 0 to 255.
    pub fn new() -> (v: Validator)
        ensures
            v.total_validations == 0,
            v.failed_validations == 0,
            v.max_allocation_size == 1024 * 1024 * 1024,
            v.valid_irq_range == (0u32, 255u32),
    {
        Validator {
            total_validations: 0,
            failed_validations: 0,
            max_allocation_size: 1024 * 1024 * 1024,
            valid_irq_range: (0, 255),
        }
    }

    /// Size must be non-zero and at most the limit; a non-zero alignment
    /// must be a power of two.
    pub fn validate_allocation(&mut self, size: u64, alignment: u32) -> (r: ValidationResult)
        requires
            can_count(*old(self)),
        ensures
            size == 0 ==> r == Err::<(), ValidationError>(ValidationError::InvalidSize),
            size != 0 && size > old(self).max_allocation_size ==> r == Err::<(), ValidationError>(ValidationError::InvalidSize),
            size != 0 && size <= old(self).max_allocation_size && alignment > 0 && !is_pow2(alignment as nat)
                ==> r == Err::<(), ValidationError>(ValidationError::AlignmentViolation),
            size != 0 && size <= old(self).max_allocation_size && (alignment == 0 || is_pow2(alignment as nat))
                ==> r.is_ok(),
            *final(self) == counted(*old(self), r.is_err()),
    {
        self.total_validations = self.total_validations + 1;
        if size == 0 {
            self.failed_validations = self.failed_validations + 1;
            return Err(ValidationError::InvalidSize);
        }
        if size > self.max_allocation_size {
            self.failed_validations = self.failed_validations + 1;
            return Err(ValidationError::InvalidSize);
        }
        if alignment > 0 && !u32_is_power_of_two(alignment) {
            self.failed_validations = self.failed_validations + 1;
            return Err(ValidationError::AlignmentViolation);
        }
        Ok(())
    }

    /// A pointer to free must not be null.
    pub fn validate_deallocation(&mut self, ptr: u64) -> (r: ValidationResult)
        requires
            can_count(*old(self)),
        ensures
            ptr == 0 ==> r == Err::<(), ValidationError>(ValidationError::NullPointer),
            ptr != 0 ==> r.is_ok(),
            *final(self) == counted(*old(self), r.is_err()),
    {
        self.total_validations = self.total_validations + 1;
        if ptr == 0 {
            self.failed_validations = self.failed_validations + 1;
            return Err(ValidationError::NullPointer);
        }
        Ok(())
    }

    /// The IRQ number must lie in the valid range (inclusive).
    pub fn validate_irq(&mut self, irq: u32) -> (r: ValidationResult)
        requires
            can_count(*old(self)),
        ensures
            (irq < old(self).valid_irq_range.0 || irq > old(self).valid_irq_range.1)
                ==> r == Err::<(), ValidationError>(ValidationError::InvalidIrq),
            (old(self).valid_irq_range.0 <= irq <= old(self).valid_irq_range.1) ==> r.is_ok(),
            *final(self) == counted(*old(self), r.is_err()),
    {
        self.total_validations = self.total_validations + 1;
        if irq < self.valid_irq_range.0 || irq > self.valid_irq_range.1 {
            self.failed_validations = self.failed_validations + 1;
            return Err(ValidationError::InvalidIrq);
        }
        Ok(())
    }

    /// `flags` may only use bits of `valid_bits`.
    pub fn validate_flags(&mut self, flags: u32, valid_bits: u32) -> (r: ValidationResult)
        requires
            can_count(*old(self)),
        ensures
            (flags & !valid_bits) != 0 ==> r == Err::<(), ValidationError>(ValidationError::InvalidFlags),
            (flags & !valid_bits) == 0 ==> r.is_ok(),
            *final(self) == counted(*old(self), r.is_err()),
    {
        self.total_validations = self.total_validations + 1;
        if (flags & !valid_bits) != 0 {
            self.failed_validations = self.failed_validations + 1;
            return Err(ValidationError::InvalidFlags);
        }
        Ok(())
    }

    /// A non-zero alignment must divide the pointer.
    pub fn validate_alignment(&mut self, ptr: u64, alignment: u32) -> (r: ValidationResult)
        requires
            can_count(*old(self)),
        ensures
            alignment > 0 && ptr % (alignment as u64) != 0
                ==> r == Err::<(), ValidationError>(ValidationError::AlignmentViolation),
            (alignment == 0 || ptr % (alignment as u64) == 0) ==> r.is_ok(),
            *final(self) == counted(*old(self), r.is_err()),
    {
        self.total_validations = self.total_validations + 1;
        if alignment > 0 && (ptr % alignment as u64) != 0 {
            self.failed_validations = self.failed_validations + 1;
            return Err(ValidationError::AlignmentViolation);
        }
        Ok(())
    }
}

/// Failed validations never outnumber validations: each check counts
/// itself, and a failure counts once more.
pub proof fn lemma_counted_keeps_failures_bounded(v: Validator, failed: bool)
    requires
        v.failed_validations <= v.total_validations,
        can_count(v),
    ensures
        counted(v, failed).failed_validations <= counted(v, failed).total_validations,
        counted(v, failed).total_validations == v.total_validations + 1,
{
}

#[derive(Debug, Clone)]
pub struct ApiSignature {
    pub name: String,
    pub min_args: u32,
    pub max_args: u32,
    pub required_capabilities: Vec<String>,
}

impl ApiSignature {
    pub fn duplicate(&self) -> (s: ApiSignature)
        ensures
            s.name == self.name,
            s.min_args == self.min_args,
            s.max_args == self.max_args,
            s.required_capabilities@ == self.required_capabilities@,
    {
        ApiSignature {
            name: self.name.clone(),
            min_args: self.min_args,
            max_args: self.max_args,
            required_capabilities: clone_strings(&self.required_capabilities),
        }
    }
}

/// The strings of `v`, duplicated in order.
pub fn clone_strings(v: &Vec<String>) -> (r: Vec<String>)
    ensures
        r@ == v@,
{
    let mut r: Vec<String> = Vec::new();
    let mut i: usize = 0;
    while i < v.len()
        invariant
            i <= v@.len(),
            r@ == v@.subrange(0, i as int),
        decreases v@.len() - i,
    {
        r.push(v[i].clone());
        proof {
            assert(r@ =~= v@.subrange(0, i as int + 1));
        }
        i = i + 1;
    }
    assert(v@.subrange(0, v@.len() as int) =~= v@);
    r
}

/// Whether some string in `v` has the characters of `s`.
pub fn strings_contain(v: &[String], s: &String) -> (b: bool)
    ensures
        b == exists|i: int| 0 <= i < v@.len() && v@[i]@ == s@,
{
    let mut i: usize = 0;
    while i < v.len()
        invariant
            i <= v@.len(),
            forall|j: int| 0 <= j < i ==> v@[j]@ != s@,
        decreases v@.len() - i,
    {
        if v[i] == *s {
            return true;
        }
        i = i + 1;
    }
    false
}

/// Some string of `caps` has the characters `c`.
pub open spec fn has_cap(caps: Seq<String>, c: Seq<char>) -> bool {
    exists|j: int| 0 <= j < caps.len() && caps[j]@ == c
}

/// What `validate_call` answers for a call of an API with signature `sig`.
pub open spec fn call_outcome(sig: Option<ApiSignature>, arg_count: u32, caps: Seq<String>) -> ValidationResult {
    match sig {
        None => Err(ValidationError::InvalidFlags),
        Some(s) => if arg_count < s.min_args || arg_count > s.max_args {
            Err(ValidationError::InvalidFlags)
        } else if exists|i: int| 0 <= i < s.required_capabilities@.len()
            && !has_cap(caps, #[trigger] s.required_capabilities@[i]@) {
            Err(ValidationError::PermissionDenied)
        } else {
            Ok(())
        },
    }
}

#[derive(Debug, Clone)]
pub struct SignatureValidator {
    pub signatures: VecMap<String, ApiSignature>,
}

impl SignatureValidator {
    pub fn new() -> (v: SignatureValidator)
        ensures
            v.signatures.wf(),
            v.signatures@ == Map::<Seq<char>, ApiSignature>::empty(),
    {
        SignatureValidator { signatures: VecMap::new() }
    }

    /// Register (or replace) the signature for `sig.name`.
    pub fn register_api(&mut self, sig: ApiSignature)
        requires
            old(self).signatures.wf(),
        ensures
            final(self).signatures.wf(),
            final(self).signatures@ == old(self).signatures@.insert(sig.name@, sig),
    {
        let name = sig.name.clone();
        self.signatures.insert(name, sig);
    }

    /// Check a call: unknown APIs and argument counts outside the
    /// signature's range are `InvalidFlags`; a missing required capability
    /// is `PermissionDenied`.
    pub fn validate_call(&self, api_name: &str, arg_count: u32, capabilities: &[String]) -> (r: ValidationResult)
        requires
            self.signatures.wf(),
        ensures
            r == call_outcome(
                if self.signatures@.contains_key(api_name@) { Some(self.signatures@[api_name@]) } else { None },
                arg_count,
                capabilities@,
            ),
    {
        let key = owned(api_name);
        match self.signatures.get(&key) {
            Some(sig) => {
                if arg_count < sig.min_args || arg_count > sig.max_args {
                    return Err(ValidationError::InvalidFlags);
                }
                let mut i: usize = 0;
                while i < sig.required_capabilities.len()
                    invariant
                        self.signatures@.contains_key(api_name@),
                        *sig == self.signatures@[api_name@],
                        sig.min_args <= arg_count <= sig.max_args,
                        i <= sig.required_capabilities@.len(),
                        forall|k: int| 0 <= k < i ==> has_cap(capabilities@, #[trigger] sig.required_capabilities@[k]@),
                    decreases sig.required_capabilities@.len() - i,
                {
                    if !strings_contain(capabilities, &sig.required_capabilities[i]) {
                        assert(!has_cap(capabilities@, sig.required_capabilities@[i as int]@));
                        assert(*sig == self.signatures@[api_name@]);
                        assert(exists|k: int| 0 <= k < sig.required_capabilities@.len()
                            && !has_cap(capabilities@, #[trigger] sig.required_capabilities@[k]@));
                        return Err(ValidationError::PermissionDenied);
                    }
                    i = i + 1;
                }
                Ok(())
            },
            None => Err(ValidationError::InvalidFlags),
        }
    }
}

/// What a call check decides: an unknown call or an argument count outside
/// the signature's range is refused as invalid flags, before capabilities
/// are looked at; a missing required capability refuses the call; and a
/// known call with an argument count in range and every required
/// capability held passes.
pub proof fn lemma_call_outcome(sig: Option<ApiSignature>, arg_count: u32, caps: Seq<String>)
    ensures
        sig.is_none() ==> call_outcome(sig, arg_count, caps) == Err::<(), ValidationError>(ValidationError::InvalidFlags),
        sig.is_some() && (arg_count < sig.unwrap().min_args || arg_count > sig.unwrap().max_args)
            ==> call_outcome(sig, arg_count, caps) == Err::<(), ValidationError>(ValidationError::InvalidFlags),
        sig.is_some() && (exists|i: int| 0 <= i < sig.unwrap().required_capabilities@.len()
            && !has_cap(caps, #[trigger] sig.unwrap().required_capabilities@[i]@))
            ==> call_outcome(sig, arg_count, caps).is_err(),
        call_outcome(sig, arg_count, caps).is_ok() <==> ({
            &&& sig.is_some()
            &&& sig.unwrap().min_args <= arg_count <= sig.unwrap().max_args
            &&& forall|i: int| 0 <= i < sig.unwrap().required_capabilities@.len() ==>
                has_cap(caps, #[trigger] sig.unwrap().required_capabilities@[i]@)
        }),
{
}

} // verus!
