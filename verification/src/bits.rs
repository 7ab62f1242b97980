//! Small integer facts shared by the validators.
use vstd::prelude::*;

verus! {

/// `x` is a power of two (1, 2, 4, ...).
pub open spec fn is_pow2(x: nat) -> bool
    decreases x,
{
    if x == 0 {
        false
    } else if x == 1 {
        true
    } else {
        x % 2 == 0 && is_pow2(x / 2)
    }
}

/// `is_pow2` holds of exactly the powers of two: of `2^k` for every `k`, and
/// of nothing else.
pub proof fn lemma_is_pow2_powers(x: nat, k: nat)
    ensures
        is_pow2(vstd::arithmetic::power2::pow2(k)),
        is_pow2(x) ==> exists|e: nat| x == #[trigger] vstd::arithmetic::power2::pow2(e),
    decreases x + k,
{
    if k > 0 {
        vstd::arithmetic::power2::lemma_pow2_unfold(k);
        vstd::arithmetic::power2::lemma_pow2_pos((k - 1) as nat);
        lemma_is_pow2_powers(0, (k - 1) as nat);
        let p = vstd::arithmetic::power2::pow2((k - 1) as nat);
        assert(vstd::arithmetic::power2::pow2(k) / 2 == p);
    } else {
        vstd::arithmetic::power2::lemma2_to64();
    }
    if is_pow2(x) {
        if x == 1 {
            vstd::arithmetic::power2::lemma2_to64();
            assert(x == vstd::arithmetic::power2::pow2(0));
        } else {
            lemma_is_pow2_powers(x / 2, 0);
            let e = choose|e: nat| x / 2 == #[trigger] vstd::arithmetic::power2::pow2(e);
            vstd::arithmetic::power2::lemma_pow2_unfold(e + 1);
            assert(x == vstd::arithmetic::power2::pow2(e + 1));
        }
    }
}

/// Whether `x` is a power of two, as `u64::is_power_of_two` reports.
pub fn u64_is_power_of_two(x: u64) -> (r: bool)
    ensures
        r == is_pow2(x as nat),
{
    if x == 0 {
        return false;
    }
    let mut y = x;
    while y > 1 && y % 2 == 0
        invariant
            y > 0,
            is_pow2(y as nat) == is_pow2(x as nat),
        decreases y,
    {
        y = y / 2;
    }
    y == 1
}

/// Whether `x` is a power of two, as `u32::is_power_of_two` reports.
pub fn u32_is_power_of_two(x: u32) -> (r: bool)
    ensures
        r == is_pow2(x as nat),
{
    u64_is_power_of_two(x as u64)
}

/// Whether `x` is a power of two, as `usize::is_power_of_two` reports.
pub fn usize_is_power_of_two(x: usize) -> (r: bool)
    ensures
        r == is_pow2(x as nat),
{
    u64_is_power_of_two(x as u64)
}

} // verus!
