//! Rounding a count up to a power of two.
use vstd::arithmetic::power2;
use vstd::prelude::*;

verus! {

/// Whether `n` is a power of two.
pub open spec fn is_power_of_two(n: nat) -> bool {
    exists|e: nat| n == #[trigger] power2::pow2(e)
}

/// `p`, doubled until it is at least `n`.
pub open spec fn doubled_until(p: nat, n: nat) -> nat
    decreases (if p < n { n - p } else { 0 }),
{
    if p == 0 || p >= n {
        p
    } else {
        doubled_until(2 * p, n)
    }
}

/// The smallest power of two that is at least `n`.
pub open spec fn padded_size(n: nat) -> nat {
    doubled_until(1, n)
}

/// Doubling a power of two until it is enough ends at a power of two, and no
/// later than needed.
proof fn doubling_keeps_powers(p: nat, e: nat, n: nat) -> (r: nat)
    requires
        p == power2::pow2(e),
    ensures
        doubled_until(p, n) == power2::pow2(r),
        e <= r,
        doubled_until(p, n) >= n,
        doubled_until(p, n) >= p,
        doubled_until(p, n) == p || doubled_until(p, n) < 2 * n,
    decreases (if p < n { n - p } else { 0 }),
{
    power2::lemma_pow2_pos(e);
    if p >= n {
        e
    } else {
        power2::lemma_pow2_unfold(e + 1);
        doubling_keeps_powers(2 * p, e + 1, n)
    }
}

/// The padded size is a power of two, is enough, and is less than twice what
/// is needed.
pub proof fn padded_size_is_tight(n: nat)
    requires
        n > 0,
    ensures
        is_power_of_two(padded_size(n)),
        n <= padded_size(n) < 2 * n,
{
    power2::lemma2_to64();
    let e = doubling_keeps_powers(1, 0, n);
    assert(padded_size(n) == power2::pow2(e));
}

/// No power of two that is enough is smaller than the padded size.
pub proof fn padded_size_is_smallest(n: nat, e: nat)
    requires
        power2::pow2(e) >= n,
    ensures
        padded_size(n) <= power2::pow2(e),
        padded_size(0) == 1,
{
    power2::lemma2_to64();
    power2::lemma_pow2_pos(e);
    if n > 0 {
        padded_size_is_tight(n);
        let r = choose|r: nat| padded_size(n) == #[trigger] power2::pow2(r);
        if e < r {
            power2::lemma_pow2_unfold(r);
            if e < r - 1 {
                power2::lemma_pow2_strictly_increases(e, (r - 1) as nat);
            }
        } else if r < e {
            power2::lemma_pow2_strictly_increases(r, e);
        }
    }
}

/// The smallest power of two that is at least `n`.
pub fn padded_len(n: usize) -> (m: usize)
    requires
        padded_size(n as nat) <= usize::MAX,
    ensures
        m == padded_size(n as nat),
        is_power_of_two(m as nat),
        n <= m,
        n == 0 ==> m == 1,
        n > 0 ==> m < 2 * n,
{
    let mut p: usize = 1;
    let ghost mut e: nat = 0;
    proof {
        power2::lemma2_to64();
    }
    while p < n
        invariant
            p == power2::pow2(e),
            doubled_until(p as nat, n as nat) == padded_size(n as nat),
            padded_size(n as nat) <= usize::MAX,
        decreases (if p < n { n - p } else { 0 }),
    {
        proof {
            power2::lemma_pow2_pos(e);
            power2::lemma_pow2_unfold(e + 1);
            doubling_keeps_powers(2 * p as nat, e + 1, n as nat);
            e = e + 1;
        }
        p = 2 * p;
    }
    proof {
        if n > 0 {
            padded_size_is_tight(n as nat);
        } else {
            assert(padded_size(0) == 1);
        }
    }
    p
}

} // verus!
