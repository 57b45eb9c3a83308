//! Ordering of values on a wrapping ring (RFC 1323 "PAWS" comparison).

use std::cmp::Ordering;
use vstd::arithmetic::div_mod::lemma_fundamental_div_mod;
use vstd::prelude::*;

verus! {

/// Number of values of a 32-bit timestamp.
pub const U32_RING: u64 = 0x1_0000_0000;

/// Number of values of a 10-bit sequence number.
pub const U10_RING: u16 = 1024;

/// How far one has to walk forward from `s` to reach `t` on a ring of
/// `modulus` values.
pub open spec fn ring_distance(s: int, t: int, modulus: int) -> int {
    (t - s) % modulus
}

/// The order of a forward distance against half of the ring: below half
/// means "less", above means "greater", exactly half is undecidable.
pub open spec fn half_order(diff: int, half_space: int) -> Option<Ordering> {
    if diff == half_space {
        None
    } else if diff < half_space {
        Some(Ordering::Less)
    } else {
        Some(Ordering::Greater)
    }
}

/// PAWS order of `s` against `t` on a ring of `modulus` values: `s` is less
/// than `t` when `t` lies less than half a ring ahead of `s`.
pub open spec fn paws_order(s: int, t: int, modulus: int) -> Option<Ordering> {
    if ring_distance(s, t, modulus) == 0 {
        Some(Ordering::Equal)
    } else {
        half_order(ring_distance(s, t, modulus), modulus / 2)
    }
}

/// The converse of an optional ordering.
pub open spec fn reversed(o: Option<Ordering>) -> Option<Ordering> {
    match o {
        Some(Ordering::Less) => Some(Ordering::Greater),
        Some(Ordering::Greater) => Some(Ordering::Less),
        _ => o,
    }
}

/// Orders a forward distance `diff` against `half_space`.
pub fn paws_comparison(diff: u32, half_space: u32) -> (r: Option<Ordering>)
    ensures
        r == half_order(diff as int, half_space as int),
{
    if diff == half_space {
        return None;
    }
    if diff < half_space {
        return Some(Ordering::Less);
    }
    Some(Ordering::Greater)
}

/// Compares two 32-bit timestamps on their wrapping ring. Returns `None`
/// when they lie exactly half a ring (2^31) apart.
pub fn u32_paws_compare(s: u32, t: u32) -> (r: Option<Ordering>)
    ensures
        r == paws_order(s as int, t as int, U32_RING as int),
{
    if s == t {
        return Some(Ordering::Equal);
    }
    let diff = t.wrapping_sub(s);
    assert(diff as int == ring_distance(s as int, t as int, U32_RING as int)) by (nonlinear_arith)
        requires
            diff as int == (if t >= s { t - s } else { t - s + 0x1_0000_0000 }),
            0 <= s < 0x1_0000_0000,
            0 <= t < 0x1_0000_0000,
    ;
    paws_comparison(diff, 0x8000_0000)
}

/// Compares two 10-bit sequence numbers on their wrapping ring. Returns
/// `None` when they lie exactly half a ring (512) apart.
pub fn u10_paws_compare(s: u16, t: u16) -> (r: Option<Ordering>)
    requires
        s < U10_RING,
        t < U10_RING,
    ensures
        r == paws_order(s as int, t as int, U10_RING as int),
{
    if s == t {
        return Some(Ordering::Equal);
    }
    let diff: u16 = (t + U10_RING - s) % U10_RING;
    assert(diff as int == ring_distance(s as int, t as int, U10_RING as int)) by (nonlinear_arith)
        requires
            diff as int == (t + 1024 - s) % 1024,
            0 <= s < 1024,
            0 <= t < 1024,
    ;
    paws_comparison(diff as u32, 512)
}

/// The PAWS order is total up to the one undecidable case and
/// antisymmetric: comparing `t` with `s` gives the converse of comparing
/// `s` with `t`, and the comparison is undecidable exactly when the two
/// values lie half a ring apart.
pub proof fn lemma_paws_antisymmetric(s: int, t: int, modulus: int)
    requires
        modulus > 0,
        modulus % 2 == 0,
    ensures
        paws_order(s, t, modulus) == reversed(paws_order(t, s, modulus)),
        paws_order(s, t, modulus) is None <==> ring_distance(s, t, modulus) == modulus / 2,
{
    let d = ring_distance(s, t, modulus);
    let e = ring_distance(t, s, modulus);
    lemma_fundamental_div_mod(t - s, modulus);
    lemma_fundamental_div_mod(s - t, modulus);
    let k = (t - s) / modulus + (s - t) / modulus;
    assert(modulus * k == -(d + e)) by (nonlinear_arith)
        requires
            t - s == modulus * ((t - s) / modulus) + d,
            s - t == modulus * ((s - t) / modulus) + e,
            k == (t - s) / modulus + (s - t) / modulus,
    ;
    assert(k == 0 || k == -1) by (nonlinear_arith)
        requires
            modulus * k == -(d + e),
            0 <= d < modulus,
            0 <= e < modulus,
            modulus > 0,
    ;
}

} // verus!
