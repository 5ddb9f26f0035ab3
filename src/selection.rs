use vstd::prelude::*;
use crate::geometry::{floor_sqrt, floor_fifth_root, isqrt, fifth_root};

verus! {

/// Pheromone levels above this bound are never reached (see the colony's invariant).
pub const LEVEL_BOUND: u128 = 0x4_0000_0000_0000_0000;

/// Fixed-point factor applied to every attractiveness score.
pub const WEIGHT_UNIT: u128 = 0x1_0000_0000;

/// Attractiveness of an edge with pheromone `level` and length `length`:
/// `level^(1/2) * (1/length)^(6/5)`, in units of `1 / WEIGHT_UNIT`, with both
/// roots taken as integer roots and a zero length counted as one.
pub open spec fn weight(level: nat, length: nat) -> nat {
    let d = if length == 0 { 1 } else { length };
    floor_sqrt(level) * WEIGHT_UNIT as nat / (d * floor_fifth_root(d))
}

/// Attractiveness of an edge, as `weight` states it.
pub fn attractiveness(level: u128, length: u64) -> (r: u128)
    requires
        level <= LEVEL_BOUND,
    ensures
        r == weight(level as nat, length as nat),
        r < 0x8_0000_0000_0000_0000_000,
{
    let d: u64 = if length == 0 { 1 } else { length };
    let root: u64 = fifth_root(d);
    proof {
        assert(crate::geometry::pow5(1) == 1);
        assert(root >= 1) by {
            if root == 0 {
                assert(crate::geometry::pow5(0) == 0);
            }
        }
    }
    let s: u64 = isqrt(level);
    assert((d as u128) * (root as u128) <= 0xffff_ffff_ffff_ffff * 8192) by (nonlinear_arith)
        requires d <= 0xffff_ffff_ffff_ffff, root <= 8192;
    let den: u128 = (d as u128) * (root as u128);
    assert(den >= 1) by (nonlinear_arith)
        requires den == d * root, d >= 1, root >= 1;
    let num: u128 = (s as u128) * WEIGHT_UNIT;
    assert(num / den <= num) by (nonlinear_arith)
        requires den >= 1, num >= 0;
    num / den
}

/// Sum of the weights.
pub open spec fn weight_sum(w: Seq<u128>) -> nat
    decreases w.len(),
{
    if w.len() == 0 {
        0
    } else {
        weight_sum(w.drop_last()) + w.last() as nat
    }
}

/// The weights a roulette wheel spins on: `w` itself, or the same weight
/// for every position when all of `w` is zero.
pub open spec fn wheel(w: Seq<u128>) -> Seq<u128> {
    if weight_sum(w) == 0 {
        Seq::new(w.len(), |i: int| 1u128)
    } else {
        w
    }
}

pub proof fn lemma_ones_sum(w: Seq<u128>)
    requires
        forall|i: int| 0 <= i < w.len() ==> w[i] == 1,
    ensures
        weight_sum(w) == w.len(),
    decreases w.len(),
{
    if w.len() > 0 {
        lemma_ones_sum(w.drop_last());
    }
}

/// Roulette-wheel choice over `w` from position `i`, with `rem` the part of
/// the threshold that the weights before `i` have not used up: the first
/// position whose weight exceeds what is left, or the last position.
pub open spec fn select_from(w: Seq<u128>, rem: int, i: int) -> int
    decreases w.len() - i,
{
    if i + 1 >= w.len() {
        i
    } else if rem < w[i] {
        i
    } else {
        select_from(w, rem - w[i], i + 1)
    }
}

/// Roulette-wheel selection: the first index at which the running sum of the
/// weights exceeds `threshold`; the last index when no running sum does.
pub fn select_weighted(weights: &Vec<u128>, threshold: u128) -> (i: usize)
    requires
        weights.len() > 0,
    ensures
        i == select_from(weights@, threshold as int, 0),
        i < weights.len(),
{
    let mut i: usize = 0;
    let mut rem: u128 = threshold;
    while i + 1 < weights.len()
        invariant
            i < weights.len(),
            select_from(weights@, threshold as int, 0) == select_from(weights@, rem as int, i as int),
        decreases weights.len() - i,
    {
        if rem < weights[i] {
            return i;
        }
        rem = rem - weights[i];
        i = i + 1;
    }
    i
}

} // verus!
