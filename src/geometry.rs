use vstd::prelude::*;

verus! {

/// A node of the plane: integer coordinates.
pub type Point = (u32, u32);

/// Squared Euclidean distance between two points.
pub open spec fn sq_dist(a: Point, b: Point) -> nat {
    let dx = b.0 as int - a.0 as int;
    let dy = b.1 as int - a.1 as int;
    (dx * dx + dy * dy) as nat
}

pub open spec fn is_floor_sqrt(r: nat, x: nat) -> bool {
    r * r <= x && x < (r + 1) * (r + 1)
}

/// The integer square root: the largest `r` with `r * r <= x`.
pub open spec fn floor_sqrt(x: nat) -> nat {
    choose|r: nat| is_floor_sqrt(r, x)
}

pub open spec fn pow5(r: nat) -> nat {
    r * r * r * r * r
}

pub open spec fn is_floor_fifth_root(r: nat, x: nat) -> bool {
    pow5(r) <= x && x < pow5(r + 1)
}

/// The integer fifth root: the largest `r` with `r^5 <= x`.
pub open spec fn floor_fifth_root(x: nat) -> nat {
    choose|r: nat| is_floor_fifth_root(r, x)
}

/// Euclidean distance between two points, in thousandths, rounded down.
pub open spec fn dist(a: Point, b: Point) -> nat {
    floor_sqrt(sq_dist(a, b) * 1_000_000)
}

proof fn lemma_sqrt_unique(r: nat, s: nat, x: nat)
    requires
        is_floor_sqrt(r, x),
        is_floor_sqrt(s, x),
    ensures
        r == s,
{
    if r < s {
        assert((r + 1) * (r + 1) <= s * s) by (nonlinear_arith)
            requires r + 1 <= s;
    } else if s < r {
        assert((s + 1) * (s + 1) <= r * r) by (nonlinear_arith)
            requires s + 1 <= r;
    }
}

pub proof fn lemma_floor_sqrt(r: nat, x: nat)
    requires
        is_floor_sqrt(r, x),
    ensures
        floor_sqrt(x) == r,
{
    let s = floor_sqrt(x);
    assert(is_floor_sqrt(s, x));
    lemma_sqrt_unique(r, s, x);
}

proof fn lemma_pow5_mono(a: nat, b: nat)
    requires
        a <= b,
    ensures
        pow5(a) <= pow5(b),
{
    assert(a * a <= b * b) by (nonlinear_arith)
        requires a <= b;
    assert(a * a * a <= b * b * b) by (nonlinear_arith)
        requires a <= b, a * a <= b * b;
    assert(a * a * a * a <= b * b * b * b) by (nonlinear_arith)
        requires a <= b, a * a * a <= b * b * b;
    assert(a * a * a * a * a <= b * b * b * b * b) by (nonlinear_arith)
        requires a <= b, a * a * a * a <= b * b * b * b;
}

pub proof fn lemma_floor_fifth_root(r: nat, x: nat)
    requires
        is_floor_fifth_root(r, x),
    ensures
        floor_fifth_root(x) == r,
{
    let s = floor_fifth_root(x);
    assert(is_floor_fifth_root(s, x));
    if r < s {
        lemma_pow5_mono(r + 1, s);
    } else if s < r {
        lemma_pow5_mono(s + 1, r);
    }
}

/// Integer square root of `x`, for `x < 2^86`.
pub fn isqrt(x: u128) -> (r: u64)
    requires
        x < 0x40_0000_0000_0000_0000_0000,
    ensures
        r == floor_sqrt(x as nat),
        r < 0x800_0000_0000,
{
    let mut lo: u128 = 0;
    let mut hi: u128 = 0x800_0000_0000;
    assert(hi * hi == 0x40_0000_0000_0000_0000_0000);
    while hi - lo > 1
        invariant
            lo < hi,
            hi <= 0x800_0000_0000,
            lo * lo <= x,
            x < hi * hi,
        decreases hi - lo,
    {
        let mid: u128 = lo + (hi - lo) / 2;
        assert(mid * mid <= 0x800_0000_0000 * 0x800_0000_0000) by (nonlinear_arith)
            requires mid <= 0x800_0000_0000;
        if mid * mid <= x {
            lo = mid;
        } else {
            hi = mid;
        }
    }
    proof {
        lemma_floor_sqrt(lo as nat, x as nat);
    }
    lo as u64
}

/// Integer fifth root of `x`.
pub fn fifth_root(x: u64) -> (r: u64)
    ensures
        r == floor_fifth_root(x as nat),
        is_floor_fifth_root(r as nat, x as nat),
        r <= 8192,
{
    let mut r: u64 = 0;
    loop
        invariant
            r <= 8192,
            pow5(r as nat) <= x,
        ensures
            pow5(r as nat) <= x,
            x < pow5(r as nat + 1),
        decreases 8192 - r,
    {
        if r == 8192 {
            assert(pow5(8193) > 0xffff_ffff_ffff_ffff);
            break;
        }
        let s: u128 = (r + 1) as u128;
        proof {
            lemma_pow5_mono(s as nat, 8193);
            assert(pow5(8193) < 0x1_0000_0000_0000_0000_0000);
            assert(s * s <= pow5(s as nat)) by (nonlinear_arith)
                requires s >= 1;
            assert(s * s * s <= pow5(s as nat)) by (nonlinear_arith)
                requires s >= 1;
            assert(s * s * s * s <= pow5(s as nat)) by (nonlinear_arith)
                requires s >= 1;
        }
        let p: u128 = s * s * s * s * s;
        if p > x as u128 {
            break;
        }
        r = r + 1;
    }
    proof {
        lemma_floor_fifth_root(r as nat, x as nat);
    }
    r
}

/// Euclidean distance between two points, in thousandths, rounded down.
pub fn distance(a: Point, b: Point) -> (r: u64)
    ensures
        r == dist(a, b),
        r < 0x800_0000_0000,
{
    let dx: i64 = b.0 as i64 - a.0 as i64;
    let dy: i64 = b.1 as i64 - a.1 as i64;
    let ax: u128 = if dx < 0 { (-dx) as u128 } else { dx as u128 };
    let ay: u128 = if dy < 0 { (-dy) as u128 } else { dy as u128 };
    assert(ax * ax <= 0xffff_ffff * 0xffff_ffff) by (nonlinear_arith)
        requires ax <= 0xffff_ffff;
    assert(ay * ay <= 0xffff_ffff * 0xffff_ffff) by (nonlinear_arith)
        requires ay <= 0xffff_ffff;
    assert(ax * ax == dx * dx) by (nonlinear_arith)
        requires ax == dx || ax == -dx;
    assert(ay * ay == dy * dy) by (nonlinear_arith)
        requires ay == dy || ay == -dy;
    let sq: u128 = ax * ax + ay * ay;
    assert(sq as int == sq_dist(a, b)) by (nonlinear_arith)
        requires
            ax * ax == dx * dx,
            ay * ay == dy * dy,
            sq == ax * ax + ay * ay,
            dx == b.0 as int - a.0 as int,
            dy == b.1 as int - a.1 as int,
    {
    }
    let scaled: u128 = sq * 1_000_000;
    isqrt(scaled)
}

} // verus!
