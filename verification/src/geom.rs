//! Plane geometry over integer world units: points, axis-aligned box tests,
//! and the fixed-point arithmetic helpers the rest of the crate shares.

use vstd::prelude::*;
use vstd::arithmetic::div_mod::{
    lemma_div_is_ordered, lemma_div_multiples_vanish, lemma_div_nonincreasing,
    lemma_div_pos_is_pos,
};

verus! {

/// Coordinates the world accepts for destinations, zone centers and camera
/// translations; positions may drift past it by at most `STEP_LIMIT` when an
/// agent overshoots its destination.
pub const WORLD_LIMIT: i64 = 1_000_000_000;

/// The longest distance an agent may cover in one tick.
pub const STEP_LIMIT: i64 = 1_000_000;

/// Largest tick duration accepted, in milliseconds.
pub const TICK_MILLIS_LIMIT: i64 = 60_000;

/// A point or displacement in the world plane, in integer world units.
#[derive(Clone, Copy, Debug, PartialEq, Eq, Structural)]
pub struct Vec2i {
    pub x: i64,
    pub y: i64,
}

impl Vec2i {
    pub fn new(x: i64, y: i64) -> (r: Vec2i)
        ensures
            r.x == x,
            r.y == y,
    {
        Vec2i { x, y }
    }

    /// Both coordinates lie within `limit` of the origin.
    pub open spec fn in_bounds(self, limit: int) -> bool {
        &&& -limit <= self.x <= limit
        &&& -limit <= self.y <= limit
    }
}

/// The point `p` lies in the axis-aligned box centered at `center` with the
/// given half-extents; all four edges count as inside.
pub open spec fn box_contains(center: Vec2i, half_x: int, half_y: int, p: Vec2i) -> bool {
    &&& center.x - half_x <= p.x <= center.x + half_x
    &&& center.y - half_y <= p.y <= center.y + half_y
}

/// Inclusive axis-aligned box test, edges included on every side.
pub fn box_contains_point(center: Vec2i, half_x: i64, half_y: i64, p: Vec2i) -> (r: bool)
    requires
        0 <= half_x,
        0 <= half_y,
        i64::MIN <= center.x - half_x,
        center.x + half_x <= i64::MAX,
        i64::MIN <= center.y - half_y,
        center.y + half_y <= i64::MAX,
    ensures
        r == box_contains(center, half_x as int, half_y as int, p),
{
    center.x - half_x <= p.x && p.x <= center.x + half_x && center.y - half_y <= p.y
        && p.y <= center.y + half_y
}

/// Whether a point occurs in a list of points.
pub fn contains_point(v: &Vec<Vec2i>, p: Vec2i) -> (r: bool)
    ensures
        r == v@.contains(p),
{
    let n = v.len();
    let mut i: usize = 0;
    while i < n
        invariant
            i <= n,
            n == v@.len(),
            forall|j: int| 0 <= j < i ==> v@[j] != p,
        decreases n - i,
    {
        if v[i] == p {
            proof {
                assert(v@[i as int] == p);
            }
            return true;
        }
        i = i + 1;
    }
    false
}

/// Add a point to a duplicate-free list unless it is already there.
pub fn insert_new_point(v: &mut Vec<Vec2i>, p: Vec2i)
    requires
        old(v)@.no_duplicates(),
    ensures
        final(v)@.no_duplicates(),
        forall|q: Vec2i| #[trigger] final(v)@.contains(q) <==> old(v)@.contains(q) || q == p,
{
    if !contains_point(v, p) {
        let ghost s0 = v@;
        v.push(p);
        proof {
            assert(v@[s0.len() as int] == p);
            assert forall|q: Vec2i| #[trigger] v@.contains(q) implies (s0.contains(q) || q == p) by {
                let j = choose|j: int| 0 <= j < v@.len() && v@[j] == q;
                if j < s0.len() {
                    assert(s0[j] == q);
                }
            }
            assert forall|q: Vec2i| s0.contains(q) implies #[trigger] v@.contains(q) by {
                let j = choose|j: int| 0 <= j < s0.len() && s0[j] == q;
                assert(v@[j] == q);
            }
            assert forall|a: int, b: int|
                0 <= a < v@.len() && 0 <= b < v@.len() && a != b implies v@[a] != v@[b] by {
                if a < s0.len() && b < s0.len() {
                    assert(s0[a] == v@[a] && s0[b] == v@[b]);
                } else if b == s0.len() {
                    assert(v@[b] == p);
                    assert(v@[a] == s0[a]);
                    assert(s0.contains(s0[a]));
                } else {
                    assert(v@[a] == p);
                    assert(v@[b] == s0[b]);
                    assert(s0.contains(s0[b]));
                }
            }
        }
    }
}

/// Division that rounds toward zero, the rounding of the fixed-point
/// arithmetic throughout this crate.
pub open spec fn div_trunc(a: int, b: int) -> int {
    if a >= 0 {
        a / b
    } else {
        -((-a) / b)
    }
}

/// `v` forced into the closed interval `[lo, hi]`.
pub open spec fn clamp_spec(v: int, lo: int, hi: int) -> int {
    if v < lo {
        lo
    } else if v > hi {
        hi
    } else {
        v
    }
}

pub fn clamp_i64(v: i64, lo: i64, hi: i64) -> (r: i64)
    requires
        lo <= hi,
    ensures
        r == clamp_spec(v as int, lo as int, hi as int),
{
    if v < lo {
        lo
    } else if v > hi {
        hi
    } else {
        v
    }
}

/// Truncating division keeps the quotient within every multiple bound of the
/// divisor: if `|a| <= m * b` then `|div_trunc(a, b)| <= m`.
pub proof fn lemma_div_trunc_le(a: int, b: int, m: int)
    requires
        0 < b,
        0 <= m,
        -(m * b) <= a <= m * b,
    ensures
        -m <= div_trunc(a, b) <= m,
{
    if a >= 0 {
        lemma_div_pos_is_pos(a, b);
        lemma_div_is_ordered(a, m * b, b);
        lemma_div_multiples_vanish(m, b);
        assert(m * b == b * m) by (nonlinear_arith);
    } else {
        lemma_div_pos_is_pos(-a, b);
        lemma_div_is_ordered(-a, m * b, b);
        lemma_div_multiples_vanish(m, b);
        assert(m * b == b * m) by (nonlinear_arith);
    }
}

/// Truncating division never grows the magnitude of the dividend.
pub proof fn lemma_div_trunc_magnitude(a: int, b: int)
    requires
        0 < b,
    ensures
        a >= 0 ==> 0 <= div_trunc(a, b) <= a,
        a < 0 ==> a <= div_trunc(a, b) <= 0,
{
    if a >= 0 {
        lemma_div_pos_is_pos(a, b);
        lemma_div_nonincreasing(a, b);
    } else {
        lemma_div_pos_is_pos(-a, b);
        lemma_div_nonincreasing(-a, b);
    }
}

/// `trunc(a * b * c / d)`, the one fixed-point multiply-divide the crate uses.
pub(crate) fn mul3_div_trunc(a: i64, b: i64, c: i64, d: i64) -> (r: i64)
    requires
        0 < d,
        -4_000_000_000_000_000_000 <= a * b <= 4_000_000_000_000_000_000,
        -4_000_000_000_000_000_000 <= a * b * c <= 4_000_000_000_000_000_000,
    ensures
        r == div_trunc(a * b * c, d as int),
{
    let p1: i64 = a * b;
    let p: i64 = p1 * c;
    proof {
        lemma_div_trunc_magnitude(p as int, d as int);
        if p == 0 {
            vstd::arithmetic::div_mod::lemma_div_of0(d as int);
        }
    }
    let q = p.checked_div(d);
    proof {
        let x = p as int;
        let dd = d as int;
        if x == 0 {
            assert(div_trunc(x, dd) == 0);
            assert(q == Some(0i64));
        } else if x > 0 {
            assert(0 <= x / dd <= x);
            assert(q == Some((x / dd) as i64));
        } else {
            assert(x * -1 == -x) by (nonlinear_arith);
            assert(0 <= (-x) / dd <= -x);
            assert(((x * -1) / dd) * -1 == -((-x) / dd));
            assert(q == Some((-((-x) / dd)) as i64));
        }
    }
    q.unwrap()
}

/// The integer square root, rounded down: the largest `r` with `r * r <= n`.
pub open spec fn sqrt_floor(n: int) -> int
    decreases n,
{
    if n < 1 {
        0
    } else {
        let r = sqrt_floor(n - 1);
        if (r + 1) * (r + 1) <= n {
            r + 1
        } else {
            r
        }
    }
}

/// `sqrt_floor(n)` is the floor of the square root of `n`.
pub proof fn lemma_sqrt_floor_bounds(n: int)
    requires
        0 <= n,
    ensures
        0 <= sqrt_floor(n),
        sqrt_floor(n) * sqrt_floor(n) <= n < (sqrt_floor(n) + 1) * (sqrt_floor(n) + 1),
    decreases n,
{
    if n == 0 {
    } else {
        lemma_sqrt_floor_bounds(n - 1);
        let r = sqrt_floor(n - 1);
        if (r + 1) * (r + 1) <= n {
            assert((r + 1) * (r + 1) < (r + 2) * (r + 2)) by (nonlinear_arith)
                requires 0 <= r;
        }
    }
}

/// No value besides `sqrt_floor(n)` satisfies the floor-of-square-root bounds.
pub proof fn lemma_sqrt_floor_unique(n: int, r: int)
    requires
        0 <= n,
        0 <= r,
        r * r <= n < (r + 1) * (r + 1),
    ensures
        r == sqrt_floor(n),
{
    lemma_sqrt_floor_bounds(n);
    let s = sqrt_floor(n);
    if r < s {
        assert((r + 1) * (r + 1) <= s * s) by (nonlinear_arith)
            requires 0 <= r, r + 1 <= s;
    }
    if s < r {
        assert((s + 1) * (s + 1) <= r * r) by (nonlinear_arith)
            requires 0 <= s, s + 1 <= r;
    }
}

/// The integer square root: the largest `r` with `r * r <= n`.
pub fn isqrt_u64(n: u64) -> (r: u64)
    ensures
        r * r <= n < (r + 1) * (r + 1),
        r == sqrt_floor(n as int),
{
    let mut lo: u64 = 0;
    let mut hi: u64 = 4_294_967_295;
    proof {
        assert((4_294_967_295int + 1) * (4_294_967_295int + 1) == 18_446_744_073_709_551_616int)
            by (nonlinear_arith);
    }
    while lo < hi
        invariant
            lo <= hi <= 4_294_967_295,
            lo * lo <= n,
            n < (hi + 1) * (hi + 1),
        decreases hi - lo,
    {
        let mid: u64 = lo + (hi - lo + 1) / 2;
        proof {
            assert(lo < mid <= hi);
            assert(mid * mid <= 18_446_744_065_119_617_025u64) by (nonlinear_arith)
                requires mid <= 4_294_967_295u64;
        }
        if mid * mid <= n {
            lo = mid;
        } else {
            hi = mid - 1;
        }
    }
    proof {
        lemma_sqrt_floor_unique(n as int, lo as int);
    }
    lo
}

} // verus!
