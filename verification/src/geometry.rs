//! Exact planar geometry: points, squared distances, integer square roots
//! and floor division, with the specification functions the curve and
//! rasterizer contracts are written against.

use vstd::arithmetic::div_mod::{
    lemma_div_pos_is_pos, lemma_div_nonincreasing, lemma_fundamental_div_mod,
};
use vstd::prelude::*;

verus! {

/// Largest coordinate magnitude the library accepts.  Keeping coordinates
/// in this range makes every intermediate product of the curve and
/// distance arithmetic fit comfortably in the machine integers used below.
pub const COORD_LIMIT: i64 = 1_000_000_000;

/// A point of the plane with exact fixed-point coordinates.
#[derive(Clone, Copy, PartialEq, Eq, Structural, Debug)]
pub struct Point2D {
    pub x: i64,
    pub y: i64,
}

/// A coordinate the library accepts.
pub open spec fn coord_ok(c: int) -> bool {
    -COORD_LIMIT <= c <= COORD_LIMIT
}

/// A point both of whose coordinates the library accepts.
pub open spec fn point_ok(p: Point2D) -> bool {
    coord_ok(p.x as int) && coord_ok(p.y as int)
}

/// The square of an integer.
pub open spec fn sq(a: int) -> int {
    a * a
}

/// Squared Euclidean distance between two points.
pub open spec fn dist_sq(ax: int, ay: int, bx: int, by: int) -> int {
    sq(ax - bx) + sq(ay - by)
}

/// The integer square root, rounded down: the largest `r` with `r * r <= n`.
pub open spec fn sqrt_floor(n: int) -> int
    decreases n,
{
    if n <= 0 {
        0
    } else if sq(sqrt_floor(n - 1) + 1) <= n {
        sqrt_floor(n - 1) + 1
    } else {
        sqrt_floor(n - 1)
    }
}

/// `sqrt_floor(n)` is the floor of the real square root of `n`.
pub proof fn lemma_sqrt_floor_bounds(n: int)
    requires
        n >= 0,
    ensures
        0 <= sqrt_floor(n),
        sq(sqrt_floor(n)) <= n,
        n < sq(sqrt_floor(n) + 1),
    decreases n,
{
    if n > 0 {
        lemma_sqrt_floor_bounds(n - 1);
        let r = sqrt_floor(n - 1);
        if sq(r + 1) <= n {
            assert(n <= sq(r + 1)) by {
                assert(n - 1 < sq(r + 1));
            }
            assert(sq(r + 1) < sq(r + 2)) by (nonlinear_arith)
                requires r >= 0;
        }
    }
}

/// Only one integer can sit at the floor of a square root.
pub proof fn lemma_sqrt_floor_unique(n: int, r: int)
    requires
        n >= 0,
        r >= 0,
        sq(r) <= n,
        n < sq(r + 1),
    ensures
        r == sqrt_floor(n),
{
    lemma_sqrt_floor_bounds(n);
    let s = sqrt_floor(n);
    if r < s {
        assert(sq(r + 1) <= sq(s)) by (nonlinear_arith)
            requires 0 <= r + 1 <= s;
    }
    if s < r {
        assert(sq(s + 1) <= sq(r)) by (nonlinear_arith)
            requires 0 <= s + 1 <= r;
    }
}

/// Integer square root, rounded down.
pub fn isqrt(n: u64) -> (r: u64)
    ensures
        r as int == sqrt_floor(n as int),
{
    let mut lo: u64 = 0;
    let mut hi: u64 = 4_294_967_296;
    proof {
        assert(sq(4_294_967_296) == 18_446_744_073_709_551_616);
    }
    while lo + 1 < hi
        invariant
            lo < hi <= 4_294_967_296,
            sq(lo as int) <= n as int,
            (n as int) < sq(hi as int),
        decreases hi - lo,
    {
        let mid: u64 = lo + (hi - lo) / 2;
        proof {
            assert((mid as int) * (mid as int) <= 18_446_744_073_709_551_616) by (nonlinear_arith)
                requires 0 <= mid as int <= 4_294_967_296;
        }
        let m2: u128 = (mid as u128) * (mid as u128);
        if m2 <= n as u128 {
            lo = mid;
        } else {
            hi = mid;
        }
    }
    proof {
        lemma_sqrt_floor_unique(n as int, lo as int);
    }
    lo
}

/// Floor division bounds: dividing by a positive integer moves the value
/// toward zero, so the quotient stays between the dividend and zero.
pub proof fn lemma_div_range(a: int, d: int)
    requires
        d >= 1,
    ensures
        a >= 0 ==> 0 <= a / d <= a,
        a < 0 ==> a <= a / d <= 0,
{
    if a >= 0 {
        lemma_div_pos_is_pos(a, d);
        lemma_div_nonincreasing(a, d);
    } else {
        lemma_fundamental_div_mod(a, d);
        let q = a / d;
        let r = a % d;
        if q > 0 {
            assert(q * d + r > 0) by (nonlinear_arith)
                requires q >= 1 && d >= 1 && r >= 0;
        }
        if q < a {
            assert(q * d + r < a) by (nonlinear_arith)
                requires q <= a - 1 && a <= -1 && d >= 1 && 0 <= r < d;
        }
    }
}

/// Euclidean (floor, for a positive divisor) division on `i128`.
pub fn div_floor(a: i128, d: i128) -> (q: i128)
    requires
        d >= 1,
    ensures
        q as int == a as int / d as int,
{
    proof {
        lemma_div_range(a as int, d as int);
    }
    let q = a.checked_div_euclid(d);
    q.unwrap()
}

/// Squared Euclidean distance between two points in range.
pub fn distance_sq(a: Point2D, b: Point2D) -> (d: u64)
    requires
        point_ok(a),
        point_ok(b),
    ensures
        d as int == dist_sq(a.x as int, a.y as int, b.x as int, b.y as int),
{
    let dx: i128 = a.x as i128 - b.x as i128;
    let dy: i128 = a.y as i128 - b.y as i128;
    proof {
        assert(dx * dx <= 4_000_000_000_000_000_000) by (nonlinear_arith)
            requires -2_000_000_000 <= dx <= 2_000_000_000;
        assert(dy * dy <= 4_000_000_000_000_000_000) by (nonlinear_arith)
            requires -2_000_000_000 <= dy <= 2_000_000_000;
        assert(dx * dx >= 0) by (nonlinear_arith);
        assert(dy * dy >= 0) by (nonlinear_arith);
    }
    let s: i128 = dx * dx + dy * dy;
    s as u64
}

} // verus!
