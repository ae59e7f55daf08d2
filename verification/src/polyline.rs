//! A polyline: connected line segments parametrized by arc length.
//! Evaluation locates the segment containing an arc-length offset and
//! interpolates linearly inside it; batch evaluation sweeps segments and
//! ordered queries together in a single pass.

use crate::curves::{pair_ok, ClosedInterval, Curve};
use crate::geometry::{
    coord_ok, dist_sq, distance_sq, div_floor, isqrt, lemma_sqrt_floor_bounds, point_ok, sq,
    sqrt_floor, Point2D,
};
use vstd::arithmetic::div_mod::{
    lemma_div_is_ordered, lemma_div_multiples_vanish, lemma_div_of0, lemma_div_pos_is_pos,
    lemma_multiply_divide_le,
};
use vstd::arithmetic::mul::lemma_mul_is_commutative;
use vstd::prelude::*;

verus! {

/// Most points a polyline may hold, so that its total arc length always
/// fits the machine integers the library computes with.
pub const MAX_POINTS: usize = 1_000_000;

/// Largest value a single segment's length can take: the floor square
/// root of the largest possible squared distance.
pub const SEG_LEN_LIMIT: i64 = 3_000_000_000;

/// A well-formed list of polyline vertices: at least two of them, not
/// more than the library's cap, all in coordinate range.
pub open spec fn polyline_wf(ps: Seq<Point2D>) -> bool {
    &&& 2 <= ps.len() <= MAX_POINTS
    &&& forall|i: int| 0 <= i < ps.len() ==> point_ok(#[trigger] ps[i])
}

/// Length of segment `k` (from vertex `k` to vertex `k + 1`), rounded
/// down to an integer.
pub open spec fn seg_len(ps: Seq<Point2D>, k: int) -> int {
    sqrt_floor(dist_sq(ps[k].x as int, ps[k].y as int, ps[k + 1].x as int, ps[k + 1].y as int))
}

/// Arc length traversed before segment `k`: the sum of the lengths of
/// the first `k` segments.
pub open spec fn cum_len(ps: Seq<Point2D>, k: int) -> int
    decreases k,
{
    if k <= 0 {
        0
    } else {
        cum_len(ps, k - 1) + seg_len(ps, k - 1)
    }
}

/// Total arc length of the polyline.
pub open spec fn total_len(ps: Seq<Point2D>) -> int {
    cum_len(ps, ps.len() - 1)
}

/// The first segment at or after `k` whose far end reaches arc length
/// `t`; the last segment if the scan runs out.
pub open spec fn seg_index_from(ps: Seq<Point2D>, k: int, t: int) -> int
    decreases ps.len() - k,
{
    if k >= ps.len() - 2 {
        ps.len() - 2
    } else if cum_len(ps, k + 1) >= t {
        k
    } else {
        seg_index_from(ps, k + 1, t)
    }
}

/// The segment an arc length `t` falls in: the first segment whose far
/// end reaches `t`.
pub open spec fn seg_index(ps: Seq<Point2D>, t: int) -> int {
    seg_index_from(ps, 0, t)
}

/// Linear interpolation of one coordinate: `local / len` of the way from
/// `a` to `b`, rounded down.  A degenerate segment keeps its coordinate.
pub open spec fn interp_coord(a: int, b: int, local: int, len: int) -> int {
    if len == 0 {
        a
    } else {
        a + (b - a) * local / len
    }
}

/// The point at arc length `t` inside segment `k`.
pub open spec fn point_on_seg(ps: Seq<Point2D>, k: int, t: int) -> (int, int) {
    let local = t - cum_len(ps, k);
    let len = seg_len(ps, k);
    (
        interp_coord(ps[k].x as int, ps[k + 1].x as int, local, len),
        interp_coord(ps[k].y as int, ps[k + 1].y as int, local, len),
    )
}

/// The point of the polyline at arc length `t`.
pub open spec fn polyline_point_at(ps: Seq<Point2D>, t: int) -> (int, int) {
    point_on_seg(ps, seg_index(ps, t), t)
}

/// The squared distance of two in-range points is nonnegative and small
/// enough for 64-bit arithmetic.
pub proof fn lemma_dist_sq_bounds(ax: int, ay: int, bx: int, by: int)
    requires
        coord_ok(ax),
        coord_ok(ay),
        coord_ok(bx),
        coord_ok(by),
    ensures
        0 <= dist_sq(ax, ay, bx, by) <= 8_000_000_000_000_000_000,
{
    assert(0 <= (ax - bx) * (ax - bx) <= 4_000_000_000_000_000_000) by (nonlinear_arith)
        requires
            -2_000_000_000 <= ax - bx <= 2_000_000_000,
    ;
    assert(0 <= (ay - by) * (ay - by) <= 4_000_000_000_000_000_000) by (nonlinear_arith)
        requires
            -2_000_000_000 <= ay - by <= 2_000_000_000,
    ;
}

/// A segment of a well-formed polyline has a length between zero and the
/// library's segment cap.
pub proof fn lemma_seg_len_bounds(ps: Seq<Point2D>, k: int)
    requires
        polyline_wf(ps),
        0 <= k < ps.len() - 1,
    ensures
        0 <= seg_len(ps, k) <= SEG_LEN_LIMIT,
{
    let d2 = dist_sq(ps[k].x as int, ps[k].y as int, ps[k + 1].x as int, ps[k + 1].y as int);
    lemma_dist_sq_bounds(ps[k].x as int, ps[k].y as int, ps[k + 1].x as int, ps[k + 1].y as int);
    lemma_sqrt_floor_bounds(d2);
    let r = sqrt_floor(d2);
    assert(r > SEG_LEN_LIMIT ==> sq(r) > 8_000_000_000_000_000_000) by (nonlinear_arith)
        requires
            0 <= r,
    ;
}

/// Traversed arc length grows by at most the segment cap per segment and
/// never shrinks.
pub proof fn lemma_cum_len_bounds(ps: Seq<Point2D>, k: int)
    requires
        polyline_wf(ps),
        0 <= k <= ps.len() - 1,
    ensures
        0 <= cum_len(ps, k) <= k * SEG_LEN_LIMIT,
    decreases k,
{
    if k > 0 {
        lemma_cum_len_bounds(ps, k - 1);
        lemma_seg_len_bounds(ps, k - 1);
    }
}

/// Traversed arc length is monotone in the segment index.
pub proof fn lemma_cum_len_monotone(ps: Seq<Point2D>, j: int, k: int)
    requires
        polyline_wf(ps),
        0 <= j <= k <= ps.len() - 1,
    ensures
        cum_len(ps, j) <= cum_len(ps, k),
    decreases k - j,
{
    if j < k {
        lemma_cum_len_monotone(ps, j, k - 1);
        lemma_seg_len_bounds(ps, k - 1);
    }
}

/// What `seg_index_from` finds: a segment no earlier than where the scan
/// started, containing `t`, and the first such segment.
proof fn lemma_seg_index_from_char(ps: Seq<Point2D>, k: int, t: int)
    requires
        polyline_wf(ps),
        0 <= k <= ps.len() - 2,
        cum_len(ps, k) <= t <= total_len(ps),
    ensures
        k <= seg_index_from(ps, k, t) <= ps.len() - 2,
        cum_len(ps, seg_index_from(ps, k, t)) <= t <= cum_len(ps, seg_index_from(ps, k, t) + 1),
        forall|j: int| k <= j < seg_index_from(ps, k, t) ==> cum_len(ps, #[trigger] (j + 1)) < t,
    decreases ps.len() - k,
{
    if k >= ps.len() - 2 {
    } else if cum_len(ps, k + 1) >= t {
    } else {
        lemma_seg_index_from_char(ps, k + 1, t);
    }
}

/// The segment found for an in-domain arc length `t` contains `t`, and
/// every earlier segment ends strictly before `t`.
pub proof fn lemma_seg_index_char(ps: Seq<Point2D>, t: int)
    requires
        polyline_wf(ps),
        0 <= t <= total_len(ps),
    ensures
        0 <= seg_index(ps, t) <= ps.len() - 2,
        cum_len(ps, seg_index(ps, t)) <= t <= cum_len(ps, seg_index(ps, t) + 1),
        forall|j: int| 0 <= j < seg_index(ps, t) ==> cum_len(ps, #[trigger] (j + 1)) < t,
{
    lemma_seg_index_from_char(ps, 0, t);
}

/// Only the first segment containing `t` can be the one the scan finds.
pub proof fn lemma_seg_index_unique(ps: Seq<Point2D>, t: int, k: int)
    requires
        polyline_wf(ps),
        0 <= t <= total_len(ps),
        0 <= k <= ps.len() - 2,
        t <= cum_len(ps, k + 1),
        forall|j: int| 0 <= j < k ==> cum_len(ps, #[trigger] (j + 1)) < t,
    ensures
        seg_index(ps, t) == k,
{
    lemma_seg_index_char(ps, t);
    let i = seg_index(ps, t);
    if i < k {
        assert(cum_len(ps, i + 1) < t);
    }
    if k < i {
        assert(cum_len(ps, k + 1) < t);
    }
}

/// Interpolating between two in-range coordinates stays between them.
pub proof fn lemma_interp_bounds(a: int, b: int, local: int, len: int)
    requires
        coord_ok(a),
        coord_ok(b),
        0 <= local <= len,
    ensures
        a <= b ==> a <= interp_coord(a, b, local, len) <= b,
        b <= a ==> b <= interp_coord(a, b, local, len) <= a,
        coord_ok(interp_coord(a, b, local, len)),
{
    if len != 0 {
        let d = b - a;
        let off = d * local / len;
        if d >= 0 {
            assert(0 <= d * local <= len * d) by (nonlinear_arith)
                requires
                    0 <= local <= len,
                    0 <= d,
            ;
            lemma_div_pos_is_pos(d * local, len);
            lemma_multiply_divide_le(d * local, len, d);
        } else {
            assert(len * d <= d * local <= 0) by (nonlinear_arith)
                requires
                    0 <= local <= len,
                    d < 0,
            ;
            lemma_div_is_ordered(len * d, d * local, len);
            lemma_div_is_ordered(d * local, 0, len);
            lemma_div_multiples_vanish(d, len);
            assert(0int / len == 0) by {
                lemma_div_multiples_vanish(0, len);
            }
        }
    }
}

/// The point of a well-formed polyline at an in-domain arc length is in
/// coordinate range.
pub proof fn lemma_polyline_point_bounds(ps: Seq<Point2D>, t: int)
    requires
        polyline_wf(ps),
        0 <= t <= total_len(ps),
    ensures
        pair_ok(polyline_point_at(ps, t)),
{
    lemma_seg_index_char(ps, t);
    let k = seg_index(ps, t);
    let local = t - cum_len(ps, k);
    lemma_seg_len_bounds(ps, k);
    lemma_interp_bounds(ps[k].x as int, ps[k + 1].x as int, local, seg_len(ps, k));
    lemma_interp_bounds(ps[k].y as int, ps[k + 1].y as int, local, seg_len(ps, k));
}

/// Length of the segment between two vertices.
fn segment_length(a: Point2D, b: Point2D) -> (l: i64)
    requires
        point_ok(a),
        point_ok(b),
    ensures
        l as int == sqrt_floor(dist_sq(a.x as int, a.y as int, b.x as int, b.y as int)),
        0 <= l <= SEG_LEN_LIMIT,
{
    let d2 = distance_sq(a, b);
    let r = isqrt(d2);
    proof {
        lemma_dist_sq_bounds(a.x as int, a.y as int, b.x as int, b.y as int);
        lemma_sqrt_floor_bounds(d2 as int);
        assert(r as int > SEG_LEN_LIMIT ==> sq(r as int) > 8_000_000_000_000_000_000)
            by (nonlinear_arith)
            requires
                0 <= r as int,
        ;
    }
    r as i64
}

/// A polyline curve: an ordered list of at least two vertices, with its
/// total arc length computed once at construction.
#[derive(Clone, Debug)]
pub struct PolyLine {
    pub points: Vec<Point2D>,
    pub length: i64,
}

impl PolyLine {
    /// Build the polyline from its vertices and compute its arc length,
    /// the sum of the Euclidean lengths of its segments.
    pub fn new(points: Vec<Point2D>) -> (pl: PolyLine)
        requires
            2 <= points@.len() <= MAX_POINTS,
            forall|i: int| 0 <= i < points@.len() ==> point_ok(#[trigger] points@[i]),
        ensures
            pl.points@ == points@,
            pl.length as int == total_len(points@),
            pl.wf(),
    {
        let n = points.len();
        let mut acc: i64 = 0;
        let mut k: usize = 0;
        while k < n - 1
            invariant
                polyline_wf(points@),
                n == points@.len(),
                k <= n - 1,
                acc as int == cum_len(points@, k as int),
                0 <= acc <= k * SEG_LEN_LIMIT,
            decreases n - 1 - k,
        {
            let l = segment_length(points[k], points[k + 1]);
            proof {
                assert((k + 1) * SEG_LEN_LIMIT == k * SEG_LEN_LIMIT + SEG_LEN_LIMIT);
            }
            acc = acc + l;
            k = k + 1;
        }
        PolyLine { points, length: acc }
    }
}

/// Interpolate one coordinate `local / len` of the way along a segment.
fn interp_coord_exec(a: i64, b: i64, local: i64, len: i64) -> (r: i64)
    requires
        coord_ok(a as int),
        coord_ok(b as int),
        0 <= local <= len,
        len <= SEG_LEN_LIMIT,
    ensures
        r as int == interp_coord(a as int, b as int, local as int, len as int),
        coord_ok(r as int),
{
    proof {
        lemma_interp_bounds(a as int, b as int, local as int, len as int);
    }
    if len == 0 {
        a
    } else {
        let delta: i128 = b as i128 - a as i128;
        proof {
            assert(-6_000_000_000_000_000_000 <= delta * (local as i128)
                <= 6_000_000_000_000_000_000) by (nonlinear_arith)
                requires
                    -2_000_000_000 <= delta <= 2_000_000_000,
                    0 <= local as i128 <= 3_000_000_000,
            ;
        }
        let prod: i128 = delta * (local as i128);
        let off: i128 = div_floor(prod, len as i128);
        (a as i128 + off) as i64
    }
}

impl Curve for PolyLine {
    open spec fn wf(&self) -> bool {
        polyline_wf(self.points@) && self.length as int == total_len(self.points@)
    }

    open spec fn start(&self) -> int {
        0
    }

    open spec fn end(&self) -> int {
        self.length as int
    }

    open spec fn point_at(&self, t: int) -> (int, int) {
        polyline_point_at(self.points@, t)
    }

    proof fn lemma_wf(&self) {
        lemma_cum_len_bounds(self.points@, self.points@.len() - 1);
        assert forall|t: int| self.start() <= t <= self.end() implies pair_ok(
            #[trigger] self.point_at(t),
        ) by {
            lemma_polyline_point_bounds(self.points@, t);
        }
    }

    fn domain(&self) -> (r: ClosedInterval) {
        ClosedInterval { lo: 0, hi: self.length }
    }

    fn evaluate(&self, t: i64) -> (p: Point2D) {
        let ground: usize = self.points.len() - 2;
        let mut k: usize = 0;
        let mut acc: i64 = 0;
        let mut l: i64 = segment_length(self.points[0], self.points[1]);
        while k < ground && acc + l < t
            invariant
                polyline_wf(self.points@),
                self.length as int == total_len(self.points@),
                0 <= t as int <= total_len(self.points@),
                ground == self.points@.len() - 2,
                k <= ground,
                acc as int == cum_len(self.points@, k as int),
                0 <= acc <= k * SEG_LEN_LIMIT,
                l as int == seg_len(self.points@, k as int),
                0 <= l <= SEG_LEN_LIMIT,
                forall|j: int|
                    0 <= j < k as int ==> cum_len(self.points@, #[trigger] (j + 1)) < t as int,
            decreases ground - k,
        {
            acc = acc + l;
            k = k + 1;
            l = segment_length(self.points[k], self.points[k + 1]);
            proof {
                assert((k as int) * SEG_LEN_LIMIT == (k as int - 1) * SEG_LEN_LIMIT
                    + SEG_LEN_LIMIT);
            }
        }
        proof {
            if acc + l < t {
                assert(cum_len(self.points@, k as int + 1) == acc + l);
                assert(false);
            }
            if k > 0 {
                assert(cum_len(self.points@, (k as int - 1) + 1) < t as int);
            }
            lemma_seg_index_unique(self.points@, t as int, k as int);
        }
        let local = t - acc;
        let x = interp_coord_exec(self.points[k].x, self.points[k + 1].x, local, l);
        let y = interp_coord_exec(self.points[k].y, self.points[k + 1].y, local, l);
        Point2D { x, y }
    }

    fn evaluate_multiple_ordered(&self, ts: &Vec<i64>) -> (ps: Vec<Point2D>) {
        let m = ts.len();
        let ground: usize = self.points.len() - 2;
        let mut out: Vec<Point2D> = Vec::new();
        let mut q: usize = 0;
        let mut k: usize = 0;
        let mut acc: i64 = 0;
        let mut l: i64 = segment_length(self.points[0], self.points[1]);
        while q < m
            invariant
                polyline_wf(self.points@),
                self.length as int == total_len(self.points@),
                m == ts@.len(),
                ground == self.points@.len() - 2,
                forall|i: int|
                    0 <= i < m as int ==> 0 <= #[trigger] ts@[i] as int <= total_len(
                        self.points@,
                    ),
                forall|i: int, j: int| 0 <= i <= j < m as int ==> ts@[i] <= ts@[j],
                q <= m,
                k <= ground,
                acc as int == cum_len(self.points@, k as int),
                0 <= acc <= k * SEG_LEN_LIMIT,
                l as int == seg_len(self.points@, k as int),
                0 <= l <= SEG_LEN_LIMIT,
                out@.len() == q as int,
                forall|r: int|
                    0 <= r < q as int ==> (#[trigger] out@[r]).x as int == polyline_point_at(
                        self.points@,
                        ts@[r] as int,
                    ).0 && out@[r].y as int == polyline_point_at(self.points@, ts@[r] as int).1,
                q < m ==> forall|j: int|
                    0 <= j < k as int ==> cum_len(self.points@, #[trigger] (j + 1)) < ts@[
                        q as int
                    ] as int,
            decreases (m - q) + (ground - k),
        {
            let t = ts[q];
            if acc + l >= t {
                proof {
                    if k > 0 {
                        assert(cum_len(self.points@, (k as int - 1) + 1) < t as int);
                    }
                    assert(cum_len(self.points@, k as int + 1) == acc + l);
                    lemma_seg_index_unique(self.points@, t as int, k as int);
                }
                let local = t - acc;
                let x = interp_coord_exec(self.points[k].x, self.points[k + 1].x, local, l);
                let y = interp_coord_exec(self.points[k].y, self.points[k + 1].y, local, l);
                out.push(Point2D { x, y });
                q = q + 1;
                proof {
                    if q < m {
                        assert forall|j: int| 0 <= j < k as int implies cum_len(
                            self.points@,
                            #[trigger] (j + 1),
                        ) < ts@[q as int] as int by {
                            assert(cum_len(self.points@, j + 1) < ts@[q as int - 1] as int);
                            assert(ts@[q as int - 1] <= ts@[q as int]);
                        }
                    }
                }
            } else {
                proof {
                    assert(cum_len(self.points@, k as int + 1) == acc + l);
                    if k >= ground {
                        assert(false);
                    }
                }
                acc = acc + l;
                k = k + 1;
                l = segment_length(self.points[k], self.points[k + 1]);
                proof {
                    assert((k as int) * SEG_LEN_LIMIT == (k as int - 1) * SEG_LEN_LIMIT
                        + SEG_LEN_LIMIT);
                }
            }
        }
        out
    }
}

/// Interpolation at the two ends of a segment returns its endpoints.
proof fn lemma_interp_ends(a: int, b: int, len: int)
    requires
        0 <= len,
    ensures
        interp_coord(a, b, 0, len) == a,
        len > 0 ==> interp_coord(a, b, len, len) == b,
{
    if len > 0 {
        assert((b - a) * 0 == 0);
        lemma_div_of0(len);
        lemma_mul_is_commutative(b - a, len);
        lemma_div_multiples_vanish(b - a, len);
    }
}

/// A zero-length segment connects two coinciding vertices.
proof fn lemma_zero_seg_equal(ps: Seq<Point2D>, k: int)
    requires
        polyline_wf(ps),
        0 <= k < ps.len() - 1,
        seg_len(ps, k) == 0,
    ensures
        ps[k].x == ps[k + 1].x,
        ps[k].y == ps[k + 1].y,
{
    let dx = ps[k].x - ps[k + 1].x;
    let dy = ps[k].y - ps[k + 1].y;
    let d2 = dist_sq(ps[k].x as int, ps[k].y as int, ps[k + 1].x as int, ps[k + 1].y as int);
    lemma_dist_sq_bounds(ps[k].x as int, ps[k].y as int, ps[k + 1].x as int, ps[k + 1].y as int);
    lemma_sqrt_floor_bounds(d2);
    assert(d2 == 0);
    assert(dx == 0 && dy == 0) by (nonlinear_arith)
        requires
            dx * dx + dy * dy == 0,
    ;
}

/// Once the traversed arc length has reached the total, every remaining
/// vertex coincides with the last one.
proof fn lemma_tail_constant(ps: Seq<Point2D>, j: int)
    requires
        polyline_wf(ps),
        0 <= j <= ps.len() - 1,
        cum_len(ps, j) == total_len(ps),
    ensures
        ps[j].x == ps[ps.len() - 1].x,
        ps[j].y == ps[ps.len() - 1].y,
    decreases ps.len() - j,
{
    if j < ps.len() - 1 {
        lemma_cum_len_monotone(ps, j + 1, ps.len() - 1);
        lemma_seg_len_bounds(ps, j);
        assert(seg_len(ps, j) == 0);
        lemma_zero_seg_equal(ps, j);
        lemma_tail_constant(ps, j + 1);
    }
}

/// The polyline starts at its first vertex and ends at its last one:
/// the point at arc length zero is the first vertex, and the point at
/// the total arc length is the last vertex.
pub proof fn lemma_polyline_endpoints(ps: Seq<Point2D>)
    requires
        polyline_wf(ps),
    ensures
        0 <= total_len(ps),
        polyline_point_at(ps, 0) == (ps[0].x as int, ps[0].y as int),
        polyline_point_at(ps, total_len(ps)) == (
            ps[ps.len() - 1].x as int,
            ps[ps.len() - 1].y as int,
        ),
{
    let n = ps.len() as int;
    lemma_cum_len_bounds(ps, n - 1);

    // The point at arc length zero.
    lemma_seg_index_char(ps, 0);
    let i0 = seg_index(ps, 0);
    if i0 > 0 {
        assert(cum_len(ps, 0int + 1) < 0);
        lemma_cum_len_bounds(ps, 1);
        assert(false);
    }
    lemma_seg_len_bounds(ps, 0);
    lemma_interp_ends(ps[0].x as int, ps[1].x as int, seg_len(ps, 0));
    lemma_interp_ends(ps[0].y as int, ps[1].y as int, seg_len(ps, 0));

    // The point at the total arc length.
    let tl = total_len(ps);
    lemma_seg_index_char(ps, tl);
    let i1 = seg_index(ps, tl);
    lemma_cum_len_monotone(ps, i1 + 1, n - 1);
    assert(cum_len(ps, i1 + 1) == tl);
    let len = seg_len(ps, i1);
    lemma_seg_len_bounds(ps, i1);
    lemma_interp_ends(ps[i1].x as int, ps[i1 + 1].x as int, len);
    lemma_interp_ends(ps[i1].y as int, ps[i1 + 1].y as int, len);
    if len == 0 {
        lemma_zero_seg_equal(ps, i1);
    }
    lemma_tail_constant(ps, i1 + 1);
}

/// Points appear along the polyline in traversal order: a smaller
/// parameter never lands on a later segment, and two parameters landing
/// on the same segment keep their order inside it.  The curve never
/// jumps backward along its segment chain.
pub proof fn lemma_polyline_traversal_order(ps: Seq<Point2D>, t1: int, t2: int)
    requires
        polyline_wf(ps),
        0 <= t1 <= t2 <= total_len(ps),
    ensures
        seg_index(ps, t1) <= seg_index(ps, t2),
        seg_index(ps, t1) == seg_index(ps, t2) ==> t1 - cum_len(ps, seg_index(ps, t1)) <= t2
            - cum_len(ps, seg_index(ps, t2)),
{
    lemma_seg_index_char(ps, t1);
    lemma_seg_index_char(ps, t2);
    let i1 = seg_index(ps, t1);
    let i2 = seg_index(ps, t2);
    if i2 < i1 {
        assert(cum_len(ps, i2 + 1) < t1);
        assert(false);
    }
}

} // verus!
