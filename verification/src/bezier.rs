//! A single cubic Bezier segment, evaluated through the standard cubic
//! Bernstein basis over a fixed-point parameter domain.

use crate::curves::{pair_ok, ClosedInterval, Curve};
use crate::geometry::{coord_ok, div_floor, point_ok, Point2D, COORD_LIMIT};
use vstd::arithmetic::div_mod::{
    lemma_div_is_ordered, lemma_div_multiples_vanish, lemma_multiply_divide_le,
};
use vstd::arithmetic::mul::lemma_mul_unary_negation;
use vstd::prelude::*;

verus! {

/// The fixed-point unit of the Bezier parameter: the domain is
/// `[0, BEZIER_SCALE]`, standing for the real interval `[0, 1]`.
pub const BEZIER_SCALE: i64 = 1_048_576;

/// `BEZIER_SCALE` cubed, the common denominator of the Bernstein weights.
pub open spec fn bez_one_cubed() -> int {
    (BEZIER_SCALE as int) * (BEZIER_SCALE as int) * (BEZIER_SCALE as int)
}

/// Bernstein weight `(1 - t)^3`, in `BEZIER_SCALE` fixed point.
pub open spec fn bez_w0(t: int) -> int {
    let u = BEZIER_SCALE - t;
    u * u * u
}

/// Bernstein weight `3 (1 - t)^2 t`.
pub open spec fn bez_w1(t: int) -> int {
    let u = BEZIER_SCALE - t;
    3 * u * u * t
}

/// Bernstein weight `3 (1 - t) t^2`.
pub open spec fn bez_w2(t: int) -> int {
    let u = BEZIER_SCALE - t;
    3 * u * t * t
}

/// Bernstein weight `t^3`.
pub open spec fn bez_w3(t: int) -> int {
    t * t * t
}

/// Numerator of a Bezier coordinate: the Bernstein-weighted sum of the
/// four control coordinates.
pub open spec fn bez_num(c0: int, c1: int, c2: int, c3: int, t: int) -> int {
    bez_w0(t) * c0 + bez_w1(t) * c1 + bez_w2(t) * c2 + bez_w3(t) * c3
}

/// One coordinate of the Bezier curve at parameter `t`: the weighted sum
/// of the control coordinates, scaled back down (rounding down).
pub open spec fn bezier_coord_at(c0: int, c1: int, c2: int, c3: int, t: int) -> int {
    bez_num(c0, c1, c2, c3, t) / bez_one_cubed()
}

/// Inside the domain the four Bernstein weights are nonnegative and
/// partition the denominator.
pub proof fn lemma_bez_weights(t: int)
    requires
        0 <= t <= BEZIER_SCALE,
    ensures
        0 <= bez_w0(t),
        0 <= bez_w1(t),
        0 <= bez_w2(t),
        0 <= bez_w3(t),
        bez_w0(t) + bez_w1(t) + bez_w2(t) + bez_w3(t) == bez_one_cubed(),
{
    let s = BEZIER_SCALE as int;
    let u = s - t;
    assert(u * u * u >= 0 && 3 * u * u * t >= 0 && 3 * u * t * t >= 0 && t * t * t >= 0 && u * u
        * u + 3 * u * u * t + 3 * u * t * t + t * t * t == s * s * s) by (nonlinear_arith)
        requires
            0 <= t,
            0 <= u,
            u == s - t,
    ;
}

/// A Bezier coordinate is a weighted average of the control coordinates,
/// so it stays inside the coordinate range they span.
pub proof fn lemma_bezier_coord_bounds(c0: int, c1: int, c2: int, c3: int, t: int)
    requires
        coord_ok(c0),
        coord_ok(c1),
        coord_ok(c2),
        coord_ok(c3),
        0 <= t <= BEZIER_SCALE,
    ensures
        -(bez_one_cubed() * COORD_LIMIT) <= bez_num(c0, c1, c2, c3, t) <= bez_one_cubed()
            * COORD_LIMIT,
        coord_ok(bezier_coord_at(c0, c1, c2, c3, t)),
{
    lemma_bez_weights(t);
    let w0 = bez_w0(t);
    let w1 = bez_w1(t);
    let w2 = bez_w2(t);
    let w3 = bez_w3(t);
    let d = bez_one_cubed();
    let l = COORD_LIMIT as int;
    let n = bez_num(c0, c1, c2, c3, t);
    assert(-(w0 * l) <= w0 * c0 <= w0 * l) by (nonlinear_arith)
        requires
            0 <= w0,
            -l <= c0 <= l,
    ;
    assert(-(w1 * l) <= w1 * c1 <= w1 * l) by (nonlinear_arith)
        requires
            0 <= w1,
            -l <= c1 <= l,
    ;
    assert(-(w2 * l) <= w2 * c2 <= w2 * l) by (nonlinear_arith)
        requires
            0 <= w2,
            -l <= c2 <= l,
    ;
    assert(-(w3 * l) <= w3 * c3 <= w3 * l) by (nonlinear_arith)
        requires
            0 <= w3,
            -l <= c3 <= l,
    ;
    assert((w0 + w1 + w2 + w3) * l == w0 * l + w1 * l + w2 * l + w3 * l) by (nonlinear_arith);
    lemma_multiply_divide_le(n, d, l);
    lemma_div_is_ordered(-(d * l), n, d);
    lemma_mul_unary_negation(d, l);
    lemma_div_multiples_vanish(-l, d);
}

/// A cubic Bezier curve given by four ordered control points.
#[derive(Clone, Copy, PartialEq, Eq, Structural, Debug)]
pub struct CubicBezier {
    pub p0: Point2D,
    pub p1: Point2D,
    pub p2: Point2D,
    pub p3: Point2D,
}

impl CubicBezier {
    /// Build the curve from its four control points, in order.
    pub fn new(p0: Point2D, p1: Point2D, p2: Point2D, p3: Point2D) -> (b: CubicBezier)
        requires
            point_ok(p0),
            point_ok(p1),
            point_ok(p2),
            point_ok(p3),
        ensures
            b.p0 == p0,
            b.p1 == p1,
            b.p2 == p2,
            b.p3 == p3,
            b.wf(),
    {
        CubicBezier { p0, p1, p2, p3 }
    }
}

/// Scale the four Bernstein weights against the four control coordinates
/// and divide back down by the weights' common denominator.
fn bez_combine(w0: i128, w1: i128, w2: i128, w3: i128, c0: i64, c1: i64, c2: i64, c3: i64) -> (r:
    i64)
    requires
        0 <= w0,
        0 <= w1,
        0 <= w2,
        0 <= w3,
        w0 + w1 + w2 + w3 == bez_one_cubed(),
        coord_ok(c0 as int),
        coord_ok(c1 as int),
        coord_ok(c2 as int),
        coord_ok(c3 as int),
    ensures
        r as int == (w0 * c0 + w1 * c1 + w2 * c2 + w3 * c3) / bez_one_cubed(),
        coord_ok(r as int),
{
    proof {
        let l = COORD_LIMIT as int;
        let d = bez_one_cubed();
        assert(d == 1_152_921_504_606_846_976);
        assert(-(d * l) <= w0 * c0 <= d * l && -(d * l) <= w1 * c1 <= d * l && -(d * l) <= w2 * c2
            <= d * l && -(d * l) <= w3 * c3 <= d * l) by (nonlinear_arith)
            requires
                0 <= w0 <= d,
                0 <= w1 <= d,
                0 <= w2 <= d,
                0 <= w3 <= d,
                -l <= c0 <= l,
                -l <= c1 <= l,
                -l <= c2 <= l,
                -l <= c3 <= l,
                d == 1_152_921_504_606_846_976,
                l == 1_000_000_000,
        ;
    }
    let m0: i128 = w0 * (c0 as i128);
    let m1: i128 = w1 * (c1 as i128);
    let m2: i128 = w2 * (c2 as i128);
    let m3: i128 = w3 * (c3 as i128);
    let num: i128 = m0 + m1 + m2 + m3;
    let den: i128 = (BEZIER_SCALE as i128) * (BEZIER_SCALE as i128) * (BEZIER_SCALE as i128);
    let q: i128 = div_floor(num, den);
    proof {
        let l = COORD_LIMIT as int;
        let d = bez_one_cubed();
        assert(-((w0 + w1 + w2 + w3) * l) <= num as int <= (w0 + w1 + w2 + w3) * l)
            by (nonlinear_arith)
            requires
                0 <= w0,
                0 <= w1,
                0 <= w2,
                0 <= w3,
                -l <= c0 <= l,
                -l <= c1 <= l,
                -l <= c2 <= l,
                -l <= c3 <= l,
                num == w0 * c0 + w1 * c1 + w2 * c2 + w3 * c3,
        ;
        lemma_multiply_divide_le(num as int, d, l);
        lemma_div_is_ordered(-(d * l), num as int, d);
        lemma_mul_unary_negation(d, l);
        lemma_div_multiples_vanish(-l, d);
    }
    q as i64
}

impl Curve for CubicBezier {
    open spec fn wf(&self) -> bool {
        point_ok(self.p0) && point_ok(self.p1) && point_ok(self.p2) && point_ok(self.p3)
    }

    open spec fn start(&self) -> int {
        0
    }

    open spec fn end(&self) -> int {
        BEZIER_SCALE as int
    }

    open spec fn point_at(&self, t: int) -> (int, int) {
        (
            bezier_coord_at(
                self.p0.x as int,
                self.p1.x as int,
                self.p2.x as int,
                self.p3.x as int,
                t,
            ),
            bezier_coord_at(
                self.p0.y as int,
                self.p1.y as int,
                self.p2.y as int,
                self.p3.y as int,
                t,
            ),
        )
    }

    proof fn lemma_wf(&self) {
        assert forall|t: int| self.start() <= t <= self.end() implies pair_ok(
            #[trigger] self.point_at(t),
        ) by {
            lemma_bezier_coord_bounds(
                self.p0.x as int,
                self.p1.x as int,
                self.p2.x as int,
                self.p3.x as int,
                t,
            );
            lemma_bezier_coord_bounds(
                self.p0.y as int,
                self.p1.y as int,
                self.p2.y as int,
                self.p3.y as int,
                t,
            );
        }
    }

    fn domain(&self) -> (r: ClosedInterval) {
        ClosedInterval { lo: 0, hi: BEZIER_SCALE }
    }

    fn evaluate(&self, t: i64) -> (p: Point2D) {
        let ti: i128 = t as i128;
        let u: i128 = (BEZIER_SCALE as i128) - ti;
        proof {
            assert(0 <= u * u <= 1_099_511_627_776 && 0 <= u * ti <= 1_099_511_627_776 && 0 <= ti
                * ti <= 1_099_511_627_776) by (nonlinear_arith)
                requires
                    0 <= u <= 1_048_576,
                    0 <= ti <= 1_048_576,
            ;
        }
        let u2: i128 = u * u;
        let t2: i128 = ti * ti;
        proof {
            assert(0 <= u2 * u <= 1_152_921_504_606_846_976 && 0 <= 3 * (u2 * ti)
                <= 3_458_764_513_820_540_928 && 0 <= 3 * (u * t2) <= 3_458_764_513_820_540_928 && 0
                <= t2 * ti <= 1_152_921_504_606_846_976) by (nonlinear_arith)
                requires
                    0 <= u <= 1_048_576,
                    0 <= ti <= 1_048_576,
                    u2 == u * u,
                    t2 == ti * ti,
            ;
        }
        let w0: i128 = u2 * u;
        let w1: i128 = 3 * (u2 * ti);
        let w2: i128 = 3 * (u * t2);
        let w3: i128 = t2 * ti;
        proof {
            lemma_bez_weights(t as int);
            let s = BEZIER_SCALE as int;
            let tt = t as int;
            assert(w0 == bez_w0(tt) && w1 == bez_w1(tt) && w2 == bez_w2(tt) && w3 == bez_w3(tt))
                by (nonlinear_arith)
                requires
                    u == s - tt,
                    ti == tt,
                    u2 == u * u,
                    t2 == ti * ti,
                    w0 == u2 * u,
                    w1 == 3 * (u2 * ti),
                    w2 == 3 * (u * t2),
                    w3 == t2 * ti,
                    bez_w0(tt) == (s - tt) * (s - tt) * (s - tt),
                    bez_w1(tt) == 3 * (s - tt) * (s - tt) * tt,
                    bez_w2(tt) == 3 * (s - tt) * tt * tt,
                    bez_w3(tt) == tt * tt * tt,
            ;
        }
        let x = bez_combine(w0, w1, w2, w3, self.p0.x, self.p1.x, self.p2.x, self.p3.x);
        let y = bez_combine(w0, w1, w2, w3, self.p0.y, self.p1.y, self.p2.y, self.p3.y);
        Point2D { x, y }
    }

    fn evaluate_multiple_ordered(&self, ts: &Vec<i64>) -> (ps: Vec<Point2D>) {
        let mut ps: Vec<Point2D> = Vec::new();
        let mut i: usize = 0;
        while i < ts.len()
            invariant
                self.wf(),
                i <= ts@.len(),
                ps@.len() == i as int,
                forall|r: int|
                    0 <= r < ts@.len() ==> self.start() <= #[trigger] ts@[r] as int <= self.end(),
                forall|r: int|
                    0 <= r < i as int ==> (#[trigger] ps@[r]).x as int == self.point_at(
                        ts@[r] as int,
                    ).0 && ps@[r].y as int == self.point_at(ts@[r] as int).1,
            decreases ts@.len() - i as int,
        {
            let p = self.evaluate(ts[i]);
            ps.push(p);
            i = i + 1;
        }
        ps
    }
}

/// One Bezier coordinate at the two ends of the domain: the curve takes
/// off from the first control coordinate and lands on the last one.
proof fn lemma_bezier_coord_endpoints(c0: int, c1: int, c2: int, c3: int)
    ensures
        bezier_coord_at(c0, c1, c2, c3, 0) == c0,
        bezier_coord_at(c0, c1, c2, c3, BEZIER_SCALE as int) == c3,
{
    let s = BEZIER_SCALE as int;
    let d = bez_one_cubed();
    assert(bez_w0(0) == d && bez_w1(0) == 0 && bez_w2(0) == 0 && bez_w3(0) == 0);
    assert(bez_w0(s) == 0 && bez_w1(s) == 0 && bez_w2(s) == 0 && bez_w3(s) == d);
    assert(bez_num(c0, c1, c2, c3, 0) == d * c0) by (nonlinear_arith)
        requires
            bez_num(c0, c1, c2, c3, 0) == bez_w0(0) * c0 + bez_w1(0) * c1 + bez_w2(0) * c2
                + bez_w3(0) * c3,
            bez_w0(0) == d,
            bez_w1(0) == 0,
            bez_w2(0) == 0,
            bez_w3(0) == 0,
    ;
    assert(bez_num(c0, c1, c2, c3, s) == d * c3) by (nonlinear_arith)
        requires
            bez_num(c0, c1, c2, c3, s) == bez_w0(s) * c0 + bez_w1(s) * c1 + bez_w2(s) * c2
                + bez_w3(s) * c3,
            bez_w0(s) == 0,
            bez_w1(s) == 0,
            bez_w2(s) == 0,
            bez_w3(s) == d,
    ;
    lemma_div_multiples_vanish(c0, d);
    lemma_div_multiples_vanish(c3, d);
}

/// The Bezier curve starts at its first control point and ends at its
/// last one: `point_at(0)` is `p0` and `point_at(BEZIER_SCALE)` is `p3`.
pub proof fn lemma_bezier_endpoints(b: &CubicBezier)
    requires
        b.wf(),
    ensures
        b.point_at(0) == (b.p0.x as int, b.p0.y as int),
        b.point_at(BEZIER_SCALE as int) == (b.p3.x as int, b.p3.y as int),
{
    lemma_bezier_coord_endpoints(
        b.p0.x as int,
        b.p1.x as int,
        b.p2.x as int,
        b.p3.x as int,
    );
    lemma_bezier_coord_endpoints(
        b.p0.y as int,
        b.p1.y as int,
        b.p2.y as int,
        b.p3.y as int,
    );
}

} // verus!
