//! The free-space diagram rasterizer: every pixel of a grid is colored
//! by whether the two curves, evaluated at the parameters the pixel's
//! row and column stand for, are closer than, exactly at, or farther
//! apart than a threshold.
//!
//! Distances are classified by comparing squared distances with the
//! squared threshold, which orders exactly as the real Euclidean
//! distance does, so the three-way split is exact.

use crate::curves::{pair_ok, Curve};
use crate::geometry::{dist_sq, distance_sq, point_ok, sq, Point2D};
use vstd::arithmetic::div_mod::{
    lemma_div_is_ordered, lemma_div_pos_is_pos, lemma_multiply_divide_le,
};
use vstd::arithmetic::mul::lemma_mul_inequality;
use vstd::prelude::*;

verus! {

/// One RGB pixel of the output grid.
#[derive(Clone, Copy, PartialEq, Eq, Structural, Debug)]
pub struct Pixel {
    pub r: u8,
    pub g: u8,
    pub b: u8,
}

/// The color of a pair of points strictly closer than the threshold.
pub open spec fn white() -> Pixel {
    Pixel { r: 255, g: 255, b: 255 }
}

/// The color of a pair of points exactly at the threshold.
pub open spec fn black() -> Pixel {
    Pixel { r: 0, g: 0, b: 0 }
}

/// The color of a pair of points farther apart than the threshold.
pub open spec fn gray() -> Pixel {
    Pixel { r: 153, g: 153, b: 153 }
}

/// Three-way classification of a squared distance against a squared
/// threshold.  For nonnegative values this orders exactly as the real
/// distances themselves, so equality means the distance hits the
/// threshold exactly, not approximately.
pub open spec fn classify(d2: int, eps_sq: int) -> Pixel {
    if d2 < eps_sq {
        white()
    } else if d2 == eps_sq {
        black()
    } else {
        gray()
    }
}

/// The curve parameter that grid line `i` out of `count` stands for:
/// the fraction `i / (count - 1)` of the way to the domain end `hi`,
/// rounded down.  Line zero is the domain start and the last line is
/// the domain end.
pub open spec fn grid_param(hi: int, count: int, i: int) -> int {
    i * hi / (count - 1)
}

/// The color the diagram assigns to cell `(i, j)`: the first curve is
/// evaluated at the row's parameter, the second at the column's, and
/// their squared distance is classified against the squared threshold.
pub open spec fn diagram_color<A: Curve, B: Curve>(
    a: &A,
    b: &B,
    eps: int,
    width: int,
    height: int,
    i: int,
    j: int,
) -> Pixel {
    let p = a.point_at(grid_param(a.end(), height, i));
    let q = b.point_at(grid_param(b.end(), width, j));
    classify(dist_sq(p.0, p.1, q.0, q.1), eps * eps)
}

/// A width x height grid of pixels, stored as rows.
#[derive(Clone, Debug)]
pub struct PixelGrid {
    pub width: usize,
    pub height: usize,
    pub rows: Vec<Vec<Pixel>>,
}

impl PixelGrid {
    /// Every row exists and has the full width.
    pub open spec fn wf(&self) -> bool {
        &&& self.rows@.len() == self.height
        &&& forall|r: int| 0 <= r < self.height ==> (#[trigger] self.rows@[r])@.len() == self.width
    }

    /// The pixel of row `i`, column `j`.
    pub open spec fn color_at(&self, i: int, j: int) -> Pixel {
        self.rows@[i]@[j]
    }

    /// Read the pixel of row `i`, column `j`.
    pub fn get(&self, i: usize, j: usize) -> (px: Pixel)
        requires
            self.wf(),
            i < self.height,
            j < self.width,
        ensures
            px == self.color_at(i as int, j as int),
    {
        self.rows[i][j]
    }
}

/// Classify the squared distance `d2` against the squared threshold.
fn classify_pixel(d2: u64, epsilon: i64) -> (px: Pixel)
    requires
        0 <= epsilon,
    ensures
        px == classify(d2 as int, (epsilon as int) * (epsilon as int)),
{
    proof {
        assert((epsilon as int) * (epsilon as int) < 0x100000000000000000000000000000000)
            by (nonlinear_arith)
            requires
                0 <= epsilon as int && (epsilon as int) < 0x8000000000000000,
        ;
    }
    let e2: u128 = (epsilon as u128) * (epsilon as u128);
    let d: u128 = d2 as u128;
    if d < e2 {
        Pixel { r: 255, g: 255, b: 255 }
    } else if d == e2 {
        Pixel { r: 0, g: 0, b: 0 }
    } else {
        Pixel { r: 153, g: 153, b: 153 }
    }
}

/// The parameter of grid line `i` out of `count`, computed exactly.
fn grid_param_exec(hi: i64, count: usize, i: usize) -> (t: i64)
    requires
        0 <= hi,
        2 <= count,
        i < count,
    ensures
        t as int == grid_param(hi as int, count as int, i as int),
        0 <= t as int <= hi as int,
{
    proof {
        assert((i as int) * (hi as int) < 0x80000000000000000000000000000000)
            by (nonlinear_arith)
            requires
                0 <= i as int && (i as int) < 0x10000000000000000,
                0 <= hi as int && (hi as int) < 0x8000000000000000,
        ;
        lemma_mul_inequality(i as int, count as int - 1, hi as int);
        lemma_multiply_divide_le((i as int) * (hi as int), count as int - 1, hi as int);
        lemma_div_pos_is_pos((i as int) * (hi as int), count as int - 1);
        assert(0 <= (i as int) * (hi as int)) by (nonlinear_arith)
            requires
                0 <= i as int,
                0 <= hi as int,
        ;
    }
    let num: u128 = (i as u128) * (hi as u128);
    let den: u128 = (count - 1) as u128;
    let q: u128 = num / den;
    q as i64
}

/// Rasterize the free-space diagram of two curves whose domains start
/// at zero: rows sample the first curve's domain, columns the second's,
/// and every cell is classified by the distance of the two curve points
/// against the threshold `epsilon`.
pub fn create_free_diagram<A: Curve, B: Curve>(
    curve1: &A,
    curve2: &B,
    epsilon: i64,
    width: usize,
    height: usize,
) -> (g: PixelGrid)
    requires
        curve1.wf(),
        curve2.wf(),
        curve1.start() == 0,
        curve2.start() == 0,
        2 <= width,
        2 <= height,
        0 <= epsilon,
    ensures
        g.width == width,
        g.height == height,
        g.wf(),
        forall|i: int, j: int|
            0 <= i < height as int && 0 <= j < width as int ==> #[trigger] g.color_at(i, j)
                == diagram_color(
                curve1,
                curve2,
                epsilon as int,
                width as int,
                height as int,
                i,
                j,
            ),
{
    proof {
        curve1.lemma_wf();
        curve2.lemma_wf();
    }
    let dom1 = curve1.domain();
    let dom2 = curve2.domain();

    // The column parameters, one ordered batch shared by every row.
    let mut ts: Vec<i64> = Vec::new();
    let mut j: usize = 0;
    while j < width
        invariant
            2 <= width,
            0 <= dom2.hi,
            dom2.hi as int == curve2.end(),
            j <= width,
            ts@.len() == j as int,
            forall|c: int|
                0 <= c < j as int ==> #[trigger] ts@[c] as int == grid_param(
                    curve2.end(),
                    width as int,
                    c,
                ) && 0 <= ts@[c] as int <= curve2.end(),
        decreases width - j,
    {
        let t = grid_param_exec(dom2.hi, width, j);
        ts.push(t);
        j = j + 1;
    }
    proof {
        assert forall|c1: int, c2: int| 0 <= c1 <= c2 < width as int implies ts@[c1]
            <= ts@[c2] by {
            lemma_mul_inequality(c1, c2, curve2.end());
            lemma_div_is_ordered(c1 * curve2.end(), c2 * curve2.end(), width as int - 1);
        }
    }

    let mut rows: Vec<Vec<Pixel>> = Vec::new();
    let mut i: usize = 0;
    while i < height
        invariant
            curve1.wf(),
            curve2.wf(),
            curve1.start() == 0,
            curve2.start() == 0,
            forall|t: int|
                curve1.start() <= t <= curve1.end() ==> pair_ok(#[trigger] curve1.point_at(t)),
            forall|t: int|
                curve2.start() <= t <= curve2.end() ==> pair_ok(#[trigger] curve2.point_at(t)),
            2 <= width,
            2 <= height,
            0 <= epsilon,
            0 <= dom1.hi,
            dom1.hi as int == curve1.end(),
            0 <= dom2.hi,
            dom2.hi as int == curve2.end(),
            ts@.len() == width as int,
            forall|c: int|
                0 <= c < width as int ==> #[trigger] ts@[c] as int == grid_param(
                    curve2.end(),
                    width as int,
                    c,
                ) && 0 <= ts@[c] as int <= curve2.end(),
            forall|c1: int, c2: int| 0 <= c1 <= c2 < width as int ==> ts@[c1] <= ts@[c2],
            i <= height,
            rows@.len() == i as int,
            forall|r: int| 0 <= r < i as int ==> (#[trigger] rows@[r])@.len() == width as int,
            forall|r: int, c: int|
                0 <= r < i as int && 0 <= c < width as int ==> (#[trigger] rows@[r]@[c])
                    == diagram_color(
                    curve1,
                    curve2,
                    epsilon as int,
                    width as int,
                    height as int,
                    r,
                    c,
                ),
        decreases height - i,
    {
        let t1 = grid_param_exec(dom1.hi, height, i);
        let p1 = curve1.evaluate(t1);
        let points = curve2.evaluate_multiple_ordered(&ts);
        let mut row: Vec<Pixel> = Vec::new();
        let mut c: usize = 0;
        while c < width
            invariant
                curve1.wf(),
                curve2.wf(),
                forall|t: int|
                    curve2.start() <= t <= curve2.end() ==> pair_ok(#[trigger] curve2.point_at(t)),
                2 <= width,
                2 <= height,
                0 <= epsilon,
                i < height,
                dom2.hi as int == curve2.end(),
                curve2.start() == 0,
                ts@.len() == width as int,
                forall|cc: int|
                    0 <= cc < width as int ==> #[trigger] ts@[cc] as int == grid_param(
                        curve2.end(),
                        width as int,
                        cc,
                    ) && 0 <= ts@[cc] as int <= curve2.end(),
                points@.len() == width as int,
                forall|cc: int|
                    0 <= cc < width as int ==> (#[trigger] points@[cc]).x as int == curve2.point_at(
                        ts@[cc] as int,
                    ).0 && points@[cc].y as int == curve2.point_at(ts@[cc] as int).1,
                t1 as int == grid_param(curve1.end(), height as int, i as int),
                0 <= t1 as int <= curve1.end(),
                p1.x as int == curve1.point_at(t1 as int).0,
                p1.y as int == curve1.point_at(t1 as int).1,
                point_ok(p1),
                c <= width,
                row@.len() == c as int,
                forall|cc: int|
                    0 <= cc < c as int ==> (#[trigger] row@[cc]) == diagram_color(
                        curve1,
                        curve2,
                        epsilon as int,
                        width as int,
                        height as int,
                        i as int,
                        cc,
                    ),
            decreases width - c,
        {
            let p2 = points[c];
            proof {
                assert(pair_ok(curve2.point_at(ts@[c as int] as int)));
            }
            let d2 = distance_sq(p1, p2);
            let px = classify_pixel(d2, epsilon);
            row.push(px);
            c = c + 1;
        }
        rows.push(row);
        i = i + 1;
    }
    PixelGrid { width, height, rows }
}

/// Swapping the two curves while transposing the grid reproduces the
/// diagram transposed: the color of cell `(i, j)` for curves `(a, b)`
/// on a width x height grid equals the color of cell `(j, i)` for
/// curves `(b, a)` on a height x width grid.  The distance itself is
/// symmetric in the two points; only the assignment of curves to grid
/// axes is not.
pub proof fn lemma_free_diagram_transpose<A: Curve, B: Curve>(
    a: &A,
    b: &B,
    eps: int,
    width: int,
    height: int,
    i: int,
    j: int,
)
    ensures
        diagram_color(a, b, eps, width, height, i, j) == diagram_color(
            b,
            a,
            eps,
            height,
            width,
            j,
            i,
        ),
{
    let p = a.point_at(grid_param(a.end(), height, i));
    let q = b.point_at(grid_param(b.end(), width, j));
    assert(sq(p.0 - q.0) == sq(q.0 - p.0)) by (nonlinear_arith);
    assert(sq(p.1 - q.1) == sq(q.1 - p.1)) by (nonlinear_arith);
}

} // verus!
