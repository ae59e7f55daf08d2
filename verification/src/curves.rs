//! The curve capability contract: a bounded closed parameter domain,
//! single-point evaluation and ordered batch evaluation.

use crate::geometry::{coord_ok, Point2D};
use vstd::prelude::*;

verus! {

/// A closed interval `[lo, hi]` of parameter values.
#[derive(Clone, Copy, PartialEq, Eq, Structural, Debug)]
pub struct ClosedInterval {
    pub lo: i64,
    pub hi: i64,
}

/// What can go wrong when a curve is used: the only runtime-checkable
/// fault is asking for a parameter outside the curve's domain.
#[derive(Clone, Copy, PartialEq, Eq, Structural, Debug)]
pub enum CurveError {
    OutOfDomain,
}

/// Both components of a spec-level point are in coordinate range.
pub open spec fn pair_ok(p: (int, int)) -> bool {
    coord_ok(p.0) && coord_ok(p.1)
}

/// A parametric planar curve over a closed, bounded domain.
///
/// `point_at` is the mathematical model: the exact point the curve takes
/// at every parameter of its domain.  The executable methods are proved
/// to return exactly that point.
pub trait Curve: Sized {
    /// Structural invariant of the concrete curve.
    spec fn wf(&self) -> bool;

    /// Lower end of the parameter domain.
    spec fn start(&self) -> int;

    /// Upper end of the parameter domain.
    spec fn end(&self) -> int;

    /// The curve's point at parameter `t`, as an exact coordinate pair.
    spec fn point_at(&self, t: int) -> (int, int);

    /// A well-formed curve has a proper domain and never leaves the
    /// coordinate range the library accepts.
    proof fn lemma_wf(&self)
        requires
            self.wf(),
        ensures
            self.start() <= self.end(),
            forall|t: int|
                self.start() <= t <= self.end() ==> pair_ok(#[trigger] self.point_at(t)),
    ;

    /// The valid parameter range, a fixed property of the instance.
    fn domain(&self) -> (r: ClosedInterval)
        requires
            self.wf(),
        ensures
            r.lo as int == self.start(),
            r.hi as int == self.end(),
    ;

    /// The curve's point at `t`, which must lie inside the domain.
    fn evaluate(&self, t: i64) -> (p: Point2D)
        requires
            self.wf(),
            self.start() <= t as int <= self.end(),
        ensures
            p.x as int == self.point_at(t as int).0,
            p.y as int == self.point_at(t as int).1,
    ;

    /// Evaluate at a non-decreasing sequence of in-domain parameters, in
    /// one pass: the result holds, in order, exactly the point of the
    /// curve at each given parameter, one output per input.
    fn evaluate_multiple_ordered(&self, ts: &Vec<i64>) -> (ps: Vec<Point2D>)
        requires
            self.wf(),
            forall|i: int|
                0 <= i < ts@.len() ==> self.start() <= #[trigger] ts@[i] as int <= self.end(),
            forall|i: int, j: int| 0 <= i <= j < ts@.len() ==> ts@[i] <= ts@[j],
        ensures
            ps@.len() == ts@.len(),
            forall|i: int|
                0 <= i < ts@.len() ==> (#[trigger] ps@[i]).x as int == self.point_at(
                    ts@[i] as int,
                ).0 && ps@[i].y as int == self.point_at(ts@[i] as int).1,
    ;
}

/// Evaluation behind an explicit domain check: a parameter outside the
/// domain is rejected with an error instead of being clamped or
/// extrapolated; a parameter inside it gives exactly the curve's point.
pub fn checked_evaluate<C: Curve>(c: &C, t: i64) -> (r: Result<Point2D, CurveError>)
    requires
        c.wf(),
    ensures
        match r {
            Ok(p) => c.start() <= t as int <= c.end() && p.x as int == c.point_at(t as int).0
                && p.y as int == c.point_at(t as int).1,
            Err(e) => ((t as int) < c.start() || (t as int) > c.end()) && e
                == CurveError::OutOfDomain,
        },
{
    let d = c.domain();
    if d.lo <= t && t <= d.hi {
        Ok(c.evaluate(t))
    } else {
        Err(CurveError::OutOfDomain)
    }
}

} // verus!
