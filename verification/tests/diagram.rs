use free_diagram::bezier::BEZIER_SCALE;
use free_diagram::curves::checked_evaluate;
use free_diagram::create_free_diagram;
use free_diagram::CubicBezier;
use free_diagram::Curve;
use free_diagram::CurveError;
use free_diagram::Pixel;
use free_diagram::Point2D;
use free_diagram::PolyLine;

fn pt(x: i64, y: i64) -> Point2D {
    Point2D { x, y }
}

const WHITE: Pixel = Pixel { r: 255, g: 255, b: 255 };
const BLACK: Pixel = Pixel { r: 0, g: 0, b: 0 };
const GRAY: Pixel = Pixel { r: 153, g: 153, b: 153 };

#[test]
fn bezier_starts_and_ends_at_control_points() {
    let b = CubicBezier::new(pt(7, -3), pt(100, 100), pt(200, 100), pt(300, 41));
    assert_eq!(b.evaluate(0), pt(7, -3));
    assert_eq!(b.evaluate(BEZIER_SCALE), pt(300, 41));
    let d = b.domain();
    assert_eq!(d.lo, 0);
    assert_eq!(d.hi, BEZIER_SCALE);
}

#[test]
fn bezier_midpoint_matches_closed_form() {
    // Control points (0,0), (10,10), (20,10), (30,0) in tenths of a unit;
    // halfway the curve sits at (15, 7.5), that is (150, 75) in tenths.
    let b = CubicBezier::new(pt(0, 0), pt(100, 100), pt(200, 100), pt(300, 0));
    assert_eq!(b.evaluate(BEZIER_SCALE / 2), pt(150, 75));
}

#[test]
fn polyline_length_is_sum_of_segment_lengths() {
    let p = PolyLine::new(vec![pt(0, 0), pt(30, 40), pt(30, 100)]);
    assert_eq!(p.length, 50 + 60);
    let d = p.domain();
    assert_eq!(d.lo, 0);
    assert_eq!(d.hi, 110);
    // A non-square distance rounds down.
    let q = PolyLine::new(vec![pt(0, 0), pt(1, 1)]);
    assert_eq!(q.length, 1);
}

#[test]
fn polyline_starts_and_ends_at_its_vertices() {
    let p = PolyLine::new(vec![pt(2, 3), pt(32, 43), pt(32, 103)]);
    assert_eq!(p.evaluate(0), pt(2, 3));
    assert_eq!(p.evaluate(p.length), pt(32, 103));
}

#[test]
fn polyline_interpolates_along_segments() {
    let p = PolyLine::new(vec![pt(0, 0), pt(10, 0)]);
    assert_eq!(p.length, 10);
    assert_eq!(p.evaluate(5), pt(5, 0));
    assert_eq!(p.evaluate(0), pt(0, 0));
    assert_eq!(p.evaluate(10), pt(10, 0));
}

#[test]
fn batched_evaluation_matches_individual_bezier() {
    let b = CubicBezier::new(pt(0, 0), pt(100, 100), pt(200, 100), pt(300, 0));
    let ts = vec![0, 1, 100_000, 524_288, 524_288, 1_000_000, BEZIER_SCALE];
    let batched = b.evaluate_multiple_ordered(&ts);
    assert_eq!(batched.len(), ts.len());
    for (t, p) in ts.iter().zip(batched.iter()) {
        assert_eq!(*p, b.evaluate(*t));
    }
}

#[test]
fn batched_evaluation_matches_individual_polyline() {
    let p = PolyLine::new(vec![pt(0, 0), pt(30, 40), pt(130, 40), pt(130, 41)]);
    assert_eq!(p.length, 50 + 100 + 1);
    let ts = vec![0, 10, 50, 50, 51, 120, 150, 151];
    let batched = p.evaluate_multiple_ordered(&ts);
    assert_eq!(batched.len(), ts.len());
    for (t, q) in ts.iter().zip(batched.iter()) {
        assert_eq!(*q, p.evaluate(*t));
    }
}

#[test]
fn polyline_walks_forward_only() {
    let p = PolyLine::new(vec![pt(0, 0), pt(100, 0), pt(100, 50)]);
    let mut last_x = i64::MIN;
    let mut last_y = i64::MIN;
    for t in 0..=p.length {
        let q = p.evaluate(t);
        // Along this L-shaped chain both coordinates only ever grow.
        assert!(q.x >= last_x);
        assert!(q.y >= last_y);
        last_x = q.x;
        last_y = q.y;
    }
}

#[test]
fn out_of_domain_evaluation_is_rejected() {
    let p = PolyLine::new(vec![pt(0, 0), pt(10, 0)]);
    assert_eq!(checked_evaluate(&p, p.length + 1), Err(CurveError::OutOfDomain));
    assert_eq!(checked_evaluate(&p, -1), Err(CurveError::OutOfDomain));
    assert_eq!(checked_evaluate(&p, 10), Ok(pt(10, 0)));
    let b = CubicBezier::new(pt(0, 0), pt(1, 1), pt(2, 1), pt(3, 0));
    assert_eq!(checked_evaluate(&b, BEZIER_SCALE + 1), Err(CurveError::OutOfDomain));
    assert_eq!(checked_evaluate(&b, 0), Ok(pt(0, 0)));
}

#[test]
fn classification_is_exact_at_the_threshold() {
    // Two horizontal lines at constant vertical distance 7.
    let a = PolyLine::new(vec![pt(0, 0), pt(10, 0)]);
    let b = PolyLine::new(vec![pt(0, 7), pt(10, 7)]);
    let at = create_free_diagram(&a, &b, 7, 3, 3);
    let below = create_free_diagram(&a, &b, 8, 3, 3);
    let above = create_free_diagram(&a, &b, 6, 3, 3);
    for i in 0..3 {
        for j in 0..3 {
            // On the diagonal the sampled points sit exactly one above
            // the other, at distance 7 precisely.
            if i == j {
                assert_eq!(at.get(i, j), BLACK);
                assert_eq!(below.get(i, j), WHITE);
                assert_eq!(above.get(i, j), GRAY);
            }
        }
    }
}

#[test]
fn identical_curves_leave_a_free_diagonal() {
    let a = PolyLine::new(vec![pt(0, 0), pt(50, 0), pt(50, 50)]);
    let b = a.clone();
    let wide = create_free_diagram(&a, &b, 1_000, 6, 6);
    for i in 0..6 {
        // With a threshold above every possible distance mismatch on the
        // diagonal, matching parameters are strictly within it.
        assert_eq!(wide.get(i, i), WHITE);
    }
    let zero = create_free_diagram(&a, &b, 0, 6, 6);
    for i in 0..6 {
        for j in 0..6 {
            if i == j {
                // Distance zero against threshold zero is exact equality.
                assert_eq!(zero.get(i, j), BLACK);
            } else {
                // Never "closer than zero": everything else is black or gray.
                assert_ne!(zero.get(i, j), WHITE);
            }
        }
    }
}

#[test]
fn swapping_curves_transposes_the_diagram() {
    let a = CubicBezier::new(pt(0, 0), pt(100, 100), pt(200, 100), pt(300, 0));
    let b = PolyLine::new(vec![pt(0, 0), pt(150, 30), pt(300, 0)]);
    let g1 = create_free_diagram(&a, &b, 40, 5, 4);
    let g2 = create_free_diagram(&b, &a, 40, 4, 5);
    assert_eq!(g1.width, 5);
    assert_eq!(g1.height, 4);
    assert_eq!(g2.width, 4);
    assert_eq!(g2.height, 5);
    for i in 0..4 {
        for j in 0..5 {
            assert_eq!(g1.get(i, j), g2.get(j, i));
        }
    }
}

#[test]
fn grid_covers_both_domains_fully() {
    let a = PolyLine::new(vec![pt(0, 0), pt(10, 0)]);
    let b = CubicBezier::new(pt(0, 0), pt(1, 1), pt(2, 1), pt(3, 0));
    let g = create_free_diagram(&a, &b, 2, 4, 3);
    assert_eq!(g.width, 4);
    assert_eq!(g.height, 3);
    // The corner cells compare the curve endpoints themselves: row 0 and
    // column 0 are the domain starts, the last row and column the ends.
    let corner = g.get(0, 0);
    let a0 = a.evaluate(0);
    let b0 = b.evaluate(0);
    let d2 = (a0.x - b0.x).pow(2) + (a0.y - b0.y).pow(2);
    assert_eq!(corner == WHITE, d2 < 4);
}
