use scanfill::fx::{lerp, div_euc, isqrt, SCALE};
use scanfill::point::{Point, normal_of};
use scanfill::line::Line;
use scanfill::quadratic::Quadratic;
use scanfill::curve::{Curve, Direction};

fn fx(units: i64) -> i64 {
    units * SCALE
}

fn pt(x: i64, y: i64) -> Point {
    Point::new(fx(x), fx(y))
}

#[test]
fn lerp_hits_endpoints_exactly() {
    assert_eq!(lerp(fx(3), fx(9), 0), fx(3));
    assert_eq!(lerp(fx(3), fx(9), SCALE), fx(9));
    assert_eq!(lerp(fx(-5), fx(7), SCALE / 2), fx(1));
}

#[test]
fn div_euc_floors_toward_negative_infinity() {
    assert_eq!(div_euc(7, 2), 3);
    assert_eq!(div_euc(-7, 2), -4);
    assert_eq!(div_euc(-8, 2), -4);
}

#[test]
fn isqrt_brackets() {
    assert_eq!(isqrt(0), 0);
    assert_eq!(isqrt(1), 1);
    assert_eq!(isqrt(15), 3);
    assert_eq!(isqrt(16), 4);
    assert_eq!(isqrt(u64::MAX), 4294967295);
}

#[test]
fn line_evaluate_endpoints() {
    let l = Line::new(pt(1, 1), pt(6, 9));
    assert_eq!(l.t(0), pt(1, 1));
    assert_eq!(l.t(SCALE), pt(6, 9));
}

#[test]
fn quadratic_evaluate_endpoints() {
    let q = Quadratic::new(pt(1, 1), pt(6, 9), pt(9, 4));
    assert_eq!(q.t(0), pt(1, 1));
    assert_eq!(q.t(SCALE), pt(9, 4));
}

#[test]
fn quadratic_evaluate_midpoint() {
    let q = Quadratic::new(pt(0, 0), pt(1, 1), pt(2, 0));
    let mid = q.t(SCALE / 2);
    assert_eq!(mid.x, fx(1));
    assert_eq!(mid.y, SCALE / 2);
}

#[test]
fn line_split_shares_evaluated_point() {
    let l = Line::new(pt(0, 0), pt(4, 8));
    let (left, right) = l.split(SCALE / 2);
    assert_eq!(left.a, pt(0, 0));
    assert_eq!(left.b, pt(2, 4));
    assert_eq!(right.a, pt(2, 4));
    assert_eq!(right.b, pt(4, 8));
    assert_eq!(left.b, l.t(SCALE / 2));
}

#[test]
fn quadratic_split_shares_evaluated_point() {
    let q = Quadratic::new(pt(0, 0), pt(1, 1), pt(2, 0));
    let (left, right) = q.split(SCALE / 2);
    assert_eq!(left.a, pt(0, 0));
    assert_eq!(right.c, pt(2, 0));
    assert_eq!(left.c, right.a);
    assert_eq!(left.c, q.t(SCALE / 2));
    assert_eq!(left.b, Point::new(SCALE / 2, SCALE / 2));
    assert_eq!(right.b, Point::new(fx(1) + SCALE / 2, SCALE / 2));
}

#[test]
fn split_halves_reproduce_evaluation_at_sampled_parameters() {
    // At dyadic parameters every interpolation divides exactly, so the
    // halves reproduce the original curve with no tolerance at all.
    let q = Quadratic::new(pt(0, 0), pt(1, 2), pt(2, 0));
    let (left, right) = q.split(SCALE / 2);
    assert_eq!(left.t(SCALE / 2), q.t(SCALE / 4));
    assert_eq!(right.t(SCALE / 2), q.t(SCALE / 2 + SCALE / 4));
    assert_eq!(left.t(0), q.t(0));
    assert_eq!(right.t(SCALE), q.t(SCALE));
    let l = Line::new(pt(0, 0), pt(8, 4));
    let (ll, lr) = l.split(SCALE / 2);
    assert_eq!(ll.t(SCALE / 2), l.t(SCALE / 4));
    assert_eq!(lr.t(SCALE / 2), l.t(SCALE / 2 + SCALE / 4));
}

#[test]
fn horizontal_line_is_dropped_by_fix() {
    let l = Line::new(pt(0, 0), pt(10, 0));
    assert_eq!(l.fix().len(), 0);
}

#[test]
fn sloped_line_fix_is_identity() {
    let l = Line::new(pt(0, 0), pt(10, 10));
    let fixed = l.fix();
    assert_eq!(fixed.len(), 1);
    assert_eq!(fixed[0].a, l.a);
    assert_eq!(fixed[0].b, l.b);
}

#[test]
fn fixed_quadratic_fix_is_identity() {
    let q = Quadratic::new(pt(0, 0), pt(1, 1), pt(2, 3));
    let fixed = q.fix();
    assert_eq!(fixed.len(), 1);
    match fixed[0] {
        Curve::Quadratic(r) => {
            assert_eq!(r.a, q.a);
            assert_eq!(r.b, q.b);
            assert_eq!(r.c, q.c);
        },
        Curve::Line(_) => panic!("a fixed quadratic must stay a quadratic"),
    }
}

#[test]
fn quadratic_with_interior_extremum_is_split() {
    let q = Quadratic::new(pt(0, 0), pt(1, 2), pt(2, 0));
    let fixed = q.fix();
    assert_eq!(fixed.len(), 2);
    match (fixed[0], fixed[1]) {
        (Curve::Quadratic(h0), Curve::Quadratic(h1)) => {
            assert_eq!(h0.a, pt(0, 0));
            assert_eq!(h1.c, pt(2, 0));
            assert_eq!(h0.c, h1.a);
            assert_eq!(h0.c, pt(1, 1));
        },
        _ => panic!("the split halves must be quadratics"),
    }
}

#[test]
fn collinear_quadratic_degenerates_to_line() {
    let q = Quadratic::new(pt(0, 0), pt(1, 1), pt(2, 2));
    let fixed = q.fix();
    assert_eq!(fixed.len(), 1);
    match fixed[0] {
        Curve::Line(l) => {
            assert_eq!(l.a, pt(0, 0));
            assert_eq!(l.b, pt(2, 2));
        },
        Curve::Quadratic(_) => panic!("a collinear quadratic must degenerate to its chord"),
    }
}

#[test]
fn collinear_horizontal_quadratic_is_dropped() {
    let q = Quadratic::new(pt(0, 0), pt(1, 0), pt(2, 0));
    assert_eq!(q.fix().len(), 0);
}

#[test]
fn line_reports_at_most_one_crossing() {
    let l = Line::new(pt(0, 0), pt(10, 10));
    let hits = l.intersections(fx(5));
    assert_eq!(hits, vec![SCALE / 2]);
    assert!(l.intersections(fx(20)).is_empty());
    let horizontal = Line::new(pt(0, 3), pt(10, 3));
    assert!(horizontal.intersections(fx(3)).is_empty());
}

#[test]
fn vertical_line_crossing() {
    let l = Line::new(pt(10, 0), pt(10, 10));
    let hits = l.intersections(fx(5));
    assert_eq!(hits, vec![SCALE / 2]);
}

#[test]
fn ray_just_beyond_segment_reports_no_crossing() {
    // One fixed-point unit above the top endpoint: without a vertical
    // extent guard, the floored crossing parameter would land exactly on
    // the interval end and report a crossing the segment never reaches.
    let up = Line::new(pt(0, 0), pt(0, 2));
    assert!(up.intersections(fx(2) + 1).is_empty());
    assert!(up.intersections(-1).is_empty());
    let down = Line::new(pt(0, 2), pt(0, 0));
    assert!(down.intersections(-1).is_empty());
    assert!(down.intersections(fx(2) + 1).is_empty());
    // At the endpoints themselves the crossing is still reported.
    assert_eq!(up.intersections(fx(2)), vec![SCALE]);
    assert_eq!(up.intersections(0), vec![0]);
}

#[test]
fn quadratic_reports_at_most_two_crossings() {
    let q = Quadratic::new(pt(0, 0), pt(1, 2), pt(2, 0));
    let hits = q.intersections(SCALE / 2);
    assert_eq!(hits.len(), 2);
    for t in hits.iter() {
        assert!(0 < *t && *t < SCALE);
    }
    assert!(q.intersections(fx(3)).is_empty());
}

#[test]
fn quadratic_tangent_ray_gives_double_root() {
    let q = Quadratic::new(pt(0, 0), pt(1, 2), pt(2, 0));
    let hits = q.intersections(fx(1));
    assert_eq!(hits, vec![SCALE / 2, SCALE / 2]);
}

#[test]
fn direction_is_positional() {
    let up = Curve::Line(Line::new(pt(0, 0), pt(5, 3)));
    let down = Curve::Line(Line::new(pt(5, 3), pt(0, 0)));
    assert_eq!(up.direction(), Direction::Up);
    assert_eq!(down.direction(), Direction::Down);
}

#[test]
fn derivatives_of_line_and_quadratic() {
    let l = Line::new(pt(1, 1), pt(4, 3));
    assert_eq!(l.derivative(0), pt(3, 2));
    assert_eq!(l.second_derivative(0), pt(0, 0));
    let q = Quadratic::new(pt(0, 0), pt(1, 2), pt(2, 0));
    assert_eq!(q.derivative(0), pt(2, 4));
    assert_eq!(q.derivative(SCALE), pt(2, -4));
    assert_eq!(q.second_derivative(0), pt(0, -8));
}

#[test]
fn slope_of_line() {
    let c = Curve::Line(Line::new(pt(0, 0), pt(2, 1)));
    assert_eq!(c.slope(0), SCALE / 2);
}

#[test]
fn normal_of_vertical_vector_points_sideways() {
    let n = normal_of(0, fx(2));
    assert_eq!(n, Point::new(SCALE, 0));
    let m = normal_of(fx(2), 0);
    assert_eq!(m, Point::new(0, -SCALE));
}

#[test]
fn curvature_of_line_is_zero() {
    let c = Curve::Line(Line::new(pt(0, 0), pt(5, 1)));
    assert_eq!(c.curvature(0), 0);
    assert_eq!(c.curvature(SCALE / 2), 0);
}

#[test]
fn curvature_of_bent_quadratic_at_apex() {
    // At the apex the derivative is (2, 0) and the second derivative
    // (0, -8), so the curvature is -8 / 2^2 = -2 in fixed-point units.
    let c = Curve::Quadratic(Quadratic::new(pt(0, 0), pt(1, 2), pt(2, 0)));
    assert_eq!(c.curvature(SCALE / 2), -fx(2));
}

#[test]
fn line_parallel_translates_both_endpoints() {
    let l = Line::new(pt(0, 0), pt(0, 2));
    let off = l.parallel(fx(1));
    assert_eq!(off.len(), 1);
    assert_eq!(off[0].a, pt(1, 0));
    assert_eq!(off[0].b, pt(1, 2));
}

#[test]
fn quadratic_parallel_produces_segments() {
    let q = Quadratic::new(pt(0, 0), pt(1, 2), pt(2, 0));
    let off = q.parallel(SCALE / 4);
    assert!(off.len() >= 1);
}

#[test]
fn quadratic_parallel_at_zero_distance_keeps_endpoints() {
    let q = Quadratic::new(pt(0, 0), pt(1, 2), pt(2, 0));
    let off = q.parallel(0);
    assert!(off.len() >= 1);
    assert_eq!(off[0].a, q.a);
    assert_eq!(off[off.len() - 1].c, q.c);
}

#[test]
fn bounding_boxes() {
    let l = Line::new(pt(4, 1), pt(0, 3));
    assert_eq!(l.bb(), (pt(0, 1), pt(4, 3)));
    let q = Quadratic::new(pt(0, 2), pt(3, -1), pt(1, 5));
    assert_eq!(q.bb(), (pt(0, -1), pt(3, 5)));
}
