use scanfill::fx::SCALE;
use scanfill::point::Point;
use scanfill::line::Line;
use scanfill::quadratic::Quadratic;
use scanfill::curve::Curve;
use scanfill::path::Path;
use scanfill::render::{Renderer, FillRule};

fn fx(units: i64) -> i64 {
    units * SCALE
}

fn pt(x: i64, y: i64) -> Point {
    Point::new(fx(x), fx(y))
}

fn line(ax: i64, ay: i64, bx: i64, by: i64) -> Curve {
    Curve::Line(Line::new(pt(ax, ay), pt(bx, by)))
}

/// The ten-unit square of the concrete scenario: the two horizontal
/// edges are dropped by the normalization pass, the vertical edges
/// remain.
fn square_path() -> Path {
    let curves = vec![
        line(0, 0, 10, 0),
        line(10, 0, 10, 10),
        line(10, 10, 0, 10),
        line(0, 10, 0, 0),
    ];
    Path::new(curves).fix()
}

#[test]
fn fix_drops_horizontal_edges_of_square() {
    let fixed = square_path();
    assert_eq!(fixed.data.len(), 2);
}

#[test]
fn fix_of_fixed_path_is_identity() {
    let fixed = square_path();
    let again = fixed.fix();
    assert_eq!(again.data.len(), fixed.data.len());
    for k in 0..fixed.data.len() {
        assert_eq!(again.data[k], fixed.data[k]);
    }
}

#[test]
fn square_scenario_even_odd() {
    let r = Renderer::new(square_path(), 20, 20, FillRule::EvenOdd);
    let cov = r.render();
    assert_eq!(cov.len(), 400);
    assert_eq!(cov[5 * 20 + 5], 1);
    assert_eq!(cov[15 * 20 + 15], 0);
}

#[test]
fn square_interior_and_exterior_even_odd() {
    let r = Renderer::new(square_path(), 20, 20, FillRule::EvenOdd);
    let cov = r.render();
    for y in 1..10i64 {
        for x in 1..10i64 {
            assert_eq!(cov[(y * 20 + x) as usize], 1);
        }
    }
    for y in 11..20i64 {
        for x in 11..20i64 {
            assert_eq!(cov[(y * 20 + x) as usize], 0);
        }
    }
}

#[test]
fn square_interior_and_exterior_non_zero() {
    let r = Renderer::new(square_path(), 20, 20, FillRule::NonZero);
    let cov = r.render();
    for y in 1..10i64 {
        for x in 1..10i64 {
            assert_eq!(cov[(y * 20 + x) as usize], 1);
        }
    }
    for y in 11..20i64 {
        for x in 11..20i64 {
            assert_eq!(cov[(y * 20 + x) as usize], 0);
        }
    }
}

#[test]
fn both_rules_agree_on_simple_square() {
    let even = Renderer::new(square_path(), 20, 20, FillRule::EvenOdd).render();
    let non_zero = Renderer::new(square_path(), 20, 20, FillRule::NonZero).render();
    assert_eq!(even, non_zero);
}

/// A ray tangent to a curve registers a double root; deduplication
/// collapses the two coincident crossings (same curve, same direction)
/// into one, so pixels to the right of the tangent point see an odd
/// winding count instead of a spurious even one.
#[test]
fn tangent_ray_is_not_double_counted() {
    let hump = Curve::Quadratic(Quadratic::new(pt(0, 0), pt(1, 2), pt(2, 0)));
    let path = Path::new(vec![hump]);
    let r = Renderer::new(path, 3, 3, FillRule::EvenOdd);
    let cov = r.render();
    assert_eq!(cov[1 * 3 + 1], 1);
    assert_eq!(cov[1 * 3 + 2], 1);
    assert_eq!(cov[1 * 3 + 0], 0);
}

#[test]
fn rounded_shape_with_quadratic_sides() {
    let curves = vec![
        Curve::Quadratic(Quadratic::new(pt(0, 0), pt(5, 5), pt(10, 0))),
        line(10, 0, 0, 0),
    ];
    let path = Path::new(curves).fix();
    let r = Renderer::new(path, 12, 6, FillRule::NonZero);
    let cov = r.render();
    assert_eq!(cov[1 * 12 + 5], 1);
    assert_eq!(cov[1 * 12 + 11], 0);
}

#[test]
fn empty_path_renders_nothing() {
    let path = Path::new(Vec::new());
    let r = Renderer::new(path, 4, 4, FillRule::EvenOdd);
    let cov = r.render();
    assert_eq!(cov.len(), 16);
    for v in cov.iter() {
        assert_eq!(*v, 0);
    }
}

#[test]
fn path_global_parameterization() {
    let curves = vec![line(0, 0, 10, 10), line(10, 10, 20, 0)];
    let path = Path::new(curves);
    assert_eq!(path.t(SCALE / 2), pt(5, 5));
    assert_eq!(path.t(fx(1)), pt(10, 10));
    assert_eq!(path.t(fx(1) + SCALE / 2), pt(15, 5));
    assert_eq!(path.t(fx(2)), pt(20, 0));
    assert_eq!(path.first_point(), pt(0, 0));
    assert_eq!(path.last_point(), pt(20, 0));
}

#[test]
fn path_curve_lookup_clamps_to_last() {
    let curves = vec![line(0, 0, 10, 10), line(10, 10, 20, 0)];
    let path = Path::new(curves);
    assert_eq!(path.get_curve_at_t(0), line(0, 0, 10, 10));
    assert_eq!(path.get_curve_at_t(fx(1) + 7), line(10, 10, 20, 0));
    assert_eq!(path.get_curve_at_t(fx(9)), line(10, 10, 20, 0));
}

#[test]
fn path_intersections_use_global_parameters() {
    let curves = vec![line(0, 0, 10, 10), line(10, 10, 20, 0)];
    let path = Path::new(curves);
    let hits = path.intersections(fx(5));
    assert_eq!(hits, vec![SCALE / 2, fx(1) + SCALE / 2]);
}

#[test]
fn path_bounding_box_is_the_union() {
    let curves = vec![line(0, 0, 10, 10), line(10, 10, 20, -3)];
    let path = Path::new(curves);
    assert_eq!(path.bb(), (pt(0, -3), pt(20, 10)));
}
