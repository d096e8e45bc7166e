//! The curve abstraction: a closed pair of variants (line or quadratic)
//! sharing one capability set, dispatched by match.

use vstd::prelude::*;
use crate::fx::{
    SCALE, COORD_MAX, T_MAX, lerp_fx, ratio_fx, ratio, RATIO_NUM_MAX, lemma_lerp_zero,
    lemma_lerp_one, lemma_abs_mul, isqrt128, div_euc128,
};
use crate::point::{Point, normal_of, normal_x_of, normal_y_of, norm_len, lemma_norm_len_bounds};
use crate::line::{Line, line_wf, line_crossings, line_trans};
use crate::quadratic::{
    Quadratic, quad_wf, quad_eval_x, quad_eval_y, quad_deriv_x, quad_deriv_y, quad_is_line,
    quad_needs_split, quad_extremum_t, quad_split_at, quad_crossings, quad_trans,
    quad_parallel_spec,
};

verus! {

/// Positional direction of a curve: `Up` when the first point lies
/// strictly below the last point, `Down` otherwise.  This depends on the
/// order of the endpoints, not on the sign of the derivative.
#[derive(Clone, Copy, PartialEq, Eq, Structural, Debug)]
pub enum Direction {
    Up,
    Down,
}

/// A planar curve segment.
#[derive(Clone, Copy, PartialEq, Eq, Structural, Debug)]
pub enum Curve {
    Line(Line),
    Quadratic(Quadratic),
}

pub open spec fn curve_wf(c: Curve) -> bool {
    match c {
        Curve::Line(l) => line_wf(l),
        Curve::Quadratic(q) => quad_wf(q),
    }
}

pub open spec fn curve_first(c: Curve) -> Point {
    match c {
        Curve::Line(l) => l.a,
        Curve::Quadratic(q) => q.a,
    }
}

pub open spec fn curve_last(c: Curve) -> Point {
    match c {
        Curve::Line(l) => l.b,
        Curve::Quadratic(q) => q.c,
    }
}

pub open spec fn curve_eval_x(c: Curve, t: int) -> int {
    match c {
        Curve::Line(l) => lerp_fx(l.a.x as int, l.b.x as int, t),
        Curve::Quadratic(q) => quad_eval_x(q, t),
    }
}

pub open spec fn curve_eval_y(c: Curve, t: int) -> int {
    match c {
        Curve::Line(l) => lerp_fx(l.a.y as int, l.b.y as int, t),
        Curve::Quadratic(q) => quad_eval_y(q, t),
    }
}

pub open spec fn curve_deriv_x(c: Curve, t: int) -> int {
    match c {
        Curve::Line(l) => l.b.x - l.a.x,
        Curve::Quadratic(q) => quad_deriv_x(q, t),
    }
}

pub open spec fn curve_deriv_y(c: Curve, t: int) -> int {
    match c {
        Curve::Line(l) => l.b.y - l.a.y,
        Curve::Quadratic(q) => quad_deriv_y(q, t),
    }
}

/// x component of the (constant) second derivative.
pub open spec fn curve_second_x(c: Curve) -> int {
    match c {
        Curve::Line(_) => 0,
        Curve::Quadratic(q) => 2 * (q.c.x - 2 * q.b.x + q.a.x),
    }
}

/// y component of the (constant) second derivative.
pub open spec fn curve_second_y(c: Curve) -> int {
    match c {
        Curve::Line(_) => 0,
        Curve::Quadratic(q) => 2 * (q.c.y - 2 * q.b.y + q.a.y),
    }
}

/// Curvature at `t`: `det(first, second) / |first|^3`, in fixed-point
/// units, with the length rounded down.
pub open spec fn curvature_exact(c: Curve, t: int) -> int {
    let dx = curve_deriv_x(c, t);
    let dy = curve_deriv_y(c, t);
    let det = dx * curve_second_y(c) - dy * curve_second_x(c);
    let vel = norm_len(dx, dy);
    (det * SCALE * SCALE) / (vel * vel * vel)
}

pub open spec fn curve_direction(c: Curve) -> Direction {
    if curve_first(c).y < curve_last(c).y {
        Direction::Up
    } else {
        Direction::Down
    }
}

/// The crossing parameters a curve reports for a horizontal ray.
pub open spec fn curve_crossings(c: Curve, ray: int) -> Seq<i64> {
    match c {
        Curve::Line(l) => line_crossings(l, ray),
        Curve::Quadratic(q) => quad_crossings(q, ray),
    }
}

pub open spec fn curve_bb_min_x(c: Curve) -> int {
    match c {
        Curve::Line(l) => vstd::math::min(l.a.x as int, l.b.x as int),
        Curve::Quadratic(q) => vstd::math::min(
            q.a.x as int,
            vstd::math::min(q.b.x as int, q.c.x as int),
        ),
    }
}

pub open spec fn curve_bb_min_y(c: Curve) -> int {
    match c {
        Curve::Line(l) => vstd::math::min(l.a.y as int, l.b.y as int),
        Curve::Quadratic(q) => vstd::math::min(
            q.a.y as int,
            vstd::math::min(q.b.y as int, q.c.y as int),
        ),
    }
}

pub open spec fn curve_bb_max_x(c: Curve) -> int {
    match c {
        Curve::Line(l) => vstd::math::max(l.a.x as int, l.b.x as int),
        Curve::Quadratic(q) => vstd::math::max(
            q.a.x as int,
            vstd::math::max(q.b.x as int, q.c.x as int),
        ),
    }
}

pub open spec fn curve_bb_max_y(c: Curve) -> int {
    match c {
        Curve::Line(l) => vstd::math::max(l.a.y as int, l.b.y as int),
        Curve::Quadratic(q) => vstd::math::max(
            q.a.y as int,
            vstd::math::max(q.b.y as int, q.c.y as int),
        ),
    }
}

/// A curve that the degeneracy pass leaves unchanged: a non-horizontal
/// line, or a quadratic with no interior y extremum and no collinear
/// control polygon.
pub open spec fn curve_fixed(c: Curve) -> bool {
    match c {
        Curve::Line(l) => l.a.y != l.b.y,
        Curve::Quadratic(q) => !quad_needs_split(q) && !quad_is_line(q),
    }
}

/// What the degeneracy pass returns for one curve: horizontal lines are
/// dropped; a quadratic with an interior y extremum is split there; a
/// collinear quadratic degenerates to the line `(a, c)`, itself passed
/// through the line rule; anything else is kept unchanged.
pub open spec fn curve_fix(c: Curve) -> Seq<Curve> {
    match c {
        Curve::Line(l) => if l.a.y == l.b.y {
            Seq::<Curve>::empty()
        } else {
            seq![c]
        },
        Curve::Quadratic(q) => if quad_needs_split(q) {
            seq![
                Curve::Quadratic(quad_split_at(q, quad_extremum_t(q)).0),
                Curve::Quadratic(quad_split_at(q, quad_extremum_t(q)).1),
            ]
        } else if quad_is_line(q) {
            if q.a.y == q.c.y {
                Seq::<Curve>::empty()
            } else {
                seq![Curve::Line((Line { a: q.a, b: q.c }))]
            }
        } else {
            seq![c]
        },
    }
}

/// What the offset pass produces for one curve.
pub open spec fn curve_parallel_spec(c: Curve, dist: int) -> Seq<Curve> {
    match c {
        Curve::Line(l) => seq![Curve::Line(line_trans(l, dist))],
        Curve::Quadratic(q) => quad_parallel_spec(q, dist).map_values(
            |p: Quadratic| Curve::Quadratic(p),
        ),
    }
}

impl Curve {
    /// Point at parameter `t` (not clamped to the unit interval).
    pub fn t(&self, t: i64) -> (p: Point)
        requires
            curve_wf(*self),
            -T_MAX <= t <= T_MAX,
        ensures
            p.x == curve_eval_x(*self, t as int),
            p.y == curve_eval_y(*self, t as int),
    {
        match self {
            Curve::Line(l) => l.t(t),
            Curve::Quadratic(q) => q.t(t),
        }
    }

    /// Bounding box as `(min, max)` corners; exact for a line, the
    /// control-point box for a quadratic.
    pub fn bb(&self) -> (r: (Point, Point))
        ensures
            r.0.x == curve_bb_min_x(*self),
            r.0.y == curve_bb_min_y(*self),
            r.1.x == curve_bb_max_x(*self),
            r.1.y == curve_bb_max_y(*self),
    {
        match self {
            Curve::Line(l) => l.bb(),
            Curve::Quadratic(q) => q.bb(),
        }
    }

    pub fn first_point(&self) -> (p: Point)
        ensures
            p == curve_first(*self),
    {
        match self {
            Curve::Line(l) => l.first_point(),
            Curve::Quadratic(q) => q.first_point(),
        }
    }

    pub fn last_point(&self) -> (p: Point)
        ensures
            p == curve_last(*self),
    {
        match self {
            Curve::Line(l) => l.last_point(),
            Curve::Quadratic(q) => q.last_point(),
        }
    }

    pub fn derivative(&self, t: i64) -> (d: Point)
        requires
            curve_wf(*self),
            -T_MAX <= t <= T_MAX,
        ensures
            d.x == curve_deriv_x(*self, t as int),
            d.y == curve_deriv_y(*self, t as int),
    {
        match self {
            Curve::Line(l) => l.derivative(t),
            Curve::Quadratic(q) => q.derivative(t),
        }
    }

    pub fn second_derivative(&self, t: i64) -> (d: Point)
        requires
            curve_wf(*self),
        ensures
            d.x == curve_second_x(*self),
            d.y == curve_second_y(*self),
    {
        match self {
            Curve::Line(l) => l.second_derivative(t),
            Curve::Quadratic(q) => q.second_derivative(t),
        }
    }

    /// Positional direction: `Up` when the first point is strictly below
    /// the last point, otherwise `Down`.
    pub fn direction(&self) -> (d: Direction)
        ensures
            d == curve_direction(*self),
    {
        let first = self.first_point();
        let last = self.last_point();
        if first.y < last.y {
            Direction::Up
        } else {
            Direction::Down
        }
    }

    /// Slope `dy / dx` of the curve at `t`, as a fixed-point value; the
    /// caller must avoid parameters where the derivative's x component
    /// vanishes.
    pub fn slope(&self, t: i64) -> (s: i64)
        requires
            curve_wf(*self),
            -T_MAX <= t <= T_MAX,
            curve_deriv_x(*self, t as int) != 0,
        ensures
            s == ratio_fx(curve_deriv_y(*self, t as int), curve_deriv_x(*self, t as int)),
    {
        let d = self.derivative(t);
        proof {
            lemma_deriv_bounds(*self, t as int);
        }
        ratio(d.y, d.x)
    }

    /// Unit normal vector at `t` (the derivative rotated a quarter turn
    /// and scaled to fixed-point unit length); the caller must avoid
    /// parameters where the derivative vanishes.
    pub fn normal(&self, t: i64) -> (n: Point)
        requires
            curve_wf(*self),
            -T_MAX <= t <= T_MAX,
            curve_deriv_x(*self, t as int) != 0 || curve_deriv_y(*self, t as int) != 0,
        ensures
            n.x == normal_x_of(curve_deriv_x(*self, t as int), curve_deriv_y(*self, t as int)),
            n.y == normal_y_of(curve_deriv_x(*self, t as int), curve_deriv_y(*self, t as int)),
            -SCALE <= n.x <= SCALE,
            -SCALE <= n.y <= SCALE,
    {
        let d = self.derivative(t);
        proof {
            lemma_deriv_bounds(*self, t as int);
        }
        normal_of(d.x, d.y)
    }

    /// Curvature at `t`, saturated to the `i64` range when the exact
    /// fixed-point value falls outside it; the caller must avoid
    /// parameters where the derivative vanishes.
    pub fn curvature(&self, t: i64) -> (k: i64)
        requires
            curve_wf(*self),
            -T_MAX <= t <= T_MAX,
            curve_deriv_x(*self, t as int) != 0 || curve_deriv_y(*self, t as int) != 0,
        ensures
            i64::MIN <= curvature_exact(*self, t as int) <= i64::MAX ==> k == curvature_exact(
                *self,
                t as int,
            ),
            curvature_exact(*self, t as int) > i64::MAX ==> k == i64::MAX,
            curvature_exact(*self, t as int) < i64::MIN ==> k == i64::MIN,
    {
        let d = self.derivative(t);
        let dd = self.second_derivative(t);
        proof {
            lemma_deriv_bounds(*self, t as int);
            lemma_norm_len_bounds(d.x as int, d.y as int);
            lemma_abs_mul(d.x as int, dd.y as int, RATIO_NUM_MAX as int, 8 * COORD_MAX as int);
            lemma_abs_mul(d.y as int, dd.x as int, RATIO_NUM_MAX as int, 8 * COORD_MAX as int);
            lemma_abs_mul(d.x as int, d.x as int, RATIO_NUM_MAX as int, RATIO_NUM_MAX as int);
            lemma_abs_mul(d.y as int, d.y as int, RATIO_NUM_MAX as int, RATIO_NUM_MAX as int);
        }
        let det = (d.x as i128) * (dd.y as i128) - (d.y as i128) * (dd.x as i128);
        let sq = (d.x as i128) * (d.x as i128) + (d.y as i128) * (d.y as i128);
        proof {
            assert(d.x as int * d.x as int >= 0 && d.y as int * d.y as int >= 0)
                by (nonlinear_arith);
        }
        let vel_wide = isqrt128(sq as u128);
        proof {
            assert((sq as u128) as nat == (d.x as int * d.x as int + d.y as int * d.y as int)
                as nat);
            assert(vel_wide as int == norm_len(d.x as int, d.y as int));
        }
        let vel = vel_wide as i128;
        proof {
            let detb = RATIO_NUM_MAX as int * (8 * COORD_MAX as int);
            lemma_abs_mul(det as int, SCALE as int, 2 * detb, SCALE as int);
            lemma_abs_mul(det * SCALE, SCALE as int, 2 * detb * SCALE as int, SCALE as int);
            lemma_abs_mul(vel as int, vel as int, 549755813888, 549755813888);
            lemma_abs_mul(
                vel * vel,
                vel as int,
                549755813888int * 549755813888int,
                549755813888int,
            );
            assert(vel * vel >= vel * 1 && vel * vel * vel >= vel * vel) by (nonlinear_arith)
                requires vel >= 1;
        }
        let num = det * (SCALE as i128) * (SCALE as i128);
        let den = vel * vel * vel;
        let q = div_euc128(num, den);
        if q > (i64::MAX as i128) {
            i64::MAX
        } else if q < (i64::MIN as i128) {
            i64::MIN
        } else {
            q as i64
        }
    }

    /// Subdivision at `t` into two curves of the same variant, sharing
    /// the evaluated point.
    pub fn split(&self, t: i64) -> (r: (Curve, Curve))
        requires
            curve_wf(*self),
            -T_MAX <= t <= T_MAX,
        ensures
            curve_first(r.0) == curve_first(*self),
            curve_last(r.1) == curve_last(*self),
            curve_last(r.0) == curve_first(r.1),
            curve_first(r.1).x == curve_eval_x(*self, t as int),
            curve_first(r.1).y == curve_eval_y(*self, t as int),
    {
        match self {
            Curve::Line(l) => {
                let halves = l.split(t);
                (Curve::Line(halves.0), Curve::Line(halves.1))
            },
            Curve::Quadratic(q) => {
                let halves = q.split(t);
                (Curve::Quadratic(halves.0), Curve::Quadratic(halves.1))
            },
        }
    }

    /// Translate the curve's control polygon along its endpoint unit
    /// normals; a line must have distinct endpoints, so its normal
    /// exists.
    pub fn trans_ctrl_poly(&self, dist: i64) -> (r: Curve)
        requires
            curve_wf(*self),
            -COORD_MAX <= dist <= COORD_MAX,
            (self matches Curve::Line(l) ==> l.a != l.b),
        ensures
            (match *self {
                Curve::Line(l) => r == Curve::Line(line_trans(l, dist as int)),
                Curve::Quadratic(q) => r == Curve::Quadratic(quad_trans(q, dist as int)),
            }),
    {
        match self {
            Curve::Line(l) => Curve::Line(l.trans_ctrl_poly(dist)),
            Curve::Quadratic(q) => Curve::Quadratic(q.trans_ctrl_poly(dist)),
        }
    }

    /// Offset ("parallel") curve: one or more curves approximating this
    /// curve translated `dist` along its normals, subdividing a
    /// quadratic where a single translated segment would degrade.
    pub fn parallel(&self, dist: i64) -> (r: Vec<Curve>)
        requires
            curve_wf(*self),
            -COORD_MAX <= dist <= COORD_MAX,
            (self matches Curve::Line(l) ==> l.a != l.b),
        ensures
            r@ =~= curve_parallel_spec(*self, dist as int),
            r@.len() >= 1,
    {
        let mut out: Vec<Curve> = Vec::new();
        match self {
            Curve::Line(l) => {
                let pieces = l.parallel(dist);
                out.push(Curve::Line(pieces[0]));
            },
            Curve::Quadratic(q) => {
                let pieces = q.parallel(dist);
                let ghost spec_pieces = quad_parallel_spec(*q, dist as int);
                let mut k: usize = 0;
                while k < pieces.len()
                    invariant
                        pieces@ =~= spec_pieces,
                        k <= pieces@.len(),
                        out@ =~= spec_pieces.take(k as int).map_values(
                            |p: Quadratic| Curve::Quadratic(p),
                        ),
                    decreases pieces@.len() - k,
                {
                    proof {
                        assert(spec_pieces.take(k as int + 1).map_values(
                            |p: Quadratic| Curve::Quadratic(p),
                        ) =~= spec_pieces.take(k as int).map_values(
                            |p: Quadratic| Curve::Quadratic(p),
                        ).push(Curve::Quadratic(spec_pieces[k as int])));
                    }
                    out.push(Curve::Quadratic(pieces[k]));
                    k += 1;
                }
                proof {
                    assert(spec_pieces.take(spec_pieces.len() as int) =~= spec_pieces);
                }
            },
        }
        out
    }

    /// Degeneracy pass over one curve; an already-fixed curve comes back
    /// unchanged as the single element.
    pub fn fix(&self) -> (r: Vec<Curve>)
        requires
            curve_wf(*self),
        ensures
            r@ =~= curve_fix(*self),
            curve_fixed(*self) ==> r@ =~= seq![*self],
    {
        let mut out: Vec<Curve> = Vec::new();
        match self {
            Curve::Line(l) => {
                let fixed = l.fix();
                if fixed.len() > 0 {
                    out.push(Curve::Line(fixed[0]));
                }
            },
            Curve::Quadratic(q) => {
                out = q.fix();
            },
        }
        out
    }

    /// Crossing parameters against the horizontal line at height `ray_y`.
    pub fn intersections(&self, ray_y: i64) -> (r: Vec<i64>)
        requires
            curve_wf(*self),
            -COORD_MAX <= ray_y <= COORD_MAX,
        ensures
            r@ =~= curve_crossings(*self, ray_y as int),
            r@.len() <= 2,
            forall|k: int| 0 <= k < r@.len() ==> 0 <= #[trigger] r@[k] <= SCALE,
    {
        match self {
            Curve::Line(l) => l.intersections(ray_y),
            Curve::Quadratic(q) => q.intersections(ray_y),
        }
    }
}

/// The derivative of a well-formed curve at a bounded parameter fits the
/// numerator range of fixed-point ratios.
pub proof fn lemma_deriv_bounds(c: Curve, t: int)
    requires
        curve_wf(c),
        -T_MAX <= t <= T_MAX,
    ensures
        -RATIO_NUM_MAX < curve_deriv_x(c, t) < RATIO_NUM_MAX,
        -RATIO_NUM_MAX < curve_deriv_y(c, t) < RATIO_NUM_MAX,
{
    match c {
        Curve::Line(_) => {},
        Curve::Quadratic(q) => {
            crate::fx::lemma_abs_mul(
                q.a.x as int,
                2 * t - 2 * SCALE as int,
                COORD_MAX as int,
                4 * T_MAX as int,
            );
            crate::fx::lemma_abs_mul(
                2 * q.c.x - 4 * q.b.x,
                t,
                6 * COORD_MAX as int,
                T_MAX as int,
            );
            crate::fx::lemma_abs_mul(
                q.a.y as int,
                2 * t - 2 * SCALE as int,
                COORD_MAX as int,
                4 * T_MAX as int,
            );
            crate::fx::lemma_abs_mul(
                2 * q.c.y - 4 * q.b.y,
                t,
                6 * COORD_MAX as int,
                T_MAX as int,
            );
            crate::fx::lemma_div_abs_bound(
                q.a.x * (2 * t - 2 * (SCALE as int)) + (2 * q.c.x - 4 * q.b.x) * t,
                SCALE as int,
                10 * COORD_MAX as int * T_MAX as int,
            );
            crate::fx::lemma_div_abs_bound(
                q.a.y * (2 * t - 2 * (SCALE as int)) + (2 * q.c.y - 4 * q.b.y) * t,
                SCALE as int,
                10 * COORD_MAX as int * T_MAX as int,
            );
            assert(10 * COORD_MAX as int * T_MAX as int == 160 * COORD_MAX as int * SCALE as int)
                by (nonlinear_arith);
            vstd::arithmetic::div_mod::lemma_div_multiples_vanish(
                160 * COORD_MAX as int,
                SCALE as int,
            );
        },
    }
}

/// Evaluation endpoints: every curve evaluates to its first point at
/// parameter zero and to its last point at parameter one.
pub proof fn lemma_eval_endpoints(c: Curve)
    ensures
        curve_eval_x(c, 0) == curve_first(c).x,
        curve_eval_y(c, 0) == curve_first(c).y,
        curve_eval_x(c, SCALE as int) == curve_last(c).x,
        curve_eval_y(c, SCALE as int) == curve_last(c).y,
{
    match c {
        Curve::Line(l) => {
            lemma_lerp_zero(l.a.x as int, l.b.x as int);
            lemma_lerp_zero(l.a.y as int, l.b.y as int);
            lemma_lerp_one(l.a.x as int, l.b.x as int);
            lemma_lerp_one(l.a.y as int, l.b.y as int);
        },
        Curve::Quadratic(q) => {
            lemma_lerp_zero(q.a.x as int, q.b.x as int);
            lemma_lerp_zero(q.b.x as int, q.c.x as int);
            lemma_lerp_zero(q.a.y as int, q.b.y as int);
            lemma_lerp_zero(q.b.y as int, q.c.y as int);
            lemma_lerp_zero(
                lerp_fx(q.a.x as int, q.b.x as int, 0),
                lerp_fx(q.b.x as int, q.c.x as int, 0),
            );
            lemma_lerp_zero(
                lerp_fx(q.a.y as int, q.b.y as int, 0),
                lerp_fx(q.b.y as int, q.c.y as int, 0),
            );
            lemma_lerp_one(q.a.x as int, q.b.x as int);
            lemma_lerp_one(q.b.x as int, q.c.x as int);
            lemma_lerp_one(q.a.y as int, q.b.y as int);
            lemma_lerp_one(q.b.y as int, q.c.y as int);
            lemma_lerp_one(
                lerp_fx(q.a.x as int, q.b.x as int, SCALE as int),
                lerp_fx(q.b.x as int, q.c.x as int, SCALE as int),
            );
            lemma_lerp_one(
                lerp_fx(q.a.y as int, q.b.y as int, SCALE as int),
                lerp_fx(q.b.y as int, q.c.y as int, SCALE as int),
            );
        },
    }
}

} // verus!
