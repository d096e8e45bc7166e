//! Quadratic Bezier curves.
//!
//! A quadratic is defined by three control points `a`, `b`, `c`; the
//! middle point `b` is the tangent-intersection point and need not lie on
//! the curve.

use vstd::prelude::*;
use crate::fx::{
    SCALE, COORD_MAX, T_MAX, lerp, lerp_fx, lemma_lerp_abs, lemma_lerp_between, lemma_abs_mul,
    lemma_div_bounds, div_euc, div_euc128, isqrt, isqrt128, icbrt128, sqrt_floor, cbrt_floor,
    ratio, ratio_fx, RATIO_NUM_MAX,
};
use crate::point::{Point, in_coord_range, normal_of, normal_x_of, normal_y_of};
use crate::line::Line;
use crate::curve::{Curve, curve_fix};

verus! {

/// A root that lands exactly on the end of the parameter interval is
/// nudged inward by this amount, so a crossing at a vertex shared with
/// the next curve of a path is not registered twice.
pub const T_NUDGE: i64 = 65;

/// A degree-two Bezier curve with control points `a`, `b`, `c`.
#[derive(Clone, Copy, PartialEq, Eq, Structural, Debug)]
pub struct Quadratic {
    pub a: Point,
    pub b: Point,
    pub c: Point,
}

/// All three control points lie in the accepted coordinate range.
pub open spec fn quad_wf(q: Quadratic) -> bool {
    &&& in_coord_range(q.a)
    &&& in_coord_range(q.b)
    &&& in_coord_range(q.c)
}

/// De Casteljau evaluation of the x coordinate at parameter `t`.
pub open spec fn quad_eval_x(q: Quadratic, t: int) -> int {
    lerp_fx(
        lerp_fx(q.a.x as int, q.b.x as int, t),
        lerp_fx(q.b.x as int, q.c.x as int, t),
        t,
    )
}

/// De Casteljau evaluation of the y coordinate at parameter `t`.
pub open spec fn quad_eval_y(q: Quadratic, t: int) -> int {
    lerp_fx(
        lerp_fx(q.a.y as int, q.b.y as int, t),
        lerp_fx(q.b.y as int, q.c.y as int, t),
        t,
    )
}

/// The three control points are collinear.
pub open spec fn quad_is_line(q: Quadratic) -> bool {
    (q.b.y - q.a.y) * (q.c.x - q.b.x) == (q.c.y - q.b.y) * (q.b.x - q.a.x)
}

/// Derivative of the x coordinate at parameter `t`:
/// `a * (2t - 2) + (2c - 4b) * t + 2b`, carried in fixed-point units.
pub open spec fn quad_deriv_x(q: Quadratic, t: int) -> int {
    (q.a.x * (2 * t - 2 * (SCALE as int)) + (2 * q.c.x - 4 * q.b.x) * t) / (SCALE as int)
        + 2 * q.b.x
}

/// Derivative of the y coordinate at parameter `t`.
pub open spec fn quad_deriv_y(q: Quadratic, t: int) -> int {
    (q.a.y * (2 * t - 2 * (SCALE as int)) + (2 * q.c.y - 4 * q.b.y) * t) / (SCALE as int)
        + 2 * q.b.y
}

/// The two halves of the de Casteljau subdivision at `t`.
pub open spec fn quad_split_at(q: Quadratic, t: int) -> (Quadratic, Quadratic) {
    let d = (Point {
        x: lerp_fx(q.a.x as int, q.b.x as int, t) as i64,
        y: lerp_fx(q.a.y as int, q.b.y as int, t) as i64,
    });
    let e = (Point {
        x: lerp_fx(q.b.x as int, q.c.x as int, t) as i64,
        y: lerp_fx(q.b.y as int, q.c.y as int, t) as i64,
    });
    let f = (Point { x: quad_eval_x(q, t) as i64, y: quad_eval_y(q, t) as i64 });
    ((Quadratic { a: q.a, b: d, c: f }), (Quadratic { a: f, b: e, c: q.c }))
}

/// The middle control point lies strictly outside the vertical span of
/// the endpoints, so the curve has an interior y extremum.
pub open spec fn quad_needs_split(q: Quadratic) -> bool {
    ||| q.b.y > q.a.y && q.b.y > q.c.y
    ||| q.b.y < q.a.y && q.b.y < q.c.y
}

/// Root of the derivative's y component: `(a - b) / (a - 2b + c)` over
/// the y coordinates, as a fixed-point parameter.
pub open spec fn quad_extremum_t(q: Quadratic) -> int {
    ratio_fx(q.a.y - q.b.y, q.a.y - 2 * q.b.y + q.c.y)
}

/// A root landing exactly on the interval end is pulled just inside it.
pub open spec fn nudge_end(t: int) -> int {
    if t == SCALE {
        SCALE - T_NUDGE
    } else {
        t
    }
}

/// Keep a root only if it lies inside the unit parameter interval.
pub open spec fn keep_unit(t: int) -> Seq<i64> {
    if 0 <= t <= SCALE {
        seq![t as i64]
    } else {
        Seq::<i64>::empty()
    }
}

/// The crossings a quadratic reports against a horizontal ray at height
/// `ray`: the roots of `A t^2 + B t + C = 0` built from the y components
/// (`A = a - 2b + c`, `B = 2(b - a)`, `C = a - ray`).  A negative
/// discriminant yields none; a vanishing `A` degenerates to the linear
/// equation (solved exactly rather than left to wrap the division, so a
/// ray through such a curve still lands in the winding count); roots are
/// nudged off the interval end and kept only inside `[0, 1]`.
pub open spec fn quad_crossings(q: Quadratic, ray: int) -> Seq<i64> {
    let ca = q.a.y - 2 * q.b.y + q.c.y;
    let cb = 2 * (q.b.y - q.a.y);
    let cc = q.a.y - ray;
    let delta = cb * cb - 4 * ca * cc;
    if delta < 0 {
        Seq::<i64>::empty()
    } else if ca == 0 && cb == 0 {
        Seq::<i64>::empty()
    } else if ca == 0 {
        keep_unit(nudge_end(ratio_fx(-cc, cb)))
    } else {
        let sq = sqrt_floor(delta as nat) as int;
        keep_unit(nudge_end(ratio_fx(-cb + sq, 2 * ca))) + keep_unit(
            nudge_end(ratio_fx(-cb - sq, 2 * ca)),
        )
    }
}

/// Nudge a root off the exact interval end.
fn nudge(t: i64) -> (r: i64)
    ensures
        r == nudge_end(t as int),
{
    if t == SCALE {
        SCALE - T_NUDGE
    } else {
        t
    }
}

impl Quadratic {
    pub fn new(a: Point, b: Point, c: Point) -> (q: Quadratic)
        ensures
            q.a == a,
            q.b == b,
            q.c == c,
    {
        Quadratic { a, b, c }
    }

    /// Whether the three control points are collinear.
    pub fn is_line(&self) -> (r: bool)
        requires
            quad_wf(*self),
        ensures
            r == quad_is_line(*self),
    {
        proof {
            lemma_abs_mul(
                self.b.y - self.a.y,
                self.c.x - self.b.x,
                2 * COORD_MAX as int,
                2 * COORD_MAX as int,
            );
            lemma_abs_mul(
                self.c.y - self.b.y,
                self.b.x - self.a.x,
                2 * COORD_MAX as int,
                2 * COORD_MAX as int,
            );
            assert((2 * COORD_MAX as int) * (2 * COORD_MAX as int) <= i64::MAX) by (nonlinear_arith);
        }
        (self.b.y - self.a.y) * (self.c.x - self.b.x) == (self.c.y - self.b.y) * (self.b.x
            - self.a.x)
    }

    /// Point at parameter `t`, by two rounds of interpolation; `t` is not
    /// clamped, so extrapolation follows the same formula.
    pub fn t(&self, t: i64) -> (p: Point)
        requires
            quad_wf(*self),
            -T_MAX <= t <= T_MAX,
        ensures
            p.x == quad_eval_x(*self, t as int),
            p.y == quad_eval_y(*self, t as int),
    {
        proof {
            lemma_lerp_abs(self.a.x as int, self.b.x as int, t as int, COORD_MAX as int);
            lemma_lerp_abs(self.b.x as int, self.c.x as int, t as int, COORD_MAX as int);
            lemma_lerp_abs(self.a.y as int, self.b.y as int, t as int, COORD_MAX as int);
            lemma_lerp_abs(self.b.y as int, self.c.y as int, t as int, COORD_MAX as int);
        }
        let d = Point::new(lerp(self.a.x, self.b.x, t), lerp(self.a.y, self.b.y, t));
        let e = Point::new(lerp(self.b.x, self.c.x, t), lerp(self.b.y, self.c.y, t));
        Point::new(lerp(d.x, e.x, t), lerp(d.y, e.y, t))
    }

    /// Bounding box of the three control points, as `(min, max)` corners.
    /// This is a conservative superset of the true curve box (the curve
    /// lies in the convex hull of its control points), kept deliberately:
    /// the renderer only needs a superset test per scanline.
    pub fn bb(&self) -> (r: (Point, Point))
        ensures
            r.0.x == vstd::math::min(
                self.a.x as int,
                vstd::math::min(self.b.x as int, self.c.x as int),
            ),
            r.0.y == vstd::math::min(
                self.a.y as int,
                vstd::math::min(self.b.y as int, self.c.y as int),
            ),
            r.1.x == vstd::math::max(
                self.a.x as int,
                vstd::math::max(self.b.x as int, self.c.x as int),
            ),
            r.1.y == vstd::math::max(
                self.a.y as int,
                vstd::math::max(self.b.y as int, self.c.y as int),
            ),
    {
        let min_x = min2(self.a.x, min2(self.b.x, self.c.x));
        let min_y = min2(self.a.y, min2(self.b.y, self.c.y));
        let max_x = max2(self.a.x, max2(self.b.x, self.c.x));
        let max_y = max2(self.a.y, max2(self.b.y, self.c.y));
        (Point::new(min_x, min_y), Point::new(max_x, max_y))
    }

    pub fn first_point(&self) -> (p: Point)
        ensures
            p == self.a,
    {
        self.a
    }

    pub fn last_point(&self) -> (p: Point)
        ensures
            p == self.c,
    {
        self.c
    }

    /// First derivative at `t`, in fixed-point units.
    pub fn derivative(&self, t: i64) -> (d: Point)
        requires
            quad_wf(*self),
            -T_MAX <= t <= T_MAX,
        ensures
            d.x == quad_deriv_x(*self, t as int),
            d.y == quad_deriv_y(*self, t as int),
    {
        proof {
            lemma_abs_mul(
                self.a.x as int,
                2 * t - 2 * SCALE as int,
                COORD_MAX as int,
                4 * T_MAX as int,
            );
            lemma_abs_mul(
                2 * self.c.x - 4 * self.b.x,
                t as int,
                6 * COORD_MAX as int,
                T_MAX as int,
            );
            lemma_abs_mul(
                self.a.y as int,
                2 * t - 2 * SCALE as int,
                COORD_MAX as int,
                4 * T_MAX as int,
            );
            lemma_abs_mul(
                2 * self.c.y - 4 * self.b.y,
                t as int,
                6 * COORD_MAX as int,
                T_MAX as int,
            );
            lemma_div_bounds(
                self.a.x * (2 * t - 2 * SCALE as int) + (2 * self.c.x - 4 * self.b.x) * t,
                SCALE as int,
                -10 * COORD_MAX as int * T_MAX as int,
                10 * COORD_MAX as int * T_MAX as int,
            );
            lemma_div_bounds(
                self.a.y * (2 * t - 2 * SCALE as int) + (2 * self.c.y - 4 * self.b.y) * t,
                SCALE as int,
                -10 * COORD_MAX as int * T_MAX as int,
                10 * COORD_MAX as int * T_MAX as int,
            );
        }
        let nx = self.a.x * (2 * t - 2 * SCALE) + (2 * self.c.x - 4 * self.b.x) * t;
        let ny = self.a.y * (2 * t - 2 * SCALE) + (2 * self.c.y - 4 * self.b.y) * t;
        Point::new(div_euc(nx, SCALE) + 2 * self.b.x, div_euc(ny, SCALE) + 2 * self.b.y)
    }

    /// Second derivative: the constant vector `2 (c - 2b + a)`.
    pub fn second_derivative(&self, _t: i64) -> (d: Point)
        requires
            quad_wf(*self),
        ensures
            d.x == 2 * (self.c.x - 2 * self.b.x + self.a.x),
            d.y == 2 * (self.c.y - 2 * self.b.y + self.a.y),
    {
        Point::new(
            2 * (self.c.x - 2 * self.b.x + self.a.x),
            2 * (self.c.y - 2 * self.b.y + self.a.y),
        )
    }

    /// De Casteljau subdivision at `t`: two quadratics sharing the
    /// evaluated point.
    pub fn split(&self, t: i64) -> (r: (Quadratic, Quadratic))
        requires
            quad_wf(*self),
            -T_MAX <= t <= T_MAX,
        ensures
            r == quad_split_at(*self, t as int),
            r.0.a == self.a,
            r.1.c == self.c,
            r.0.c == r.1.a,
            r.1.a.x == quad_eval_x(*self, t as int),
            r.1.a.y == quad_eval_y(*self, t as int),
    {
        proof {
            lemma_lerp_abs(self.a.x as int, self.b.x as int, t as int, COORD_MAX as int);
            lemma_lerp_abs(self.b.x as int, self.c.x as int, t as int, COORD_MAX as int);
            lemma_lerp_abs(self.a.y as int, self.b.y as int, t as int, COORD_MAX as int);
            lemma_lerp_abs(self.b.y as int, self.c.y as int, t as int, COORD_MAX as int);
        }
        let d = Point::new(lerp(self.a.x, self.b.x, t), lerp(self.a.y, self.b.y, t));
        let e = Point::new(lerp(self.b.x, self.c.x, t), lerp(self.b.y, self.c.y, t));
        let f = Point::new(lerp(d.x, e.x, t), lerp(d.y, e.y, t));
        (Quadratic { a: self.a, b: d, c: f }, Quadratic { a: f, b: e, c: self.c })
    }

    /// Translate the control polygon along the per-endpoint unit
    /// normals (the single-segment offset step).
    pub fn trans_ctrl_poly(&self, dist: i64) -> (r: Quadratic)
        requires
            quad_wf(*self),
            -COORD_MAX <= dist <= COORD_MAX,
        ensures
            r == quad_trans(*self, dist as int),
    {
        let d0 = self.derivative(0);
        let d1 = self.derivative(SCALE);
        if (d0.x == 0 && d0.y == 0) || (d1.x == 0 && d1.y == 0) {
            return *self;
        }
        proof {
            crate::curve::lemma_deriv_bounds(crate::curve::Curve::Quadratic(*self), 0);
            crate::curve::lemma_deriv_bounds(
                crate::curve::Curve::Quadratic(*self),
                SCALE as int,
            );
        }
        let n0 = normal_of(d0.x, d0.y);
        let n1 = normal_of(d1.x, d1.y);
        let nx = n0.x + n1.x;
        let ny = n0.y + n1.y;
        proof {
            lemma_abs_mul(nx as int, nx as int, 2 * SCALE as int, 2 * SCALE as int);
            lemma_abs_mul(ny as int, ny as int, 2 * SCALE as int, 2 * SCALE as int);
            assert((2 * SCALE as int) * (2 * SCALE as int) == 17179869184) by (nonlinear_arith);
        }
        let dot = nx * nx + ny * ny;
        if dot < SCALE {
            return *self;
        }
        proof {
            lemma_abs_mul(dist as int, n0.x as int, COORD_MAX as int, SCALE as int);
            lemma_abs_mul(dist as int, n0.y as int, COORD_MAX as int, SCALE as int);
            lemma_abs_mul(dist as int, n1.x as int, COORD_MAX as int, SCALE as int);
            lemma_abs_mul(dist as int, n1.y as int, COORD_MAX as int, SCALE as int);
            lemma_div_bounds(
                dist as int * n0.x as int,
                SCALE as int,
                -(COORD_MAX as int * SCALE as int),
                COORD_MAX as int * SCALE as int,
            );
            lemma_div_bounds(
                dist as int * n0.y as int,
                SCALE as int,
                -(COORD_MAX as int * SCALE as int),
                COORD_MAX as int * SCALE as int,
            );
            lemma_div_bounds(
                dist as int * n1.x as int,
                SCALE as int,
                -(COORD_MAX as int * SCALE as int),
                COORD_MAX as int * SCALE as int,
            );
            lemma_div_bounds(
                dist as int * n1.y as int,
                SCALE as int,
                -(COORD_MAX as int * SCALE as int),
                COORD_MAX as int * SCALE as int,
            );
            lemma_abs_mul(2 * dist as int, nx as int, 2 * COORD_MAX as int, 2 * SCALE as int);
            lemma_abs_mul(2 * dist as int, ny as int, 2 * COORD_MAX as int, 2 * SCALE as int);
            lemma_abs_mul(
                2 * dist as int * nx as int,
                SCALE as int,
                2 * COORD_MAX as int * (2 * SCALE as int),
                SCALE as int,
            );
            lemma_abs_mul(
                2 * dist as int * ny as int,
                SCALE as int,
                2 * COORD_MAX as int * (2 * SCALE as int),
                SCALE as int,
            );
            lemma_div_bounds(
                2 * dist as int * nx as int * SCALE as int,
                dot as int,
                -(2 * COORD_MAX as int * (2 * SCALE as int) * SCALE as int),
                2 * COORD_MAX as int * (2 * SCALE as int) * SCALE as int,
            );
            lemma_div_bounds(
                2 * dist as int * ny as int * SCALE as int,
                dot as int,
                -(2 * COORD_MAX as int * (2 * SCALE as int) * SCALE as int),
                2 * COORD_MAX as int * (2 * SCALE as int) * SCALE as int,
            );
            assert(2 * COORD_MAX as int * (2 * SCALE as int) * SCALE as int
                == 4611686018427387904) by (nonlinear_arith);
        }
        let ox0 = div_euc(dist * n0.x, SCALE);
        let oy0 = div_euc(dist * n0.y, SCALE);
        let ox1 = div_euc(dist * n1.x, SCALE);
        let oy1 = div_euc(dist * n1.y, SCALE);
        let obx = div_euc128(
            2 * (dist as i128) * (nx as i128) * (SCALE as i128),
            dot as i128,
        ) as i64;
        let oby = div_euc128(
            2 * (dist as i128) * (ny as i128) * (SCALE as i128),
            dot as i128,
        ) as i64;
        Quadratic {
            a: Point::new(self.a.x + ox0, self.a.y + oy0),
            b: Point::new(self.b.x + obx, self.b.y + oby),
            c: Point::new(self.c.x + ox1, self.c.y + oy1),
        }
    }

    /// Offset ("parallel") curve: the quadratic is first split at the
    /// two estimated parameters where the offset of a single segment
    /// would degrade (when they fall inside the unit interval), each
    /// piece is split once more where the local turning angle reaches
    /// the tolerance, and every resulting segment's control polygon is
    /// translated along its endpoint normals.
    pub fn parallel(&self, dist: i64) -> (r: Vec<Quadratic>)
        requires
            quad_wf(*self),
            -COORD_MAX <= dist <= COORD_MAX,
        ensures
            r@ =~= quad_parallel_spec(*self, dist as int),
            r@.len() >= 1,
    {
        proof {
            lemma_par_bounds(*self, dist as int);
        }
        let ax = 2 * self.a.x + 2 * self.c.x - 4 * self.b.x;
        let ay = 2 * self.a.y + 2 * self.c.y - 4 * self.b.y;
        let bx = 2 * self.b.x - 2 * self.a.x;
        let by = 2 * self.b.y - 2 * self.a.y;
        let axw = ax as i128;
        let ayw = ay as i128;
        let bxw = bx as i128;
        let byw = by as i128;
        let cross = bxw * ayw - axw * byw;
        let v = cross * (dist as i128);
        let va = if v < 0 {
            -v
        } else {
            v
        };
        let u = icbrt128(va as u128) as i128;
        let aa = axw * axw + ayw * ayw;
        let dotab = axw * bxw + ayw * byw;
        let bb2 = bxw * bxw + byw * byw;
        let axay = axw * ayw;
        let bxby = bxw * byw;
        let axax = axw * axw;
        let ayay = ayw * ayw;
        let bxbx = bxw * bxw;
        let byby = byw * byw;
        let uu = u * u;
        let root_arg = 2 * (axay * bxby) - axax * byby - bxbx * ayay + (axax + ayay) * uu;
        let ghost gq = *self;
        let ghost gdist = dist as int;
        proof {
            assert(u == par_cbrt(gq, gdist));
            assert(root_arg == par_root_arg(gq, gdist));
        }
        let mut segs: Vec<Quadratic> = Vec::new();
        if aa > 0 && root_arg >= 0 {
            let root = isqrt128(root_arg as u128);
            proof {
                assert(root as int == sqrt_floor(par_root_arg(gq, gdist) as nat));
                assert(root <= 11300000000000000000u128) by (nonlinear_arith)
                    requires (root as int) * (root as int) <= root_arg, root_arg
                        <= 127605887595351923798765477786913079296;
                lemma_abs_mul(
                    -(dotab as int) + root as int,
                    SCALE as int,
                    20523372036854775808,
                    SCALE as int,
                );
                lemma_abs_mul(
                    -(dotab as int) - root as int,
                    SCALE as int,
                    20523372036854775808,
                    SCALE as int,
                );
            }
            let rw = root as i128;
            let t1w = div_euc128((-dotab + rw) * (SCALE as i128), aa);
            let t2w = div_euc128((-dotab - rw) * (SCALE as i128), aa);
            if 0 < t1w && t1w < (SCALE as i128) {
                let h = self.split(t1w as i64);
                proof {
                    lemma_split_wf(gq, t1w as int);
                }
                segs.push(h.0);
                segs.push(h.1);
            }
            if 0 < t2w && t2w < (SCALE as i128) {
                let h = self.split(t2w as i64);
                proof {
                    lemma_split_wf(gq, t2w as int);
                }
                segs.push(h.0);
                segs.push(h.1);
            }
        }
        if segs.len() == 0 {
            segs.push(*self);
        }
        proof {
            assert(segs@ =~= par_segments(gq, gdist));
            assert(forall|j: int| 0 <= j < segs@.len() ==> quad_wf(#[trigger] segs@[j]));
        }
        let cross2 = axw * byw - ayw * bxw;
        let c2a = if cross2 < 0 {
            -cross2
        } else {
            cross2
        };
        proof {
            lemma_abs_mul(c2a as int, SCALE as int, 9223372036854775808, SCALE as int);
            lemma_abs_mul(M_TAN as int, dotab as int, M_TAN as int, 9223372036854775808);
            lemma_abs_mul(M_TAN as int, bb2 as int, M_TAN as int, 9223372036854775808);
            lemma_abs_mul(
                M_TAN as int * bb2 as int,
                SCALE as int,
                M_TAN as int * 9223372036854775808,
                SCALE as int,
            );
        }
        let tden = c2a * (SCALE as i128) - (M_TAN as i128) * dotab;
        let mut has_ts = false;
        let mut ts: i64 = 0;
        if tden > 0 {
            let tsw = div_euc128((M_TAN as i128) * bb2 * (SCALE as i128), tden);
            if 0 < tsw && tsw < (SCALE as i128) {
                has_ts = true;
                ts = tsw as i64;
            }
        }
        proof {
            assert(has_ts == (0 < par_ts(gq) < SCALE));
            assert(has_ts ==> ts == par_ts(gq));
        }
        let mut out: Vec<Quadratic> = Vec::new();
        let mut k: usize = 0;
        while k < segs.len()
            invariant
                quad_wf(gq),
                gq == *self,
                gdist == dist as int,
                -COORD_MAX <= dist <= COORD_MAX,
                k <= segs@.len(),
                segs@ =~= par_segments(gq, gdist),
                forall|j: int| 0 <= j < segs@.len() ==> quad_wf(#[trigger] segs@[j]),
                has_ts == (0 < par_ts(gq) < SCALE),
                has_ts ==> ts == par_ts(gq) && 0 < ts < SCALE,
                out@ =~= par_pieces(gq, gdist, segs@, k as int),
                out@.len() >= k,
            decreases segs@.len() - k,
        {
            let seg = segs[k];
            if has_ts {
                let h = seg.split(ts);
                proof {
                    lemma_split_wf(seg, ts as int);
                }
                out.push(h.0.trans_ctrl_poly(dist));
                out.push(h.1.trans_ctrl_poly(dist));
            } else {
                out.push(seg.trans_ctrl_poly(dist));
            }
            k += 1;
        }
        out
    }

    /// Degeneracy pass.  A quadratic whose middle control point lies
    /// strictly outside the vertical span of its endpoints contains an
    /// interior y extremum and is split there, so that each piece is
    /// monotonic in y; a collinear control polygon degenerates to the
    /// line `(a, c)`, recursively passed through the line rule; any
    /// other quadratic is returned unchanged as the single element.
    pub fn fix(&self) -> (r: Vec<Curve>)
        requires
            quad_wf(*self),
        ensures
            r@ =~= curve_fix(Curve::Quadratic(*self)),
    {
        let mut out: Vec<Curve> = Vec::new();
        let above = self.b.y > self.a.y && self.b.y > self.c.y;
        let below = self.b.y < self.a.y && self.b.y < self.c.y;
        if above || below {
            proof {
                lemma_extremum_in_unit(*self);
            }
            let t = ratio(self.a.y - self.b.y, self.a.y - 2 * self.b.y + self.c.y);
            let halves = self.split(t);
            out.push(Curve::Quadratic(halves.0));
            out.push(Curve::Quadratic(halves.1));
        } else if self.is_line() {
            let fixed = Line::new(self.a, self.c).fix();
            if fixed.len() > 0 {
                out.push(Curve::Line(fixed[0]));
            }
        } else {
            out.push(Curve::Quadratic(*self));
        }
        out
    }

    /// Crossing parameters with the horizontal line at height `ray_y`:
    /// at most two entries, exactly the `quad_crossings` sequence.
    pub fn intersections(&self, ray_y: i64) -> (r: Vec<i64>)
        requires
            quad_wf(*self),
            -COORD_MAX <= ray_y <= COORD_MAX,
        ensures
            r@ =~= quad_crossings(*self, ray_y as int),
            r@.len() <= 2,
            forall|k: int| 0 <= k < r@.len() ==> 0 <= #[trigger] r@[k] <= SCALE,
    {
        let ca = self.a.y - 2 * self.b.y + self.c.y;
        let cb = 2 * (self.b.y - self.a.y);
        let cc = self.a.y - ray_y;
        proof {
            lemma_abs_mul(cb as int, cb as int, 4 * COORD_MAX as int, 4 * COORD_MAX as int);
            lemma_abs_mul(4 * ca as int, cc as int, 16 * COORD_MAX as int, 2 * COORD_MAX as int);
        }
        let delta = cb * cb - (4 * ca) * cc;
        let mut out: Vec<i64> = Vec::new();
        if delta < 0 {
            return out;
        }
        if ca == 0 {
            if cb == 0 {
                return out;
            }
            let t = nudge(ratio(-cc, cb));
            if 0 <= t && t <= SCALE {
                out.push(t);
            }
            return out;
        }
        let sq_wide = isqrt(delta as u64);
        proof {
            assert(sq_wide < 4294967296) by (nonlinear_arith)
                requires
                    sq_wide * sq_wide <= delta as u64,
                    delta as u64 <= 4611686018427387904,
            ;
        }
        let sq = sq_wide as i64;
        let t1 = nudge(ratio(-cb + sq, 2 * ca));
        let t2 = nudge(ratio(-cb - sq, 2 * ca));
        if 0 <= t1 && t1 <= SCALE {
            out.push(t1);
        }
        if 0 <= t2 && t2 <= SCALE {
            out.push(t2);
        }
        out
    }
}

/// The tangent of the turning-angle tolerance used by the offset-curve
/// subdivision (one radian), in fixed-point units; an empirical constant.
pub const M_TAN: i64 = 102066;

/// The control polygon translated along the per-endpoint unit normals:
/// the endpoints move `dist` along their own normals, the middle control
/// point by `2 dist n / (n . n)` where `n` is the sum of the endpoint
/// normals.  Degenerate configurations (a vanishing endpoint derivative,
/// or nearly opposite normals) leave the curve in place, where the exact
/// formula would divide by nothing.
pub open spec fn quad_trans(q: Quadratic, dist: int) -> Quadratic {
    let d0x = quad_deriv_x(q, 0);
    let d0y = quad_deriv_y(q, 0);
    let d1x = quad_deriv_x(q, SCALE as int);
    let d1y = quad_deriv_y(q, SCALE as int);
    if (d0x == 0 && d0y == 0) || (d1x == 0 && d1y == 0) {
        q
    } else {
        let n0x = normal_x_of(d0x, d0y);
        let n0y = normal_y_of(d0x, d0y);
        let n1x = normal_x_of(d1x, d1y);
        let n1y = normal_y_of(d1x, d1y);
        let nx = n0x + n1x;
        let ny = n0y + n1y;
        let dot = nx * nx + ny * ny;
        if dot < SCALE {
            q
        } else {
            (Quadratic {
                a: (Point {
                    x: (q.a.x + (dist * n0x) / (SCALE as int)) as i64,
                    y: (q.a.y + (dist * n0y) / (SCALE as int)) as i64,
                }),
                b: (Point {
                    x: (q.b.x + (2 * dist * nx * SCALE) / dot) as i64,
                    y: (q.b.y + (2 * dist * ny * SCALE) / dot) as i64,
                }),
                c: (Point {
                    x: (q.c.x + (dist * n1x) / (SCALE as int)) as i64,
                    y: (q.c.y + (dist * n1y) / (SCALE as int)) as i64,
                }),
            })
        }
    }
}

/// Coefficient vectors of the offset-parameter estimates: the quadratic
/// rewritten as `A t^2 + B t + a` with `A = 2a + 2c - 4b`, `B = 2b - 2a`.
pub open spec fn par_ax(q: Quadratic) -> int {
    2 * q.a.x + 2 * q.c.x - 4 * q.b.x
}

pub open spec fn par_ay(q: Quadratic) -> int {
    2 * q.a.y + 2 * q.c.y - 4 * q.b.y
}

pub open spec fn par_bx(q: Quadratic) -> int {
    2 * q.b.x - 2 * q.a.x
}

pub open spec fn par_by(q: Quadratic) -> int {
    2 * q.b.y - 2 * q.a.y
}

pub open spec fn par_dot(q: Quadratic) -> int {
    par_ax(q) * par_bx(q) + par_ay(q) * par_by(q)
}

pub open spec fn par_aa(q: Quadratic) -> int {
    par_ax(q) * par_ax(q) + par_ay(q) * par_ay(q)
}

pub open spec fn par_bb(q: Quadratic) -> int {
    par_bx(q) * par_bx(q) + par_by(q) * par_by(q)
}

/// Cube-root term of the offset-parameter estimate, with floor rounding.
pub open spec fn par_cbrt(q: Quadratic, dist: int) -> int {
    let cross = par_bx(q) * par_ay(q) - par_ax(q) * par_by(q);
    let v = cross * dist;
    cbrt_floor((if v < 0 {
        -v
    } else {
        v
    }) as nat) as int
}

/// Radicand of the square root in the offset-parameter estimate.
pub open spec fn par_root_arg(q: Quadratic, dist: int) -> int {
    let u = par_cbrt(q, dist);
    2 * ((par_ax(q) * par_ay(q)) * (par_bx(q) * par_by(q))) - (par_ax(q) * par_ax(q)) * (
    par_by(q) * par_by(q)) - (par_bx(q) * par_bx(q)) * (par_ay(q) * par_ay(q)) + (par_ax(q)
        * par_ax(q) + par_ay(q) * par_ay(q)) * (u * u)
}

/// Whether the two candidate split parameters are defined at all.
pub open spec fn par_splits_ok(q: Quadratic, dist: int) -> bool {
    par_aa(q) > 0 && par_root_arg(q, dist) >= 0
}

pub open spec fn par_t1(q: Quadratic, dist: int) -> int {
    ((-par_dot(q) + sqrt_floor(par_root_arg(q, dist) as nat)) * SCALE) / par_aa(q)
}

pub open spec fn par_t2(q: Quadratic, dist: int) -> int {
    ((-par_dot(q) - sqrt_floor(par_root_arg(q, dist) as nat)) * SCALE) / par_aa(q)
}

/// Parameter at which the local turning angle reaches the tolerance, or
/// `-1` when the estimate's denominator is not positive (no subdivision).
pub open spec fn par_ts(q: Quadratic) -> int {
    let cross = par_ax(q) * par_by(q) - par_ay(q) * par_bx(q);
    let den = (if cross < 0 {
        -cross
    } else {
        cross
    }) * SCALE - M_TAN * par_dot(q);
    if den > 0 {
        (M_TAN * par_bb(q) * SCALE) / den
    } else {
        -1
    }
}

/// Sub-segments to translate: the curve split at each in-range candidate
/// parameter, or the whole curve when neither candidate applies.
pub open spec fn par_segments(q: Quadratic, dist: int) -> Seq<Quadratic> {
    let s1 = if par_splits_ok(q, dist) && 0 < par_t1(q, dist) < SCALE {
        seq![
            quad_split_at(q, par_t1(q, dist)).0,
            quad_split_at(q, par_t1(q, dist)).1,
        ]
    } else {
        Seq::<Quadratic>::empty()
    };
    let s2 = if par_splits_ok(q, dist) && 0 < par_t2(q, dist) < SCALE {
        seq![
            quad_split_at(q, par_t2(q, dist)).0,
            quad_split_at(q, par_t2(q, dist)).1,
        ]
    } else {
        Seq::<Quadratic>::empty()
    };
    let segs = s1 + s2;
    if segs.len() == 0 {
        seq![q]
    } else {
        segs
    }
}

/// One sub-segment's translated pieces: split once more at the
/// turning-angle parameter when it falls inside the unit interval.
pub open spec fn par_expand(q: Quadratic, dist: int, seg: Quadratic) -> Seq<Quadratic> {
    if 0 < par_ts(q) < SCALE {
        seq![
            quad_trans(quad_split_at(seg, par_ts(q)).0, dist),
            quad_trans(quad_split_at(seg, par_ts(q)).1, dist),
        ]
    } else {
        seq![quad_trans(seg, dist)]
    }
}

/// Translated pieces of the first `k` sub-segments.
pub open spec fn par_pieces(q: Quadratic, dist: int, segs: Seq<Quadratic>, k: int) -> Seq<
    Quadratic,
>
    decreases k,
{
    if k <= 0 {
        Seq::<Quadratic>::empty()
    } else {
        par_pieces(q, dist, segs, k - 1) + par_expand(q, dist, segs[k - 1])
    }
}

/// The whole offset approximation of a quadratic.
pub open spec fn quad_parallel_spec(q: Quadratic, dist: int) -> Seq<Quadratic> {
    par_pieces(q, dist, par_segments(q, dist), par_segments(q, dist).len() as int)
}

/// Split consistency: the subdivision keeps the outer endpoints of the
/// original curve, and the two halves share exactly the point the
/// original curve evaluates to at the split parameter.
pub proof fn lemma_split_consistency(q: Quadratic, t: int)
    ensures
        quad_split_at(q, t).0.a == q.a,
        quad_split_at(q, t).1.c == q.c,
        quad_split_at(q, t).0.c == quad_split_at(q, t).1.a,
        quad_split_at(q, t).1.a.x == quad_eval_x(q, t) as i64,
        quad_split_at(q, t).1.a.y == quad_eval_y(q, t) as i64,
{
}

/// Subdivision inside the unit interval keeps both halves inside the
/// accepted coordinate range.
pub proof fn lemma_split_wf(q: Quadratic, t: int)
    requires
        quad_wf(q),
        0 <= t <= SCALE,
    ensures
        quad_wf(quad_split_at(q, t).0),
        quad_wf(quad_split_at(q, t).1),
{
    lemma_lerp_between(q.a.x as int, q.b.x as int, t);
    lemma_lerp_between(q.a.y as int, q.b.y as int, t);
    lemma_lerp_between(q.b.x as int, q.c.x as int, t);
    lemma_lerp_between(q.b.y as int, q.c.y as int, t);
    lemma_lerp_between(
        lerp_fx(q.a.x as int, q.b.x as int, t),
        lerp_fx(q.b.x as int, q.c.x as int, t),
        t,
    );
    lemma_lerp_between(
        lerp_fx(q.a.y as int, q.b.y as int, t),
        lerp_fx(q.b.y as int, q.c.y as int, t),
        t,
    );
}

/// Every intermediate of the offset-parameter estimates stays inside
/// `i128` for well-formed curves and bounded distances.
pub proof fn lemma_par_bounds(q: Quadratic, dist: int)
    requires
        quad_wf(q),
        -COORD_MAX <= dist <= COORD_MAX,
    ensures
        -2147483648 <= par_ax(q) <= 2147483648,
        -2147483648 <= par_ay(q) <= 2147483648,
        -2147483648 <= par_bx(q) <= 2147483648,
        -2147483648 <= par_by(q) <= 2147483648,
        -9223372036854775808 <= par_dot(q) <= 9223372036854775808,
        0 <= par_aa(q) <= 9223372036854775808,
        0 <= par_bb(q) <= 9223372036854775808,
        -9223372036854775808 <= par_bx(q) * par_ay(q) - par_ax(q) * par_by(q)
            <= 9223372036854775808,
        -9223372036854775808 <= par_ax(q) * par_by(q) - par_ay(q) * par_bx(q)
            <= 9223372036854775808,
        0 <= par_cbrt(q, dist) <= 2147483648,
        -127605887595351923798765477786913079296 <= par_root_arg(q, dist)
            <= 127605887595351923798765477786913079296,
        -4611686018427387904 <= par_ax(q) * par_ax(q) <= 4611686018427387904,
        -4611686018427387904 <= par_ay(q) * par_ay(q) <= 4611686018427387904,
        -4611686018427387904 <= par_bx(q) * par_bx(q) <= 4611686018427387904,
        -4611686018427387904 <= par_by(q) * par_by(q) <= 4611686018427387904,
        -4611686018427387904 <= par_ax(q) * par_ay(q) <= 4611686018427387904,
        -4611686018427387904 <= par_bx(q) * par_by(q) <= 4611686018427387904,
        -4611686018427387904 <= par_ax(q) * par_bx(q) <= 4611686018427387904,
        -4611686018427387904 <= par_ay(q) * par_by(q) <= 4611686018427387904,
        -4611686018427387904 <= par_bx(q) * par_ay(q) <= 4611686018427387904,
        -4611686018427387904 <= par_ax(q) * par_by(q) <= 4611686018427387904,
        0 <= par_cbrt(q, dist) * par_cbrt(q, dist) <= 4611686018427387904,
        -2475880078570760549798248448 <= (par_bx(q) * par_ay(q) - par_ax(q) * par_by(q)) * dist
            <= 2475880078570760549798248448,
        ({
            let b2 = 21267647932558653966460912964485513216int;
            let u = par_cbrt(q, dist);
            -b2 <= (par_ax(q) * par_ay(q)) * (par_bx(q) * par_by(q)) <= b2 && -b2 <= (par_ax(q)
                * par_ax(q)) * (par_by(q) * par_by(q)) <= b2 && -b2 <= (par_bx(q) * par_bx(q)) * (
            par_ay(q) * par_ay(q)) <= b2 && -2 * b2 <= (par_ax(q) * par_ax(q) + par_ay(q)
                * par_ay(q)) * (u * u) <= 2 * b2
        }),
{
    let p = 2147483648int;
    let p2 = 4611686018427387904int;
    let ax = par_ax(q);
    let ay = par_ay(q);
    let bx = par_bx(q);
    let by = par_by(q);
    assert(-p <= ax <= p && -p <= ay <= p && -p <= bx <= p && -p <= by <= p);
    assert(-p2 <= ax * bx <= p2 && -p2 <= ay * by <= p2 && -p2 <= ax * ax <= p2 && -p2 <= ay
        * ay <= p2 && -p2 <= bx * bx <= p2 && -p2 <= by * by <= p2 && -p2 <= ax * ay <= p2
        && -p2 <= bx * by <= p2 && -p2 <= bx * ay <= p2 && -p2 <= ax * by <= p2 && 0 <= ax * ax
        && 0 <= ay * ay && 0 <= bx * bx && 0 <= by * by) by (nonlinear_arith)
        requires -p <= ax <= p, -p <= ay <= p, -p <= bx <= p, -p <= by <= p, p == 2147483648,
            p2 == 4611686018427387904;
    let cross = bx * ay - ax * by;
    let v = cross * dist;
    let va = if v < 0 { -v } else { v };
    assert(va <= 2475880078570760549798248448) by (nonlinear_arith)
        requires -9223372036854775808 <= cross <= 9223372036854775808, -268435456 <= dist
            <= 268435456, v == cross * dist, va == if v < 0 { -v } else { v };
    crate::fx::lemma_cbrt_floor(va as nat);
    let u = cbrt_floor(va as nat) as int;
    assert(u <= p) by (nonlinear_arith)
        requires u >= 0, u * u * u <= va, va <= 2475880078570760549798248448, p == 2147483648;
    assert(0 <= u * u <= p2) by (nonlinear_arith)
        requires 0 <= u <= p, p == 2147483648, p2 == 4611686018427387904;
    let b2 = 21267647932558653966460912964485513216int;
    assert(-b2 <= (ax * ay) * (bx * by) <= b2 && -b2 <= (ax * ax) * (by * by) <= b2 && -b2 <= (bx
        * bx) * (ay * ay) <= b2 && -2 * b2 <= (ax * ax + ay * ay) * (u * u) <= 2 * b2)
        by (nonlinear_arith)
        requires -p2 <= ax * ay <= p2, -p2 <= bx * by <= p2, -p2 <= ax * ax <= p2, -p2 <= by
            * by <= p2, -p2 <= bx * bx <= p2, -p2 <= ay * ay <= p2, 0 <= u * u <= p2, 0 <= ax
            * ax, 0 <= ay * ay, p2 == 4611686018427387904, b2
            == 21267647932558653966460912964485513216;
}

/// For a quadratic with an interior y extremum, the extremum parameter
/// lies inside the unit interval.
pub proof fn lemma_extremum_in_unit(q: Quadratic)
    requires
        quad_wf(q),
        quad_needs_split(q),
    ensures
        0 <= quad_extremum_t(q) <= SCALE,
        q.a.y - 2 * q.b.y + q.c.y != 0,
{
    let s = SCALE as int;
    let num = q.a.y - q.b.y;
    let den = q.a.y - 2 * q.b.y + q.c.y;
    if q.b.y < q.a.y && q.b.y < q.c.y {
        assert(den > 0);
        assert(0 < num <= den);
        vstd::arithmetic::div_mod::lemma_div_pos_is_pos(num * s, den);
        vstd::arithmetic::div_mod::lemma_div_is_ordered(num * s, s * den, den);
        vstd::arithmetic::div_mod::lemma_div_multiples_vanish(s, den);
    } else {
        assert(den < 0);
        assert(0 < -num <= -den);
        vstd::arithmetic::div_mod::lemma_div_pos_is_pos((-num) * s, -den);
        vstd::arithmetic::div_mod::lemma_div_is_ordered((-num) * s, s * (-den), -den);
        vstd::arithmetic::div_mod::lemma_div_multiples_vanish(s, -den);
    }
}

/// Smaller of two fixed-point values.
pub fn min2(a: i64, b: i64) -> (r: i64)
    ensures
        r == vstd::math::min(a as int, b as int),
{
    if a <= b {
        a
    } else {
        b
    }
}

/// Larger of two fixed-point values.
pub fn max2(a: i64, b: i64) -> (r: i64)
    ensures
        r == vstd::math::max(a as int, b as int),
{
    if a <= b {
        b
    } else {
        a
    }
}

} // verus!
