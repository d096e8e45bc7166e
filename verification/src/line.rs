//! Straight segments (degree-one Bezier curves).

use vstd::prelude::*;
use crate::fx::{SCALE, COORD_MAX, T_MAX, lerp, lerp_fx, div_euc, lemma_abs_mul};
use crate::point::{
    Point, in_coord_range, normal_of, normal_x_of, normal_y_of,
};

verus! {

/// A straight segment from `a` to `b`.
#[derive(Clone, Copy, PartialEq, Eq, Structural, Debug)]
pub struct Line {
    pub a: Point,
    pub b: Point,
}

/// Both endpoints lie in the accepted coordinate range.
pub open spec fn line_wf(l: Line) -> bool {
    &&& in_coord_range(l.a)
    &&& in_coord_range(l.b)
}

/// Parameter at which `l` crosses the horizontal line at height `ray`,
/// in fixed-point units (meaningful only when the endpoint heights differ;
/// both branches divide by a positive denominator).
pub open spec fn line_cross_t(l: Line, ray: int) -> int {
    if l.b.y > l.a.y {
        ((ray - l.a.y) * (SCALE as int)) / (l.b.y - l.a.y)
    } else {
        ((l.a.y - ray) * (SCALE as int)) / (l.a.y - l.b.y)
    }
}

/// The crossings a line reports against a horizontal ray: none for a
/// horizontal line, none when the ray's height misses the segment's
/// vertical extent (the floor rounding of the crossing parameter must
/// not pull a ray from just beyond an endpoint onto it), otherwise the
/// single crossing parameter if it falls inside `[0, 1]`.
pub open spec fn line_crossings(l: Line, ray: int) -> Seq<i64> {
    if l.a.y == l.b.y {
        Seq::<i64>::empty()
    } else if ray < vstd::math::min(l.a.y as int, l.b.y as int) || ray > vstd::math::max(
        l.a.y as int,
        l.b.y as int,
    ) {
        Seq::<i64>::empty()
    } else if 0 <= line_cross_t(l, ray) <= SCALE {
        seq![line_cross_t(l, ray) as i64]
    } else {
        Seq::<i64>::empty()
    }
}

/// The control polygon of `l` translated `dist` along the line's unit
/// normal (the normal is constant along a line, so both endpoints move
/// by the same offset).
pub open spec fn line_trans(l: Line, dist: int) -> Line {
    let dx = l.b.x - l.a.x;
    let dy = l.b.y - l.a.y;
    let ox = (dist * normal_x_of(dx, dy)) / (SCALE as int);
    let oy = (dist * normal_y_of(dx, dy)) / (SCALE as int);
    (Line {
        a: (Point { x: (l.a.x + ox) as i64, y: (l.a.y + oy) as i64 }),
        b: (Point { x: (l.b.x + ox) as i64, y: (l.b.y + oy) as i64 }),
    })
}

impl Line {
    pub fn new(a: Point, b: Point) -> (l: Line)
        ensures
            l.a == a,
            l.b == b,
    {
        Line { a, b }
    }

    /// Point at parameter `t`; `t` is not clamped to `[0, SCALE]`, so
    /// extrapolation follows the same interpolation formula.
    pub fn t(&self, t: i64) -> (p: Point)
        requires
            line_wf(*self),
            -T_MAX <= t <= T_MAX,
        ensures
            p.x == lerp_fx(self.a.x as int, self.b.x as int, t as int),
            p.y == lerp_fx(self.a.y as int, self.b.y as int, t as int),
    {
        Point::new(lerp(self.a.x, self.b.x, t), lerp(self.a.y, self.b.y, t))
    }

    /// Exact bounding box of the two endpoints, as `(min, max)` corners.
    pub fn bb(&self) -> (r: (Point, Point))
        ensures
            r.0.x == vstd::math::min(self.a.x as int, self.b.x as int),
            r.0.y == vstd::math::min(self.a.y as int, self.b.y as int),
            r.1.x == vstd::math::max(self.a.x as int, self.b.x as int),
            r.1.y == vstd::math::max(self.a.y as int, self.b.y as int),
    {
        let min_x = if self.a.x <= self.b.x { self.a.x } else { self.b.x };
        let min_y = if self.a.y <= self.b.y { self.a.y } else { self.b.y };
        let max_x = if self.a.x <= self.b.x { self.b.x } else { self.a.x };
        let max_y = if self.a.y <= self.b.y { self.b.y } else { self.a.y };
        (Point::new(min_x, min_y), Point::new(max_x, max_y))
    }

    pub fn first_point(&self) -> (p: Point)
        ensures
            p == self.a,
    {
        self.a
    }

    pub fn last_point(&self) -> (p: Point)
        ensures
            p == self.b,
    {
        self.b
    }

    /// The derivative of a line is the constant vector `b - a`.
    pub fn derivative(&self, _t: i64) -> (d: Point)
        requires
            line_wf(*self),
        ensures
            d.x == self.b.x - self.a.x,
            d.y == self.b.y - self.a.y,
    {
        Point::new(self.b.x - self.a.x, self.b.y - self.a.y)
    }

    /// The second derivative of a line vanishes.
    pub fn second_derivative(&self, _t: i64) -> (d: Point)
        ensures
            d.x == 0,
            d.y == 0,
    {
        Point::new(0, 0)
    }

    /// A line is flat, so its curvature is zero everywhere.
    pub fn curvature(&self, _t: i64) -> (c: i64)
        ensures
            c == 0,
    {
        0
    }

    /// Subdivision at `t`: two segments sharing the evaluated point.
    pub fn split(&self, t: i64) -> (r: (Line, Line))
        requires
            line_wf(*self),
            -T_MAX <= t <= T_MAX,
        ensures
            r.0.a == self.a,
            r.1.b == self.b,
            r.0.b == r.1.a,
            r.0.b.x == lerp_fx(self.a.x as int, self.b.x as int, t as int),
            r.0.b.y == lerp_fx(self.a.y as int, self.b.y as int, t as int),
    {
        let z = self.t(t);
        (Line::new(self.a, z), Line::new(z, self.b))
    }

    /// Degeneracy pass: a horizontal line carries no scanline information
    /// and is dropped; any other line is kept unchanged.
    pub fn fix(&self) -> (r: Vec<Line>)
        ensures
            self.a.y == self.b.y ==> r@ =~= Seq::<Line>::empty(),
            self.a.y != self.b.y ==> r@ =~= seq![*self],
    {
        let mut out: Vec<Line> = Vec::new();
        if self.a.y == self.b.y {
            return out;
        }
        out.push(*self);
        out
    }

    /// Translate both endpoints `dist` along the line's unit normal; the
    /// endpoints must differ, so the normal exists.
    pub fn trans_ctrl_poly(&self, dist: i64) -> (r: Line)
        requires
            line_wf(*self),
            -COORD_MAX <= dist <= COORD_MAX,
            self.a != self.b,
        ensures
            r == line_trans(*self, dist as int),
    {
        let dx = self.b.x - self.a.x;
        let dy = self.b.y - self.a.y;
        let n = normal_of(dx, dy);
        proof {
            lemma_abs_mul(dist as int, n.x as int, COORD_MAX as int, SCALE as int);
            lemma_abs_mul(dist as int, n.y as int, COORD_MAX as int, SCALE as int);
            crate::fx::lemma_div_bounds(
                dist as int * n.x as int,
                SCALE as int,
                -(COORD_MAX as int * SCALE as int),
                COORD_MAX as int * SCALE as int,
            );
            crate::fx::lemma_div_bounds(
                dist as int * n.y as int,
                SCALE as int,
                -(COORD_MAX as int * SCALE as int),
                COORD_MAX as int * SCALE as int,
            );
        }
        let ox = div_euc(dist * n.x, SCALE);
        let oy = div_euc(dist * n.y, SCALE);
        Line {
            a: Point::new(self.a.x + ox, self.a.y + oy),
            b: Point::new(self.b.x + ox, self.b.y + oy),
        }
    }

    /// Offset ("parallel") curve of a line: a single translated segment.
    pub fn parallel(&self, dist: i64) -> (r: Vec<Line>)
        requires
            line_wf(*self),
            -COORD_MAX <= dist <= COORD_MAX,
            self.a != self.b,
        ensures
            r@ =~= seq![line_trans(*self, dist as int)],
    {
        let mut out: Vec<Line> = Vec::new();
        out.push(self.trans_ctrl_poly(dist));
        out
    }

    /// Crossing parameters with the horizontal line at height `ray_y`:
    /// at most one entry, and exactly the `line_crossings` sequence.
    pub fn intersections(&self, ray_y: i64) -> (r: Vec<i64>)
        requires
            line_wf(*self),
            -COORD_MAX <= ray_y <= COORD_MAX,
        ensures
            r@ =~= line_crossings(*self, ray_y as int),
            r@.len() <= 1,
            forall|k: int| 0 <= k < r@.len() ==> 0 <= #[trigger] r@[k] <= SCALE,
    {
        let mut out: Vec<i64> = Vec::new();
        if self.a.y == self.b.y {
            return out;
        }
        let lo = if self.a.y <= self.b.y {
            self.a.y
        } else {
            self.b.y
        };
        let hi = if self.a.y <= self.b.y {
            self.b.y
        } else {
            self.a.y
        };
        if ray_y < lo || ray_y > hi {
            return out;
        }
        let (num, den) = if self.b.y > self.a.y {
            (ray_y - self.a.y, self.b.y - self.a.y)
        } else {
            (self.a.y - ray_y, self.a.y - self.b.y)
        };
        proof {
            lemma_abs_mul(num as int, SCALE as int, 2 * COORD_MAX as int, SCALE as int);
        }
        let t = div_euc(num * SCALE, den);
        if 0 <= t && t <= SCALE {
            out.push(t);
        }
        out
    }
}

} // verus!
