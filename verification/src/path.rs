//! Paths: an ordered sequence of curves treated as one contour.
//!
//! Curve `i` owns the half-open global parameter interval `[i, i + 1)`,
//! or `[i * SCALE, (i + 1) * SCALE)` in fixed-point units, which gives
//! the whole path a single monotone parameter line.

use vstd::prelude::*;
use vstd::arithmetic::div_mod::{lemma_fundamental_div_mod, lemma_div_pos_is_pos, lemma_div_is_ordered, lemma_div_multiples_vanish};
use crate::fx::{SCALE, COORD_MAX, div_euc};
use crate::point::Point;
use crate::curve::{
    Curve, curve_wf, curve_first, curve_last, curve_eval_x, curve_eval_y, curve_deriv_x,
    curve_deriv_y, curve_crossings, curve_bb_min_x, curve_bb_min_y, curve_bb_max_x,
    curve_bb_max_y, curve_fix,
};

verus! {

/// An ordered sequence of curves forming one contour.  Closure (the last
/// point rejoining the first) is a caller responsibility for fill-rule
/// correctness, not enforced here.
pub struct Path {
    pub data: Vec<Curve>,
}

/// Every curve is well-formed, and the path is short enough that global
/// fixed-point parameters stay comfortably inside `i64`.
pub open spec fn path_wf(data: Seq<Curve>) -> bool {
    &&& forall|i: int| 0 <= i < data.len() ==> curve_wf(#[trigger] data[i])
    &&& data.len() <= 4294967296
}

/// Index of the curve owning the global parameter `g` (clamped to the
/// last curve when `g` runs past the end).
pub open spec fn path_index_of(data_len: int, g: int) -> int {
    let i = g / (SCALE as int);
    if i >= data_len {
        data_len - 1
    } else {
        i
    }
}

pub open spec fn path_eval_x(data: Seq<Curve>, g: int) -> int {
    let i = path_index_of(data.len() as int, g);
    curve_eval_x(data[i], g - i * SCALE)
}

pub open spec fn path_eval_y(data: Seq<Curve>, g: int) -> int {
    let i = path_index_of(data.len() as int, g);
    curve_eval_y(data[i], g - i * SCALE)
}

/// Local crossing parameters shifted onto the global parameter line of
/// the curve at `index`.
pub open spec fn with_offset(ts: Seq<i64>, index: int) -> Seq<i64> {
    ts.map_values(|t: i64| (t + index * SCALE) as i64)
}

/// What one curve contributes to a scanline: its crossings, globally
/// parameterized, provided the ray height falls strictly inside the
/// curve's vertical bounding range.
pub open spec fn curve_row_hits(c: Curve, ray: int, index: int) -> Seq<i64> {
    if curve_bb_min_y(c) < ray < curve_bb_max_y(c) {
        with_offset(curve_crossings(c, ray), index)
    } else {
        Seq::<i64>::empty()
    }
}

/// Global crossing parameters of the first `n` curves against the
/// horizontal ray at height `ray`, in path order.
pub open spec fn path_row_hits(data: Seq<Curve>, ray: int, n: int) -> Seq<i64>
    decreases n,
{
    if n <= 0 {
        Seq::<i64>::empty()
    } else {
        path_row_hits(data, ray, n - 1) + curve_row_hits(data[n - 1], ray, n - 1)
    }
}

/// Concatenation of the degeneracy pass over the first `n` curves.
pub open spec fn path_fix(data: Seq<Curve>, n: int) -> Seq<Curve>
    decreases n,
{
    if n <= 0 {
        Seq::<Curve>::empty()
    } else {
        path_fix(data, n - 1) + curve_fix(data[n - 1])
    }
}

pub open spec fn path_bb_min_x(data: Seq<Curve>, n: int) -> int
    decreases n,
{
    if n <= 1 {
        curve_bb_min_x(data[0])
    } else {
        vstd::math::min(path_bb_min_x(data, n - 1), curve_bb_min_x(data[n - 1]))
    }
}

pub open spec fn path_bb_min_y(data: Seq<Curve>, n: int) -> int
    decreases n,
{
    if n <= 1 {
        curve_bb_min_y(data[0])
    } else {
        vstd::math::min(path_bb_min_y(data, n - 1), curve_bb_min_y(data[n - 1]))
    }
}

pub open spec fn path_bb_max_x(data: Seq<Curve>, n: int) -> int
    decreases n,
{
    if n <= 1 {
        curve_bb_max_x(data[0])
    } else {
        vstd::math::max(path_bb_max_x(data, n - 1), curve_bb_max_x(data[n - 1]))
    }
}

pub open spec fn path_bb_max_y(data: Seq<Curve>, n: int) -> int
    decreases n,
{
    if n <= 1 {
        curve_bb_max_y(data[0])
    } else {
        vstd::math::max(path_bb_max_y(data, n - 1), curve_bb_max_y(data[n - 1]))
    }
}

/// Fix idempotence over a whole path: curves the degeneracy pass leaves
/// unchanged pass through the normalization as they are, so normalizing
/// an already-normalized path is the identity.
pub proof fn lemma_path_fix_fixed(data: Seq<Curve>, n: int)
    requires
        0 <= n <= data.len(),
        forall|i: int| 0 <= i < data.len() ==> crate::curve::curve_fixed(#[trigger] data[i]),
    ensures
        path_fix(data, n) =~= data.take(n),
    decreases n,
{
    if n > 0 {
        lemma_path_fix_fixed(data, n - 1);
        assert(curve_fix(data[n - 1]) =~= seq![data[n - 1]]);
        assert(data.take(n) =~= data.take(n - 1).push(data[n - 1]));
    }
}

impl Path {
    pub fn new(path: Vec<Curve>) -> (p: Path)
        ensures
            p.data@ == path@,
    {
        Path { data: path }
    }

    /// The curve owning the global parameter `t`, clamped to the last
    /// curve for parameters past the end of the path.
    pub fn get_curve_at_t(&self, t: i64) -> (c: Curve)
        requires
            path_wf(self.data@),
            self.data@.len() > 0,
            t >= 0,
        ensures
            c == self.data@[path_index_of(self.data@.len() as int, t as int)],
    {
        proof {
            lemma_div_pos_is_pos(t as int, SCALE as int);
        }
        let q = div_euc(t, SCALE);
        let idx = if q >= self.data.len() as i64 {
            self.data.len() - 1
        } else {
            q as usize
        };
        self.data[idx]
    }

    /// Point at the global parameter `g`: the owning curve evaluated at
    /// the local remainder.  `g` may equal the path length exactly, in
    /// which case the last curve is evaluated at its end.
    pub fn t(&self, g: i64) -> (p: Point)
        requires
            path_wf(self.data@),
            self.data@.len() > 0,
            0 <= g <= self.data@.len() * SCALE,
        ensures
            p.x == path_eval_x(self.data@, g as int),
            p.y == path_eval_y(self.data@, g as int),
    {
        let idx = self.index_of(g);
        let local = g - (idx as i64) * SCALE;
        self.data[idx].t(local)
    }

    /// Derivative at the global parameter `g`, taken on the owning curve
    /// at the local remainder.
    pub fn derivative(&self, g: i64) -> (d: Point)
        requires
            path_wf(self.data@),
            self.data@.len() > 0,
            0 <= g <= self.data@.len() * SCALE,
        ensures
            ({
                let i = path_index_of(self.data@.len() as int, g as int);
                d.x == curve_deriv_x(self.data@[i], g - i * SCALE) && d.y == curve_deriv_y(
                    self.data@[i],
                    g - i * SCALE,
                )
            }),
    {
        let idx = self.index_of(g);
        let local = g - (idx as i64) * SCALE;
        self.data[idx].derivative(local)
    }

    /// Second derivative at the global parameter `g`, on the owning curve.
    pub fn second_derivative(&self, g: i64) -> (d: Point)
        requires
            path_wf(self.data@),
            self.data@.len() > 0,
            0 <= g <= self.data@.len() * SCALE,
        ensures
            ({
                let c = self.data@[path_index_of(self.data@.len() as int, g as int)];
                match c {
                    Curve::Line(_) => d.x == 0 && d.y == 0,
                    Curve::Quadratic(q) => d.x == 2 * (q.c.x - 2 * q.b.x + q.a.x) && d.y == 2 * (
                    q.c.y - 2 * q.b.y + q.a.y),
                }
            }),
    {
        let idx = self.index_of(g);
        let local = g - (idx as i64) * SCALE;
        self.data[idx].second_derivative(local)
    }

    /// Split of the owning curve at the local remainder of `g`.
    pub fn split(&self, g: i64) -> (r: (Curve, Curve))
        requires
            path_wf(self.data@),
            self.data@.len() > 0,
            0 <= g <= self.data@.len() * SCALE,
        ensures
            ({
                let i = path_index_of(self.data@.len() as int, g as int);
                let c = self.data@[i];
                curve_first(r.0) == curve_first(c) && curve_last(r.1) == curve_last(c)
                    && curve_last(r.0) == curve_first(r.1) && curve_first(r.1).x == curve_eval_x(
                    c,
                    g - i * SCALE,
                ) && curve_first(r.1).y == curve_eval_y(c, g - i * SCALE)
            }),
    {
        let idx = self.index_of(g);
        let local = g - (idx as i64) * SCALE;
        self.data[idx].split(local)
    }

    pub fn first_point(&self) -> (p: Point)
        requires
            self.data@.len() > 0,
        ensures
            p == curve_first(self.data@[0]),
    {
        self.data[0].first_point()
    }

    pub fn last_point(&self) -> (p: Point)
        requires
            self.data@.len() > 0,
        ensures
            p == curve_last(self.data@[self.data@.len() - 1]),
    {
        self.data[self.data.len() - 1].last_point()
    }

    /// Union bounding box over all curves, as `(min, max)` corners.
    pub fn bb(&self) -> (r: (Point, Point))
        requires
            self.data@.len() > 0,
        ensures
            r.0.x == path_bb_min_x(self.data@, self.data@.len() as int),
            r.0.y == path_bb_min_y(self.data@, self.data@.len() as int),
            r.1.x == path_bb_max_x(self.data@, self.data@.len() as int),
            r.1.y == path_bb_max_y(self.data@, self.data@.len() as int),
    {
        let first = self.data[0].bb();
        let mut lo = first.0;
        let mut hi = first.1;
        let mut i: usize = 1;
        while i < self.data.len()
            invariant
                1 <= i <= self.data@.len(),
                self.data@.len() > 0,
                lo.x == path_bb_min_x(self.data@, i as int),
                lo.y == path_bb_min_y(self.data@, i as int),
                hi.x == path_bb_max_x(self.data@, i as int),
                hi.y == path_bb_max_y(self.data@, i as int),
            decreases self.data@.len() - i,
        {
            let bb = self.data[i].bb();
            lo = Point::new(
                crate::quadratic::min2(lo.x, bb.0.x),
                crate::quadratic::min2(lo.y, bb.0.y),
            );
            hi = Point::new(
                crate::quadratic::max2(hi.x, bb.1.x),
                crate::quadratic::max2(hi.y, bb.1.y),
            );
            i += 1;
        }
        (lo, hi)
    }

    /// Normalization pass: the degeneracy fix applied to every curve, in
    /// order, with the results concatenated into a new path.  The pass a
    /// caller must run before rendering.
    pub fn fix(&self) -> (r: Path)
        requires
            path_wf(self.data@),
        ensures
            r.data@ =~= path_fix(self.data@, self.data@.len() as int),
    {
        let mut out: Vec<Curve> = Vec::new();
        let mut i: usize = 0;
        while i < self.data.len()
            invariant
                path_wf(self.data@),
                i <= self.data@.len(),
                out@ =~= path_fix(self.data@, i as int),
            decreases self.data@.len() - i,
        {
            let mut fixed = self.data[i].fix();
            let mut j: usize = 0;
            proof {
                assert(out@ + fixed@.take(0) =~= out@);
            }
            let ghost prev = out@;
            while j < fixed.len()
                invariant
                    j <= fixed@.len(),
                    out@ =~= prev + fixed@.take(j as int),
                decreases fixed@.len() - j,
            {
                out.push(fixed[j]);
                proof {
                    assert(prev + fixed@.take(j as int + 1) =~= (prev + fixed@.take(
                        j as int,
                    )).push(fixed@[j as int]));
                }
                j += 1;
            }
            proof {
                assert(fixed@.take(fixed@.len() as int) =~= fixed@);
            }
            i += 1;
        }
        Path { data: out }
    }

    /// Global crossing parameters of the whole path against the
    /// horizontal ray at height `ray_y`: each curve whose vertical
    /// bounding range strictly straddles the ray contributes its local
    /// crossings, offset by its index.
    pub fn intersections(&self, ray_y: i64) -> (r: Vec<i64>)
        requires
            path_wf(self.data@),
            -COORD_MAX <= ray_y <= COORD_MAX,
        ensures
            r@ =~= path_row_hits(self.data@, ray_y as int, self.data@.len() as int),
            forall|k: int| 0 <= k < r@.len() ==> 0 <= #[trigger] r@[k] <= self.data@.len()
                * SCALE,
            r@.len() <= 2 * self.data@.len(),
    {
        let mut out: Vec<i64> = Vec::new();
        let mut i: usize = 0;
        while i < self.data.len()
            invariant
                path_wf(self.data@),
                -COORD_MAX <= ray_y <= COORD_MAX,
                i <= self.data@.len(),
                out@ =~= path_row_hits(self.data@, ray_y as int, i as int),
                forall|k: int| 0 <= k < out@.len() ==> 0 <= #[trigger] out@[k] <= self.data@.len()
                    * SCALE,
                out@.len() <= 2 * i as int,
            decreases self.data@.len() - i,
        {
            let c = self.data[i];
            let bb = c.bb();
            if ray_y > bb.0.y && ray_y < bb.1.y {
                let local = c.intersections(ray_y);
                let offset = (i as i64) * SCALE;
                let mut j: usize = 0;
                let ghost prev = out@;
                while j < local.len()
                    invariant
                        j <= local@.len(),
                        local@.len() <= 2,
                        prev.len() <= 2 * i as int,
                        out@.len() == prev.len() + j,
                        curve_wf(c),
                        i < self.data@.len(),
                        self.data@.len() <= 4294967296,
                        self.data@[i as int] == c,
                        offset == i as int * SCALE,
                        local@ =~= curve_crossings(c, ray_y as int),
                        forall|k: int| 0 <= k < local@.len() ==> 0 <= #[trigger] local@[k]
                            <= SCALE,
                        out@ =~= prev + with_offset(local@.take(j as int), i as int),
                        forall|k: int| 0 <= k < prev.len() ==> 0 <= #[trigger] prev[k]
                            <= self.data@.len() * SCALE,
                        forall|k: int| 0 <= k < out@.len() ==> 0 <= #[trigger] out@[k]
                            <= self.data@.len() * SCALE,
                    decreases local@.len() - j,
                {
                    proof {
                        assert(i as int * SCALE <= (self.data@.len() - 1) * SCALE) by (nonlinear_arith)
                            requires i as int <= self.data@.len() - 1, SCALE > 0;
                        assert(with_offset(local@.take(j as int + 1), i as int) =~= with_offset(
                            local@.take(j as int),
                            i as int,
                        ).push((local@[j as int] + i as int * SCALE) as i64));
                    }
                    out.push(local[j] + offset);
                    j += 1;
                }
                proof {
                    assert(local@.take(local@.len() as int) =~= local@);
                }
            }
            i += 1;
        }
        out
    }

    /// Curve index owning the global parameter `g`, as an exec value.
    fn index_of(&self, g: i64) -> (idx: usize)
        requires
            path_wf(self.data@),
            self.data@.len() > 0,
            0 <= g <= self.data@.len() * SCALE,
        ensures
            idx == path_index_of(self.data@.len() as int, g as int),
            idx < self.data@.len(),
            0 <= g - idx * SCALE <= SCALE,
    {
        proof {
            lemma_div_pos_is_pos(g as int, SCALE as int);
            lemma_fundamental_div_mod(g as int, SCALE as int);
            lemma_div_is_ordered(g as int, self.data@.len() * SCALE, SCALE as int);
            lemma_div_multiples_vanish(self.data@.len() as int, SCALE as int);
        }
        let q = div_euc(g, SCALE);
        if q >= self.data.len() as i64 {
            proof {
                assert(g as int == self.data@.len() * SCALE);
            }
            self.data.len() - 1
        } else {
            q as usize
        }
    }
}

} // verus!
