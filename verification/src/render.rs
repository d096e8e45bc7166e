//! The scanline renderer.
//!
//! For every image row one horizontal ray is cast at the row's integer
//! height; the path's raw crossings are deduplicated at shared vertices;
//! every pixel of the row then accumulates a winding count over the
//! surviving crossings and is classified by the fill rule.  Coverage is
//! binary: 1 for an included pixel, 0 otherwise.

use vstd::prelude::*;
use vstd::arithmetic::div_mod::{
    lemma_fundamental_div_mod, lemma_fundamental_div_mod_converse_div,
    lemma_fundamental_div_mod_converse_mod, lemma_div_pos_is_pos, lemma_multiply_divide_lt,
    lemma_basic_div, lemma_small_mod, lemma_div_of0,
};
use crate::fx::SCALE;
use crate::point::Point;
use crate::line::{Line, line_crossings, line_cross_t};
use crate::curve::{Curve, Direction, curve_direction, curve_fix};
use crate::path::{
    Path, path_wf, path_row_hits, path_eval_x, path_index_of, path_fix, curve_row_hits,
    with_offset,
};

verus! {

/// Fill rule: how the winding count of a pixel decides inclusion.
#[derive(Clone, Copy, PartialEq, Eq, Structural, Debug)]
pub enum FillRule {
    NonZero,
    EvenOdd,
}

/// Two raw crossings at most this far apart on the global parameter
/// line are treated as one shared vertex between consecutive curves.
/// The value is an empirical tolerance: it is wider than the nudge that
/// pulls end-of-interval roots inward, so a nudged endpoint crossing and
/// the matching start crossing of the next curve fall within it.
pub const DEDUP_EPS: i64 = 130;

/// Largest width or height of a render target, in pixels; keeps every
/// ray height and pixel abscissa inside the accepted coordinate range.
pub const SIZE_MAX: u32 = 4096;

/// Direction of the curve owning the global parameter `g` (the curve to
/// the right of `g` when `g` lies exactly on a curve boundary).
pub open spec fn right_dir_of(data: Seq<Curve>, g: int) -> Direction {
    curve_direction(data[path_index_of(data.len() as int, g)])
}

/// Index resolution biased to the left: a parameter exactly on a curve
/// boundary resolves to the curve that ends there, not the one that
/// starts there.
pub open spec fn left_index_of(len: int, g: int) -> int {
    if g % (SCALE as int) == 0 && g > 0 {
        path_index_of(len, g - SCALE)
    } else {
        path_index_of(len, g)
    }
}

pub open spec fn left_dir_of(data: Seq<Curve>, g: int) -> Direction {
    curve_direction(data[left_index_of(data.len() as int, g)])
}

/// Whether two global parameters fall within the shared-vertex tolerance.
pub open spec fn near(a: int, b: int) -> bool {
    -DEDUP_EPS <= a - b <= DEDUP_EPS
}

/// Sequential deduplication of the raw crossing list.  A crossing within
/// tolerance of the one last kept is dropped when the curve ending at
/// the shared point and the curve starting there have the same
/// direction (a tangency, counted once); with differing directions both
/// sides keep their crossing, each with its own curve's direction.
pub open spec fn dedup_rec(
    data: Seq<Curve>,
    raw: Seq<i64>,
    k: int,
    last: Option<i64>,
) -> Seq<(i64, Direction)>
    decreases raw.len() - k,
{
    if k < 0 || k >= raw.len() {
        Seq::<(i64, Direction)>::empty()
    } else {
        let curr = raw[k];
        let merge = match last {
            Option::Some(l) => near(l as int, curr as int) && left_dir_of(data, l as int)
                == right_dir_of(data, curr as int),
            Option::None => false,
        };
        if merge {
            dedup_rec(data, raw, k + 1, last)
        } else {
            seq![(curr, right_dir_of(data, curr as int))] + dedup_rec(
                data,
                raw,
                k + 1,
                Option::Some(curr),
            )
        }
    }
}

/// The deduplicated crossing list of one scanline.
pub open spec fn row_crossings(data: Seq<Curve>, ray: int) -> Seq<(i64, Direction)> {
    dedup_rec(data, path_row_hits(data, ray, data.len() as int), 0, Option::None)
}

/// What one crossing adds to the winding count of the pixel at abscissa
/// `px`: crossings strictly to the right contribute nothing; the rest
/// contribute `1` under EvenOdd, and `+1` (Up) or `-1` (Down) under
/// NonZero.
pub open spec fn crossing_weight(data: Seq<Curve>, e: (i64, Direction), px: int, rule: FillRule) -> int {
    if path_eval_x(data, e.0 as int) <= px * SCALE {
        match rule {
            FillRule::EvenOdd => 1,
            FillRule::NonZero => match e.1 {
                Direction::Up => 1,
                Direction::Down => -1,
            },
        }
    } else {
        0
    }
}

/// Winding count accumulated over the first `k` crossings.
pub open spec fn winding(
    data: Seq<Curve>,
    cs: Seq<(i64, Direction)>,
    k: int,
    px: int,
    rule: FillRule,
) -> int
    decreases k,
{
    if k <= 0 {
        0
    } else {
        winding(data, cs, k - 1, px, rule) + crossing_weight(data, cs[k - 1], px, rule)
    }
}

/// Whether the pixel `(px, py)` is inside the filled path under `rule`.
pub open spec fn pixel_covered(data: Seq<Curve>, px: int, py: int, rule: FillRule) -> bool {
    let cs = row_crossings(data, py * SCALE);
    let w = winding(data, cs, cs.len() as int, px, rule);
    match rule {
        FillRule::EvenOdd => w % 2 == 1,
        FillRule::NonZero => w != 0,
    }
}

/// Binary coverage of the pixel `(px, py)`.
pub open spec fn coverage_value(data: Seq<Curve>, px: int, py: int, rule: FillRule) -> u8 {
    if pixel_covered(data, px, py, rule) {
        1u8
    } else {
        0u8
    }
}

/// Shared-vertex tangency: when a ray registers two crossings within
/// tolerance of each other at a vertex whose flanking curves run in the
/// same direction, the pair survives deduplication as a single entry —
/// the vertex is never counted twice.
pub proof fn lemma_shared_vertex_merged(data: Seq<Curve>, g1: i64, g2: i64)
    requires
        near(g1 as int, g2 as int),
        left_dir_of(data, g1 as int) == right_dir_of(data, g2 as int),
    ensures
        dedup_rec(data, seq![g1, g2], 0, Option::None) =~= seq![
            (g1, right_dir_of(data, g1 as int)),
        ],
{
    let raw = seq![g1, g2];
    assert(raw[0] == g1 && raw[1] == g2);
    assert(dedup_rec(data, raw, 2, Option::Some(g1)) =~= Seq::<(i64, Direction)>::empty());
    assert(dedup_rec(data, raw, 1, Option::Some(g1)) =~= dedup_rec(
        data,
        raw,
        2,
        Option::Some(g1),
    ));
}

/// Shared-vertex tangency at path level: when a scanline's raw hits are
/// exactly the two crossings flanking one shared vertex and the curves
/// on either side run in the same direction, the row's deduplicated
/// crossing list — the sequence `render`'s contract feeds the winding
/// count — holds a single entry: the vertex is never counted twice.
pub proof fn lemma_row_tangency(data: Seq<Curve>, ray: int, g1: i64, g2: i64)
    requires
        path_row_hits(data, ray, data.len() as int) == seq![g1, g2],
        near(g1 as int, g2 as int),
        left_dir_of(data, g1 as int) == right_dir_of(data, g2 as int),
    ensures
        row_crossings(data, ray) =~= seq![(g1, right_dir_of(data, g1 as int))],
{
    lemma_shared_vertex_merged(data, g1, g2);
}

/// Shared-vertex crossing: when the flanking curves run in opposite
/// directions, both sides keep their crossing, each carrying its own
/// curve's direction.
pub proof fn lemma_shared_vertex_crossing(data: Seq<Curve>, g1: i64, g2: i64)
    requires
        left_dir_of(data, g1 as int) != right_dir_of(data, g2 as int),
    ensures
        dedup_rec(data, seq![g1, g2], 0, Option::None) =~= seq![
            (g1, right_dir_of(data, g1 as int)),
            (g2, right_dir_of(data, g2 as int)),
        ],
{
    let raw = seq![g1, g2];
    assert(raw[0] == g1 && raw[1] == g2);
    assert(dedup_rec(data, raw, 2, Option::Some(g2)) =~= Seq::<(i64, Direction)>::empty());
    assert(dedup_rec(data, raw, 1, Option::Some(g1)) =~= seq![
        (g2, right_dir_of(data, g2 as int)),
    ] + dedup_rec(data, raw, 2, Option::Some(g2)));
    assert(dedup_rec(data, raw, 0, Option::None) =~= seq![(g1, right_dir_of(data, g1 as int))]
        + dedup_rec(data, raw, 1, Option::Some(g1)));
}

/// Winding parity for a simple closed box: take the four-line
/// axis-aligned box path and normalize it (the two horizontal edges are
/// dropped, the vertical edges remain).  Under either fill rule, a pixel
/// is covered exactly when it lies inside the box: its abscissa reaches
/// the left edge but not the right one, and its row's ray passes
/// strictly between the box's bottom and top.
pub proof fn lemma_box_coverage(
    x0: i64,
    x1: i64,
    y0: i64,
    y1: i64,
    px: int,
    py: int,
    rule: FillRule,
)
    requires
        x0 <= x1,
        y0 < y1,
    ensures
        ({
            let square = seq![
                Curve::Line((Line { a: (Point { x: x0, y: y0 }), b: (Point { x: x1, y: y0 }) })),
                Curve::Line((Line { a: (Point { x: x1, y: y0 }), b: (Point { x: x1, y: y1 }) })),
                Curve::Line((Line { a: (Point { x: x1, y: y1 }), b: (Point { x: x0, y: y1 }) })),
                Curve::Line((Line { a: (Point { x: x0, y: y1 }), b: (Point { x: x0, y: y0 }) })),
            ];
            pixel_covered(path_fix(square, 4), px, py, rule) <==> (x0 <= px * SCALE < x1 && y0
                < py * SCALE < y1)
        }),
{
    let square = seq![
        Curve::Line((Line { a: (Point { x: x0, y: y0 }), b: (Point { x: x1, y: y0 }) })),
        Curve::Line((Line { a: (Point { x: x1, y: y0 }), b: (Point { x: x1, y: y1 }) })),
        Curve::Line((Line { a: (Point { x: x1, y: y1 }), b: (Point { x: x0, y: y1 }) })),
        Curve::Line((Line { a: (Point { x: x0, y: y1 }), b: (Point { x: x0, y: y0 }) })),
    ];
    let r_line = (Line { a: (Point { x: x1, y: y0 }), b: (Point { x: x1, y: y1 }) });
    let l_line = (Line { a: (Point { x: x0, y: y1 }), b: (Point { x: x0, y: y0 }) });
    let r_edge = Curve::Line(r_line);
    let l_edge = Curve::Line(l_line);
    let data = path_fix(square, 4);
    assert(curve_fix(square[0]) =~= Seq::<Curve>::empty());
    assert(curve_fix(square[1]) =~= seq![r_edge]);
    assert(curve_fix(square[2]) =~= Seq::<Curve>::empty());
    assert(curve_fix(square[3]) =~= seq![l_edge]);
    assert(path_fix(square, 1) =~= path_fix(square, 0) + curve_fix(square[0]));
    assert(path_fix(square, 2) =~= path_fix(square, 1) + curve_fix(square[1]));
    assert(path_fix(square, 3) =~= path_fix(square, 2) + curve_fix(square[2]));
    assert(path_fix(square, 4) =~= path_fix(square, 3) + curve_fix(square[3]));
    assert(data =~= seq![r_edge, l_edge]);
    assert(data == seq![r_edge, l_edge]);
    let s = SCALE as int;
    let ray = py * s;
    let raw = path_row_hits(data, ray, 2);
    let cs = row_crossings(data, ray);
    assert(curve_direction(r_edge) == Direction::Up);
    assert(curve_direction(l_edge) == Direction::Down);
    if y0 < ray && ray < y1 {
        let hy = y1 - y0;
        let t1 = ((ray - y0) * s) / hy;
        let t2 = ((y1 - ray) * s) / hy;
        lemma_div_pos_is_pos((ray - y0) * s, hy);
        lemma_div_pos_is_pos((y1 - ray) * s, hy);
        lemma_multiply_divide_lt((ray - y0) * s, hy, s);
        lemma_multiply_divide_lt((y1 - ray) * s, hy, s);
        assert(0 <= t1 < s && 0 <= t2 < s);
        assert(line_cross_t(r_line, ray) == t1);
        assert(line_cross_t(l_line, ray) == t2);
        assert(line_crossings(r_line, ray) =~= seq![t1 as i64]);
        assert(line_crossings(l_line, ray) =~= seq![t2 as i64]);
        let g1 = t1 as i64;
        let g2 = (s + t2) as i64;
        assert(with_offset(seq![t1 as i64], 0) =~= seq![g1]);
        assert(with_offset(seq![t2 as i64], 1) =~= seq![g2]);
        assert(curve_row_hits(r_edge, ray, 0) =~= seq![g1]);
        assert(curve_row_hits(l_edge, ray, 1) =~= seq![g2]);
        assert(path_row_hits(data, ray, 1) =~= path_row_hits(data, ray, 0) + curve_row_hits(
            data[0],
            ray,
            0,
        ));
        assert(path_row_hits(data, ray, 2) =~= path_row_hits(data, ray, 1) + curve_row_hits(
            data[1],
            ray,
            1,
        ));
        assert(raw =~= seq![g1, g2]);
        assert(raw == seq![g1, g2]);
        lemma_basic_div(t1, s);
        assert(path_index_of(2, g1 as int) == 0);
        lemma_fundamental_div_mod_converse_div(s + t2, s, 1, t2);
        assert(path_index_of(2, g2 as int) == 1);
        assert(right_dir_of(data, g1 as int) == Direction::Up);
        assert(right_dir_of(data, g2 as int) == Direction::Down);
        if t1 > 0 {
            lemma_small_mod(t1 as nat, s as nat);
            assert(g1 as int % s == t1);
        }
        assert(left_dir_of(data, g1 as int) == Direction::Up);
        lemma_shared_vertex_crossing(data, g1, g2);
        assert(cs =~= seq![(g1, Direction::Up), (g2, Direction::Down)]);
        assert(cs == seq![(g1, Direction::Up), (g2, Direction::Down)]);
        assert((x1 - x1) * t1 == 0 && (x0 - x0) * t2 == 0) by (nonlinear_arith);
        lemma_div_of0(s);
        assert(path_eval_x(data, g1 as int) == x1);
        assert(path_eval_x(data, g2 as int) == x0);
        assert(cs[0] == (g1, Direction::Up) && cs[1] == (g2, Direction::Down));
        assert(winding(data, cs, 2, px, rule) == winding(data, cs, 1, px, rule)
            + crossing_weight(data, cs[1], px, rule));
        assert(winding(data, cs, 1, px, rule) == winding(data, cs, 0, px, rule)
            + crossing_weight(data, cs[0], px, rule));
        assert(winding(data, cs, 0, px, rule) == 0);
    } else {
        assert(curve_row_hits(r_edge, ray, 0) =~= Seq::<i64>::empty());
        assert(curve_row_hits(l_edge, ray, 1) =~= Seq::<i64>::empty());
        assert(path_row_hits(data, ray, 1) =~= path_row_hits(data, ray, 0) + curve_row_hits(
            data[0],
            ray,
            0,
        ));
        assert(path_row_hits(data, ray, 2) =~= path_row_hits(data, ray, 1) + curve_row_hits(
            data[1],
            ray,
            1,
        ));
        assert(raw =~= Seq::<i64>::empty());
        assert(raw == Seq::<i64>::empty());
        assert(cs =~= Seq::<(i64, Direction)>::empty());
        assert(winding(data, cs, cs.len() as int, px, rule) == 0);
    }
}

/// The scanline engine: a path (already normalized by the degeneracy
/// pass), a target size and a fill rule.  Rendering owns no state beyond
/// the coverage buffer it returns; painting the buffer is the caller's
/// business.
pub struct Renderer {
    pub path: Path,
    pub width: u32,
    pub height: u32,
    pub rule: FillRule,
}

impl Renderer {
    pub fn new(path: Path, width: u32, height: u32, rule: FillRule) -> (r: Renderer)
        ensures
            r.path.data@ == path.data@,
            r.width == width,
            r.height == height,
            r.rule == rule,
    {
        Renderer { path, width, height, rule }
    }

    /// Produce the coverage buffer: one value per pixel, row-major, `1`
    /// where the pixel's winding count passes the fill rule and `0`
    /// elsewhere.
    pub fn render(&self) -> (cov: Vec<u8>)
        requires
            path_wf(self.path.data@),
            self.width <= SIZE_MAX,
            self.height <= SIZE_MAX,
        ensures
            cov@.len() == self.width * self.height,
            forall|i: int| 0 <= i < cov@.len() ==> cov@[i] == coverage_value(
                self.path.data@,
                i % (self.width as int),
                i / (self.width as int),
                self.rule,
            ),
    {
        let w = self.width as usize;
        let h = self.height as usize;
        let mut cov: Vec<u8> = Vec::new();
        if w == 0 {
            proof {
                assert(self.width as int * self.height as int == 0) by (nonlinear_arith)
                    requires self.width as int == 0;
            }
            return cov;
        }
        let ghost data = self.path.data@;
        let mut py: usize = 0;
        while py < h
            invariant
                path_wf(data),
                data == self.path.data@,
                w == self.width as int,
                h == self.height as int,
                0 < w <= SIZE_MAX,
                h <= SIZE_MAX,
                py <= h,
                cov@.len() == py * w,
                forall|i: int| 0 <= i < cov@.len() ==> cov@[i] == coverage_value(
                    data,
                    i % (w as int),
                    i / (w as int),
                    self.rule,
                ),
            decreases h - py,
        {
            let ray = (py as i64) * SCALE;
            let raw = self.path.intersections(ray);
            let cross = dedup(&self.path, &raw);
            proof {
                assert(cross@ =~= row_crossings(data, py as int * SCALE));
            }
            let mut px: usize = 0;
            while px < w
                invariant
                    path_wf(data),
                    data == self.path.data@,
                    w == self.width as int,
                    0 < w <= SIZE_MAX,
                    h <= SIZE_MAX,
                    py < h,
                    px <= w,
                    ray == py as int * SCALE,
                    cross@ =~= row_crossings(data, py as int * SCALE),
                    forall|k: int| 0 <= k < cross@.len() ==> 0 <= (#[trigger] cross@[k]).0
                        <= data.len() * SCALE,
                    cross@.len() > 0 ==> data.len() > 0,
                    cross@.len() <= 2 * data.len(),
                    cov@.len() == py * w + px,
                    forall|i: int| 0 <= i < cov@.len() ==> cov@[i] == coverage_value(
                        data,
                        i % (w as int),
                        i / (w as int),
                        self.rule,
                    ),
                decreases w - px,
            {
                let mut wind: i64 = 0;
                let mut k: usize = 0;
                while k < cross.len()
                    invariant
                        path_wf(data),
                        data == self.path.data@,
                        px < w <= SIZE_MAX,
                        k <= cross@.len(),
                        cross@.len() <= 2 * data.len(),
                        data.len() <= 4294967296,
                        forall|j: int| 0 <= j < cross@.len() ==> 0 <= (#[trigger] cross@[j]).0
                            <= data.len() * SCALE,
                        cross@.len() > 0 ==> data.len() > 0,
                        wind == winding(data, cross@, k as int, px as int, self.rule),
                        -(k as int) <= wind <= k as int,
                        self.rule == FillRule::EvenOdd ==> wind >= 0,
                    decreases cross@.len() - k,
                {
                    let e = cross[k];
                    let x = self.path.t(e.0).x;
                    if x <= (px as i64) * SCALE {
                        match self.rule {
                            FillRule::EvenOdd => {
                                wind = wind + 1;
                            },
                            FillRule::NonZero => {
                                match e.1 {
                                    Direction::Up => {
                                        wind = wind + 1;
                                    },
                                    Direction::Down => {
                                        wind = wind - 1;
                                    },
                                }
                            },
                        }
                    }
                    k += 1;
                }
                let val: u8 = match self.rule {
                    FillRule::EvenOdd => if (wind as u64) % 2 == 1 {
                        1
                    } else {
                        0
                    },
                    FillRule::NonZero => if wind != 0 {
                        1
                    } else {
                        0
                    },
                };
                proof {
                    assert(val == coverage_value(data, px as int, py as int, self.rule));
                    lemma_fundamental_div_mod_converse_div(
                        py as int * w + px as int,
                        w as int,
                        py as int,
                        px as int,
                    );
                    lemma_fundamental_div_mod_converse_mod(
                        py as int * w + px as int,
                        w as int,
                        py as int,
                        px as int,
                    );
                }
                cov.push(val);
                px += 1;
            }
            proof {
                assert((py as int + 1) * (w as int) == py as int * (w as int) + (w as int))
                    by (nonlinear_arith);
            }
            py += 1;
        }
        proof {
            assert((h as int) * (w as int) == (w as int) * (h as int)) by (nonlinear_arith);
        }
        cov
    }
}

/// Direction of the curve owning `g` (right-biased at boundaries).
fn right_dir(path: &Path, g: i64) -> (d: Direction)
    requires
        path_wf(path.data@),
        path.data@.len() > 0,
        g >= 0,
    ensures
        d == right_dir_of(path.data@, g as int),
{
    path.get_curve_at_t(g).direction()
}

/// Direction of the curve ending at `g` when `g` lies exactly on a curve
/// boundary, otherwise of the curve owning `g`.
fn left_dir(path: &Path, g: i64) -> (d: Direction)
    requires
        path_wf(path.data@),
        path.data@.len() > 0,
        0 <= g <= path.data@.len() * SCALE,
    ensures
        d == left_dir_of(path.data@, g as int),
{
    proof {
        lemma_div_pos_is_pos(g as int, SCALE as int);
        lemma_fundamental_div_mod(g as int, SCALE as int);
    }
    let q = crate::fx::div_euc(g, SCALE);
    if q * SCALE == g && g > 0 {
        proof {
            assert(g as int % (SCALE as int) == 0);
            assert(q >= 1) by (nonlinear_arith)
                requires q * (SCALE as int) == g, g > 0, SCALE > 0, q >= 0;
        }
        path.get_curve_at_t(g - SCALE).direction()
    } else {
        proof {
            if g as int % (SCALE as int) == 0 {
                assert(g == (SCALE as int) * (g as int / SCALE as int));
            }
        }
        path.get_curve_at_t(g).direction()
    }
}

/// Deduplicate a raw scanline crossing list at shared vertices.
fn dedup(path: &Path, raw: &Vec<i64>) -> (out: Vec<(i64, Direction)>)
    requires
        path_wf(path.data@),
        forall|k: int| 0 <= k < raw@.len() ==> 0 <= #[trigger] raw@[k] <= path.data@.len()
            * SCALE,
        raw@.len() > 0 ==> path.data@.len() > 0,
    ensures
        out@ =~= dedup_rec(path.data@, raw@, 0, Option::None),
        forall|k: int| 0 <= k < out@.len() ==> 0 <= (#[trigger] out@[k]).0 <= path.data@.len()
            * SCALE,
        out@.len() > 0 ==> path.data@.len() > 0,
        out@.len() <= raw@.len(),
{
    let ghost data = path.data@;
    let mut out: Vec<(i64, Direction)> = Vec::new();
    let mut last: Option<i64> = Option::None;
    let mut k: usize = 0;
    while k < raw.len()
        invariant
            path_wf(data),
            data == path.data@,
            forall|j: int| 0 <= j < raw@.len() ==> 0 <= #[trigger] raw@[j] <= data.len() * SCALE,
            raw@.len() > 0 ==> data.len() > 0,
            k <= raw@.len(),
            dedup_rec(data, raw@, 0, Option::None) =~= out@ + dedup_rec(
                data,
                raw@,
                k as int,
                last,
            ),
            forall|j: int| 0 <= j < out@.len() ==> 0 <= (#[trigger] out@[j]).0 <= data.len()
                * SCALE,
            last matches Option::Some(l) ==> 0 <= l <= data.len() * SCALE,
            out@.len() <= k,
        decreases raw@.len() - k,
    {
        let curr = raw[k];
        let ghost last_old = last;
        let merge = match last {
            Option::Some(l) => {
                let diff = l - curr;
                if -DEDUP_EPS <= diff && diff <= DEDUP_EPS {
                    let prev_d = left_dir(path, l);
                    let next_d = right_dir(path, curr);
                    prev_d == next_d
                } else {
                    false
                }
            },
            Option::None => false,
        };
        if merge {
            proof {
                assert(dedup_rec(data, raw@, k as int, last_old) =~= dedup_rec(
                    data,
                    raw@,
                    k as int + 1,
                    last_old,
                ));
            }
        } else {
            let d = right_dir(path, curr);
            out.push((curr, d));
            last = Option::Some(curr);
            proof {
                assert(dedup_rec(data, raw@, k as int, last_old) =~= seq![
                    (curr, right_dir_of(data, curr as int)),
                ] + dedup_rec(data, raw@, k as int + 1, Option::Some(curr)));
            }
        }
        k += 1;
    }
    out
}

} // verus!
