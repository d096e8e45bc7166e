//! Points of the plane, in fixed-point units.

use vstd::prelude::*;
use crate::fx::{
    COORD_MAX, SCALE, RATIO_NUM_MAX, sqrt_floor, lemma_sqrt_floor, lemma_abs_mul, isqrt128,
    div_euc,
};
use vstd::arithmetic::div_mod::{lemma_div_is_ordered, lemma_div_multiples_vanish};

verus! {

/// A point (or vector) of the plane; each coordinate counts units of
/// `1 / SCALE`.
#[derive(Clone, Copy, PartialEq, Eq, Structural, Debug)]
pub struct Point {
    pub x: i64,
    pub y: i64,
}

impl Point {
    pub fn new(x: i64, y: i64) -> (p: Point)
        ensures
            p.x == x,
            p.y == y,
    {
        Point { x, y }
    }
}

/// The coordinate range the geometric routines accept.
pub open spec fn in_coord_range(p: Point) -> bool {
    &&& -COORD_MAX <= p.x <= COORD_MAX
    &&& -COORD_MAX <= p.y <= COORD_MAX
}

/// Length of the vector `(dx, dy)`, rounded down.
pub open spec fn norm_len(dx: int, dy: int) -> int {
    sqrt_floor((dx * dx + dy * dy) as nat) as int
}

/// x component of the unit normal of `(dx, dy)` (the vector rotated a
/// quarter turn and divided by its length), in fixed-point units.
pub open spec fn normal_x_of(dx: int, dy: int) -> int {
    (dy * SCALE) / norm_len(dx, dy)
}

/// y component of the unit normal of `(dx, dy)`.
pub open spec fn normal_y_of(dx: int, dy: int) -> int {
    ((-dx) * SCALE) / norm_len(dx, dy)
}

/// For a nonzero vector within the derivative range, the rounded length
/// is positive, bounded, and dominates both components.
pub proof fn lemma_norm_len_bounds(dx: int, dy: int)
    requires
        -RATIO_NUM_MAX <= dx <= RATIO_NUM_MAX,
        -RATIO_NUM_MAX <= dy <= RATIO_NUM_MAX,
        dx != 0 || dy != 0,
    ensures
        1 <= norm_len(dx, dy) <= 549755813888,
        -norm_len(dx, dy) <= dx <= norm_len(dx, dy),
        -norm_len(dx, dy) <= dy <= norm_len(dx, dy),
{
    let s = dx * dx + dy * dy;
    assert(dx * dx >= 0 && dy * dy >= 0) by (nonlinear_arith);
    assert(dx != 0 ==> dx * dx >= 1) by (nonlinear_arith);
    assert(dy != 0 ==> dy * dy >= 1) by (nonlinear_arith);
    assert(dx * dx <= 75557863725914323419136 && dy * dy <= 75557863725914323419136)
        by (nonlinear_arith)
        requires -274877906944 <= dx <= 274877906944, -274877906944 <= dy <= 274877906944;
    assert(1 <= s <= 151115727451828646838272);
    lemma_sqrt_floor(s as nat);
    let f = sqrt_floor(s as nat) as int;
    assert(f >= 1) by (nonlinear_arith)
        requires f >= 0, s >= 1, s < (f + 1) * (f + 1);
    assert(f <= 549755813888) by (nonlinear_arith)
        requires f >= 0, f * f <= s, s <= 151115727451828646838272;
    assert(-f <= dx <= f && -f <= dy <= f) by (nonlinear_arith)
        requires dx * dx <= s, dy * dy <= s, s < (f + 1) * (f + 1), f >= 0, dx * dx + dy * dy
            == s;
}

/// Unit normal of the vector `(dx, dy)`: the quarter-turn rotation
/// `(dy, -dx)` scaled to (fixed-point) unit length.
pub fn normal_of(dx: i64, dy: i64) -> (n: Point)
    requires
        -RATIO_NUM_MAX <= dx <= RATIO_NUM_MAX,
        -RATIO_NUM_MAX <= dy <= RATIO_NUM_MAX,
        dx != 0 || dy != 0,
    ensures
        n.x == normal_x_of(dx as int, dy as int),
        n.y == normal_y_of(dx as int, dy as int),
        -SCALE <= n.x <= SCALE,
        -SCALE <= n.y <= SCALE,
{
    proof {
        lemma_norm_len_bounds(dx as int, dy as int);
        lemma_normal_unit(dx as int, dy as int);
        lemma_abs_mul(dx as int, dx as int, RATIO_NUM_MAX as int, RATIO_NUM_MAX as int);
        lemma_abs_mul(dy as int, dy as int, RATIO_NUM_MAX as int, RATIO_NUM_MAX as int);
        lemma_abs_mul(dy as int, SCALE as int, RATIO_NUM_MAX as int, SCALE as int);
        lemma_abs_mul(-(dx as int), SCALE as int, RATIO_NUM_MAX as int, SCALE as int);
        assert(RATIO_NUM_MAX as int * RATIO_NUM_MAX as int == 75557863725914323419136)
            by (nonlinear_arith);
    }
    let sq = (dx as i128) * (dx as i128) + (dy as i128) * (dy as i128);
    proof {
        assert(dx as int * dx as int >= 0 && dy as int * dy as int >= 0) by (nonlinear_arith);
        assert(sq == dx as int * dx as int + dy as int * dy as int);
    }
    let len_wide = isqrt128(sq as u128);
    proof {
        assert((sq as u128) as nat == (dx as int * dx as int + dy as int * dy as int) as nat);
        assert(len_wide as int == norm_len(dx as int, dy as int));
    }
    let len = len_wide as i64;
    Point::new(div_euc(dy * SCALE, len), div_euc(-dx * SCALE, len))
}

/// Both components of the unit normal stay within one fixed-point unit.
pub proof fn lemma_normal_unit(dx: int, dy: int)
    requires
        -RATIO_NUM_MAX <= dx <= RATIO_NUM_MAX,
        -RATIO_NUM_MAX <= dy <= RATIO_NUM_MAX,
        dx != 0 || dy != 0,
    ensures
        -SCALE <= normal_x_of(dx, dy) <= SCALE,
        -SCALE <= normal_y_of(dx, dy) <= SCALE,
{
    lemma_norm_len_bounds(dx, dy);
    let f = norm_len(dx, dy);
    lemma_div_is_ordered(dy * SCALE, f * SCALE, f);
    lemma_div_is_ordered((-f) * SCALE, dy * SCALE, f);
    lemma_div_is_ordered((-dx) * SCALE, f * SCALE, f);
    lemma_div_is_ordered((-f) * SCALE, (-dx) * SCALE, f);
    lemma_div_multiples_vanish(SCALE as int, f);
    lemma_div_multiples_vanish(-(SCALE as int), f);
}

} // verus!
