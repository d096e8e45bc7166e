//! Fixed-point scalars.
//!
//! A coordinate or a curve parameter is an `i64` counting units of
//! `1 / SCALE`.  The parameter interval `[0, 1]` of a curve is therefore
//! `[0, SCALE]`.  All helpers here state their result exactly over `int`,
//! with Euclidean division (floor, since every divisor is positive).

use vstd::prelude::*;
use vstd::arithmetic::div_mod::lemma_fundamental_div_mod;
use vstd::arithmetic::div_mod::lemma_div_multiples_vanish;

verus! {

/// Number of fixed-point units in one real unit.
pub const SCALE: i64 = 65536;

/// Largest coordinate magnitude the geometric routines accept
/// (4096 real units): keeps every intermediate product inside `i64`.
pub const COORD_MAX: i64 = 268435456;

/// Largest parameter magnitude accepted when evaluating a curve
/// (16 real units, so moderate extrapolation beyond `[0, 1]` is allowed).
pub const T_MAX: i64 = 1048576;

/// Bound on the operands `lerp` accepts; wide enough for the nested
/// interpolations of a quadratic over `COORD_MAX`-bounded control points.
pub const LERP_MAX: i64 = 1099511627776;

/// `x * y` stays within the product of the operand bounds.
pub proof fn lemma_abs_mul(x: int, y: int, xb: int, yb: int)
    requires
        -xb <= x <= xb,
        -yb <= y <= yb,
    ensures
        -(xb * yb) <= x * y <= xb * yb,
{
    assert(-(xb * yb) <= x * y <= xb * yb) by (nonlinear_arith)
        requires -xb <= x <= xb, -yb <= y <= yb;
}

/// Dividing by a positive integer keeps a value inside any interval
/// around zero that contains it.
pub proof fn lemma_div_bounds(a: int, b: int, lo: int, hi: int)
    requires
        b >= 1,
        lo <= a <= hi,
        lo <= 0,
        0 <= hi,
    ensures
        lo <= a / b <= hi,
{
    lemma_fundamental_div_mod(a, b);
    let q = a / b;
    let r = a % b;
    assert(lo <= q <= hi) by (nonlinear_arith)
        requires b >= 1, lo <= a <= hi, lo <= 0, 0 <= hi, a == b * q + r, 0 <= r < b;
}

/// A quotient by a positive divisor is bounded by the quotient of the
/// dividend's bound (minus one more below, for the floor).
pub proof fn lemma_div_abs_bound(a: int, b: int, m: int)
    requires
        b >= 1,
        -m <= a <= m,
    ensures
        -(m / b) - 1 <= a / b <= m / b,
{
    vstd::arithmetic::div_mod::lemma_div_is_ordered(a, m, b);
    vstd::arithmetic::div_mod::lemma_div_is_ordered(-m, a, b);
    lemma_fundamental_div_mod(m, b);
    lemma_fundamental_div_mod(-m, b);
    let q = m / b;
    let r = m % b;
    let qq = (-m) / b;
    let rr = (-m) % b;
    assert(qq >= -q - 1) by (nonlinear_arith)
        requires m == b * q + r, -m == b * qq + rr, 0 <= r < b, 0 <= rr < b, b >= 1;
}

/// Euclidean division by a positive divisor (floor division).
pub fn div_euc(a: i64, b: i64) -> (r: i64)
    requires
        b > 0,
    ensures
        r == a as int / b as int,
{
    proof {
        lemma_div_bounds(a as int, b as int, i64::MIN as int, i64::MAX as int);
    }
    a.checked_div_euclid(b).unwrap()
}

/// Linear interpolation from `a` to `b`, with the parameter `t` in
/// fixed-point units: `t == 0` gives `a`, `t == SCALE` gives `b`.
pub open spec fn lerp_fx(a: int, b: int, t: int) -> int {
    a + ((b - a) * t) / (SCALE as int)
}

pub proof fn lemma_lerp_zero(a: int, b: int)
    ensures
        lerp_fx(a, b, 0) == a,
{
    assert((b - a) * 0 == 0) by (nonlinear_arith);
}

pub proof fn lemma_lerp_one(a: int, b: int)
    ensures
        lerp_fx(a, b, SCALE as int) == b,
{
    lemma_div_multiples_vanish(b - a, SCALE as int);
}

/// For a parameter inside `[0, 1]` the interpolant stays between its
/// endpoints.
pub proof fn lemma_lerp_between(a: int, b: int, t: int)
    requires
        0 <= t <= SCALE,
    ensures
        a <= b ==> a <= lerp_fx(a, b, t) <= b,
        b <= a ==> b <= lerp_fx(a, b, t) <= a,
{
    let s = SCALE as int;
    if a <= b {
        lemma_abs_mul(b - a, t, b - a, s);
        assert((b - a) * t >= 0) by (nonlinear_arith)
            requires b - a >= 0, t >= 0;
        lemma_div_bounds((b - a) * t, s, 0, (b - a) * s);
        lemma_div_multiples_vanish(b - a, s);
        lemma_div_is_ordered((b - a) * t, (b - a) * s, s);
    } else {
        lemma_abs_mul(b - a, t, a - b, s);
        assert((b - a) * t <= 0) by (nonlinear_arith)
            requires b - a <= 0, t >= 0;
        lemma_div_bounds((b - a) * t, s, (b - a) * s, 0);
        lemma_div_multiples_vanish(b - a, s);
        lemma_div_is_ordered((b - a) * s, (b - a) * t, s);
    }
}

/// Division by a positive divisor preserves order (restated locally so the
/// containment proof above can call it without broadcast).
proof fn lemma_div_is_ordered(x: int, y: int, z: int)
    requires
        x <= y,
        z >= 1,
    ensures
        x / z <= y / z,
{
    vstd::arithmetic::div_mod::lemma_div_is_ordered(x, y, z);
}

/// The interpolant of two `m`-bounded values at a `T_MAX`-bounded
/// parameter stays within `34 * m`.
pub proof fn lemma_lerp_abs(a: int, b: int, t: int, m: int)
    requires
        m >= 1,
        -m <= a <= m,
        -m <= b <= m,
        -T_MAX <= t <= T_MAX,
    ensures
        -34 * m <= lerp_fx(a, b, t) <= 34 * m,
{
    lemma_abs_mul(b - a, t, 2 * m, T_MAX as int);
    assert(2 * m * (T_MAX as int) == 32 * m * (SCALE as int)) by (nonlinear_arith);
    lemma_div_abs_bound((b - a) * t, SCALE as int, 32 * m * (SCALE as int));
    lemma_div_multiples_vanish(32 * m, SCALE as int);
}

/// Exact fixed-point linear interpolation.
pub fn lerp(a: i64, b: i64, t: i64) -> (r: i64)
    requires
        -LERP_MAX <= a <= LERP_MAX,
        -LERP_MAX <= b <= LERP_MAX,
        -T_MAX <= t <= T_MAX,
    ensures
        r == lerp_fx(a as int, b as int, t as int),
{
    proof {
        lemma_abs_mul(b - a, t as int, 2 * LERP_MAX as int, T_MAX as int);
        lemma_lerp_abs(a as int, b as int, t as int, LERP_MAX as int);
    }
    let d = (b - a) * t;
    a + div_euc(d, SCALE)
}

/// Mathematical floor of the square root, as a specification value.
pub open spec fn sqrt_floor(n: nat) -> nat
    decreases n,
{
    if n == 0 {
        0
    } else {
        let p = sqrt_floor((n - 1) as nat);
        if (p + 1) * (p + 1) <= n {
            p + 1
        } else {
            p
        }
    }
}

/// `sqrt_floor` really brackets its argument between consecutive squares.
pub proof fn lemma_sqrt_floor(n: nat)
    ensures
        sqrt_floor(n) * sqrt_floor(n) <= n < (sqrt_floor(n) + 1) * (sqrt_floor(n) + 1),
    decreases n,
{
    let f = sqrt_floor(n);
    if n == 0 {
        assert(sqrt_floor(0) == 0);
        assert(n < (f + 1) * (f + 1)) by (nonlinear_arith)
            requires n == 0;
    } else {
        lemma_sqrt_floor((n - 1) as nat);
        let p = sqrt_floor((n - 1) as nat);
        assert(sqrt_floor(n) == if (p + 1) * (p + 1) <= n { p + 1 } else { p });
        if (p + 1) * (p + 1) <= n {
            assert(f == p + 1);
            assert(n < (f + 1) * (f + 1)) by (nonlinear_arith)
                requires n - 1 < (p + 1) * (p + 1), p >= 0, f == p + 1;
        } else {
            assert(f == p);
            assert(p * p <= n);
            assert(n < (f + 1) * (f + 1)) by (nonlinear_arith)
                requires n < (p + 1) * (p + 1), f == p;
        }
    }
}

/// Any value bracketed between consecutive squares is the floor square root.
pub proof fn lemma_sqrt_floor_unique(n: nat, r: nat)
    requires
        r * r <= n < (r + 1) * (r + 1),
    ensures
        r == sqrt_floor(n),
{
    lemma_sqrt_floor(n);
    let f = sqrt_floor(n);
    if r < f {
        assert(false) by (nonlinear_arith)
            requires r < f, f * f <= n, n < (r + 1) * (r + 1);
    }
    if f < r {
        assert(false) by (nonlinear_arith)
            requires f < r, r * r <= n, n < (f + 1) * (f + 1);
    }
}

/// Integer square root: the greatest `r` with `r * r <= n`.
pub fn isqrt(n: u64) -> (r: u64)
    ensures
        r * r <= n < (r + 1) * (r + 1),
        r == sqrt_floor(n as nat),
{
    proof {
        lemma_sqrt_floor(n as nat);
    }
    let mut lo: u64 = 0;
    let mut hi: u64 = 4294967296;
    proof {
        assert(n < 4294967296u64 * 4294967296u64) by (nonlinear_arith)
            requires n <= u64::MAX;
    }
    while lo + 1 < hi
        invariant
            lo < hi <= 4294967296,
            lo * lo <= n,
            n < hi * hi,
        decreases hi - lo,
    {
        let mid = lo + (hi - lo) / 2;
        proof {
            lemma_abs_mul(mid as int, mid as int, 4294967295, 4294967295);
        }
        if mid * mid <= n {
            lo = mid;
        } else {
            hi = mid;
        }
    }
    proof {
        lemma_sqrt_floor_unique(n as nat, lo as nat);
    }
    lo
}

/// Euclidean division by a positive divisor, for wide intermediates.
pub fn div_euc128(a: i128, b: i128) -> (r: i128)
    requires
        b > 0,
    ensures
        r == a as int / b as int,
{
    proof {
        lemma_div_bounds(a as int, b as int, i128::MIN as int, i128::MAX as int);
    }
    a.checked_div_euclid(b).unwrap()
}

/// Integer square root for wide values.
pub fn isqrt128(n: u128) -> (r: u128)
    ensures
        r * r <= n < (r + 1) * (r + 1),
        r == sqrt_floor(n as nat),
{
    proof {
        lemma_sqrt_floor(n as nat);
    }
    let mut lo: u128 = 0;
    let mut hi: u128 = 18446744073709551616u128;
    proof {
        assert(n < 18446744073709551616u128 * 18446744073709551616u128) by (nonlinear_arith)
            requires n <= u128::MAX;
    }
    while lo + 1 < hi
        invariant
            lo < hi <= 18446744073709551616u128,
            lo * lo <= n,
            n < hi * hi,
        decreases hi - lo,
    {
        let mid = lo + (hi - lo) / 2;
        proof {
            lemma_abs_mul(mid as int, mid as int, 18446744073709551615, 18446744073709551615);
        }
        if mid * mid <= n {
            lo = mid;
        } else {
            hi = mid;
        }
    }
    proof {
        lemma_sqrt_floor_unique(n as nat, lo as nat);
    }
    lo
}

/// Mathematical floor of the cube root, as a specification value.
pub open spec fn cbrt_floor(n: nat) -> nat
    decreases n,
{
    if n == 0 {
        0
    } else {
        let p = cbrt_floor((n - 1) as nat);
        if (p + 1) * (p + 1) * (p + 1) <= n {
            p + 1
        } else {
            p
        }
    }
}

/// `cbrt_floor` really brackets its argument between consecutive cubes.
pub proof fn lemma_cbrt_floor(n: nat)
    ensures
        cbrt_floor(n) * cbrt_floor(n) * cbrt_floor(n) <= n < (cbrt_floor(n) + 1) * (cbrt_floor(n)
            + 1) * (cbrt_floor(n) + 1),
    decreases n,
{
    let f = cbrt_floor(n);
    if n == 0 {
        assert(cbrt_floor(0) == 0);
        assert(n < (f + 1) * (f + 1) * (f + 1)) by (nonlinear_arith)
            requires n == 0;
    } else {
        lemma_cbrt_floor((n - 1) as nat);
        let p = cbrt_floor((n - 1) as nat);
        assert(cbrt_floor(n) == if (p + 1) * (p + 1) * (p + 1) <= n { p + 1 } else { p });
        if (p + 1) * (p + 1) * (p + 1) <= n {
            assert(f == p + 1);
            assert(f * f * f <= n);
            assert(n < (f + 1) * (f + 1) * (f + 1)) by (nonlinear_arith)
                requires n - 1 < (p + 1) * (p + 1) * (p + 1), p >= 0, f == p + 1;
        } else {
            assert(f == p);
            assert(f * f * f <= n) by (nonlinear_arith)
                requires p * p * p <= n - 1, f == p, n >= 1;
            assert(n < (f + 1) * (f + 1) * (f + 1)) by (nonlinear_arith)
                requires n < (p + 1) * (p + 1) * (p + 1), f == p;
        }
    }
}

/// Any value bracketed between consecutive cubes is the floor cube root.
pub proof fn lemma_cbrt_floor_unique(n: nat, r: nat)
    requires
        r * r * r <= n < (r + 1) * (r + 1) * (r + 1),
    ensures
        r == cbrt_floor(n),
{
    lemma_cbrt_floor(n);
    let f = cbrt_floor(n);
    if r < f {
        assert(false) by (nonlinear_arith)
            requires r < f, f * f * f <= n, n < (r + 1) * (r + 1) * (r + 1);
    }
    if f < r {
        assert(false) by (nonlinear_arith)
            requires f < r, r * r * r <= n, n < (f + 1) * (f + 1) * (f + 1);
    }
}

/// Bound on the arguments `icbrt128` accepts (the cube of `2^31`).
pub const CBRT_ARG_MAX: u128 = 9903520314283042199192993792;

/// Integer cube root for wide values below `CBRT_ARG_MAX`.
pub fn icbrt128(n: u128) -> (r: u64)
    requires
        n < CBRT_ARG_MAX,
    ensures
        (r as nat) * (r as nat) * (r as nat) <= n < ((r + 1) as nat) * ((r + 1) as nat) * ((r
            + 1) as nat),
        r == cbrt_floor(n as nat),
{
    proof {
        lemma_cbrt_floor(n as nat);
        assert(CBRT_ARG_MAX as int == 2147483648 * 2147483648 * 2147483648) by (nonlinear_arith);
    }
    let mut lo: u64 = 0;
    let mut hi: u64 = 2147483648;
    while lo + 1 < hi
        invariant
            lo < hi <= 2147483648,
            (lo as nat) * (lo as nat) * (lo as nat) <= n,
            (n as nat) < (hi as nat) * (hi as nat) * (hi as nat),
        decreases hi - lo,
    {
        let mid = lo + (hi - lo) / 2;
        let wide = mid as u128;
        proof {
            assert(wide * wide <= 4611686018427387904 && wide * wide * wide < CBRT_ARG_MAX)
                by (nonlinear_arith)
                requires wide < 2147483648, CBRT_ARG_MAX as int == 2147483648 * 2147483648
                    * 2147483648;
        }
        if wide * wide * wide <= n {
            lo = mid;
        } else {
            hi = mid;
        }
    }
    proof {
        lemma_cbrt_floor_unique(n as nat, lo as nat);
    }
    lo
}

/// Fixed-point ratio `num / den` of two like-scaled quantities, as a
/// parameter in units of `1 / SCALE`; the division is arranged so that
/// the divisor handed to Euclidean division is positive.
pub open spec fn ratio_fx(num: int, den: int) -> int {
    if den > 0 {
        (num * (SCALE as int)) / den
    } else {
        ((-num) * (SCALE as int)) / (-den)
    }
}

/// Bound for the numerators `ratio` accepts.
pub const RATIO_NUM_MAX: i64 = 274877906944;

pub fn ratio(num: i64, den: i64) -> (r: i64)
    requires
        den != 0,
        -i64::MAX <= den,
        -RATIO_NUM_MAX <= num <= RATIO_NUM_MAX,
    ensures
        r == ratio_fx(num as int, den as int),
{
    proof {
        lemma_abs_mul(num as int, SCALE as int, RATIO_NUM_MAX as int, SCALE as int);
        lemma_abs_mul(-(num as int), SCALE as int, RATIO_NUM_MAX as int, SCALE as int);
    }
    if den > 0 {
        div_euc(num * SCALE, den)
    } else {
        div_euc((-num) * SCALE, -den)
    }
}

} // verus!
