//! Fixed-point scale, angle units, and integer trigonometry.
//!
//! A world coordinate is stored as an integer number of thousandths of a
//! world unit (`FP` per unit). A full turn is `TURN` angle units, so one
//! unit is a tenth of a degree. `sin_fp` and `cos_fp` return the sine and
//! cosine scaled by `FP`, computed with a rational approximation of the
//! half-turn sine arc; `atan2_fp` inverts them approximately, by octant.
//! All of it is exact integer arithmetic, so every result is a function
//! of its arguments alone.

use vstd::prelude::*;
use vstd::arithmetic::div_mod::{
    lemma_div_is_ordered, lemma_div_multiples_vanish, lemma_div_pos_is_pos,
};

verus! {

/// Fixed-point representation of one world unit.
pub const FP: i64 = 1000;

/// Angle units in a full turn.
pub const TURN: i64 = 3600;

/// Angle units in a half turn.
pub const HALF_TURN: i64 = 1800;

/// Angle units in a quarter turn.
pub const QUARTER_TURN: i64 = 900;

/// An angle brought into `[0, TURN)`, for angles at most one turn out of
/// range on either side.
pub open spec fn spec_norm(a: int) -> int {
    if a < 0 {
        a + TURN
    } else if a >= TURN {
        a - TURN
    } else {
        a
    }
}

/// The sine arc over a half turn, scaled by `FP`: for `a` in
/// `[0, HALF_TURN]` this is the rational approximation
/// `16 t / (5 H^2 - 4 t)` of `sin(pi a / H)`, with `t = a (H - a)` and
/// `H = HALF_TURN`, scaled by `FP`.
pub open spec fn spec_half_sin(a: int) -> int {
    let t = a * (HALF_TURN - a);
    (16 * FP * t) / (5 * (HALF_TURN as int) * (HALF_TURN as int) - 4 * t)
}

/// Sine of an angle in units, scaled by `FP`; odd over the two half
/// turns. Defined for angles at most one turn out of `[0, TURN)`.
pub open spec fn spec_sin(a: int) -> int {
    let n = spec_norm(a);
    if n < HALF_TURN {
        spec_half_sin(n)
    } else {
        -spec_half_sin(n - HALF_TURN)
    }
}

/// Cosine as the sine shifted by a quarter turn.
pub open spec fn spec_cos(a: int) -> int {
    spec_sin(spec_norm(a) + QUARTER_TURN)
}

/// Brings an angle into `[0, TURN)`.
pub fn norm_angle(a: i64) -> (n: i64)
    requires
        -TURN <= a < 2 * TURN,
    ensures
        n == spec_norm(a as int),
        0 <= n < TURN,
{
    if a < 0 {
        a + TURN
    } else if a >= TURN {
        a - TURN
    } else {
        a
    }
}

/// `spec_half_sin` stays within `[0, FP]` and vanishes exactly at the
/// ends of the arc.
pub proof fn lemma_half_sin_bounds(a: int)
    requires
        0 <= a <= HALF_TURN,
    ensures
        0 <= spec_half_sin(a) <= FP,
        a == 0 || a == HALF_TURN ==> spec_half_sin(a) == 0,
{
    let t = a * (HALF_TURN - a);
    let num = 16 * FP * t;
    let den = 5 * (HALF_TURN as int) * (HALF_TURN as int) - 4 * t;
    assert(0 <= t <= 810000 && 0 <= num <= 12960000000 && den >= 12960000
            && den == 16200000 - 4 * t && num <= 1000 * den) by (nonlinear_arith)
        requires
            0 <= a <= 1800,
            t == a * ((1800int) - a),
            num == 16 * (1000int) * t,
            den == 5 * (1800int) * (1800int) - 4 * t,
    ;
    lemma_div_pos_is_pos(num, den);
    lemma_div_is_ordered(num, 1000 * den, den);
    lemma_div_multiples_vanish(1000, den);
    if a == 0 || a == HALF_TURN {
        assert(t == 0 && num == 0) by (nonlinear_arith)
            requires
                t == a * ((1800int) - a),
                num == 16 * (1000int) * t,
                a == 0 || a == 1800,
        ;
        vstd::arithmetic::div_mod::lemma_div_of0(den);
    }
}

/// Strictly inside the arc the approximation is at least one
/// fixed-point step above zero.
pub proof fn lemma_half_sin_pos(a: int)
    requires
        1 <= a <= HALF_TURN - 1,
    ensures
        spec_half_sin(a) >= 1,
{
    let t = a * (HALF_TURN - a);
    let num = 16 * FP * t;
    let den = 5 * (HALF_TURN as int) * (HALF_TURN as int) - 4 * t;
    assert(den >= 12960000 && num >= den) by (nonlinear_arith)
        requires
            1 <= a <= 1799,
            t == a * ((1800int) - a),
            num == 16 * (1000int) * t,
            den == 5 * (1800int) * (1800int) - 4 * t,
    ;
    lemma_div_is_ordered(den, num, den);
    vstd::arithmetic::div_mod::lemma_div_by_self(den);
}

/// The sine in units stays within `[-FP, FP]`, is zero exactly at the
/// half-turn marks, and carries the sign of the half turn it lies in.
pub proof fn lemma_sin_range(a: int)
    requires
        -TURN <= a < 2 * TURN,
    ensures
        -FP <= spec_sin(a) <= FP,
        spec_norm(a) == 0 || spec_norm(a) == HALF_TURN ==> spec_sin(a) == 0,
        0 < spec_norm(a) < HALF_TURN ==> spec_sin(a) >= 1,
        HALF_TURN < spec_norm(a) < TURN ==> spec_sin(a) <= -1,
{
    let n = spec_norm(a);
    if n < HALF_TURN {
        lemma_half_sin_bounds(n);
        if 0 < n {
            lemma_half_sin_pos(n);
        }
    } else {
        lemma_half_sin_bounds(n - HALF_TURN);
        if n > HALF_TURN {
            lemma_half_sin_pos(n - HALF_TURN);
        }
    }
}

/// The cosine obeys the same range, and sine and cosine of one angle are
/// never both zero: where the sine vanishes the cosine is a full unit.
pub proof fn lemma_cos_range(a: int)
    requires
        -TURN <= a < 2 * TURN,
    ensures
        -FP <= spec_cos(a) <= FP,
        spec_sin(a) == 0 ==> spec_cos(a) == FP || spec_cos(a) == -FP,
        0 <= spec_norm(a) < QUARTER_TURN ==> spec_cos(a) >= 1,
        3 * QUARTER_TURN < spec_norm(a) < TURN ==> spec_cos(a) >= 1,
{
    let n = spec_norm(a);
    lemma_sin_range(a);
    lemma_sin_range(n + QUARTER_TURN);
    if spec_sin(a) == 0 {
        assert(n == 0 || n == HALF_TURN);
        assert(spec_half_sin(900) == 1000) by {
            let t = 900 * ((HALF_TURN as int) - 900);
            assert(16 * FP * t == 12960000000
                    && 5 * (HALF_TURN as int) * (HALF_TURN as int) - 4 * t == 12960000)
                by (nonlinear_arith)
                requires FP == 1000 && HALF_TURN == 1800 && t == 810000;
            assert(12960000000int / 12960000int == 1000);
        };
    }
}

fn half_sin(a: i64) -> (r: i64)
    requires
        0 <= a <= HALF_TURN,
    ensures
        r == spec_half_sin(a as int),
        0 <= r <= FP,
{
    proof {
        lemma_half_sin_bounds(a as int);
        assert(0 <= (a as int) * ((HALF_TURN as int) - (a as int)) <= 810000)
            by (nonlinear_arith)
            requires 0 <= a <= 1800 && HALF_TURN == 1800;
    }
    let t: i64 = a * (HALF_TURN - a);
    proof {
        assert(0 <= 16 * (FP as int) * (t as int) <= 12960000000
                && 12960000 <= 5 * (HALF_TURN as int) * (HALF_TURN as int) - 4 * (t as int)
                    <= 16200000)
            by (nonlinear_arith)
            requires 0 <= t <= 810000 && FP == 1000 && HALF_TURN == 1800;
    }
    let num: i64 = 16 * FP * t;
    let den: i64 = 5 * HALF_TURN * HALF_TURN - 4 * t;
    num / den
}

/// Fixed-point sine of an angle in units.
pub fn sin_fp(a: i64) -> (r: i64)
    requires
        -TURN <= a < 2 * TURN,
    ensures
        r == spec_sin(a as int),
        -FP <= r <= FP,
{
    proof {
        lemma_sin_range(a as int);
    }
    let n = norm_angle(a);
    if n < HALF_TURN {
        half_sin(n)
    } else {
        -half_sin(n - HALF_TURN)
    }
}

/// Fixed-point cosine of an angle in units.
pub fn cos_fp(a: i64) -> (r: i64)
    requires
        -TURN <= a < 2 * TURN,
    ensures
        r == spec_cos(a as int),
        -FP <= r <= FP,
{
    proof {
        lemma_cos_range(a as int);
    }
    let n = norm_angle(a);
    sin_fp(n + QUARTER_TURN)
}

/// The arc tangent of a slope `n / d` with `0 <= n <= d`, in angle
/// units: the polynomial approximation `450 z + 163 z (1 - z)` of the
/// first eighth of a turn, over the fixed-point slope `z`, clamped to
/// the eighth turn.
pub open spec fn spec_atan_ratio(n: int, d: int) -> int {
    let z = n * FP / d;
    let w = 163 * z * ((FP as int) - z) / (FP as int);
    let r = (450 * z + w) / (FP as int);
    if r > 450 {
        450int
    } else {
        r
    }
}

/// The angle of the vector `(dx, dy)` in `[0, TURN)` angle units,
/// assembled by octant from `spec_atan_ratio`; the zero vector maps
/// to angle zero.
pub open spec fn spec_atan2(dy: int, dx: int) -> int {
    let ax = if dx < 0 { -dx } else { dx };
    let ay = if dy < 0 { -dy } else { dy };
    if ax == 0 && ay == 0 {
        0int
    } else {
        let base = if ax >= ay {
            spec_atan_ratio(ay, ax)
        } else {
            (QUARTER_TURN as int) - spec_atan_ratio(ax, ay)
        };
        if dx >= 0 && dy >= 0 {
            base
        } else if dx < 0 && dy >= 0 {
            HALF_TURN - base
        } else if dx < 0 {
            HALF_TURN + base
        } else if base == 0 {
            0int
        } else {
            TURN - base
        }
    }
}

/// `spec_atan_ratio` stays within the first eighth of a turn.
pub proof fn lemma_atan_ratio_range(n: int, d: int)
    requires
        0 <= n <= d,
        1 <= d,
    ensures
        0 <= spec_atan_ratio(n, d) <= 450,
{
    let z = n * FP / d;
    assert(n * FP >= 0 && n * FP <= d * 1000) by (nonlinear_arith)
        requires 0 <= n <= d && FP == 1000;
    lemma_div_pos_is_pos(n * FP, d);
    lemma_div_is_ordered(n * FP, d * 1000, d);
    lemma_div_multiples_vanish(1000, d);
    assert(0 <= z <= 1000);
    let w = 163 * z * ((FP as int) - z) / (FP as int);
    assert(0 <= 163 * z * ((FP as int) - z) <= 40750 * 1000) by (nonlinear_arith)
        requires 0 <= z <= 1000 && FP == 1000;
    lemma_div_pos_is_pos(163 * z * ((FP as int) - z), FP as int);
    lemma_div_is_ordered(163 * z * ((FP as int) - z), 40750 * 1000int, FP as int);
    lemma_div_multiples_vanish(40750, 1000);
    assert(0 <= w <= 40750);
    lemma_div_pos_is_pos(450 * z + w, FP as int);
}

fn atan_ratio(n: i64, d: i64) -> (r: i64)
    requires
        0 <= n <= d,
        1 <= d <= 2_000_000_000,
    ensures
        r == spec_atan_ratio(n as int, d as int),
        0 <= r <= 450,
{
    proof {
        lemma_atan_ratio_range(n as int, d as int);
        assert(0 <= (n as int) * (FP as int) <= 2_000_000_000_000
                && (n as int) * (FP as int) <= (d as int) * 1000) by (nonlinear_arith)
            requires 0 <= n <= d <= 2_000_000_000 && FP == 1000;
        lemma_div_pos_is_pos((n as int) * (FP as int), d as int);
        lemma_div_is_ordered((n as int) * (FP as int), (d as int) * 1000, d as int);
        lemma_div_multiples_vanish(1000, d as int);
    }
    let z: i64 = n * FP / d;
    proof {
        assert(0 <= 163 * (z as int) * ((FP as int) - (z as int)) <= 40750000)
            by (nonlinear_arith)
            requires 0 <= z <= 1000 && FP == 1000;
    }
    let w: i64 = 163 * z * (FP - z) / FP;
    let r: i64 = (450 * z + w) / FP;
    if r > 450 {
        450
    } else {
        r
    }
}

/// The angle of `(dx, dy)` in `[0, TURN)` angle units.
pub fn atan2_fp(dy: i64, dx: i64) -> (r: i64)
    requires
        -2_000_000_000 <= dx <= 2_000_000_000,
        -2_000_000_000 <= dy <= 2_000_000_000,
    ensures
        r == spec_atan2(dy as int, dx as int),
        0 <= r < TURN,
{
    let ax: i64 = if dx < 0 { -dx } else { dx };
    let ay: i64 = if dy < 0 { -dy } else { dy };
    if ax == 0 && ay == 0 {
        return 0;
    }
    let base: i64 = if ax >= ay {
        atan_ratio(ay, ax)
    } else {
        QUARTER_TURN - atan_ratio(ax, ay)
    };
    if dx >= 0 && dy >= 0 {
        base
    } else if dx < 0 && dy >= 0 {
        HALF_TURN - base
    } else if dx < 0 {
        HALF_TURN + base
    } else if base == 0 {
        0
    } else {
        TURN - base
    }
}

/// Whether `r` is the integer square root of `n`: nonnegative, its
/// square does not exceed `n`, and the next square does.
pub open spec fn is_isqrt(r: int, n: int) -> bool {
    0 <= r && r * r <= n < (r + 1) * (r + 1)
}

/// The integer square root of a nonnegative number: the unique whole
/// number whose square does not exceed it while the next square does.
pub open spec fn spec_isqrt(n: int) -> int {
    choose|r: int| is_isqrt(r, n)
}

/// Two integer square roots of the same number coincide.
pub proof fn lemma_isqrt_unique(a: int, b: int, n: int)
    by (nonlinear_arith)
    requires
        is_isqrt(a, n),
        is_isqrt(b, n),
    ensures
        a == b,
{
}

/// The integer square root: the largest whole number whose square does
/// not exceed `n`.
pub fn isqrt(n: u64) -> (r: u64)
    ensures
        (r as int) * (r as int) <= n < ((r as int) + 1) * ((r as int) + 1),
        r == spec_isqrt(n as int),
{
    let mut lo: u64 = 0;
    let mut hi: u64 = 4294967296;
    proof {
        assert((4294967296int) * (4294967296int) > u64::MAX) by (nonlinear_arith);
    }
    while lo + 1 < hi
        invariant
            lo < hi <= 4294967296,
            (lo as int) * (lo as int) <= n,
            n < (hi as int) * (hi as int),
        decreases hi - lo,
    {
        let mid: u64 = lo + (hi - lo) / 2;
        proof {
            assert((mid as int) * (mid as int) <= u64::MAX) by (nonlinear_arith)
                requires mid <= 4294967295;
        }
        if mid * mid <= n {
            lo = mid;
        } else {
            hi = mid;
        }
    }
    proof {
        assert(is_isqrt(lo as int, n as int));
        assert(exists|q: int| is_isqrt(q, n as int));
        lemma_isqrt_unique(lo as int, spec_isqrt(n as int), n as int);
    }
    lo
}

/// The Euclidean length, rounded down, of a fixed-point vector.
pub fn dist_fp(dx: i64, dy: i64) -> (r: u64)
    requires
        -2_000_000_000 <= dx <= 2_000_000_000,
        -2_000_000_000 <= dy <= 2_000_000_000,
    ensures
        (r as int) * (r as int) <= dx * dx + dy * dy
            < ((r as int) + 1) * ((r as int) + 1),
        r == spec_isqrt(dx * dx + dy * dy),
        r <= 3_000_000_000,
{
    proof {
        assert(0 <= (dx as int) * (dx as int) <= 4_000_000_000_000_000_000
                && 0 <= (dy as int) * (dy as int) <= 4_000_000_000_000_000_000)
            by (nonlinear_arith)
            requires -2_000_000_000 <= dx <= 2_000_000_000
                && -2_000_000_000 <= dy <= 2_000_000_000;
    }
    let sq: u64 = ((dx * dx) as u64) + ((dy * dy) as u64);
    let r = isqrt(sq);
    proof {
        assert(r <= 3_000_000_000) by (nonlinear_arith)
            requires (r as int) * (r as int) <= 8_000_000_000_000_000_000;
    }
    r
}

} // verus!
