//! Signed 64-bit fixed-point scalars with 16 fractional bits.
//!
//! A scalar `v` stands for the real number `v / SCALE`.  Results of the
//! arithmetic operations are rounded toward zero and saturated into
//! `[-FX_MAX, FX_MAX]`, so every operation is total on well-formed inputs
//! and never overflows.

use vstd::prelude::*;

verus! {

/// One whole unit: the fixed-point representation of 1.
pub const SCALE: i64 = 65536;

/// Largest representable magnitude; results are clamped to `[-FX_MAX, FX_MAX]`.
pub const FX_MAX: i64 = 4611686018427387904;

/// A scalar is well formed when it lies in the saturation range.
pub open spec fn fx_ok(v: i64) -> bool {
    -FX_MAX <= v && v <= FX_MAX
}

/// Magnitude of a mathematical integer.
pub open spec fn iabs(a: int) -> int {
    if a < 0 {
        -a
    } else {
        a
    }
}

/// Saturation: clamp an unbounded result into the representable range.
pub open spec fn sat(x: int) -> int {
    if x > FX_MAX as int {
        FX_MAX as int
    } else if x < -(FX_MAX as int) {
        -(FX_MAX as int)
    } else {
        x
    }
}

/// Quotient of `a` by `b`, rounded toward zero.
pub open spec fn tdiv(a: int, b: int) -> int
    recommends
        b != 0,
{
    let q = iabs(a) / iabs(b);
    if (a < 0) != (b < 0) {
        -q
    } else {
        q
    }
}

/// What fixed-point addition computes.
pub open spec fn fx_add_s(a: int, b: int) -> int {
    sat(a + b)
}

/// What fixed-point subtraction computes.
pub open spec fn fx_sub_s(a: int, b: int) -> int {
    sat(a - b)
}

/// What fixed-point multiplication computes: the scaled product, rounded
/// toward zero, then saturated.
pub open spec fn fx_mul_s(a: int, b: int) -> int {
    sat(tdiv(a * b, SCALE as int))
}

/// What fixed-point division computes: the scaled quotient, rounded toward
/// zero, then saturated.
pub open spec fn fx_div_s(a: int, b: int) -> int
    recommends
        b != 0,
{
    sat(tdiv(a * SCALE, b))
}

/// `r` is the integer square root (floor) of `n`.
pub open spec fn is_sqrt_floor(n: int, r: int) -> bool {
    0 <= r && r * r <= n && n < (r + 1) * (r + 1)
}

/// The integer square root (floor) of `n`, for `n >= 0`.
pub open spec fn sqrt_floor(n: int) -> int {
    choose|r: int| is_sqrt_floor(n, r)
}

/// What fixed-point square root computes: `sqrt(a / SCALE)` in fixed point
/// is the integer square root of `a * SCALE`.
pub open spec fn fx_sqrt_s(a: int) -> int
    recommends
        a >= 0,
{
    sqrt_floor(a * SCALE)
}

/// `fx_add_s`, packed back into a scalar.
pub open spec fn fx_add_i(a: i64, b: i64) -> i64 {
    fx_add_s(a as int, b as int) as i64
}

/// `fx_sub_s`, packed back into a scalar.
pub open spec fn fx_sub_i(a: i64, b: i64) -> i64 {
    fx_sub_s(a as int, b as int) as i64
}

/// `fx_mul_s`, packed back into a scalar.
pub open spec fn fx_mul_i(a: i64, b: i64) -> i64 {
    fx_mul_s(a as int, b as int) as i64
}

/// `fx_div_s`, packed back into a scalar.
pub open spec fn fx_div_i(a: i64, b: i64) -> i64
    recommends
        b != 0,
{
    fx_div_s(a as int, b as int) as i64
}

/// `fx_sqrt_s`, packed back into a scalar.
pub open spec fn fx_sqrt_i(a: i64) -> i64
    recommends
        a >= 0,
{
    sat(fx_sqrt_s(a as int)) as i64
}

/// The integer square root is unique, so exhibiting a witness pins
/// `sqrt_floor` down.
pub proof fn lemma_sqrt_floor_is(n: int, r: int)
    requires
        is_sqrt_floor(n, r),
    ensures
        sqrt_floor(n) == r,
{
    assert(is_sqrt_floor(n, sqrt_floor(n))) by {
        assert(exists|x: int| is_sqrt_floor(n, x));
    }
    let r2 = sqrt_floor(n);
    assert(r2 == r) by (nonlinear_arith)
        requires
            0 <= r,
            r * r <= n,
            n < (r + 1) * (r + 1),
            0 <= r2,
            r2 * r2 <= n,
            n < (r2 + 1) * (r2 + 1),
    ;
}

/// Sign-and-magnitude view of a product.
proof fn lemma_mul_sign_mag(a: int, b: int, ma: int, mb: int) by (nonlinear_arith)
    requires
        ma == (if a < 0 { -a } else { a }),
        mb == (if b < 0 { -b } else { b }),
    ensures
        ma * mb >= 0,
        a * b == (if (a < 0) != (b < 0) { -(ma * mb) } else { ma * mb }),
{
}

/// Clamp a wide intermediate result back into a well-formed scalar.
fn clip_wide(s: i128) -> (r: i64)
    ensures
        r as int == sat(s as int),
        fx_ok(r),
{
    if s > FX_MAX as i128 {
        FX_MAX
    } else if s < -(FX_MAX as i128) {
        -FX_MAX
    } else {
        s as i64
    }
}

/// Saturating fixed-point addition.
pub fn fx_add(a: i64, b: i64) -> (r: i64)
    requires
        fx_ok(a),
        fx_ok(b),
    ensures
        r as int == fx_add_s(a as int, b as int),
        r == fx_add_i(a, b),
        fx_ok(r),
{
    let s: i128 = a as i128 + b as i128;
    clip_wide(s)
}

/// Saturating fixed-point subtraction.
pub fn fx_sub(a: i64, b: i64) -> (r: i64)
    requires
        fx_ok(a),
        fx_ok(b),
    ensures
        r as int == fx_sub_s(a as int, b as int),
        r == fx_sub_i(a, b),
        fx_ok(r),
{
    let s: i128 = a as i128 - b as i128;
    clip_wide(s)
}

/// Negation; exact on well-formed scalars.
pub fn fx_neg(a: i64) -> (r: i64)
    requires
        fx_ok(a),
    ensures
        r as int == -(a as int),
        fx_ok(r),
{
    -a
}

/// Saturating fixed-point multiplication, rounded toward zero.
pub fn fx_mul(a: i64, b: i64) -> (r: i64)
    requires
        fx_ok(a),
        fx_ok(b),
    ensures
        r as int == fx_mul_s(a as int, b as int),
        r == fx_mul_i(a, b),
        fx_ok(r),
{
    let neg: bool = (a < 0) != (b < 0);
    let ma: u128 = if a < 0 {
        (-a) as u128
    } else {
        a as u128
    };
    let mb: u128 = if b < 0 {
        (-b) as u128
    } else {
        b as u128
    };
    proof {
        lemma_mul_sign_mag(a as int, b as int, ma as int, mb as int);
        assert((ma as int) * (mb as int) <= (FX_MAX as int) * (FX_MAX as int)) by (nonlinear_arith)
            requires
                0 <= ma as int <= FX_MAX as int,
                0 <= mb as int <= FX_MAX as int,
        ;
        assert((FX_MAX as int) * (FX_MAX as int) == 21267647932558653966460912964485513216int);
        assert(iabs((a as int) * (b as int)) == (ma as int) * (mb as int));
    }
    let p: u128 = ma * mb;
    let q: u128 = p / (SCALE as u128);
    let mag: i64 = if q > FX_MAX as u128 {
        FX_MAX
    } else {
        q as i64
    };
    if neg {
        -mag
    } else {
        mag
    }
}

/// Saturating fixed-point division, rounded toward zero.
pub fn fx_div(a: i64, b: i64) -> (r: i64)
    requires
        fx_ok(a),
        fx_ok(b),
        b != 0,
    ensures
        r as int == fx_div_s(a as int, b as int),
        r == fx_div_i(a, b),
        fx_ok(r),
{
    let neg: bool = (a < 0) != (b < 0);
    let ma: u128 = if a < 0 {
        (-a) as u128
    } else {
        a as u128
    };
    let mb: u128 = if b < 0 {
        (-b) as u128
    } else {
        b as u128
    };
    let p: u128 = ma * (SCALE as u128);
    let q: u128 = p / mb;
    proof {
        assert(iabs((a as int) * (SCALE as int)) == (ma as int) * (SCALE as int));
        assert(((a as int) * (SCALE as int) < 0) == ((a as int) < 0));
    }
    let mag: i64 = if q > FX_MAX as u128 {
        FX_MAX
    } else {
        q as i64
    };
    if neg {
        -mag
    } else {
        mag
    }
}

/// Integer square root by bisection.
pub fn isqrt_wide(n: u128) -> (r: u128)
    ensures
        is_sqrt_floor(n as int, r as int),
{
    if n == 0 {
        return 0;
    }
    let mut lo: u128 = 0;
    let mut hi: u128 = 18446744073709551616;
    while lo + 1 < hi
        invariant
            lo < hi,
            hi <= 18446744073709551616,
            (lo as int) * (lo as int) <= n as int,
            (n as int) < (hi as int) * (hi as int),
        decreases hi - lo,
    {
        let mid: u128 = lo + (hi - lo) / 2;
        proof {
            assert((mid as int) * (mid as int) < 340282366920938463463374607431768211455int)
                by (nonlinear_arith)
                requires
                    0 <= mid as int <= 18446744073709551615int,
            ;
        }
        if mid * mid <= n {
            lo = mid;
        } else {
            hi = mid;
        }
    }
    lo
}

/// Fixed-point square root of a non-negative scalar, rounded down.
pub fn fx_sqrt(a: i64) -> (r: i64)
    requires
        0 <= a,
        fx_ok(a),
    ensures
        r as int == fx_sqrt_s(a as int),
        r == fx_sqrt_i(a),
        0 <= r,
        fx_ok(r),
{
    let n: u128 = (a as u128) * (SCALE as u128);
    let s: u128 = isqrt_wide(n);
    proof {
        assert(s as int <= 549755813888int) by (nonlinear_arith)
            requires
                0 <= s as int,
                (s as int) * (s as int) <= 302231454903657293676544int,
        ;
        lemma_sqrt_floor_is(n as int, s as int);
    }
    s as i64
}

/// A product of bounded factors is bounded.
pub proof fn lemma_mul_bound(a: int, b: int, m1: int, m2: int) by (nonlinear_arith)
    requires
        -m1 <= a <= m1,
        -m2 <= b <= m2,
        0 <= m1,
        0 <= m2,
    ensures
        -(m1 * m2) <= a * b <= m1 * m2,
{
}

/// Squares are non-negative.
pub proof fn lemma_square_nonneg(a: int) by (nonlinear_arith)
    ensures
        a * a >= 0,
{
}

/// Rescale a wide raw product (scale `SCALE * SCALE`) back to scalar scale,
/// rounding toward zero and saturating.
pub fn scale_down_wide(s: i128) -> (r: i64)
    requires
        -85070591730234615865843651857942052864 <= s as int
            <= 85070591730234615865843651857942052864,
    ensures
        r as int == sat(tdiv(s as int, SCALE as int)),
        fx_ok(r),
{
    let neg: bool = s < 0;
    let m: u128 = if s < 0 {
        (-s) as u128
    } else {
        s as u128
    };
    let q: u128 = m / (SCALE as u128);
    let mag: i64 = if q > FX_MAX as u128 {
        FX_MAX
    } else {
        q as i64
    };
    if neg {
        -mag
    } else {
        mag
    }
}

/// Divide a wide intermediate by a scalar, rounding toward zero and
/// saturating.
pub fn div_wide(n: i128, d: i64) -> (r: i64)
    requires
        d != 0,
        -85070591730234615865843651857942052864 <= n as int
            <= 85070591730234615865843651857942052864,
    ensures
        r as int == sat(tdiv(n as int, d as int)),
        fx_ok(r),
{
    let neg: bool = (n < 0) != (d < 0);
    let mn: u128 = if n < 0 {
        (-n) as u128
    } else {
        n as u128
    };
    let md: u128 = if d < 0 {
        (-(d as i128)) as u128
    } else {
        d as u128
    };
    let q: u128 = mn / md;
    let mag: i64 = if q > FX_MAX as u128 {
        FX_MAX
    } else {
        q as i64
    };
    if neg {
        -mag
    } else {
        mag
    }
}

/// A fixed-point square of a scalar in `[-1, 1]` lies in `[0, 1]`.
pub proof fn lemma_sq_fixed_le_one(c: i64)
    requires
        -SCALE <= c <= SCALE,
    ensures
        0 <= fx_mul_s(c as int, c as int) <= SCALE as int,
{
    assert(0 <= (c as int) * (c as int) <= (SCALE as int) * (SCALE as int)) by (nonlinear_arith)
        requires
            -(SCALE as int) <= c as int <= SCALE as int,
    ;
    let cc = (c as int) * (c as int);
    vstd::arithmetic::div_mod::lemma_div_pos_is_pos(cc, SCALE as int);
    vstd::arithmetic::div_mod::lemma_div_is_ordered(cc, 4294967296int, SCALE as int);
    vstd::arithmetic::div_mod::lemma_div_by_multiple(65536int, 65536int);
}

/// A raw squared length whose fixed-point image is at least one whole
/// step is itself at least `SCALE`.
pub proof fn lemma_raw_at_least_scale(raw: int)
    requires
        raw >= 0,
        sat(tdiv(raw, SCALE as int)) >= 1,
    ensures
        raw >= SCALE as int,
{
    if raw < SCALE as int {
        vstd::arithmetic::div_mod::lemma_basic_div(raw, SCALE as int);
    }
}

/// Attenuating by a channel in `[0, 1]` never increases a non-negative
/// scalar, and keeps it non-negative.
pub proof fn lemma_channel_mul(a: i64, b: i64)
    requires
        0 <= a <= SCALE,
        0 <= b,
    ensures
        0 <= fx_mul_s(a as int, b as int) <= b as int,
{
    assert(0 <= (a as int) * (b as int) <= (SCALE as int) * (b as int)) by (nonlinear_arith)
        requires
            0 <= a as int <= SCALE as int,
            0 <= b as int,
    ;
    let ab = (a as int) * (b as int);
    vstd::arithmetic::div_mod::lemma_div_pos_is_pos(ab, SCALE as int);
    vstd::arithmetic::div_mod::lemma_div_is_ordered(ab, (SCALE as int) * (b as int), SCALE as int);
    vstd::arithmetic::div_mod::lemma_div_multiples_vanish(b as int, SCALE as int);
}

/// Dividing a scalar by a length at least as large stays within `[-1, 1]`.
pub proof fn lemma_ratio_bounded(y: i64, l: i64)
    requires
        1 <= l,
        -(l as int) <= y as int <= l as int,
    ensures
        -(SCALE as int) <= fx_div_s(y as int, l as int) <= SCALE as int,
{
    let num = iabs((y as int) * (SCALE as int));
    assert(num == iabs(y as int) * (SCALE as int));
    assert(num <= (l as int) * (SCALE as int));
    vstd::arithmetic::div_mod::lemma_div_pos_is_pos(num, l as int);
    vstd::arithmetic::div_mod::lemma_div_is_ordered(num, (l as int) * (SCALE as int), l as int);
    vstd::arithmetic::div_mod::lemma_div_multiples_vanish(SCALE as int, l as int);
    assert((l as int) * (SCALE as int) == (l as int) * (SCALE as int));
}

/// Halving a scalar in `[0, 2]` lands in `[0, 1]`.
pub proof fn lemma_half_mul(b: i64)
    requires
        0 <= b <= 131072,
    ensures
        0 <= fx_mul_s(32768, b as int) <= SCALE as int,
{
    let ab = 32768 * (b as int);
    vstd::arithmetic::div_mod::lemma_div_pos_is_pos(ab, SCALE as int);
    vstd::arithmetic::div_mod::lemma_div_is_ordered(ab, 4294967296int, SCALE as int);
    vstd::arithmetic::div_mod::lemma_div_by_multiple(65536int, 65536int);
}

/// Truncating division by a positive divisor is monotone.
pub proof fn lemma_tdiv_monotone(x: int, y: int, d: int)
    requires
        x <= y,
        d >= 1,
    ensures
        tdiv(x, d) <= tdiv(y, d),
{
    if x >= 0 {
        vstd::arithmetic::div_mod::lemma_div_is_ordered(x, y, d);
    } else if y < 0 {
        vstd::arithmetic::div_mod::lemma_div_is_ordered(-y, -x, d);
    } else {
        vstd::arithmetic::div_mod::lemma_div_pos_is_pos(-x, d);
        vstd::arithmetic::div_mod::lemma_div_pos_is_pos(y, d);
    }
}

/// Multiplying by one is exact on well-formed scalars.
pub proof fn lemma_fx_mul_one(x: i64)
    requires
        fx_ok(x),
    ensures
        fx_mul_s(x as int, SCALE as int) == x as int,
{
    if x >= 0 {
        vstd::arithmetic::div_mod::lemma_div_by_multiple(x as int, SCALE as int);
    } else {
        assert(iabs((x as int) * (SCALE as int)) == (-(x as int)) * (SCALE as int));
        vstd::arithmetic::div_mod::lemma_div_by_multiple(-(x as int), SCALE as int);
    }
}

/// Multiplying by minus one negates exactly on well-formed scalars.
pub proof fn lemma_fx_mul_neg_one(x: i64)
    requires
        fx_ok(x),
    ensures
        fx_mul_s(x as int, -(SCALE as int)) == -(x as int),
{
    if x >= 0 {
        assert(iabs((x as int) * (-(SCALE as int))) == (x as int) * (SCALE as int));
        vstd::arithmetic::div_mod::lemma_div_by_multiple(x as int, SCALE as int);
    } else {
        assert(iabs((x as int) * (-(SCALE as int))) == (-(x as int)) * (SCALE as int));
        vstd::arithmetic::div_mod::lemma_div_by_multiple(-(x as int), SCALE as int);
    }
}

/// Truncating division flips sign with its denominator.
pub proof fn lemma_tdiv_neg_den(a: int, b: int)
    requires
        b != 0,
    ensures
        tdiv(a, -b) == -tdiv(a, b),
{
}

/// Every non-negative integer has an integer square root, so the chosen
/// `sqrt_floor` witness is sound.
pub proof fn lemma_sqrt_floor_exists(n: int)
    requires
        n >= 0,
    ensures
        is_sqrt_floor(n, sqrt_floor(n)),
    decreases n,
{
    if n == 0 {
        assert(is_sqrt_floor(0, 0));
        lemma_sqrt_floor_is(0, 0);
    } else {
        lemma_sqrt_floor_exists(n - 1);
        let r = sqrt_floor(n - 1);
        if n < (r + 1) * (r + 1) {
            assert(is_sqrt_floor(n, r));
        } else {
            assert(n == (r + 1) * (r + 1));
            assert((r + 1) * (r + 1) < (r + 2) * (r + 2)) by (nonlinear_arith)
                requires
                    r >= 0,
            ;
            assert(is_sqrt_floor(n, r + 1));
        }
        assert(exists|x: int| is_sqrt_floor(n, x));
        assert(is_sqrt_floor(n, sqrt_floor(n)));
    }
}

/// Truncating division leaves a remainder smaller than the divisor.
pub proof fn lemma_tdiv_remainder(x: int, dv: int)
    requires
        dv >= 1,
    ensures
        -dv < x - tdiv(x, dv) * dv < dv,
{
    if x >= 0 {
        vstd::arithmetic::div_mod::lemma_fundamental_div_mod(x, dv);
        vstd::arithmetic::div_mod::lemma_mod_bound(x, dv);
        assert((x / dv) * dv == dv * (x / dv)) by (nonlinear_arith);
    } else {
        vstd::arithmetic::div_mod::lemma_fundamental_div_mod(-x, dv);
        vstd::arithmetic::div_mod::lemma_mod_bound(-x, dv);
        assert(((-x) / dv) * dv == dv * ((-x) / dv)) by (nonlinear_arith);
        assert(tdiv(x, dv) * dv == -(((-x) / dv) * dv)) by (nonlinear_arith)
            requires
                tdiv(x, dv) == -((-x) / dv),
        ;
    }
}

} // verus!
