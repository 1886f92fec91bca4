//! Exact fixed-point signal arithmetic.
//!
//! An amplitude is an `i64` counting steps of `1 / SCALE`, so `SCALE`
//! encodes the real value `1.0`.  Every operation is total and saturates at
//! `AMP_MAX` in magnitude, which keeps the whole engine deterministic: there
//! is no overflow, no undefined division, and no platform-dependent result.

use vstd::prelude::*;

verus! {

/// Number of fixed-point steps per unit: `SCALE` encodes `1.0`.
pub const SCALE: i64 = 1_000_000;

/// Largest amplitude magnitude the engine represents (2^62); arithmetic
/// saturates here instead of overflowing.
pub const AMP_MAX: i64 = 0x4000_0000_0000_0000;

/// An amplitude the engine can hold.
pub open spec fn valid_amp(x: int) -> bool {
    -AMP_MAX <= x <= AMP_MAX
}

/// Magnitude of an integer.
pub open spec fn iabs(x: int) -> int {
    if x < 0 {
        -x
    } else {
        x
    }
}

/// Clamp into the representable amplitude range.
pub open spec fn sat(x: int) -> int {
    if x > AMP_MAX {
        AMP_MAX as int
    } else if x < -AMP_MAX {
        -AMP_MAX as int
    } else {
        x
    }
}

/// Division truncating toward zero (the machine convention), defined for
/// any non-zero divisor.
pub open spec fn tdiv(n: int, d: int) -> int
    recommends
        d != 0,
{
    let q = iabs(n) / iabs(d);
    if (n < 0) != (d < 0) {
        -q
    } else {
        q
    }
}

/// Remainder with the sign of the dividend (the machine convention).
pub open spec fn trem(n: int, d: int) -> int
    recommends
        d != 0,
{
    let r = iabs(n) % iabs(d);
    if n < 0 {
        -r
    } else {
        r
    }
}

/// Saturating fixed-point addition.
pub open spec fn fp_add_spec(a: int, b: int) -> int {
    sat(a + b)
}

/// Saturating fixed-point subtraction.
pub open spec fn fp_sub_spec(a: int, b: int) -> int {
    sat(a - b)
}

/// Fixed-point negation.
pub open spec fn fp_neg_spec(a: int) -> int {
    -a
}

/// Fixed-point magnitude.
pub open spec fn fp_abs_spec(a: int) -> int {
    iabs(a)
}

/// Sign of an amplitude as a unit amplitude: `1.0` for zero or positive
/// input, `-1.0` for negative input.
pub open spec fn fp_sgn_spec(a: int) -> int {
    if a >= 0 {
        SCALE as int
    } else {
        -SCALE as int
    }
}

/// Saturating fixed-point multiplication: the exact product truncated
/// toward zero at `SCALE` resolution.
pub open spec fn fp_mul_spec(a: int, b: int) -> int {
    sat(tdiv(a * b, SCALE as int))
}

/// Saturating fixed-point division; a zero divisor yields zero, so the
/// operation is total and deterministic.
pub open spec fn fp_div_spec(a: int, b: int) -> int {
    if b == 0 {
        0
    } else {
        sat(tdiv(a * SCALE, b))
    }
}

/// Fixed-point remainder with the sign of the dividend; a zero divisor
/// yields zero.
pub open spec fn fp_mod_spec(a: int, b: int) -> int {
    if b == 0 {
        0
    } else {
        trem(a, b)
    }
}

/// Magnitude of a representable amplitude.
fn mag(a: i64) -> (m: u64)
    requires
        valid_amp(a as int),
    ensures
        m == iabs(a as int),
{
    if a < 0 {
        (-a) as u64
    } else {
        a as u64
    }
}

/// Clamp an unsigned magnitude to `AMP_MAX` and apply a sign.
fn clamp_mag(neg: bool, m: u128) -> (r: i64)
    ensures
        r == (if neg {
            -vstd::math::min(m as int, AMP_MAX as int)
        } else {
            vstd::math::min(m as int, AMP_MAX as int)
        }),
        valid_amp(r as int),
{
    let c: u128 = if m > AMP_MAX as u128 {
        AMP_MAX as u128
    } else {
        m
    };
    if neg {
        -(c as i64)
    } else {
        c as i64
    }
}

/// Saturating amplitude addition.
pub fn fp_add(a: i64, b: i64) -> (r: i64)
    requires
        valid_amp(a as int),
        valid_amp(b as int),
    ensures
        r == fp_add_spec(a as int, b as int),
        valid_amp(r as int),
{
    let s: i128 = a as i128 + b as i128;
    if s > AMP_MAX as i128 {
        AMP_MAX
    } else if s < -(AMP_MAX as i128) {
        -AMP_MAX
    } else {
        s as i64
    }
}

/// Saturating amplitude subtraction.
pub fn fp_sub(a: i64, b: i64) -> (r: i64)
    requires
        valid_amp(a as int),
        valid_amp(b as int),
    ensures
        r == fp_sub_spec(a as int, b as int),
        valid_amp(r as int),
{
    let s: i128 = a as i128 - b as i128;
    if s > AMP_MAX as i128 {
        AMP_MAX
    } else if s < -(AMP_MAX as i128) {
        -AMP_MAX
    } else {
        s as i64
    }
}

/// Amplitude negation.
pub fn fp_neg(a: i64) -> (r: i64)
    requires
        valid_amp(a as int),
    ensures
        r == fp_neg_spec(a as int),
        valid_amp(r as int),
{
    -a
}

/// Amplitude magnitude.
pub fn fp_abs(a: i64) -> (r: i64)
    requires
        valid_amp(a as int),
    ensures
        r == fp_abs_spec(a as int),
        valid_amp(r as int),
{
    if a < 0 {
        -a
    } else {
        a
    }
}

/// Sign of an amplitude as a unit amplitude.
pub fn fp_sgn(a: i64) -> (r: i64)
    ensures
        r == fp_sgn_spec(a as int),
        valid_amp(r as int),
{
    if a >= 0 {
        SCALE
    } else {
        -SCALE
    }
}

/// Saturating amplitude multiplication.
pub fn fp_mul(a: i64, b: i64) -> (r: i64)
    requires
        valid_amp(a as int),
        valid_amp(b as int),
    ensures
        r == fp_mul_spec(a as int, b as int),
        valid_amp(r as int),
{
    let neg = (a < 0) != (b < 0);
    let ma = mag(a);
    let mb = mag(b);
    proof {
        assert((ma as int) * (mb as int) <= (AMP_MAX as int) * (AMP_MAX as int))
            by (nonlinear_arith)
            requires
                0 <= ma <= AMP_MAX,
                0 <= mb <= AMP_MAX,
        ;
    }
    let p: u128 = ma as u128 * mb as u128;
    let q: u128 = p / (SCALE as u128);
    proof {
        assert(iabs(a as int) * iabs(b as int) == iabs(a as int * b as int)) by (nonlinear_arith);
        assert(((a as int * b as int) < 0) == ((a as int) * (b as int) != 0 && ((a < 0) != (b
            < 0)))) by (nonlinear_arith);
        if a as int * b as int == 0 {
            assert(p == 0);
        }
    }
    clamp_mag(neg, q)
}

/// Saturating amplitude division; dividing by zero yields zero.
pub fn fp_div(a: i64, b: i64) -> (r: i64)
    requires
        valid_amp(a as int),
        valid_amp(b as int),
    ensures
        r == fp_div_spec(a as int, b as int),
        valid_amp(r as int),
{
    if b == 0 {
        return 0;
    }
    let neg = (a < 0) != (b < 0);
    let n: u128 = mag(a) as u128 * SCALE as u128;
    let q: u128 = n / mag(b) as u128;
    proof {
        assert(iabs(a as int) * SCALE == iabs(a as int * SCALE)) by (nonlinear_arith);
        if a != 0 {
            assert((a as int * SCALE < 0) == (a < 0)) by (nonlinear_arith);
        } else {
            assert(n == 0);
            assert(q == 0) by {
                vstd::arithmetic::div_mod::lemma_div_of0(iabs(b as int));
            }
        }
    }
    clamp_mag(neg, q)
}

/// Amplitude remainder with the sign of the dividend; a zero divisor yields
/// zero.
pub fn fp_mod(a: i64, b: i64) -> (r: i64)
    requires
        valid_amp(a as int),
        valid_amp(b as int),
    ensures
        r == fp_mod_spec(a as int, b as int),
        valid_amp(r as int),
{
    if b == 0 {
        return 0;
    }
    let m: u64 = mag(a) % mag(b);
    if a < 0 {
        -(m as i64)
    } else {
        m as i64
    }
}

/// Halve an amplitude, truncating toward zero.
pub fn fp_half(a: i64) -> (r: i64)
    requires
        valid_amp(a as int),
    ensures
        r == tdiv(a as int, 2),
        valid_amp(r as int),
{
    let m: u64 = mag(a) / 2;
    if a < 0 {
        -(m as i64)
    } else {
        m as i64
    }
}

/// Sine over one half cycle, as a rational curve on `[0, SCALE]` that is
/// exact at the ends (`0`) and the crest (`SCALE`).  This is the engine's
/// definition of its sine shape; being rational keeps it exactly computable
/// in fixed point.
pub open spec fn sin_half(u: int) -> int
    recommends
        0 <= u <= SCALE,
{
    let w = u * (SCALE - u);
    (16 * w * SCALE) / (5 * SCALE * SCALE - 4 * w)
}

/// Sine of `x` half cycles: `SCALE` encodes a half turn, and the result is
/// a unit-range amplitude.
pub open spec fn fp_sin_spec(x: int) -> int {
    let t = x % (2 * SCALE);
    if t <= SCALE {
        sin_half(t)
    } else {
        -sin_half(t - SCALE)
    }
}

/// Cosine of `x` half cycles: the sine a quarter turn ahead.
pub open spec fn fp_cos_spec(x: int) -> int {
    fp_sin_spec(x + SCALE / 2)
}

/// The half-cycle sine stays within the unit amplitude range.
pub proof fn lemma_sin_half_bounds(u: int)
    requires
        0 <= u <= SCALE,
    ensures
        0 <= sin_half(u) <= SCALE,
{
    let w = u * (SCALE - u);
    let num = 16 * w * SCALE;
    let den = 5 * SCALE * SCALE - 4 * w;
    assert(0 <= 4 * w && 4 * w <= SCALE * SCALE) by (nonlinear_arith)
        requires
            0 <= u <= SCALE,
            w == u * (SCALE - u),
    ;
    assert(den >= 4 * SCALE * SCALE) by (nonlinear_arith)
        requires
            4 * w <= SCALE * SCALE,
            den == 5 * SCALE * SCALE - 4 * w,
    ;
    assert(num <= SCALE * den) by (nonlinear_arith)
        requires
            4 * w <= SCALE * SCALE,
            num == 16 * w * SCALE,
            den == 5 * SCALE * SCALE - 4 * w,
            w >= 0,
    ;
    vstd::arithmetic::div_mod::lemma_div_is_ordered(num, SCALE * den, den);
    vstd::arithmetic::div_mod::lemma_div_multiples_vanish(SCALE as int, den);
    vstd::arithmetic::div_mod::lemma_div_pos_is_pos(num, den);
}

/// The half-cycle sine is zero at both ends of its window.
pub proof fn lemma_sin_half_ends()
    ensures
        sin_half(0) == 0,
        sin_half(SCALE as int) == 0,
{
    vstd::arithmetic::div_mod::lemma_div_of0(5 * SCALE * SCALE);
}

/// The half-cycle sine reaches exactly `SCALE` at the crest.
pub proof fn lemma_sin_half_crest()
    ensures
        sin_half(SCALE / 2) == SCALE,
{
    let u = SCALE / 2;
    let w = u * (SCALE - u);
    assert(u == 500_000);
    assert(w == 250_000_000_000) by (nonlinear_arith)
        requires
            u == 500_000,
            w == u * (SCALE - u),
    ;
    assert(16 * w * SCALE == 4_000_000_000_000_000_000) by (nonlinear_arith)
        requires
            w == 250_000_000_000,
    ;
    assert(5 * SCALE * SCALE - 4 * w == 4_000_000_000_000) by (nonlinear_arith)
        requires
            w == 250_000_000_000,
    ;
    vstd::arithmetic::div_mod::lemma_div_multiples_vanish(
        SCALE as int,
        5 * SCALE * SCALE - 4 * w,
    );
}

/// Reduce to a position within one full cycle: the Euclidean remainder of
/// `x` by a full turn.
fn reduce_cycle(x: i64) -> (t: u64)
    requires
        valid_amp(x as int),
    ensures
        t == (x as int) % (2 * SCALE),
        0 <= t < 2 * SCALE,
{
    let two_s: u64 = (2 * SCALE) as u64;
    let m: u64 = mag(x) % two_s;
    if x >= 0 {
        m
    } else if m == 0 {
        proof {
            let q0 = iabs(x as int) / (2 * SCALE);
            vstd::arithmetic::div_mod::lemma_fundamental_div_mod(iabs(x as int), 2 * SCALE);
            assert(x as int == (-q0) * (2 * SCALE)) by (nonlinear_arith)
                requires
                    iabs(x as int) == q0 * (2 * SCALE),
                    x as int == -iabs(x as int),
            ;
            vstd::arithmetic::div_mod::lemma_mod_multiples_basic(-q0, 2 * SCALE);
        }
        0
    } else {
        proof {
            let q0 = iabs(x as int) / (2 * SCALE);
            vstd::arithmetic::div_mod::lemma_fundamental_div_mod(iabs(x as int), 2 * SCALE);
            assert(x as int == (-q0 - 1) * (2 * SCALE) + (2 * SCALE - m)) by (nonlinear_arith)
                requires
                    iabs(x as int) == q0 * (2 * SCALE) + m,
                    x as int == -iabs(x as int),
            ;
            vstd::arithmetic::div_mod::lemma_fundamental_div_mod_converse_mod(
                x as int,
                2 * SCALE,
                -q0 - 1,
                2 * SCALE - m,
            );
        }
        two_s - m
    }
}

/// Half-cycle sine, exactly as [`sin_half`] states it.
fn sin_half_exec(u: u64) -> (r: i64)
    requires
        0 <= u <= SCALE,
    ensures
        r == sin_half(u as int),
        0 <= r <= SCALE,
{
    proof {
        lemma_sin_half_bounds(u as int);
        assert(0 <= (u as int) * (SCALE - u as int) && 4 * ((u as int) * (SCALE - u as int))
            <= SCALE * SCALE) by (nonlinear_arith)
            requires
                0 <= u <= SCALE,
        ;
    }
    let w: u64 = u * (SCALE as u64 - u);
    let num: u128 = 16 * (w as u128) * (SCALE as u128);
    let den: u128 = 5 * (SCALE as u128) * (SCALE as u128) - 4 * (w as u128);
    let q: u128 = num / den;
    q as i64
}

/// Sine of `x` half cycles.
pub fn fp_sin(x: i64) -> (r: i64)
    requires
        valid_amp(x as int),
    ensures
        r == fp_sin_spec(x as int),
        -SCALE <= r <= SCALE,
{
    let t = reduce_cycle(x);
    if t <= SCALE as u64 {
        sin_half_exec(t)
    } else {
        -sin_half_exec(t - SCALE as u64)
    }
}

/// Cosine of `x` half cycles.
pub fn fp_cos(x: i64) -> (r: i64)
    requires
        valid_amp(x as int),
    ensures
        r == fp_cos_spec(x as int),
        -SCALE <= r <= SCALE,
{
    let t = reduce_cycle(x);
    let y: i64 = t as i64 + SCALE / 2;
    proof {
        vstd::arithmetic::div_mod::lemma_add_mod_noop(x as int, SCALE / 2, 2 * SCALE);
        vstd::arithmetic::div_mod::lemma_add_mod_noop(t as int, SCALE / 2, 2 * SCALE);
        vstd::arithmetic::div_mod::lemma_small_mod((SCALE / 2) as nat, (2 * SCALE) as nat);
        vstd::arithmetic::div_mod::lemma_small_mod(t as nat, (2 * SCALE) as nat);
        assert((y as int) % (2 * SCALE) == (x as int + SCALE / 2) % (2 * SCALE));
    }
    fp_sin(y)
}

/// Moving half a cycle flips the sign of the sine: the waveform is exactly
/// symmetric around its midline.
pub proof fn lemma_sin_antiperiodic(x: int)
    ensures
        fp_sin_spec(x + SCALE) == -fp_sin_spec(x),
{
    let m = 2 * SCALE;
    let t = x % m;
    vstd::arithmetic::div_mod::lemma_mod_division_less_than_divisor(x, m);
    vstd::arithmetic::div_mod::lemma_add_mod_noop(x, SCALE as int, m);
    vstd::arithmetic::div_mod::lemma_small_mod(SCALE as nat, m as nat);
    vstd::arithmetic::div_mod::lemma_small_mod(t as nat, m as nat);
    lemma_sin_half_ends();
    if t + SCALE < m {
        vstd::arithmetic::div_mod::lemma_small_mod((t + SCALE) as nat, m as nat);
        assert((x + SCALE) % m == t + SCALE);
    } else {
        vstd::arithmetic::div_mod::lemma_mod_sub_multiples_vanish(t + SCALE, m);
        vstd::arithmetic::div_mod::lemma_small_mod((t + SCALE - m) as nat, m as nat);
        assert((x + SCALE) % m == t + SCALE - m);
    }
}

} // verus!
