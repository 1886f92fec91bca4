//! The fixed catalog of easing curves.
//!
//! Each curve maps a normalised elapsed fraction `u` (`0..=SCALE`), a start
//! value `b` and a value delta `c` to an eased value, entirely in saturating
//! fixed-point arithmetic, so every curve is an exactly specified, total
//! function.  The square root, base-two exponential and sine the curvier
//! families need are the engine's own fixed-point definitions.

use vstd::prelude::*;

use crate::text::str_eq;
use crate::fixed::{
    fp_add, fp_add_spec, fp_cos, fp_cos_spec, fp_half, fp_mul, fp_mul_spec, fp_sin, fp_sin_spec,
    fp_sub, fp_sub_spec, sat, tdiv, valid_amp, AMP_MAX, SCALE,
};

verus! {

/// One of the named easing shapes.
#[derive(Debug, PartialEq, Eq, Structural, Copy, Clone)]
pub enum EaseFn {
    BackIn,
    BackOut,
    BackInOut,
    BounceIn,
    BounceOut,
    BounceInOut,
    CircIn,
    CircOut,
    CircInOut,
    CubicIn,
    CubicOut,
    CubicInOut,
    ElasticIn,
    ElasticOut,
    ElasticInOut,
    ExpoIn,
    ExpoOut,
    ExpoInOut,
    Linear,
    LinearIn,
    LinearOut,
    LinearInOut,
    QuadIn,
    QuadOut,
    QuadInOut,
    QuartIn,
    QuartOut,
    QuartInOut,
    QuintIn,
    QuintOut,
    QuintInOut,
    SineIn,
    SineOut,
    SineInOut,
}

/// The integer square root: the greatest integer whose square is at most
/// `n`.
pub open spec fn spec_sqrt(n: int) -> int {
    choose|r: int| 0 <= r && #[trigger] (r * r) <= n && n < (r + 1) * (r + 1)
}

/// The integer square root is the one root the defining window admits.
pub proof fn lemma_sqrt_unique(n: int, r: int)
    requires
        0 <= r,
        r * r <= n,
        n < (r + 1) * (r + 1),
    ensures
        spec_sqrt(n) == r,
{
    assert(0 <= r && r * r <= n && n < (r + 1) * (r + 1));
    let q = spec_sqrt(n);
    assert(0 <= q && q * q <= n && n < (q + 1) * (q + 1));
    if q < r {
        assert((q + 1) * (q + 1) <= r * r) by (nonlinear_arith)
            requires
                0 <= q,
                q + 1 <= r,
        ;
    }
    if r < q {
        assert((r + 1) * (r + 1) <= q * q) by (nonlinear_arith)
            requires
                0 <= r,
                r + 1 <= q,
        ;
    }
}

/// Integer square root by bisection.
fn isqrt(n: u64) -> (r: u64)
    ensures
        r as int == spec_sqrt(n as int),
        r < 4_294_967_296,
        (r as int) * (r as int) <= n as int,
        (n as int) < ((r as int) + 1) * ((r as int) + 1),
{
    let mut lo: u64 = 0;
    let mut hi: u64 = 4_294_967_296;
    proof {
        assert((4_294_967_296 as int) * (4_294_967_296 as int) > u64::MAX as int)
            by (nonlinear_arith);
    }
    while lo + 1 < hi
        invariant
            lo < hi <= 4_294_967_296,
            (lo as int) * (lo as int) <= n as int,
            (n as int) < (hi as int) * (hi as int),
        decreases hi - lo,
    {
        let mid = lo + (hi - lo) / 2;
        proof {
            assert((mid as int) * (mid as int) <= (4_294_967_296 as int) * (4_294_967_296 as int))
                by (nonlinear_arith)
                requires
                    0 <= mid <= 4_294_967_296,
            ;
        }
        let m2: u128 = (mid as u128) * (mid as u128);
        if m2 <= n as u128 {
            lo = mid;
        } else {
            hi = mid;
        }
    }
    proof {
        lemma_sqrt_unique(n as int, lo as int);
    }
    lo
}

/// Square root of a unit-range amplitude: for `x` encoding a value in
/// `[0, 1]`, the fixed-point square root of that value.
pub open spec fn sqrt_unit(x: int) -> int {
    spec_sqrt(x * SCALE)
}

/// Fixed-point square root on the unit range.
fn sqrt_unit_exec(x: i64) -> (r: i64)
    requires
        0 <= x <= SCALE,
    ensures
        r as int == sqrt_unit(x as int),
        0 <= r <= SCALE,
{
    proof {
        assert((x as int) * (SCALE as int) <= 1_000_000 * 1_000_000 as int) by (nonlinear_arith)
            requires
                0 <= x <= 1_000_000,
        ;
    }
    let r = isqrt((x as u64) * (SCALE as u64));
    proof {
        let rr = r as int;
        let m = (x as int) * (SCALE as int);
        assert(m <= SCALE * SCALE) by (nonlinear_arith)
            requires
                0 <= x <= SCALE,
                m == (x as int) * (SCALE as int),
        ;
        if rr > SCALE {
            assert(rr * rr > SCALE * SCALE) by (nonlinear_arith)
                requires
                    rr > SCALE,
                    SCALE > 0,
            ;
        }
    }
    r as i64
}

/// Bounds the circular family needs: on the unit range, the fixed-point
/// square `u²` stays under both `u` and the unit, and `2u - u²` stays on
/// the unit range as well.
proof fn lemma_unit_square_bounds(u: int)
    requires
        0 <= u <= SCALE,
    ensures
        0 <= fp_mul_spec(u, u) <= SCALE,
        fp_mul_spec(u, u) <= u,
        0 <= fp_sub_spec(fp_add_spec(u, u), fp_mul_spec(u, u)) <= SCALE,
{
    let s = SCALE as int;
    assert(0 <= u * u <= s * s) by (nonlinear_arith)
        requires
            0 <= u <= s,
    ;
    assert(u * u <= u * s) by (nonlinear_arith)
        requires
            0 <= u <= s,
    ;
    assert((2 * u - s) * s <= u * u) by (nonlinear_arith)
        requires
            0 <= u <= s,
    ;
    vstd::arithmetic::div_mod::lemma_div_is_ordered(u * u, s * s, s);
    vstd::arithmetic::div_mod::lemma_div_is_ordered(u * u, u * s, s);
    vstd::arithmetic::div_mod::lemma_div_is_ordered((2 * u - s) * s, u * u, s);
    vstd::arithmetic::div_mod::lemma_div_multiples_vanish(s, s);
    vstd::arithmetic::div_mod::lemma_div_multiples_vanish(u, s);
    vstd::arithmetic::div_mod::lemma_div_multiples_vanish(2 * u - s, s);
    vstd::arithmetic::div_mod::lemma_div_pos_is_pos(u * u, s);
    assert(s * s == s * s);
    assert((s * s) / s == s);
    assert((u * s) / s == u) by {
        assert(u * s == s * u) by (nonlinear_arith);
    }
    assert(((2 * u - s) * s) / s == 2 * u - s) by {
        assert((2 * u - s) * s == s * (2 * u - s)) by (nonlinear_arith);
    }
}

/// Linear coefficient of the engine's base-two exponential on a unit
/// fraction: `2^f` is approximated by `1 + C1·f + C2·f² + C3·f³` at
/// fixed-point resolution.
pub const EXP2_C1: i64 = 693_147;

/// Quadratic coefficient of the fractional base-two exponential.
pub const EXP2_C2: i64 = 240_160;

/// Cubic coefficient of the fractional base-two exponential.
pub const EXP2_C3: i64 = 55_776;

/// `2^f` for a fraction `f` in `[0, SCALE)`, by the engine's cubic
/// approximation; the result lies in `[SCALE, 2·SCALE]`.
pub open spec fn exp2_frac(f: int) -> int {
    SCALE + tdiv(f * (EXP2_C1 + tdiv(f * (EXP2_C2 + tdiv(f * EXP2_C3, SCALE as int)), SCALE as int)),
        SCALE as int,
    )
}

/// `2^x` in saturating fixed point: the integer part shifts, the
/// fractional part goes through [`exp2_frac`]; far outside the
/// representable range the result pins to the nearest bound.
pub open spec fn exp2_spec(x: int) -> int {
    let k = x / (SCALE as int);
    let f = x % (SCALE as int);
    let g = exp2_frac(f);
    if k >= 62 {
        AMP_MAX as int
    } else if k < -62 {
        0
    } else if k >= 0 {
        sat(g * vstd::arithmetic::power2::pow2(k as nat))
    } else {
        tdiv(g, vstd::arithmetic::power2::pow2((-k) as nat) as int)
    }
}

/// `2^k` for a small exponent, by verified doubling.
pub(crate) fn pow2_exec(k: u64) -> (r: u128)
    requires
        k <= 62,
    ensures
        r == vstd::arithmetic::power2::pow2(k as nat),
{
    let mut r: u128 = 1;
    let mut i: u64 = 0;
    proof {
        vstd::arithmetic::power2::lemma2_to64();
    }
    while i < k
        invariant
            i <= k <= 62,
            r == vstd::arithmetic::power2::pow2(i as nat),
        decreases k - i,
    {
        proof {
            vstd::arithmetic::power2::lemma_pow2_strictly_increases(i as nat, 63);
            vstd::arithmetic::power2::lemma2_to64_rest();
            vstd::arithmetic::power2::lemma_pow2_unfold((i + 1) as nat);
        }
        r = r * 2;
        i = i + 1;
    }
    r
}

/// Fixed-point `2^x`, exactly as [`exp2_spec`] states.
fn exp2_exec(x: i64) -> (r: i64)
    requires
        valid_amp(x as int),
    ensures
        r as int == exp2_spec(x as int),
        0 <= r <= AMP_MAX,
{
    let s: i64 = SCALE;
    // Euclidean split of x into a whole power k and a fraction f
    let xm: u64 = if x < 0 {
        (-x) as u64
    } else {
        x as u64
    };
    let mr: u64 = xm % (s as u64);
    let q0: u64 = xm / (s as u64);
    let f: i64 = if x >= 0 {
        mr as i64
    } else if mr == 0 {
        0
    } else {
        s - mr as i64
    };
    let k_neg: bool = x < 0 && q0 + (if mr != 0 {
        1u64
    } else {
        0u64
    }) > 0;
    let k_mag: u64 = if x >= 0 {
        q0
    } else if mr != 0 {
        q0 + 1
    } else {
        q0
    };
    proof {
        let xi = x as int;
        let si = SCALE as int;
        if x >= 0 {
            assert(xi / si == q0 as int && xi % si == mr as int);
        } else {
            vstd::arithmetic::div_mod::lemma_fundamental_div_mod(xm as int, si);
            if mr == 0 {
                assert(xi == (-(q0 as int)) * si + 0) by (nonlinear_arith)
                    requires
                        xm as int == (q0 as int) * si + (mr as int),
                        mr as int == 0,
                        xi == -(xm as int),
                ;
                vstd::arithmetic::div_mod::lemma_fundamental_div_mod_converse(
                    xi,
                    si,
                    -(q0 as int),
                    0,
                );
            } else {
                assert(xi == (-(q0 as int) - 1) * si + (si - mr as int)) by (nonlinear_arith)
                    requires
                        xm as int == (q0 as int) * si + (mr as int),
                        xi == -(xm as int),
                ;
                vstd::arithmetic::div_mod::lemma_fundamental_div_mod_converse(
                    xi,
                    si,
                    -(q0 as int) - 1,
                    si - mr as int,
                );
            }
        }
        assert((x as int) / (SCALE as int) == if k_neg {
            -(k_mag as int)
        } else {
            k_mag as int
        });
        assert((x as int) % (SCALE as int) == f as int);
    }
    // fractional factor by the cubic approximation, all terms non-negative
    let fu: u64 = f as u64;
    proof {
        assert(fu * (EXP2_C3 as u64) <= 1_000_000 * 55_776) by (nonlinear_arith)
            requires
                fu <= 1_000_000,
        ;
    }
    let t3: u64 = fu * (EXP2_C3 as u64) / (s as u64);
    proof {
        vstd::arithmetic::div_mod::lemma_div_is_ordered(
            (fu * (EXP2_C3 as u64)) as int,
            55_776 * 1_000_000 as int,
            1_000_000 as int,
        );
        vstd::arithmetic::div_mod::lemma_div_multiples_vanish(55_776, 1_000_000);
        assert(t3 <= 55_776);
        assert(fu * ((EXP2_C2 as u64) + t3) <= 1_000_000 * 295_936) by (nonlinear_arith)
            requires
                fu <= 1_000_000,
                t3 <= 55_776,
        ;
    }
    let t2: u64 = fu * ((EXP2_C2 as u64) + t3) / (s as u64);
    proof {
        vstd::arithmetic::div_mod::lemma_div_is_ordered(
            (fu * ((EXP2_C2 as u64) + t3)) as int,
            295_936 * 1_000_000 as int,
            1_000_000 as int,
        );
        vstd::arithmetic::div_mod::lemma_div_multiples_vanish(295_936, 1_000_000);
        assert(t2 <= 295_936);
        assert(fu * ((EXP2_C1 as u64) + t2) <= 1_000_000 * 989_083) by (nonlinear_arith)
            requires
                fu <= 1_000_000,
                t2 <= 295_936,
        ;
    }
    let g: u64 = (s as u64) + fu * ((EXP2_C1 as u64) + t2) / (s as u64);
    proof {
        vstd::arithmetic::div_mod::lemma_div_is_ordered(
            (fu * ((EXP2_C1 as u64) + t2)) as int,
            989_083 * 1_000_000 as int,
            1_000_000 as int,
        );
        vstd::arithmetic::div_mod::lemma_div_multiples_vanish(989_083, 1_000_000);
        vstd::arithmetic::div_mod::lemma_div_pos_is_pos((fu * ((EXP2_C1 as u64) + t2)) as int,
            1_000_000,
        );
        assert(1_000_000 <= g <= 1_989_083);
        assert(g as int == exp2_frac(f as int));
    }
    if !k_neg {
        if k_mag >= 62 {
            return AMP_MAX;
        }
        let p: u128 = pow2_exec(k_mag);
        proof {
            vstd::arithmetic::power2::lemma_pow2_pos(k_mag as nat);
            if k_mag < 62 {
                vstd::arithmetic::power2::lemma_pow2_strictly_increases(k_mag as nat, 62);
            }
            vstd::arithmetic::power2::lemma2_to64_rest();
            assert((g as int) * (p as int) <= 1_989_083 * 4611686018427387904) by (nonlinear_arith)
                requires
                    g <= 1_989_083,
                    0 <= p as int <= 4611686018427387904,
            ;
        }
        let v: u128 = (g as u128) * p;
        if v > AMP_MAX as u128 {
            AMP_MAX
        } else {
            v as i64
        }
    } else {
        let p: u128 = if k_mag >= 62 {
            0
        } else {
            pow2_exec(k_mag)
        };
        if k_mag >= 62 {
            proof {
                let kk = (x as int) / (SCALE as int);
                if kk >= -62 {
                    assert(kk == -62);
                    vstd::arithmetic::power2::lemma2_to64_rest();
                    vstd::arithmetic::power2::lemma_pow2_adds(32, 30);
                    vstd::arithmetic::power2::lemma2_to64();
                    vstd::arithmetic::div_mod::lemma_basic_div(
                        g as int,
                        vstd::arithmetic::power2::pow2(62) as int,
                    );
                }
            }
            return 0;
        }
        proof {
            vstd::arithmetic::power2::lemma_pow2_pos(k_mag as nat);
        }
        let v: u128 = (g as u128) / p;
        proof {
            vstd::arithmetic::div_mod::lemma_div_nonincreasing(g as int, p as int);
            vstd::arithmetic::div_mod::lemma_div_pos_is_pos(g as int, p as int);
        }
        v as i64
    }
}

/// A linear ramp: `b + c·u`.
pub open spec fn ease_linear(u: int, b: int, c: int) -> int {
    fp_add_spec(b, fp_mul_spec(c, u))
}

/// The eased value of each curve in the catalog at normalised time `u`,
/// from start value `b` over delta `c`.  The `In` shape of each family
/// accelerates, `Out` decelerates, and `InOut` glues a half-speed copy of
/// each; the four linear names share one ramp.
pub open spec fn spec_ease(f: EaseFn, u: int, b: int, c: int) -> int {
    let v = fp_add_spec(u, u);
    match f {
        EaseFn::Linear => ease_linear(u, b, c),
        EaseFn::LinearIn => ease_linear(u, b, c),
        EaseFn::LinearOut => ease_linear(u, b, c),
        EaseFn::LinearInOut => ease_linear(u, b, c),
        EaseFn::QuadIn => fp_add_spec(b, fp_mul_spec(c, fp_mul_spec(u, u))),
        EaseFn::QuadOut => fp_add_spec(
            b,
            fp_mul_spec(c, fp_sub_spec(fp_add_spec(u, u), fp_mul_spec(u, u))),
        ),
        EaseFn::QuadInOut => if v < SCALE {
            fp_add_spec(b, tdiv(fp_mul_spec(c, fp_mul_spec(v, v)), 2))
        } else {
            let w = fp_sub_spec(v, SCALE as int);
            fp_add_spec(
                b,
                tdiv(
                    fp_mul_spec(
                        c,
                        fp_add_spec(
                            SCALE as int,
                            fp_sub_spec(fp_add_spec(w, w), fp_mul_spec(w, w)),
                        ),
                    ),
                    2,
                ),
            )
        },
        EaseFn::CubicIn => fp_add_spec(b, fp_mul_spec(c, cube(u))),
        EaseFn::CubicOut => fp_add_spec(
            b,
            fp_mul_spec(c, fp_add_spec(cube(fp_sub_spec(u, SCALE as int)), SCALE as int)),
        ),
        EaseFn::CubicInOut => if v < SCALE {
            fp_add_spec(b, tdiv(fp_mul_spec(c, cube(v)), 2))
        } else {
            fp_add_spec(
                b,
                tdiv(
                    fp_mul_spec(
                        c,
                        fp_add_spec(cube(fp_sub_spec(v, 2 * SCALE)), 2 * SCALE),
                    ),
                    2,
                ),
            )
        },
        EaseFn::QuartIn => fp_add_spec(b, fp_mul_spec(c, pow4(u))),
        EaseFn::QuartOut => fp_add_spec(
            b,
            fp_mul_spec(c, fp_sub_spec(SCALE as int, pow4(fp_sub_spec(u, SCALE as int)))),
        ),
        EaseFn::QuartInOut => if v < SCALE {
            fp_add_spec(b, tdiv(fp_mul_spec(c, pow4(v)), 2))
        } else {
            fp_add_spec(
                b,
                tdiv(
                    fp_mul_spec(
                        c,
                        fp_sub_spec(2 * SCALE, pow4(fp_sub_spec(v, 2 * SCALE))),
                    ),
                    2,
                ),
            )
        },
        EaseFn::QuintIn => fp_add_spec(b, fp_mul_spec(c, pow5(u))),
        EaseFn::QuintOut => fp_add_spec(
            b,
            fp_mul_spec(c, fp_add_spec(pow5(fp_sub_spec(u, SCALE as int)), SCALE as int)),
        ),
        EaseFn::QuintInOut => if v < SCALE {
            fp_add_spec(b, tdiv(fp_mul_spec(c, pow5(v)), 2))
        } else {
            fp_add_spec(
                b,
                tdiv(
                    fp_mul_spec(
                        c,
                        fp_add_spec(pow5(fp_sub_spec(v, 2 * SCALE)), 2 * SCALE),
                    ),
                    2,
                ),
            )
        },
        EaseFn::SineIn => fp_add_spec(
            b,
            fp_sub_spec(c, fp_mul_spec(c, fp_cos_spec(tdiv(u, 2)))),
        ),
        EaseFn::SineOut => fp_add_spec(b, fp_mul_spec(c, fp_sin_spec(tdiv(u, 2)))),
        EaseFn::SineInOut => fp_add_spec(
            b,
            tdiv(fp_mul_spec(c, fp_sub_spec(SCALE as int, fp_cos_spec(u))), 2),
        ),
        EaseFn::ExpoIn => if u == 0 {
            b
        } else {
            fp_add_spec(b, fp_mul_spec(c, exp2_spec(10 * (u - SCALE))))
        },
        EaseFn::ExpoOut => if u == SCALE {
            fp_add_spec(b, c)
        } else {
            fp_add_spec(b, fp_mul_spec(c, fp_sub_spec(SCALE as int, exp2_spec(-10 * u))))
        },
        EaseFn::ExpoInOut => if u == 0 {
            b
        } else if u == SCALE {
            fp_add_spec(b, c)
        } else if v < SCALE {
            fp_add_spec(b, tdiv(fp_mul_spec(c, exp2_spec(10 * (v - SCALE))), 2))
        } else {
            fp_add_spec(
                b,
                tdiv(
                    fp_mul_spec(
                        c,
                        fp_sub_spec(2 * SCALE, exp2_spec(-10 * (v - SCALE))),
                    ),
                    2,
                ),
            )
        },
        EaseFn::CircIn => fp_add_spec(
            b,
            fp_mul_spec(
                c,
                fp_sub_spec(
                    SCALE as int,
                    sqrt_unit(fp_sub_spec(SCALE as int, fp_mul_spec(u, u))),
                ),
            ),
        ),
        EaseFn::CircOut => fp_add_spec(
            b,
            fp_mul_spec(c, sqrt_unit(fp_sub_spec(fp_add_spec(u, u), fp_mul_spec(u, u)))),
        ),
        EaseFn::CircInOut => if v < SCALE {
            fp_add_spec(
                b,
                tdiv(
                    fp_mul_spec(
                        c,
                        fp_sub_spec(
                            SCALE as int,
                            sqrt_unit(fp_sub_spec(SCALE as int, fp_mul_spec(v, v))),
                        ),
                    ),
                    2,
                ),
            )
        } else {
            let w = fp_sub_spec(v, 2 * SCALE);
            fp_add_spec(
                b,
                tdiv(
                    fp_mul_spec(
                        c,
                        fp_add_spec(
                            SCALE as int,
                            sqrt_unit(fp_sub_spec(SCALE as int, fp_mul_spec(w, w))),
                        ),
                    ),
                    2,
                ),
            )
        },
        EaseFn::BackIn => fp_add_spec(
            b,
            fp_mul_spec(
                c,
                fp_mul_spec(
                    fp_mul_spec(u, u),
                    fp_sub_spec(fp_mul_spec(BACK_S + SCALE, u), BACK_S as int),
                ),
            ),
        ),
        EaseFn::BackOut => {
            let w = fp_sub_spec(u, SCALE as int);
            fp_add_spec(
                b,
                fp_mul_spec(
                    c,
                    fp_add_spec(
                        fp_mul_spec(
                            fp_mul_spec(w, w),
                            fp_add_spec(fp_mul_spec(BACK_S + SCALE, w), BACK_S as int),
                        ),
                        SCALE as int,
                    ),
                ),
            )
        },
        EaseFn::BackInOut => if v < SCALE {
            fp_add_spec(
                b,
                tdiv(
                    fp_mul_spec(
                        c,
                        fp_mul_spec(
                            fp_mul_spec(v, v),
                            fp_sub_spec(fp_mul_spec(BACK_S2 + SCALE, v), BACK_S2 as int),
                        ),
                    ),
                    2,
                ),
            )
        } else {
            let w = fp_sub_spec(v, 2 * SCALE);
            fp_add_spec(
                b,
                tdiv(
                    fp_mul_spec(
                        c,
                        fp_add_spec(
                            fp_mul_spec(
                                fp_mul_spec(w, w),
                                fp_add_spec(fp_mul_spec(BACK_S2 + SCALE, w), BACK_S2 as int),
                            ),
                            2 * SCALE,
                        ),
                    ),
                    2,
                ),
            )
        },
        EaseFn::BounceOut => fp_add_spec(b, fp_mul_spec(c, bounce_unit(u))),
        EaseFn::BounceIn => fp_add_spec(
            b,
            fp_sub_spec(c, fp_mul_spec(c, bounce_unit(fp_sub_spec(SCALE as int, u)))),
        ),
        EaseFn::BounceInOut => if v < SCALE {
            fp_add_spec(
                b,
                tdiv(
                    fp_sub_spec(
                        c,
                        fp_mul_spec(c, bounce_unit(fp_sub_spec(SCALE as int, v))),
                    ),
                    2,
                ),
            )
        } else {
            fp_add_spec(
                b,
                fp_add_spec(
                    tdiv(fp_mul_spec(c, bounce_unit(fp_sub_spec(v, SCALE as int))), 2),
                    tdiv(c, 2),
                ),
            )
        },
        EaseFn::ElasticIn => if u == 0 {
            b
        } else if u == SCALE {
            fp_add_spec(b, c)
        } else {
            fp_sub_spec(
                b,
                fp_mul_spec(
                    fp_mul_spec(c, exp2_spec(10 * (u - SCALE))),
                    fp_sin_spec(fp_mul_spec(u - 1_075_000, ELASTIC_F as int)),
                ),
            )
        },
        EaseFn::ElasticOut => if u == 0 {
            b
        } else if u == SCALE {
            fp_add_spec(b, c)
        } else {
            fp_add_spec(
                fp_add_spec(b, c),
                fp_mul_spec(
                    fp_mul_spec(c, exp2_spec(-10 * u)),
                    fp_sin_spec(fp_mul_spec(u - 75_000, ELASTIC_F as int)),
                ),
            )
        },
        EaseFn::ElasticInOut => if u == 0 {
            b
        } else if u == SCALE {
            fp_add_spec(b, c)
        } else if v < SCALE {
            fp_sub_spec(
                b,
                tdiv(
                    fp_mul_spec(
                        fp_mul_spec(c, exp2_spec(10 * (v - SCALE))),
                        fp_sin_spec(fp_mul_spec(v - 1_112_500, ELASTIC_F2 as int)),
                    ),
                    2,
                ),
            )
        } else {
            fp_add_spec(
                fp_add_spec(b, c),
                tdiv(
                    fp_mul_spec(
                        fp_mul_spec(c, exp2_spec(-10 * (v - SCALE))),
                        fp_sin_spec(fp_mul_spec(v - 1_112_500, ELASTIC_F2 as int)),
                    ),
                    2,
                ),
            )
        },
    }
}

/// Overshoot coefficient of the back family.
pub const BACK_S: i64 = 1_701_580;

/// Overshoot coefficient of the back family's glued halves.
pub const BACK_S2: i64 = 2_594_910;

/// Half-cycles per unit of the elastic family's spring (a period of 0.3).
pub const ELASTIC_F: i64 = 6_666_667;

/// Half-cycles per unit of the glued elastic halves (a period of 0.45).
pub const ELASTIC_F2: i64 = 4_444_444;

/// The third fixed-point power.
pub open spec fn cube(u: int) -> int {
    fp_mul_spec(fp_mul_spec(u, u), u)
}

/// The fourth fixed-point power.
pub open spec fn pow4(u: int) -> int {
    fp_mul_spec(fp_mul_spec(u, u), fp_mul_spec(u, u))
}

/// The fifth fixed-point power.
pub open spec fn pow5(u: int) -> int {
    fp_mul_spec(pow4(u), u)
}

/// The bouncing decay on the unit range, from rest into four parabolic
/// arcs of diminishing height.
pub open spec fn bounce_unit(u: int) -> int {
    if u < 363_636 {
        fp_mul_spec(7_562_500, fp_mul_spec(u, u))
    } else if u < 727_272 {
        let w = u - 545_454;
        fp_add_spec(fp_mul_spec(7_562_500, fp_mul_spec(w, w)), 750_000)
    } else if u < 909_090 {
        let w = u - 818_181;
        fp_add_spec(fp_mul_spec(7_562_500, fp_mul_spec(w, w)), 937_500)
    } else {
        let w = u - 954_545;
        fp_add_spec(fp_mul_spec(7_562_500, fp_mul_spec(w, w)), 984_375)
    }
}

/// Evaluate the bouncing decay.
fn bounce_unit_exec(u: i64) -> (r: i64)
    requires
        -2 * SCALE <= u <= 2 * SCALE,
    ensures
        r as int == bounce_unit(u as int),
        valid_amp(r as int),
{
    if u < 363_636 {
        fp_mul(7_562_500, fp_mul(u, u))
    } else if u < 727_272 {
        let w = u - 545_454;
        fp_add(fp_mul(7_562_500, fp_mul(w, w)), 750_000)
    } else if u < 909_090 {
        let w = u - 818_181;
        fp_add(fp_mul(7_562_500, fp_mul(w, w)), 937_500)
    } else {
        let w = u - 954_545;
        fp_add(fp_mul(7_562_500, fp_mul(w, w)), 984_375)
    }
}

/// Evaluate one easing curve, exactly as [`spec_ease`] states.
pub fn apply_ease(f: EaseFn, u: i64, b: i64, c: i64) -> (r: i64)
    requires
        0 <= u <= SCALE,
        valid_amp(b as int),
        valid_amp(c as int),
    ensures
        r as int == spec_ease(f, u as int, b as int, c as int),
        valid_amp(r as int),
{
    let s: i64 = SCALE;
    let v = fp_add(u, u);
    match f {
        EaseFn::Linear => fp_add(b, fp_mul(c, u)),
        EaseFn::LinearIn => fp_add(b, fp_mul(c, u)),
        EaseFn::LinearOut => fp_add(b, fp_mul(c, u)),
        EaseFn::LinearInOut => fp_add(b, fp_mul(c, u)),
        EaseFn::QuadIn => fp_add(b, fp_mul(c, fp_mul(u, u))),
        EaseFn::QuadOut => fp_add(b, fp_mul(c, fp_sub(fp_add(u, u), fp_mul(u, u)))),
        EaseFn::QuadInOut => if v < s {
            fp_add(b, fp_half(fp_mul(c, fp_mul(v, v))))
        } else {
            let w = fp_sub(v, s);
            fp_add(b, fp_half(fp_mul(c, fp_add(s, fp_sub(fp_add(w, w), fp_mul(w, w))))))
        },
        EaseFn::CubicIn => fp_add(b, fp_mul(c, cube_exec(u))),
        EaseFn::CubicOut => fp_add(b, fp_mul(c, fp_add(cube_exec(fp_sub(u, s)), s))),
        EaseFn::CubicInOut => if v < s {
            fp_add(b, fp_half(fp_mul(c, cube_exec(v))))
        } else {
            fp_add(b, fp_half(fp_mul(c, fp_add(cube_exec(fp_sub(v, 2 * s)), 2 * s))))
        },
        EaseFn::QuartIn => fp_add(b, fp_mul(c, pow4_exec(u))),
        EaseFn::QuartOut => fp_add(b, fp_mul(c, fp_sub(s, pow4_exec(fp_sub(u, s))))),
        EaseFn::QuartInOut => if v < s {
            fp_add(b, fp_half(fp_mul(c, pow4_exec(v))))
        } else {
            fp_add(b, fp_half(fp_mul(c, fp_sub(2 * s, pow4_exec(fp_sub(v, 2 * s))))))
        },
        EaseFn::QuintIn => fp_add(b, fp_mul(c, pow5_exec(u))),
        EaseFn::QuintOut => fp_add(b, fp_mul(c, fp_add(pow5_exec(fp_sub(u, s)), s))),
        EaseFn::QuintInOut => if v < s {
            fp_add(b, fp_half(fp_mul(c, pow5_exec(v))))
        } else {
            fp_add(b, fp_half(fp_mul(c, fp_add(pow5_exec(fp_sub(v, 2 * s)), 2 * s))))
        },
        EaseFn::SineIn => fp_add(b, fp_sub(c, fp_mul(c, fp_cos(fp_half(u))))),
        EaseFn::SineOut => fp_add(b, fp_mul(c, fp_sin(fp_half(u)))),
        EaseFn::SineInOut => fp_add(b, fp_half(fp_mul(c, fp_sub(s, fp_cos(u))))),
        EaseFn::ExpoIn => if u == 0 {
            b
        } else {
            fp_add(b, fp_mul(c, exp2_exec(10 * (u - s))))
        },
        EaseFn::ExpoOut => if u == s {
            fp_add(b, c)
        } else {
            {
            let y: i64 = 10 * u;
            fp_add(b, fp_mul(c, fp_sub(s, exp2_exec(-y))))
        }
        },
        EaseFn::ExpoInOut => if u == 0 {
            b
        } else if u == s {
            fp_add(b, c)
        } else if v < s {
            fp_add(b, fp_half(fp_mul(c, exp2_exec(10 * (v - s)))))
        } else {
            fp_add(b, fp_half(fp_mul(c, fp_sub(2 * s, exp2_exec(-10 * (v - s))))))
        },
        EaseFn::CircIn => {
            proof {
                lemma_unit_square_bounds(u as int);
            }
            fp_add(b, fp_mul(c, fp_sub(s, sqrt_unit_exec(fp_sub(s, fp_mul(u, u))))))
        },
        EaseFn::CircOut => {
            proof {
                lemma_unit_square_bounds(u as int);
            }
            fp_add(b, fp_mul(c, sqrt_unit_exec(fp_sub(fp_add(u, u), fp_mul(u, u)))))
        },
        EaseFn::CircInOut => if v < s {
            proof {
                lemma_unit_square_bounds(v as int);
            }
            fp_add(b, fp_half(fp_mul(c, fp_sub(s, sqrt_unit_exec(fp_sub(s, fp_mul(v, v)))))))
        } else {
            let w = fp_sub(v, 2 * s);
            proof {
                lemma_unit_square_bounds(-w as int);
                assert(fp_mul_spec(w as int, w as int) == fp_mul_spec(-w as int, -w as int))
                    by (nonlinear_arith);
            }
            fp_add(b, fp_half(fp_mul(c, fp_add(s, sqrt_unit_exec(fp_sub(s, fp_mul(w, w)))))))
        },
        EaseFn::BackIn => fp_add(
            b,
            fp_mul(c, fp_mul(fp_mul(u, u), fp_sub(fp_mul(BACK_S + s, u), BACK_S))),
        ),
        EaseFn::BackOut => {
            let w = fp_sub(u, s);
            fp_add(
                b,
                fp_mul(c, fp_add(fp_mul(fp_mul(w, w), fp_add(fp_mul(BACK_S + s, w), BACK_S)), s)),
            )
        },
        EaseFn::BackInOut => if v < s {
            fp_add(
                b,
                fp_half(fp_mul(c, fp_mul(fp_mul(v, v), fp_sub(fp_mul(BACK_S2 + s, v), BACK_S2)))),
            )
        } else {
            let w = fp_sub(v, 2 * s);
            fp_add(
                b,
                fp_half(
                    fp_mul(
                        c,
                        fp_add(fp_mul(fp_mul(w, w), fp_add(fp_mul(BACK_S2 + s, w), BACK_S2)), 2 * s),
                    ),
                ),
            )
        },
        EaseFn::BounceOut => fp_add(b, fp_mul(c, bounce_unit_exec(u))),
        EaseFn::BounceIn => fp_add(b, fp_sub(c, fp_mul(c, bounce_unit_exec(fp_sub(s, u))))),
        EaseFn::BounceInOut => if v < s {
            fp_add(b, fp_half(fp_sub(c, fp_mul(c, bounce_unit_exec(fp_sub(s, v))))))
        } else {
            fp_add(b, fp_add(fp_half(fp_mul(c, bounce_unit_exec(fp_sub(v, s)))), fp_half(c)))
        },
        EaseFn::ElasticIn => if u == 0 {
            b
        } else if u == s {
            fp_add(b, c)
        } else {
            fp_sub(
                b,
                fp_mul(
                    fp_mul(c, exp2_exec(10 * (u - s))),
                    fp_sin(fp_mul(u - 1_075_000, ELASTIC_F)),
                ),
            )
        },
        EaseFn::ElasticOut => if u == 0 {
            b
        } else if u == s {
            fp_add(b, c)
        } else {
            fp_add(
                fp_add(b, c),
                fp_mul(fp_mul(c, exp2_exec(0 - 10 * u)), fp_sin(fp_mul(u - 75_000, ELASTIC_F))),
            )
        },
        EaseFn::ElasticInOut => if u == 0 {
            b
        } else if u == s {
            fp_add(b, c)
        } else if v < s {
            fp_sub(
                b,
                fp_half(
                    fp_mul(
                        fp_mul(c, exp2_exec(10 * (v - s))),
                        fp_sin(fp_mul(v - 1_112_500, ELASTIC_F2)),
                    ),
                ),
            )
        } else {
            fp_add(
                fp_add(b, c),
                fp_half(
                    fp_mul(
                        fp_mul(c, exp2_exec(-10 * (v - s))),
                        fp_sin(fp_mul(v - 1_112_500, ELASTIC_F2)),
                    ),
                ),
            )
        },
    }
}

/// The third fixed-point power.
fn cube_exec(u: i64) -> (r: i64)
    requires
        valid_amp(u as int),
    ensures
        r as int == cube(u as int),
        valid_amp(r as int),
{
    fp_mul(fp_mul(u, u), u)
}

/// The fourth fixed-point power.
fn pow4_exec(u: i64) -> (r: i64)
    requires
        valid_amp(u as int),
    ensures
        r as int == pow4(u as int),
        valid_amp(r as int),
{
    fp_mul(fp_mul(u, u), fp_mul(u, u))
}

/// The fifth fixed-point power.
fn pow5_exec(u: i64) -> (r: i64)
    requires
        valid_amp(u as int),
    ensures
        r as int == pow5(u as int),
        valid_amp(r as int),
{
    fp_mul(pow4_exec(u), u)
}

/// The easing shape a configuration name denotes, or nothing for a name
/// outside the catalog.
pub open spec fn spec_ease_from_name(s: Seq<char>) -> Option<EaseFn> {
    if false {
        None
    } else if s == "BackIn"@ {
        Some(EaseFn::BackIn)
    } else if s == "BackOut"@ {
        Some(EaseFn::BackOut)
    } else if s == "BackInOut"@ {
        Some(EaseFn::BackInOut)
    } else if s == "BounceIn"@ {
        Some(EaseFn::BounceIn)
    } else if s == "BounceOut"@ {
        Some(EaseFn::BounceOut)
    } else if s == "BounceInOut"@ {
        Some(EaseFn::BounceInOut)
    } else if s == "CircIn"@ {
        Some(EaseFn::CircIn)
    } else if s == "CircOut"@ {
        Some(EaseFn::CircOut)
    } else if s == "CircInOut"@ {
        Some(EaseFn::CircInOut)
    } else if s == "CubicIn"@ {
        Some(EaseFn::CubicIn)
    } else if s == "CubicOut"@ {
        Some(EaseFn::CubicOut)
    } else if s == "CubicInOut"@ {
        Some(EaseFn::CubicInOut)
    } else if s == "ElasticIn"@ {
        Some(EaseFn::ElasticIn)
    } else if s == "ElasticOut"@ {
        Some(EaseFn::ElasticOut)
    } else if s == "ElasticInOut"@ {
        Some(EaseFn::ElasticInOut)
    } else if s == "ExpoIn"@ {
        Some(EaseFn::ExpoIn)
    } else if s == "ExpoOut"@ {
        Some(EaseFn::ExpoOut)
    } else if s == "ExpoInOut"@ {
        Some(EaseFn::ExpoInOut)
    } else if s == "Linear"@ {
        Some(EaseFn::Linear)
    } else if s == "LinearIn"@ {
        Some(EaseFn::LinearIn)
    } else if s == "LinearOut"@ {
        Some(EaseFn::LinearOut)
    } else if s == "LinearInOut"@ {
        Some(EaseFn::LinearInOut)
    } else if s == "QuadIn"@ {
        Some(EaseFn::QuadIn)
    } else if s == "QuadOut"@ {
        Some(EaseFn::QuadOut)
    } else if s == "QuadInOut"@ {
        Some(EaseFn::QuadInOut)
    } else if s == "QuartIn"@ {
        Some(EaseFn::QuartIn)
    } else if s == "QuartOut"@ {
        Some(EaseFn::QuartOut)
    } else if s == "QuartInOut"@ {
        Some(EaseFn::QuartInOut)
    } else if s == "QuintIn"@ {
        Some(EaseFn::QuintIn)
    } else if s == "QuintOut"@ {
        Some(EaseFn::QuintOut)
    } else if s == "QuintInOut"@ {
        Some(EaseFn::QuintInOut)
    } else if s == "SineIn"@ {
        Some(EaseFn::SineIn)
    } else if s == "SineOut"@ {
        Some(EaseFn::SineOut)
    } else if s == "SineInOut"@ {
        Some(EaseFn::SineInOut)
    } else {
        None
    }
}

/// Resolve a configuration name to its easing shape, exactly as
/// [`spec_ease_from_name`] states.
pub fn ease_from_name(s: &str) -> (r: Option<EaseFn>)
    ensures
        r == spec_ease_from_name(s@),
{
    if str_eq(s, "BackIn") {
        return Some(EaseFn::BackIn);
    }
    if str_eq(s, "BackOut") {
        return Some(EaseFn::BackOut);
    }
    if str_eq(s, "BackInOut") {
        return Some(EaseFn::BackInOut);
    }
    if str_eq(s, "BounceIn") {
        return Some(EaseFn::BounceIn);
    }
    if str_eq(s, "BounceOut") {
        return Some(EaseFn::BounceOut);
    }
    if str_eq(s, "BounceInOut") {
        return Some(EaseFn::BounceInOut);
    }
    if str_eq(s, "CircIn") {
        return Some(EaseFn::CircIn);
    }
    if str_eq(s, "CircOut") {
        return Some(EaseFn::CircOut);
    }
    if str_eq(s, "CircInOut") {
        return Some(EaseFn::CircInOut);
    }
    if str_eq(s, "CubicIn") {
        return Some(EaseFn::CubicIn);
    }
    if str_eq(s, "CubicOut") {
        return Some(EaseFn::CubicOut);
    }
    if str_eq(s, "CubicInOut") {
        return Some(EaseFn::CubicInOut);
    }
    if str_eq(s, "ElasticIn") {
        return Some(EaseFn::ElasticIn);
    }
    if str_eq(s, "ElasticOut") {
        return Some(EaseFn::ElasticOut);
    }
    if str_eq(s, "ElasticInOut") {
        return Some(EaseFn::ElasticInOut);
    }
    if str_eq(s, "ExpoIn") {
        return Some(EaseFn::ExpoIn);
    }
    if str_eq(s, "ExpoOut") {
        return Some(EaseFn::ExpoOut);
    }
    if str_eq(s, "ExpoInOut") {
        return Some(EaseFn::ExpoInOut);
    }
    if str_eq(s, "Linear") {
        return Some(EaseFn::Linear);
    }
    if str_eq(s, "LinearIn") {
        return Some(EaseFn::LinearIn);
    }
    if str_eq(s, "LinearOut") {
        return Some(EaseFn::LinearOut);
    }
    if str_eq(s, "LinearInOut") {
        return Some(EaseFn::LinearInOut);
    }
    if str_eq(s, "QuadIn") {
        return Some(EaseFn::QuadIn);
    }
    if str_eq(s, "QuadOut") {
        return Some(EaseFn::QuadOut);
    }
    if str_eq(s, "QuadInOut") {
        return Some(EaseFn::QuadInOut);
    }
    if str_eq(s, "QuartIn") {
        return Some(EaseFn::QuartIn);
    }
    if str_eq(s, "QuartOut") {
        return Some(EaseFn::QuartOut);
    }
    if str_eq(s, "QuartInOut") {
        return Some(EaseFn::QuartInOut);
    }
    if str_eq(s, "QuintIn") {
        return Some(EaseFn::QuintIn);
    }
    if str_eq(s, "QuintOut") {
        return Some(EaseFn::QuintOut);
    }
    if str_eq(s, "QuintInOut") {
        return Some(EaseFn::QuintInOut);
    }
    if str_eq(s, "SineIn") {
        return Some(EaseFn::SineIn);
    }
    if str_eq(s, "SineOut") {
        return Some(EaseFn::SineOut);
    }
    if str_eq(s, "SineInOut") {
        return Some(EaseFn::SineInOut);
    }
    None
}

} // verus!
