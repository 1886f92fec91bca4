//! Envelope signal sources: piecewise eased keyframe segments evaluated
//! against elapsed note time.

use vstd::prelude::*;

use crate::ease::{apply_ease, spec_ease, EaseFn};
use crate::fixed::{fp_mul, fp_mul_spec, fp_sub, fp_sub_spec, iabs, tdiv, valid_amp, SCALE};
use crate::samplegen::{lookup, Params};

verus! {

/// One keyframe segment: start and end as fractions of the note's whole
/// duration, a start value, a value delta, and the easing shape that joins
/// them.
#[derive(Debug, Clone, Copy)]
pub struct EnvPhase {
    pub start_time: i64,
    pub end_time: i64,
    pub start_val: i64,
    pub delta_val: i64,
    pub ease_fn: EaseFn,
}

/// Every field of a phase is a representable amplitude.
pub open spec fn phase_wf(ph: EnvPhase) -> bool {
    valid_amp(ph.start_time as int) && valid_amp(ph.end_time as int) && valid_amp(
        ph.start_val as int,
    ) && valid_amp(ph.delta_val as int)
}

/// A fixed-point amplitude truncated to whole samples, with negative
/// positions clamped to zero.
pub open spec fn to_samples(x: int) -> int {
    let v = tdiv(x, SCALE as int);
    if v < 0 {
        0
    } else {
        v
    }
}

/// Whether a phase's absolute sample window contains the instant `t`
/// (inclusive on both ends); `dur` is the note duration as an amplitude.
pub open spec fn phase_active(ph: EnvPhase, dur: int, t: int) -> bool {
    let lo = to_samples(fp_mul_spec(ph.start_time as int, dur));
    let hi = to_samples(fp_mul_spec(ph.end_time as int, dur));
    lo <= t <= hi
}

/// The normalised position of `t` within a phase's window; a zero-length
/// window sits at its start.
pub open spec fn phase_norm(ph: EnvPhase, dur: int, t: int) -> int {
    let lo = to_samples(fp_mul_spec(ph.start_time as int, dur));
    let hi = to_samples(fp_mul_spec(ph.end_time as int, dur));
    if hi == lo {
        0
    } else {
        tdiv((t - lo) * SCALE, hi - lo)
    }
}

/// The eased value of a phase at instant `t`.
pub open spec fn phase_value(ph: EnvPhase, dur: int, t: int) -> int {
    spec_ease(ph.ease_fn, phase_norm(ph, dur, t), ph.start_val as int, ph.delta_val as int)
}

/// Pin a value onto the unit modulation range: overshooting curves (the
/// back and elastic families) and extreme phase values may ease outside
/// it, but a modulation sample is a fraction of the carrier to keep.
pub open spec fn clamp_unit(x: int) -> int {
    if x < 0 {
        0
    } else if x > SCALE {
        SCALE as int
    } else {
        x
    }
}

/// The modulation sample of an envelope: the eased value of the last
/// phase in scan order whose window contains `t`, pinned onto the unit
/// range and inverted so callers can treat it as an attenuation amount;
/// no matching window means no value.
pub open spec fn env_mod_sample(phases: Seq<EnvPhase>, dur: int, t: int) -> Option<int>
    decreases phases.len(),
{
    if phases.len() == 0 {
        None
    } else if phase_active(phases.last(), dur, t) {
        Some(fp_sub_spec(SCALE as int, clamp_unit(phase_value(phases.last(), dur, t))))
    } else {
        env_mod_sample(phases.drop_last(), dur, t)
    }
}

/// An ordered sequence of eased keyframe phases.
#[derive(Debug, Clone)]
pub struct Envelope {
    phases: Vec<EnvPhase>,
}

impl Envelope {
    /// The phases, in scan order.
    pub closed spec fn phases_view(&self) -> Seq<EnvPhase> {
        self.phases@
    }

    /// Every phase is representable.
    pub closed spec fn wf(&self) -> bool {
        forall|i: int| 0 <= i < self.phases@.len() ==> phase_wf(#[trigger] self.phases@[i])
    }

    /// An envelope from its phases, kept in insertion order.
    pub fn new(phases: Vec<EnvPhase>) -> (r: Envelope)
        requires
            forall|i: int| 0 <= i < phases@.len() ==> phase_wf(#[trigger] phases@[i]),
        ensures
            r.wf(),
            r.phases_view() == phases@,
    {
        Envelope { phases }
    }

    /// An envelope produces no carrier signal.
    pub fn get_sample(&self, _p: &Params) -> (r: Option<i64>)
        ensures
            r is None,
    {
        None
    }

    /// An envelope needs no cache priming.
    pub fn cache(&mut self, _p: &Params)
        ensures
            *final(self) == *old(self),
    {
    }

    /// The modulation sample at the context's `sample` instant within a
    /// note of the context's `duration`, exactly as [`env_mod_sample`]
    /// states.
    pub fn get_mod_sample(&self, p: &Params) -> (r: Option<i64>)
        requires
            self.wf(),
            p.wf(),
            lookup(p@, "duration"@) is Some,
            lookup(p@, "sample"@) is Some,
        ensures
            ({
                let m = env_mod_sample(
                    self.phases_view(),
                    lookup(p@, "duration"@)->Some_0 as int,
                    to_samples(lookup(p@, "sample"@)->Some_0 as int),
                );
                match r {
                    Some(v) => m == Some(v as int) && 0 <= v <= SCALE,
                    None => m is None,
                }
            }),
    {
        let dur = p.get("duration").unwrap();
        let sample_fp = p.get("sample").unwrap();
        let t = to_samples_exec(sample_fp);
        let ghost dv = dur as int;
        let ghost tv = t as int;
        let mut i: usize = self.phases.len();
        proof {
            assert(self.phases@.take(self.phases@.len() as int) =~= self.phases@);
        }
        while i > 0
            invariant
                self.wf(),
                p.wf(),
                i <= self.phases@.len(),
                valid_amp(dv),
                dv == dur as int,
                tv == t as int,
                lookup(p@, "duration"@) == Some(dur),
                to_samples(lookup(p@, "sample"@)->Some_0 as int) == tv,
                0 <= tv <= 4_700_000_000_000,
                env_mod_sample(self.phases_view(), dv, tv) == env_mod_sample(
                    self.phases@.take(i as int),
                    dv,
                    tv,
                ),
            decreases i,
        {
            i = i - 1;
            let ph = self.phases[i];
            proof {
                assert(self.phases@.take(i as int + 1).last() == self.phases@[i as int]);
                assert(self.phases@.take(i as int + 1).drop_last() =~= self.phases@.take(i as int));
            }
            let lo = to_samples_exec(fp_mul(ph.start_time, dur));
            let hi = to_samples_exec(fp_mul(ph.end_time, dur));
            if t >= lo && t <= hi {
                let u = norm_exec(t, lo, hi);
                let val = apply_ease(ph.ease_fn, u, ph.start_val, ph.delta_val);
                let pinned = if val < 0 {
                    0
                } else if val > SCALE {
                    SCALE
                } else {
                    val
                };
                return Some(fp_sub(SCALE, pinned));
            }
        }
        proof {
            assert(self.phases@.take(0).len() == 0);
        }
        None
    }
}

/// Truncate a fixed-point amplitude to whole samples.
pub(crate) fn to_samples_exec(x: i64) -> (r: i64)
    requires
        valid_amp(x as int),
    ensures
        r as int == to_samples(x as int),
        0 <= r <= 4_700_000_000_000,
{
    if x < 0 {
        0
    } else {
        let r = (x as u64) / (SCALE as u64);
        proof {
            vstd::arithmetic::div_mod::lemma_div_is_ordered(
                x as int,
                4_700_000_000_000 * 1_000_000 as int,
                1_000_000 as int,
            );
            vstd::arithmetic::div_mod::lemma_div_multiples_vanish(
                4_700_000_000_000,
                1_000_000 as int,
            );
        }
        r as i64
    }
}

/// The normalised position of `t` within the window `[lo, hi]`.
fn norm_exec(t: i64, lo: i64, hi: i64) -> (u: i64)
    requires
        lo <= t <= hi,
        0 <= lo,
        hi <= 4_700_000_000_000,
    ensures
        u as int == (if hi == lo {
            0
        } else {
            tdiv((t - lo) * SCALE, hi - lo)
        }),
        0 <= u <= SCALE,
{
    if hi == lo {
        return 0;
    }
    let frame: u128 = (t - lo) as u128;
    let w: u128 = (hi - lo) as u128;
    let u = (frame * (SCALE as u128)) / w;
    proof {
        let fi = (t - lo) as int;
        let wi = (hi - lo) as int;
        assert(fi * SCALE >= 0 && fi * SCALE <= wi * SCALE) by (nonlinear_arith)
            requires
                0 <= fi <= wi,
                SCALE > 0,
        ;
        assert(iabs(fi * SCALE) == fi * SCALE);
        vstd::arithmetic::div_mod::lemma_div_is_ordered(fi * SCALE, wi * SCALE, wi);
        assert(wi * SCALE == SCALE * wi) by (nonlinear_arith);
        vstd::arithmetic::div_mod::lemma_div_multiples_vanish(SCALE as int, wi);
        vstd::arithmetic::div_mod::lemma_div_pos_is_pos(fi * SCALE, wi);
    }
    u as i64
}

/// A single linear phase spanning the whole note starts fully open and
/// closes fully: at the first sample the inverted value is `1.0`, at the
/// last it is `0.0`.
pub proof fn lemma_envelope_boundary(ph: EnvPhase)
    requires
        ph.start_time == 0,
        ph.end_time == SCALE,
        ph.start_val == 0,
        ph.delta_val == SCALE,
        ph.ease_fn == EaseFn::Linear,
    ensures
        env_mod_sample(seq![ph], 100 * SCALE, 0) == Some(SCALE as int),
        env_mod_sample(seq![ph], 100 * SCALE, 100) == Some(0int),
{
    let phases = seq![ph];
    let dur = 100 * SCALE;
    assert(phases.last() == ph);
    let lo = to_samples(fp_mul_spec(0, dur));
    let hi = to_samples(fp_mul_spec(SCALE as int, dur));
    assert(0 * dur == 0) by (nonlinear_arith);
    assert(iabs(0) / iabs(SCALE as int) == 0) by (nonlinear_arith);
    assert(lo == 0);
    assert(SCALE * dur == 100 * SCALE * SCALE) by (nonlinear_arith)
        requires
            dur == 100 * SCALE,
    ;
    assert(iabs(100 * SCALE * SCALE) == 100 * SCALE * SCALE) by (nonlinear_arith);
    assert(100 * SCALE * SCALE == (100 * SCALE) * SCALE) by (nonlinear_arith);
    vstd::arithmetic::div_mod::lemma_div_multiples_vanish(100 * SCALE, SCALE as int);
    assert(iabs(SCALE * dur) / iabs(SCALE as int) == 100 * SCALE) by {
        assert(iabs(SCALE * dur) == 100 * SCALE * SCALE) by (nonlinear_arith)
            requires
                dur == 100 * SCALE,
        ;
    }
    assert(hi == (100 * SCALE) / (SCALE as int));
    assert(hi == 100);
    // at the opening instant the normalised time is zero
    assert(phase_active(ph, dur, 0));
    assert((0 - lo) * SCALE == 0) by (nonlinear_arith)
        requires
            lo == 0,
    ;
    assert(phase_norm(ph, dur, 0) == tdiv(0, 100));
    assert(iabs(0) / iabs(100) == 0) by (nonlinear_arith);
    assert(phase_norm(ph, dur, 0) == 0);
    assert(fp_mul_spec(SCALE as int, 0) == 0) by {
        assert(SCALE * 0 == 0) by (nonlinear_arith);
        assert(iabs(0) / iabs(SCALE as int) == 0) by (nonlinear_arith);
    }
    assert(phase_value(ph, dur, 0) == 0);
    assert(clamp_unit(0) == 0);
    assert(env_mod_sample(phases, dur, 0) == Some(fp_sub_spec(SCALE as int, 0)));
    // at the closing instant the normalised time is one
    assert(phase_active(ph, dur, 100));
    assert((100 - lo) * SCALE == 100 * SCALE) by (nonlinear_arith)
        requires
            lo == 0,
    ;
    assert(100 * SCALE == 100 * (SCALE as int)) by (nonlinear_arith);
    vstd::arithmetic::div_mod::lemma_div_multiples_vanish(SCALE as int, 100);
    assert(iabs(100 * SCALE) == 100 * SCALE) by (nonlinear_arith);
    assert(100 * SCALE == 100 * (SCALE as int) && iabs(100) == 100);
    assert(phase_norm(ph, dur, 100) == tdiv(100 * SCALE, 100));
    assert(100 * (SCALE as int) / 100 == SCALE as int) by {
        assert(100 * (SCALE as int) == 100 * (SCALE as int));
    }
    assert(phase_norm(ph, dur, 100) == SCALE);
    assert(fp_mul_spec(SCALE as int, SCALE as int) == SCALE) by {
        assert(SCALE * SCALE == (SCALE as int) * SCALE) by (nonlinear_arith);
        vstd::arithmetic::div_mod::lemma_div_multiples_vanish(SCALE as int, SCALE as int);
        assert(iabs(SCALE * SCALE) == SCALE * SCALE) by (nonlinear_arith);
    }
    assert(phase_value(ph, dur, 100) == SCALE);
    assert(clamp_unit(SCALE as int) == SCALE);
    assert(env_mod_sample(phases, dur, 100) == Some(fp_sub_spec(SCALE as int, SCALE as int)));
}

} // verus!
