//! A per-pitch bank of recorded sample clips, with nearest-neighbour
//! resampling when a requested pitch has no clip of its own.
//!
//! Registered clips are decoded PCM buffers held as fixed-point
//! amplitudes; priming fills a per-pitch cache once, and playback reads
//! the cached buffer, yielding silence past its end.

use vstd::prelude::*;

use crate::ease::pow2_exec;
use crate::envelope::{to_samples, to_samples_exec};
use crate::fixed::{iabs, tdiv, valid_amp, SCALE};
use crate::samplegen::{lookup, Params};

verus! {

/// The number of MIDI pitches a bank addresses.
pub const PITCHES: usize = 128;

/// A buffer holds representable amplitudes only.
pub open spec fn buf_wf(buf: Seq<i64>) -> bool {
    forall|i: int| 0 <= i < buf.len() ==> valid_amp(#[trigger] buf[i] as int)
}

/// Every present slot holds a well-formed buffer.
pub open spec fn slots_wf(slots: Seq<Option<Vec<i64>>>) -> bool {
    &&& slots.len() == PITCHES
    &&& forall|i: int|
        0 <= i < slots.len() && slots[i] is Some ==> buf_wf(#[trigger] slots[i]->Some_0@)
}

/// The semitone table: `2^(r/12)` for `r` in `0..12`, at fixed-point
/// resolution, the engine's equal-tempered frequency ratios.
pub open spec fn semitone(r: int) -> int {
    if r == 0 {
        1_000_000
    } else if r == 1 {
        1_059_463
    } else if r == 2 {
        1_122_462
    } else if r == 3 {
        1_189_207
    } else if r == 4 {
        1_259_921
    } else if r == 5 {
        1_334_840
    } else if r == 6 {
        1_414_214
    } else if r == 7 {
        1_498_307
    } else if r == 8 {
        1_587_401
    } else if r == 9 {
        1_681_793
    } else if r == 10 {
        1_781_797
    } else {
        1_887_749
    }
}

/// The frequency ratio `2^(d/12)` between two pitches `d` semitones
/// apart, in fixed point: a whole-octave power of two times a semitone
/// factor.
pub open spec fn pitch_ratio(d: int) -> int {
    let k = d / 12;
    let r = d % 12;
    let base = semitone(r);
    if k >= 0 {
        base * vstd::arithmetic::power2::pow2(k as nat)
    } else {
        tdiv(base, vstd::arithmetic::power2::pow2((-k) as nat) as int)
    }
}

/// The resampled value at output index `s`: the nearest source sample to
/// `s·ratio`, the tie at exactly half going to the upper neighbour, and
/// silence once the scaled location passes the last source index.
pub open spec fn resample_at(snd: Seq<i64>, ratio: int, s: int) -> i64 {
    let last = snd.len() - 1;
    let loc = s * ratio;
    let fl = tdiv(loc, SCALE as int);
    if loc > last * SCALE {
        0
    } else if loc - fl * SCALE < 500_000 {
        snd[fl]
    } else {
        snd[fl + 1]
    }
}

/// A source buffer resampled by a fixed-point ratio: one fewer entry than
/// the source, each the nearest-neighbour pick of [`resample_at`].
pub open spec fn spec_resample(snd: Seq<i64>, ratio: int) -> Seq<i64> {
    if snd.len() == 0 {
        Seq::empty()
    } else {
        Seq::new((snd.len() - 1) as nat, |s: int| resample_at(snd, ratio, s))
    }
}

/// The nearest registered pitch at distance `d` or beyond, the higher
/// neighbour of each distance tried first.
pub open spec fn search_from(clips: Seq<Option<Vec<i64>>>, pitch: int, d: int) -> Option<int>
    decreases 128 - d,
    when 1 <= d <= 128
{
    if d > 127 {
        None
    } else if pitch + d <= 127 && clips[pitch + d] is Some {
        Some(pitch + d)
    } else if pitch - d >= 0 && clips[pitch - d] is Some {
        Some(pitch - d)
    } else {
        search_from(clips, pitch, d + 1)
    }
}

/// The nearest registered pitch to `pitch`, searching outward by
/// semitone distance, or nothing when no clip is registered anywhere in
/// range.
pub open spec fn nearest_clip(clips: Seq<Option<Vec<i64>>>, pitch: int) -> Option<int> {
    search_from(clips, pitch, 1)
}

/// The cache after priming `pitch`: unchanged when already primed or when
/// no clip is reachable; filled with the clip itself at an exact hit; and
/// filled with the nearest clip resampled by the pitches' frequency ratio
/// otherwise.
pub open spec fn spec_prime(
    clips: Seq<Option<Vec<i64>>>,
    cache: Seq<Option<Seq<i64>>>,
    pitch: int,
) -> Seq<Option<Seq<i64>>> {
    if cache[pitch] is Some {
        cache
    } else if clips[pitch] is Some {
        cache.update(pitch, Some(clips[pitch]->Some_0@))
    } else {
        match nearest_clip(clips, pitch) {
            Some(q) => cache.update(
                pitch,
                Some(spec_resample(clips[q]->Some_0@, pitch_ratio(pitch - q))),
            ),
            None => cache,
        }
    }
}

/// The playback sample of a cached pitch at instant `t`: the buffer's
/// value while it lasts, then silence; an unprimed pitch has no value.
pub open spec fn bank_sample(cache: Seq<Option<Seq<i64>>>, pitch: int, t: int) -> Option<i64> {
    match cache[pitch] {
        None => None,
        Some(buf) => if t < buf.len() {
            Some(buf[t])
        } else {
            Some(0)
        },
    }
}

/// A named bank of recorded clips keyed by MIDI pitch, with its primed
/// cache.
#[derive(Debug, Clone)]
pub struct SampleBank {
    pub name: String,
    clips: Vec<Option<Vec<i64>>>,
    cache: Vec<Option<Vec<i64>>>,
}

impl SampleBank {
    /// The bank's name.
    pub closed spec fn name_view(&self) -> Seq<char> {
        self.name@
    }

    /// The registered clips, one optional buffer per pitch.
    pub closed spec fn clips_view(&self) -> Seq<Option<Vec<i64>>> {
        self.clips@
    }

    /// The primed cache, one optional buffer per pitch.
    pub closed spec fn cache_view(&self) -> Seq<Option<Seq<i64>>> {
        Seq::new(self.cache@.len() as nat, |i: int| match self.cache@[i] {
            Some(b) => Some(b@),
            None => None,
        })
    }

    /// Both tables cover every pitch and hold representable buffers.
    pub closed spec fn wf(&self) -> bool {
        slots_wf(self.clips@) && slots_wf(self.cache@)
    }

    /// A well-formed bank's tables span every MIDI pitch.
    pub proof fn lemma_wf_shape(&self)
        requires
            self.wf(),
        ensures
            self.clips_view().len() == 128,
            self.cache_view().len() == 128,
    {
    }

    /// An empty bank with the given name.
    pub fn new(name: String) -> (r: SampleBank)
        ensures
            r.wf(),
            r.name_view() == name@,
            r.clips_view().len() == 128,
            r.cache_view().len() == 128,
            forall|i: int| 0 <= i < 128 ==> r.clips_view()[i] is None,
            forall|i: int| 0 <= i < 128 ==> r.cache_view()[i] is None,
    {
        let mut clips: Vec<Option<Vec<i64>>> = Vec::new();
        let mut cache: Vec<Option<Vec<i64>>> = Vec::new();
        let mut i: usize = 0;
        while i < PITCHES
            invariant
                clips@.len() == i,
                cache@.len() == i,
                i <= PITCHES,
                forall|j: int| 0 <= j < i ==> clips@[j] is None,
                forall|j: int| 0 <= j < i ==> cache@[j] is None,
            decreases PITCHES - i,
        {
            clips.push(None);
            cache.push(None);
            i = i + 1;
        }
        SampleBank { name, clips, cache }
    }

    /// Register the source clip for one pitch, replacing any earlier one.
    pub fn register(&mut self, pitch: u8, samples: Vec<i64>)
        requires
            old(self).wf(),
            pitch < 128,
            buf_wf(samples@),
        ensures
            final(self).wf(),
            final(self).name_view() == old(self).name_view(),
            final(self).clips_view().len() == 128,
            final(self).cache_view().len() == 128,
            final(self).clips_view() == old(self).clips_view().update(
                pitch as int,
                Some(samples),
            ),
            final(self).cache_view() == old(self).cache_view(),
    {
        self.clips.set(pitch as usize, Some(samples));
        proof {
            assert(self.cache_view() =~= old(self).cache_view());
        }
    }

    /// Ensure the requested pitch's buffer is cached, exactly as
    /// [`spec_prime`] states: an idempotent step that decodes nothing when
    /// the pitch is already primed, copies an exact hit, and otherwise
    /// resamples the nearest registered clip — or leaves the cache alone
    /// when no clip is reachable, rather than failing.
    pub fn cache(&mut self, p: &Params)
        requires
            old(self).wf(),
            p.wf(),
            lookup(p@, "midi_note"@) is Some,
            to_samples(lookup(p@, "midi_note"@)->Some_0 as int) < 128,
        ensures
            final(self).wf(),
            final(self).name_view() == old(self).name_view(),
            final(self).clips_view().len() == 128,
            final(self).cache_view().len() == 128,
            final(self).clips_view() == old(self).clips_view(),
            final(self).cache_view() == spec_prime(
                old(self).clips_view(),
                old(self).cache_view(),
                to_samples(lookup(p@, "midi_note"@)->Some_0 as int),
            ),
    {
        let mn = p.get("midi_note").unwrap();
        let pitch = to_samples_exec(mn) as usize;
        if self.cache[pitch].is_some() {
            proof {
                assert(self.cache_view() =~= old(self).cache_view());
            }
            return;
        }
        match &self.clips[pitch] {
            Some(buf) => {
                let copy = clone_buf(buf);
                self.cache.set(pitch, Some(copy));
                proof {
                    assert(self.cache_view() =~= old(self).cache_view().update(
                        pitch as int,
                        Some(old(self).clips_view()[pitch as int]->Some_0@),
                    ));
                }
            },
            None => {
                let mut d: usize = 1;
                loop
                    invariant
                        1 <= d <= 128,
                        self.wf(),
                        pitch < 128,
                        pitch as int == to_samples(lookup(p@, "midi_note"@)->Some_0 as int),
                        self.name_view() == old(self).name_view(),
                        self.clips_view() == old(self).clips_view(),
                        self.cache_view() == old(self).cache_view(),
                        self.clips_view()[pitch as int] is None,
                        self.cache_view()[pitch as int] is None,
                        nearest_clip(self.clips@, pitch as int) == search_from(
                            self.clips@,
                            pitch as int,
                            d as int,
                        ),
                    decreases 128 - d,
                {
                    if d > 127 {
                        proof {
                            assert(self.cache_view() =~= old(self).cache_view());
                        }
                        return;
                    }
                    if pitch + d <= 127 && self.clips[pitch + d].is_some() {
                        self.resample_into(pitch, pitch + d);
                        return;
                    }
                    if pitch >= d && self.clips[pitch - d].is_some() {
                        self.resample_into(pitch, pitch - d);
                        return;
                    }
                    d = d + 1;
                }
            },
        }
    }

    /// Resample the clip at `q` into the cache slot of `pitch`.
    fn resample_into(&mut self, pitch: usize, q: usize)
        requires
            old(self).wf(),
            pitch < 128,
            q < 128,
            pitch != q,
            old(self).clips_view()[q as int] is Some,
            old(self).cache_view()[pitch as int] is None,
        ensures
            final(self).wf(),
            final(self).name_view() == old(self).name_view(),
            final(self).clips_view() == old(self).clips_view(),
            final(self).cache_view() == old(self).cache_view().update(
                pitch as int,
                Some(
                    spec_resample(
                        old(self).clips_view()[q as int]->Some_0@,
                        pitch_ratio(pitch - q),
                    ),
                ),
            ),
    {
        let ratio = pitch_ratio_exec(pitch as i64 - q as i64);
        let out = match &self.clips[q] {
            Some(snd) => resample(snd, ratio),
            None => Vec::new(),
        };
        self.cache.set(pitch, Some(out));
        proof {
            assert(self.cache_view() =~= old(self).cache_view().update(
                pitch as int,
                Some(
                    spec_resample(
                        old(self).clips_view()[q as int]->Some_0@,
                        pitch_ratio(pitch - q),
                    ),
                ),
            ));
        }
    }

    /// The playback sample for the context's `midi_note` at its `sample`
    /// instant, exactly as [`bank_sample`] states.
    pub fn get_sample(&self, p: &Params) -> (r: Option<i64>)
        requires
            self.wf(),
            p.wf(),
            lookup(p@, "midi_note"@) is Some,
            lookup(p@, "sample"@) is Some,
            to_samples(lookup(p@, "midi_note"@)->Some_0 as int) < 128,
        ensures
            r == bank_sample(
                self.cache_view(),
                to_samples(lookup(p@, "midi_note"@)->Some_0 as int),
                to_samples(lookup(p@, "sample"@)->Some_0 as int),
            ),
            r is Some ==> valid_amp(r->Some_0 as int),
    {
        let mn = p.get("midi_note").unwrap();
        let pitch = to_samples_exec(mn) as usize;
        let sv = p.get("sample").unwrap();
        let t = to_samples_exec(sv);
        match &self.cache[pitch] {
            None => None,
            Some(buf) => {
                if (t as u64) < (buf.len() as u64) {
                    Some(buf[t as usize])
                } else {
                    Some(0)
                }
            },
        }
    }

    /// A sample bank is never a modulator.
    pub fn get_mod_sample(&self, _p: &Params) -> (r: Option<i64>)
        ensures
            r is None,
    {
        None
    }
}

/// Copy a sample buffer.
fn clone_buf(buf: &Vec<i64>) -> (r: Vec<i64>)
    ensures
        r@ == buf@,
{
    let mut out: Vec<i64> = Vec::new();
    let mut i: usize = 0;
    while i < buf.len()
        invariant
            i <= buf@.len(),
            out@ == buf@.take(i as int),
        decreases buf@.len() - i,
    {
        out.push(buf[i]);
        proof {
            assert(out@ =~= buf@.take(i as int + 1));
        }
        i = i + 1;
    }
    proof {
        assert(buf@.take(buf@.len() as int) =~= buf@);
    }
    out
}

/// The equal-tempered frequency ratio for a semitone distance, exactly as
/// [`pitch_ratio`] states.
pub(crate) fn pitch_ratio_exec(d: i64) -> (r: i64)
    requires
        -127 <= d <= 127,
    ensures
        r as int == pitch_ratio(d as int),
        0 <= r <= 4_000_000_000,
{
    let dm: u64 = if d < 0 {
        (-d) as u64
    } else {
        d as u64
    };
    let mr: u64 = dm % 12;
    let q0: u64 = dm / 12;
    let (k_mag, k_neg, rsem): (u64, bool, u64) = if d >= 0 {
        (q0, false, mr)
    } else if mr == 0 {
        (q0, q0 > 0, 0)
    } else {
        (q0 + 1, true, 12 - mr)
    };
    proof {
        let di = d as int;
        if d >= 0 {
            assert(di / 12 == q0 as int && di % 12 == mr as int);
        } else {
            vstd::arithmetic::div_mod::lemma_fundamental_div_mod(dm as int, 12);
            if mr == 0 {
                assert(di == (-(q0 as int)) * 12 + 0) by (nonlinear_arith)
                    requires
                        dm as int == (q0 as int) * 12 + (mr as int),
                        mr as int == 0,
                        di == -(dm as int),
                ;
                vstd::arithmetic::div_mod::lemma_fundamental_div_mod_converse(
                    di,
                    12,
                    -(q0 as int),
                    0,
                );
            } else {
                assert(di == (-(q0 as int) - 1) * 12 + (12 - mr as int)) by (nonlinear_arith)
                    requires
                        dm as int == (q0 as int) * 12 + (mr as int),
                        di == -(dm as int),
                ;
                vstd::arithmetic::div_mod::lemma_fundamental_div_mod_converse(
                    di,
                    12,
                    -(q0 as int) - 1,
                    12 - mr as int,
                );
            }
        }
    }
    let base: u64 = if rsem == 0 {
        1_000_000
    } else if rsem == 1 {
        1_059_463
    } else if rsem == 2 {
        1_122_462
    } else if rsem == 3 {
        1_189_207
    } else if rsem == 4 {
        1_259_921
    } else if rsem == 5 {
        1_334_840
    } else if rsem == 6 {
        1_414_214
    } else if rsem == 7 {
        1_498_307
    } else if rsem == 8 {
        1_587_401
    } else if rsem == 9 {
        1_681_793
    } else if rsem == 10 {
        1_781_797
    } else {
        1_887_749
    };
    if !k_neg {
        let p: u128 = pow2_exec(k_mag);
        proof {
            vstd::arithmetic::power2::lemma_pow2_pos(k_mag as nat);
            vstd::arithmetic::power2::lemma_pow2_strictly_increases(k_mag as nat, 11);
            vstd::arithmetic::power2::lemma2_to64();
            assert((base as int) * (p as int) <= 1_887_749 * 2048) by (nonlinear_arith)
                requires
                    base <= 1_887_749,
                    0 <= p as int <= 2048,
            ;
        }
        let v: u128 = (base as u128) * p;
        v as i64
    } else {
        let p: u128 = pow2_exec(k_mag);
        proof {
            vstd::arithmetic::power2::lemma_pow2_pos(k_mag as nat);
            vstd::arithmetic::div_mod::lemma_div_nonincreasing(base as int, p as int);
            vstd::arithmetic::div_mod::lemma_div_pos_is_pos(base as int, p as int);
        }
        let v: u128 = (base as u128) / p;
        v as i64
    }
}

/// Nearest-neighbour resampling by a fixed-point ratio, exactly as
/// [`spec_resample`] states.
fn resample(snd: &Vec<i64>, ratio: i64) -> (out: Vec<i64>)
    requires
        buf_wf(snd@),
        0 <= ratio <= 4_000_000_000,
    ensures
        out@ == spec_resample(snd@, ratio as int),
        buf_wf(out@),
{
    let mut out: Vec<i64> = Vec::new();
    if snd.len() == 0 {
        proof {
            assert(out@ =~= spec_resample(snd@, ratio as int));
        }
        return out;
    }
    let lim = snd.len() - 1;
    let mut s: usize = 0;
    while s < lim
        invariant
            buf_wf(snd@),
            0 <= ratio <= 4_000_000_000,
            lim == snd@.len() - 1,
            s <= lim,
            out@.len() == s,
            forall|j: int| 0 <= j < s ==> out@[j] == resample_at(snd@, ratio as int, j),
            buf_wf(out@),
        decreases lim - s,
    {
        proof {
            assert((s as int) * (ratio as int) <= (0xffff_ffff_ffff_ffff as int) * (
            4_000_000_000 as int)) by (nonlinear_arith)
                requires
                    0 <= s as int <= 0xffff_ffff_ffff_ffff as int,
                    0 <= ratio as int <= 4_000_000_000 as int,
            ;
        }
        let loc: u128 = (s as u128) * (ratio as u128);
        let fl: u128 = loc / (SCALE as u128);
        let rem: u128 = loc % (SCALE as u128);
        proof {
            let li = loc as int;
            assert(iabs(li) == li);
            vstd::arithmetic::div_mod::lemma_fundamental_div_mod(li, SCALE as int);
        }
        proof {
            assert((lim as int) * (SCALE as int) <= (0xffff_ffff_ffff_ffff as int) * (
            1_000_000 as int)) by (nonlinear_arith)
                requires
                    0 <= lim as int <= 0xffff_ffff_ffff_ffff as int,
            ;
        }
        let v: i64 = if loc > (lim as u128) * (SCALE as u128) {
            0
        } else {
            proof {
                let li = loc as int;
                let fli = tdiv(li, SCALE as int);
                assert(li <= lim * SCALE);
                assert(fli <= lim) by {
                    vstd::arithmetic::div_mod::lemma_div_is_ordered(li, lim * SCALE, SCALE as int);
                    assert(lim * SCALE == SCALE * (lim as int)) by (nonlinear_arith);
                    vstd::arithmetic::div_mod::lemma_div_multiples_vanish(
                        lim as int,
                        SCALE as int,
                    );
                }
                if rem >= 500_000 {
                    // a half-step of room before the last index keeps the
                    // upper neighbour in bounds
                    assert(fli * SCALE + rem == li);
                    assert(fli < lim) by {
                        if fli >= lim {
                            assert(fli * SCALE >= lim * SCALE) by (nonlinear_arith)
                                requires
                                    fli >= lim as int,
                                    SCALE > 0,
                            ;
                        }
                    }
                }
            }
            if rem < 500_000 {
                snd[fl as usize]
            } else {
                snd[(fl + 1) as usize]
            }
        };
        out.push(v);
        s = s + 1;
    }
    proof {
        assert(out@ =~= spec_resample(snd@, ratio as int));
    }
    out
}

/// No registered clip anywhere leaves the whole outward search empty.
proof fn lemma_search_empty(clips: Seq<Option<Vec<i64>>>, pitch: int, d: int)
    requires
        clips.len() == 128,
        0 <= pitch < 128,
        1 <= d <= 128,
        forall|i: int| 0 <= i < 128 ==> clips[i] is None,
    ensures
        search_from(clips, pitch, d) is None,
    decreases 128 - d,
{
    if d <= 127 {
        lemma_search_empty(clips, pitch, d + 1);
    }
}

/// Requesting a pitch when no clip is registered anywhere within range
/// leaves the cache untouched: the bank reports no value rather than
/// failing.
pub proof fn lemma_prime_unreachable(
    clips: Seq<Option<Vec<i64>>>,
    cache: Seq<Option<Seq<i64>>>,
    pitch: int,
)
    requires
        clips.len() == 128,
        cache.len() == 128,
        0 <= pitch < 128,
        forall|i: int| 0 <= i < 128 ==> clips[i] is None,
    ensures
        spec_prime(clips, cache, pitch) == cache,
{
    if cache[pitch] is None {
        lemma_search_empty(clips, pitch, 1);
    }
}

/// Priming the same pitch twice produces the very cache priming once
/// produces: nothing is re-decoded or re-resampled.
pub proof fn lemma_prime_idempotent(
    clips: Seq<Option<Vec<i64>>>,
    cache: Seq<Option<Seq<i64>>>,
    pitch: int,
)
    requires
        clips.len() == 128,
        cache.len() == 128,
        0 <= pitch < 128,
    ensures
        spec_prime(clips, spec_prime(clips, cache, pitch), pitch) == spec_prime(
            clips,
            cache,
            pitch,
        ),
{
    let once = spec_prime(clips, cache, pitch);
    if cache[pitch] is Some {
    } else if clips[pitch] is Some {
        assert(once[pitch] is Some);
    } else {
        match nearest_clip(clips, pitch) {
            Some(q) => {
                assert(once[pitch] is Some);
            },
            None => {},
        }
    }
}

/// Resampling one octave up: a five-sample source at double speed keeps
/// every second sample to the end of the source, and pads with silence.
pub proof fn lemma_resample_octave(snd: Seq<i64>)
    requires
        snd =~= seq![0i64, 1i64, 2i64, 3i64, 4i64],
    ensures
        spec_resample(snd, 2 * SCALE) =~= seq![0i64, 2i64, 4i64, 0i64],
{
    let r = spec_resample(snd, 2 * SCALE);
    assert(r.len() == 4);
    assert(0 * (2 * SCALE) == 0) by (nonlinear_arith);
    assert(1 * (2 * SCALE) == 2 * SCALE) by (nonlinear_arith);
    assert(2 * (2 * SCALE) == 4 * SCALE) by (nonlinear_arith);
    assert(3 * (2 * SCALE) == 6 * SCALE) by (nonlinear_arith);
    assert(iabs(2 * SCALE) / iabs(SCALE as int) == 2) by (nonlinear_arith);
    assert(iabs(4 * SCALE) / iabs(SCALE as int) == 4) by (nonlinear_arith);
    assert(iabs(0) / iabs(SCALE as int) == 0) by (nonlinear_arith);
    assert(r[0] == resample_at(snd, 2 * SCALE, 0));
    assert(r[0] == 0i64);
    assert(r[1] == 2i64);
    assert(r[2] == 4i64);
    assert(r[3] == 0i64);
}

} // verus!
