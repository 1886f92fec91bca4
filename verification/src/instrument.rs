//! Instruments: one carrier signal source shaped by amplitude modulators.

use vstd::prelude::*;

use crate::envelope::{env_mod_sample, to_samples, Envelope};
use crate::fixed::{fp_mul, fp_mul_spec, fp_sub, fp_sub_spec, valid_amp, SCALE};
use crate::sample_bank::{bank_sample, spec_prime, SampleBank};
use crate::samplegen::{lookup, Params};
use crate::waveform::{spec_wave_mod_sample, spec_wave_sample, Waveform};

verus! {

/// A signal source: the closed set of variants that can produce a
/// carrier or modulation amplitude at an instant.
pub enum SignalSource {
    Wave(Waveform),
    Env(Envelope),
    Bank(SampleBank),
}

impl SignalSource {
    /// The variant's own well-formedness.
    pub open spec fn wf(&self) -> bool {
        match self {
            SignalSource::Wave(w) => w.wf(),
            SignalSource::Env(e) => e.wf(),
            SignalSource::Bank(b) => b.wf(),
        }
    }
}

/// What a source's carrier sample needs of the context: a bank reads the
/// pitch and instant.
pub open spec fn source_sample_req(s: &SignalSource, p: Seq<(String, i64)>) -> bool {
    match s {
        SignalSource::Wave(_) => true,
        SignalSource::Env(_) => true,
        SignalSource::Bank(_) => lookup(p, "midi_note"@) is Some && lookup(p, "sample"@) is Some
            && to_samples(lookup(p, "midi_note"@)->Some_0 as int) < 128,
    }
}

/// What a source's modulation sample needs of the context: an envelope
/// reads the duration and instant.
pub open spec fn source_mod_req(s: &SignalSource, p: Seq<(String, i64)>) -> bool {
    match s {
        SignalSource::Wave(_) => true,
        SignalSource::Env(_) => lookup(p, "duration"@) is Some && lookup(p, "sample"@) is Some,
        SignalSource::Bank(_) => true,
    }
}

/// The carrier sample a source produces under a context.
pub open spec fn source_sample(s: &SignalSource, p: Seq<(String, i64)>) -> Option<int> {
    match s {
        SignalSource::Wave(w) => spec_wave_sample(w.equation_view(), p),
        SignalSource::Env(_) => None,
        SignalSource::Bank(b) => match bank_sample(
            b.cache_view(),
            to_samples(lookup(p, "midi_note"@)->Some_0 as int),
            to_samples(lookup(p, "sample"@)->Some_0 as int),
        ) {
            Some(v) => Some(v as int),
            None => None,
        },
    }
}

/// The modulation sample a source produces under a context.
pub open spec fn source_mod_sample(s: &SignalSource, p: Seq<(String, i64)>) -> Option<int> {
    match s {
        SignalSource::Wave(w) => spec_wave_mod_sample(w.equation_view(), p),
        SignalSource::Env(e) => env_mod_sample(
            e.phases_view(),
            lookup(p, "duration"@)->Some_0 as int,
            to_samples(lookup(p, "sample"@)->Some_0 as int),
        ),
        SignalSource::Bank(_) => None,
    }
}

/// How priming relates a source before and after: only a bank changes,
/// and only by filling its cache for the primed pitch.
pub open spec fn source_primed(before: &SignalSource, after: &SignalSource, pitch: int) -> bool {
    match (before, after) {
        (SignalSource::Bank(b0), SignalSource::Bank(b1)) => b1.name_view() == b0.name_view()
            && b1.clips_view() == b0.clips_view() && b1.cache_view() == spec_prime(
            b0.clips_view(),
            b0.cache_view(),
            pitch,
        ),
        _ => after == before,
    }
}

impl SignalSource {
    /// Prime the source for the context's pitch; only a bank does
    /// anything.
    pub fn cache(&mut self, p: &Params)
        requires
            old(self).wf(),
            p.wf(),
            (*old(self)) is Bank ==> lookup(p@, "midi_note"@) is Some && to_samples(
                lookup(p@, "midi_note"@)->Some_0 as int,
            ) < 128,
        ensures
            final(self).wf(),
            source_primed(
                old(self),
                final(self),
                to_samples(lookup(p@, "midi_note"@)->Some_0 as int),
            ),
    {
        match self {
            SignalSource::Wave(_) => (),
            SignalSource::Env(_) => (),
            SignalSource::Bank(b) => b.cache(p),
        }
    }

    /// The carrier sample, exactly as [`source_sample`] states.
    pub fn get_sample(&self, p: &Params) -> (r: Option<i64>)
        requires
            self.wf(),
            p.wf(),
            source_sample_req(self, p@),
        ensures
            match r {
                Some(v) => source_sample(self, p@) == Some(v as int) && valid_amp(v as int),
                None => source_sample(self, p@) is None,
            },
    {
        match self {
            SignalSource::Wave(w) => w.get_sample(p),
            SignalSource::Env(e) => e.get_sample(p),
            SignalSource::Bank(b) => b.get_sample(p),
        }
    }

    /// The modulation sample, exactly as [`source_mod_sample`] states.
    pub fn get_mod_sample(&self, p: &Params) -> (r: Option<i64>)
        requires
            self.wf(),
            p.wf(),
            source_mod_req(self, p@),
        ensures
            match r {
                Some(v) => source_mod_sample(self, p@) == Some(v as int) && valid_amp(v as int),
                None => source_mod_sample(self, p@) is None,
            },
    {
        match self {
            SignalSource::Wave(w) => w.get_mod_sample(p),
            SignalSource::Env(e) => e.get_mod_sample(p),
            SignalSource::Bank(b) => b.get_mod_sample(p),
        }
    }
}

/// How a source may differ from an earlier state of itself after any
/// number of priming steps: only a bank changes, its registered clips and
/// name stay, settled cache entries stay, and a newly filled entry holds
/// exactly what priming its pitch against the earlier state gives.
pub open spec fn source_evolved(before: &SignalSource, after: &SignalSource) -> bool {
    match (before, after) {
        (SignalSource::Bank(b0), SignalSource::Bank(b1)) => {
            &&& b1.name_view() == b0.name_view()
            &&& b1.clips_view() == b0.clips_view()
            &&& b1.cache_view().len() == b0.cache_view().len()
            &&& forall|p: int|
                0 <= p < b0.cache_view().len() ==> if b0.cache_view()[p] is Some {
                    #[trigger] b1.cache_view()[p] == b0.cache_view()[p]
                } else {
                    b1.cache_view()[p] is Some ==> b1.cache_view()[p] == spec_prime(
                        b0.clips_view(),
                        b0.cache_view(),
                        p,
                    )[p]
                }
        },
        _ => after == before,
    }
}

/// How an instrument may differ from an earlier state of itself after
/// priming: everything but the carrier's cache is the same.
pub open spec fn instrument_evolved(before: &Instrument, after: &Instrument) -> bool {
    &&& after.name == before.name
    &&& after.midi_inst == before.midi_inst
    &&& after.midi_percussion == before.midi_percussion
    &&& after.am == before.am
    &&& source_evolved(&before.carrier, &after.carrier)
}

/// A source has not moved from itself.
pub proof fn lemma_evolved_refl(s: &SignalSource)
    ensures
        source_evolved(s, s),
{
}

/// What priming fills at a pitch depends only on the clips and that
/// pitch's own entry.
proof fn lemma_prime_value(
    clips: Seq<Option<Vec<i64>>>,
    c1: Seq<Option<Seq<i64>>>,
    c2: Seq<Option<Seq<i64>>>,
    p: int,
)
    requires
        0 <= p < c1.len(),
        0 <= p < c2.len(),
        c1[p] == c2[p],
    ensures
        spec_prime(clips, c1, p)[p] == spec_prime(clips, c2, p)[p],
{
}

/// One priming step is an evolution.
pub proof fn lemma_primed_evolved(before: &SignalSource, after: &SignalSource, pitch: int)
    requires
        source_primed(before, after, pitch),
        before is Bank ==> before->Bank_0.wf() && 0 <= pitch < 128,
    ensures
        source_evolved(before, after),
{
    match (before, after) {
        (SignalSource::Bank(b0), SignalSource::Bank(b1)) => {
            b0.lemma_wf_shape();
        },
        _ => (),
    }
}

/// An evolution followed by one more priming step is still an evolution.
pub proof fn lemma_evolved_trans(a: &SignalSource, b: &SignalSource, c: &SignalSource, pitch: int)
    requires
        source_evolved(a, b),
        source_primed(b, c, pitch),
        a is Bank ==> a->Bank_0.wf() && 0 <= pitch < 128,
    ensures
        source_evolved(a, c),
{
    match (a, b) {
        (SignalSource::Bank(b0), SignalSource::Bank(b1)) => {
            b0.lemma_wf_shape();
            match c {
                SignalSource::Bank(b2) => {
                    assert forall|p: int| 0 <= p < b0.cache_view().len() implies (if b0.cache_view()[p]
                        is Some {
                        #[trigger] b2.cache_view()[p] == b0.cache_view()[p]
                    } else {
                        b2.cache_view()[p] is Some ==> b2.cache_view()[p] == spec_prime(
                            b0.clips_view(),
                            b0.cache_view(),
                            p,
                        )[p]
                    }) by {
                        if b0.cache_view()[p] is None && b2.cache_view()[p] is Some {
                            if b1.cache_view()[p] is Some {
                                assert(b2.cache_view()[p] == b1.cache_view()[p]);
                            } else {
                                assert(p == pitch);
                                lemma_prime_value(
                                    b0.clips_view(),
                                    b1.cache_view(),
                                    b0.cache_view(),
                                    p,
                                );
                            }
                        }
                    }
                },
                _ => (),
            }
        },
        _ => (),
    }
}

/// A modulator: a signal source whose modulation sample attenuates the
/// carrier, scaled by a depth.
pub struct Modulator {
    pub modulator: SignalSource,
    pub depth: i64,
}

/// A modulator's source and depth are well formed.
pub open spec fn modulator_wf(m: &Modulator) -> bool {
    m.modulator.wf() && valid_amp(m.depth as int)
}

/// One modulator applied to a running carrier value: the carrier is
/// scaled by `1 - m·depth`; a modulator with no output changes nothing.
pub open spec fn apply_mod(m: &Modulator, p: Seq<(String, i64)>, c: int) -> int {
    match source_mod_sample(&m.modulator, p) {
        Some(v) => fp_mul_spec(c, fp_sub_spec(SCALE as int, fp_mul_spec(v, m.depth as int))),
        None => c,
    }
}

/// Every modulator applied in configuration order.  Each application
/// truncates at fixed-point resolution, so unlike a product in exact
/// arithmetic the result can shift by a few smallest steps when the
/// modulators are reordered; the order applied is the configuration
/// order, and this contract fixes exactly that fold.
pub open spec fn mod_fold(ms: Seq<Modulator>, p: Seq<(String, i64)>, c: int) -> int
    decreases ms.len(),
{
    if ms.len() == 0 {
        c
    } else {
        mod_fold(ms.skip(1), p, apply_mod(&ms[0], p, c))
    }
}

/// An instrument: a name, a MIDI program binding, a percussion flag, one
/// carrier and an ordered list of amplitude modulators.
pub struct Instrument {
    pub name: String,
    pub midi_inst: u8,
    pub midi_percussion: bool,
    pub carrier: SignalSource,
    pub am: Vec<Modulator>,
}

/// An instrument's carrier and every modulator are well formed.
pub open spec fn instrument_wf(inst: &Instrument) -> bool {
    &&& inst.carrier.wf()
    &&& forall|i: int| 0 <= i < inst.am@.len() ==> modulator_wf(#[trigger] &inst.am@[i])
}

/// What an instrument's combined sample needs of the context.
pub open spec fn instrument_req(inst: &Instrument, p: Seq<(String, i64)>) -> bool {
    &&& source_sample_req(&inst.carrier, p)
    &&& forall|i: int| 0 <= i < inst.am@.len() ==> source_mod_req(&#[trigger] inst.am@[i].modulator, p)
}

/// The combined carrier sample: the carrier's own sample — silence when
/// it produces none — attenuated by every modulator in order.
pub open spec fn instrument_sample(inst: &Instrument, p: Seq<(String, i64)>) -> int {
    let c0 = match source_sample(&inst.carrier, p) {
        Some(v) => v,
        None => 0,
    };
    mod_fold(inst.am@, p, c0)
}

impl Instrument {
    /// Prime the carrier for the context's pitch.
    pub fn cache(&mut self, p: &Params)
        requires
            instrument_wf(old(self)),
            p.wf(),
            old(self).carrier is Bank ==> lookup(p@, "midi_note"@) is Some && to_samples(
                lookup(p@, "midi_note"@)->Some_0 as int,
            ) < 128,
        ensures
            instrument_wf(final(self)),
            final(self).name == old(self).name,
            final(self).midi_inst == old(self).midi_inst,
            final(self).midi_percussion == old(self).midi_percussion,
            final(self).am == old(self).am,
            source_primed(
                &old(self).carrier,
                &final(self).carrier,
                to_samples(lookup(p@, "midi_note"@)->Some_0 as int),
            ),
    {
        self.carrier.cache(p);
    }

    /// The combined sample, exactly as [`instrument_sample`] states: a
    /// carrier with no output contributes silence rather than failing,
    /// and the modulators apply in configuration order (see [`mod_fold`]
    /// for how that order can matter at fixed-point resolution).
    pub fn get_sample(&self, p: &Params) -> (r: i64)
        requires
            instrument_wf(self),
            p.wf(),
            instrument_req(self, p@),
        ensures
            r as int == instrument_sample(self, p@),
            valid_amp(r as int),
    {
        let mut c: i64 = match self.carrier.get_sample(p) {
            Some(v) => v,
            None => 0,
        };
        let ghost c0 = c as int;
        let mut i: usize = 0;
        proof {
            assert(self.am@.skip(0) =~= self.am@);
        }
        while i < self.am.len()
            invariant
                instrument_wf(self),
                p.wf(),
                instrument_req(self, p@),
                i <= self.am@.len(),
                valid_amp(c as int),
                mod_fold(self.am@, p@, c0) == mod_fold(self.am@.skip(i as int), p@, c as int),
            decreases self.am@.len() - i,
        {
            let m = &self.am[i];
            proof {
                assert(self.am@.skip(i as int)[0] == self.am@[i as int]);
                assert(self.am@.skip(i as int).skip(1) =~= self.am@.skip(i as int + 1));
            }
            match m.modulator.get_mod_sample(p) {
                Some(v) => {
                    c = fp_mul(c, fp_sub(SCALE, fp_mul(v, m.depth)));
                },
                None => (),
            }
            i = i + 1;
        }
        proof {
            assert(self.am@.skip(self.am@.len() as int).len() == 0);
        }
        c
    }

    /// An instrument is never itself a modulator.
    pub fn get_mod_sample(&self, _p: &Params) -> (r: Option<i64>)
        ensures
            r is None,
    {
        None
    }
}

} // verus!
