//! The renderer/mixer: walks every note of every output bus, accumulates
//! each note's samples into a shared buffer, tracks the running peak, and
//! finally normalises the buffer into 16-bit PCM.

use vstd::prelude::*;

use crate::error::RenderError;
use crate::fixed::{fp_abs, fp_add, fp_add_spec, iabs, tdiv, valid_amp, SCALE};
use crate::instrument::{
    instrument_evolved, instrument_req, instrument_sample, instrument_wf, lemma_evolved_refl,
    lemma_evolved_trans, mod_fold, source_mod_sample, source_sample, Instrument, Modulator,
    SignalSource,
};
use crate::parse::JSONOutput;
use crate::samplegen::{lookup, Params};
use crate::waveform::parse::ExprV;
use crate::waveform::spec_eval;

verus! {

/// Samples per second of every rendered output.
pub const RATE: i64 = 44_100;

/// A note to render: where it starts and ends in output samples, which
/// channel and program it belongs to, its pitch and its frequency as a
/// fixed-point amplitude.
#[derive(Debug, Clone, Copy)]
pub struct Note {
    pub channel: u8,
    pub program: u8,
    pub start_time: u64,
    pub end_time: u64,
    pub midi_note: u8,
    pub freq: i64,
}

/// A renderable note: its window is ordered and modest enough that every
/// derived context value is a representable amplitude.
pub open spec fn note_wf(n: Note) -> bool {
    &&& n.start_time <= n.end_time
    &&& n.end_time - n.start_time <= 4_000_000_000_000
    &&& n.midi_note < 128
    &&& 0 <= n.freq <= 20_000_000_000
}

/// The context value bound to `duration` for a note.
pub open spec fn dur_val(n: Note) -> int {
    (n.end_time - n.start_time) * SCALE
}

/// The context value bound to `sample` at offset `s`.
pub open spec fn sample_val(s: int) -> int {
    s * SCALE
}

/// The context value bound to `time` at offset `s`: elapsed seconds.
pub open spec fn time_val(s: int) -> int {
    tdiv(s * SCALE, RATE as int)
}

/// The context value bound to `midi_note` for a note.
pub open spec fn midi_val(n: Note) -> int {
    n.midi_note * SCALE
}

/// The context value bound to `x` at offset `s`: the waveform phase
/// coordinate `s·frequency/rate`.
pub open spec fn x_val(n: Note, s: int) -> int {
    tdiv(s * n.freq, RATE as int)
}

/// Whether a context carries exactly the six values the renderer hands to
/// every evaluation for note `n` at offset `s`, and nothing else.
pub open spec fn ctx_of_note(ctx: Seq<(String, i64)>, n: Note, s: int) -> bool {
    &&& lookup(ctx, "duration"@) is Some && lookup(ctx, "duration"@)->Some_0 as int == dur_val(n)
    &&& lookup(ctx, "sample"@) is Some && lookup(ctx, "sample"@)->Some_0 as int == sample_val(s)
    &&& lookup(ctx, "time"@) is Some && lookup(ctx, "time"@)->Some_0 as int == time_val(s)
    &&& lookup(ctx, "rate"@) is Some && lookup(ctx, "rate"@)->Some_0 as int == (RATE as int) * SCALE
    &&& lookup(ctx, "midi_note"@) is Some && lookup(ctx, "midi_note"@)->Some_0 as int == midi_val(n)
    &&& lookup(ctx, "x"@) is Some && lookup(ctx, "x"@)->Some_0 as int == x_val(n, s)
    &&& forall|k: Seq<char>|
        !(k == "duration"@ || k == "sample"@ || k == "time"@ || k == "rate"@ || k == "midi_note"@
            || k == "x"@) ==> lookup(ctx, k) is None
}

/// Two contexts that bind every name alike.
pub open spec fn ctx_equiv(a: Seq<(String, i64)>, b: Seq<(String, i64)>) -> bool {
    forall|k: Seq<char>| #[trigger] lookup(a, k) == #[trigger] lookup(b, k)
}

/// Formula evaluation reads a context only through name lookup.
pub proof fn lemma_eval_equiv(e: ExprV, a: Seq<(String, i64)>, b: Seq<(String, i64)>)
    requires
        ctx_equiv(a, b),
    ensures
        spec_eval(e, a) == spec_eval(e, b),
    decreases e,
{
    match e {
        ExprV::Identifier(x) => {
            assert(lookup(a, x) == lookup(b, x));
        },
        ExprV::Number(_) => (),
        ExprV::Prefix(_, arg) => {
            lemma_eval_equiv(*arg, a, b);
        },
        ExprV::Infix(lhs, _, rhs) => {
            lemma_eval_equiv(*lhs, a, b);
            lemma_eval_equiv(*rhs, a, b);
        },
    }
}

/// A signal source reads a context only through name lookup.
pub proof fn lemma_source_equiv(s: &SignalSource, a: Seq<(String, i64)>, b: Seq<(String, i64)>)
    requires
        ctx_equiv(a, b),
    ensures
        source_sample(s, a) == source_sample(s, b),
        source_mod_sample(s, a) == source_mod_sample(s, b),
{
    match s {
        SignalSource::Wave(w) => {
            lemma_eval_equiv(w.equation_view(), a, b);
        },
        SignalSource::Env(_) => {
            assert(lookup(a, "duration"@) == lookup(b, "duration"@));
            assert(lookup(a, "sample"@) == lookup(b, "sample"@));
        },
        SignalSource::Bank(_) => {
            assert(lookup(a, "midi_note"@) == lookup(b, "midi_note"@));
            assert(lookup(a, "sample"@) == lookup(b, "sample"@));
        },
    }
}

/// Modulator folding reads a context only through name lookup.
pub proof fn lemma_fold_equiv(
    ms: Seq<Modulator>,
    a: Seq<(String, i64)>,
    b: Seq<(String, i64)>,
    c: int,
)
    requires
        ctx_equiv(a, b),
    ensures
        mod_fold(ms, a, c) == mod_fold(ms, b, c),
    decreases ms.len(),
{
    if ms.len() == 0 {
    } else {
        lemma_source_equiv(&ms[0].modulator, a, b);
        lemma_fold_equiv(ms.skip(1), a, b, crate::instrument::apply_mod(&ms[0], a, c));
    }
}

/// An instrument's combined sample reads a context only through name
/// lookup.
pub proof fn lemma_instrument_equiv(
    inst: &Instrument,
    a: Seq<(String, i64)>,
    b: Seq<(String, i64)>,
)
    requires
        ctx_equiv(a, b),
    ensures
        instrument_sample(inst, a) == instrument_sample(inst, b),
{
    lemma_source_equiv(&inst.carrier, a, b);
    let c0 = match source_sample(&inst.carrier, a) {
        Some(v) => v,
        None => 0,
    };
    lemma_fold_equiv(inst.am@, a, b, c0);
}

/// The instrument's sample for note `n` at offset `s`, under the one
/// context (up to name equivalence) the renderer builds there.
pub open spec fn inst_note_sample(inst: &Instrument, n: Note, s: int) -> int {
    instrument_sample(inst, choose|ctx: Seq<(String, i64)>| ctx_of_note(ctx, n, s))
}

/// Any context with the renderer's six bindings yields the instrument's
/// one note sample.
pub proof fn lemma_note_sample_of_ctx(
    inst: &Instrument,
    n: Note,
    s: int,
    ctx: Seq<(String, i64)>,
)
    requires
        ctx_of_note(ctx, n, s),
    ensures
        instrument_sample(inst, ctx) == inst_note_sample(inst, n, s),
{
    let picked = choose|c2: Seq<(String, i64)>| ctx_of_note(c2, n, s);
    assert(ctx_of_note(picked, n, s));
    assert forall|k: Seq<char>| #[trigger] lookup(ctx, k) == #[trigger] lookup(picked, k) by {
        if k == "duration"@ || k == "sample"@ || k == "time"@ || k == "rate"@ || k == "midi_note"@
            || k == "x"@ {
            assert(lookup(ctx, k) is Some && lookup(picked, k) is Some);
            assert(lookup(ctx, k)->Some_0 == lookup(picked, k)->Some_0);
        } else {
            assert(lookup(ctx, k) is None && lookup(picked, k) is None);
        }
    }
    lemma_instrument_equiv(inst, ctx, picked);
}

/// The amplitudes a buffer holds, as unbounded integers.
pub open spec fn amp_view(s: Seq<i64>) -> Seq<int> {
    Seq::new(s.len(), |i: int| s[i] as int)
}

/// A silent buffer of `n` samples.
pub open spec fn zero_buf(n: int) -> Seq<int> {
    Seq::new(n as nat, |i: int| 0)
}

/// One note mixed into a buffer, the first `s` samples done: each sample
/// of the note's window is added onto its slot, and the running peak
/// takes in each written slot's magnitude.
pub open spec fn note_mix(inst: &Instrument, n: Note, buf: Seq<int>, pk: int, s: int) -> (
    Seq<int>,
    int,
)
    decreases s,
{
    if s <= 0 {
        (buf, pk)
    } else {
        let (b1, p1) = note_mix(inst, n, buf, pk, s - 1);
        let v = fp_add_spec(b1[n.start_time + s - 1], inst_note_sample(inst, n, s - 1));
        (
            b1.update(n.start_time + s - 1, v),
            if iabs(v) > p1 {
                iabs(v)
            } else {
                p1
            },
        )
    }
}

/// A whole bus mixed: starting from silence, the first `k` notes are
/// taken in order, each one routed to the bus mixed in full through the
/// instrument its program resolves to.
pub open spec fn bus_mix(
    insts: Seq<Instrument>,
    notes: Seq<Note>,
    channels: Seq<u8>,
    total: int,
    k: int,
) -> (Seq<int>, int)
    decreases k,
{
    if k <= 0 {
        (zero_buf(total), 0)
    } else {
        let prev = bus_mix(insts, notes, channels, total, k - 1);
        let n = notes[k - 1];
        if channels.contains(n.channel) {
            match spec_find_instrument(insts, n.program) {
                Some(i) => note_mix(&insts[i], n, prev.0, prev.1, n.end_time - n.start_time),
                None => prev,
            }
        } else {
            prev
        }
    }
}

/// Mixing a note keeps the buffer length, never lowers the peak, and
/// keeps every slot representable and within the peak.
pub proof fn lemma_note_mix_bounds(inst: &Instrument, n: Note, buf: Seq<int>, pk: int, s: int)
    requires
        0 <= s <= n.end_time - n.start_time,
        pk >= 0,
        n.end_time <= buf.len(),
        forall|i: int| 0 <= i < buf.len() ==> iabs(#[trigger] buf[i]) <= pk && valid_amp(buf[i]),
    ensures
        ({
            let m = note_mix(inst, n, buf, pk, s);
            &&& m.0.len() == buf.len()
            &&& m.1 >= pk
            &&& forall|i: int|
                0 <= i < buf.len() ==> iabs(#[trigger] m.0[i]) <= m.1 && valid_amp(m.0[i])
        }),
    decreases s,
{
    if s > 0 {
        lemma_note_mix_bounds(inst, n, buf, pk, s - 1);
    }
}

/// The last index in a list of instruments that is bound to a program
/// and is not percussion.
pub open spec fn find_from(insts: Seq<Instrument>, program: u8, i: int) -> Option<int>
    decreases i,
{
    if i <= 0 {
        None
    } else if !insts[i - 1].midi_percussion && insts[i - 1].midi_inst == program {
        Some(i - 1)
    } else {
        find_from(insts, program, i - 1)
    }
}

/// The instrument a program resolves to: the last non-percussion match.
pub open spec fn spec_find_instrument(insts: Seq<Instrument>, program: u8) -> Option<int> {
    find_from(insts, program, insts.len() as int)
}

/// Resolve a program number to its instrument, exactly as
/// [`spec_find_instrument`] states.
pub fn find_instrument(instruments: &Vec<Instrument>, program: u8) -> (r: Option<usize>)
    ensures
        match r {
            Some(i) => spec_find_instrument(instruments@, program) == Some(i as int) && i
                < instruments@.len(),
            None => spec_find_instrument(instruments@, program) is None,
        },
{
    let mut i: usize = instruments.len();
    while i > 0
        invariant
            i <= instruments@.len(),
            spec_find_instrument(instruments@, program) == find_from(
                instruments@,
                program,
                i as int,
            ),
        decreases i,
    {
        i = i - 1;
        if !instruments[i].midi_percussion && instruments[i].midi_inst == program {
            return Some(i);
        }
    }
    None
}

/// The normalised 16-bit form of a mixed buffer: every slot scaled by the
/// peak into the full signed range and truncated toward zero; a silent
/// buffer (zero peak) stays silent rather than dividing by zero.
pub open spec fn spec_normalize(out: Seq<int>, peak: int) -> Seq<int> {
    Seq::new(out.len(), |i: int| if peak == 0 {
        0
    } else {
        tdiv(out[i] * 32767, peak)
    })
}

/// Normalise a mixed buffer into 16-bit PCM, exactly as
/// [`spec_normalize`] states.
pub fn normalize_bus(output: &Vec<i64>, peak: i64) -> (r: Vec<i16>)
    requires
        0 <= peak,
        forall|i: int| 0 <= i < output@.len() ==> iabs(#[trigger] output@[i] as int) <= peak,
    ensures
        r@.len() == output@.len(),
        forall|i: int|
            0 <= i < r@.len() ==> #[trigger] r@[i] as int == spec_normalize(
                amp_view(output@),
                peak as int,
            )[i],
{
    let mut r: Vec<i16> = Vec::new();
    let mut i: usize = 0;
    while i < output.len()
        invariant
            i <= output@.len(),
            r@.len() == i,
            0 <= peak,
            forall|j: int| 0 <= j < output@.len() ==> iabs(#[trigger] output@[j] as int) <= peak,
            forall|j: int|
                0 <= j < i ==> #[trigger] r@[j] as int == spec_normalize(
                    amp_view(output@),
                    peak as int,
                )[j],
        decreases output@.len() - i,
    {
        let v: i64 = output[i];
        let s: i16 = if peak == 0 {
            0
        } else {
            let neg = v < 0;
            let m: u64 = if v < 0 {
                proof {
                    assert(iabs(v as int) <= peak);
                }
                (-v) as u64
            } else {
                v as u64
            };
            proof {
                assert((m as int) * 32767 <= (peak as int) * 32767) by (nonlinear_arith)
                    requires
                        0 <= m as int <= peak as int,
                ;
                vstd::arithmetic::div_mod::lemma_div_is_ordered(
                    (m as int) * 32767,
                    (peak as int) * 32767,
                    peak as int,
                );
                assert((peak as int) * 32767 == 32767 * (peak as int)) by (nonlinear_arith);
                vstd::arithmetic::div_mod::lemma_div_multiples_vanish(32767, peak as int);
                vstd::arithmetic::div_mod::lemma_div_pos_is_pos((m as int) * 32767, peak as int);
                assert(iabs((v as int) * 32767) == iabs(v as int) * 32767) by (nonlinear_arith);
            }
            let q: u128 = (m as u128) * 32767 / (peak as u128);
            if neg {
                -(q as i16)
            } else {
                q as i16
            }
        };
        r.push(s);
        i = i + 1;
    }
    r
}

/// At a slot that attains a positive peak, normalisation yields exactly
/// the full 16-bit magnitude.
pub proof fn lemma_normalize_full_range(out: Seq<int>, peak: int, j: int)
    requires
        peak > 0,
        0 <= j < out.len(),
        iabs(out[j]) == peak,
    ensures
        iabs(spec_normalize(out, peak)[j]) == 32767,
{
    vstd::arithmetic::div_mod::lemma_div_multiples_vanish(32767, peak);
    assert(peak * 32767 == 32767 * peak) by (nonlinear_arith);
    if out[j] >= 0 {
        assert(out[j] * 32767 == peak * 32767) by (nonlinear_arith)
            requires
                out[j] == peak,
        ;
    } else {
        assert(out[j] * 32767 == -(peak * 32767)) by (nonlinear_arith)
            requires
                out[j] == -peak,
        ;
    }
}

/// Mix one note into the output buffer: add the instrument's sample at
/// every offset of the note's window onto its slot, tracking the running
/// peak magnitude — exactly as [`note_mix`] states.
pub fn render_note(note: &Note, inst: &Instrument, output: &mut Vec<i64>, peak: &mut i64)
    requires
        note_wf(*note),
        instrument_wf(inst),
        *old(peak) >= 0,
        note.end_time <= old(output)@.len(),
        forall|i: int| 0 <= i < old(output)@.len() ==> valid_amp(#[trigger] old(output)@[i] as int),
    ensures
        final(output)@.len() == old(output)@.len(),
        forall|i: int| 0 <= i < final(output)@.len() ==> valid_amp(#[trigger] final(output)@[i] as int),
        *final(peak) >= 0,
        ({
            let m = note_mix(
                inst,
                *note,
                amp_view(old(output)@),
                *old(peak) as int,
                note.end_time - note.start_time,
            );
            amp_view(final(output)@) == m.0 && *final(peak) as int == m.1
        }),
{
    let dur: u64 = note.end_time - note.start_time;
    let ghost buf0 = amp_view(output@);
    let ghost pk0 = *peak as int;
    let mut s: u64 = 0;
    while s < dur
        invariant
            note_wf(*note),
            instrument_wf(inst),
            dur == note.end_time - note.start_time,
            s <= dur,
            buf0 == amp_view(old(output)@),
            pk0 == *old(peak) as int,
            output@.len() == old(output)@.len(),
            note.end_time <= output@.len(),
            forall|i: int| 0 <= i < output@.len() ==> valid_amp(#[trigger] output@[i] as int),
            *peak >= 0,
            ({
                let m = note_mix(inst, *note, buf0, pk0, s as int);
                amp_view(output@) == m.0 && *peak as int == m.1
            }),
        decreases dur - s,
    {
        let p = build_ctx(note, s);
        proof {
            lemma_note_sample_of_ctx(inst, *note, s as int, p@);
            assert(instrument_req(inst, p@)) by {
                lemma_to_samples_exact(note.midi_note as int);
            }
        }
        let v = inst.get_sample(&p);
        proof {
            assert(note.start_time + s < note.end_time);
            vstd::std_specs::vec::axiom_spec_len(output);
        }
        let idx = (note.start_time + s) as usize;
        proof {
            assert(idx as int == note.start_time + s);
        }
        let ghost prev = amp_view(output@);
        let slot = fp_add(output[idx], v);
        output.set(idx, slot);
        let a = fp_abs(slot);
        if a > *peak {
            *peak = a;
        }
        proof {
            assert(amp_view(output@) =~= prev.update(idx as int, slot as int));
            let m2 = note_mix(inst, *note, buf0, pk0, s as int + 1);
            assert(amp_view(output@) == m2.0 && *peak as int == m2.1);
        }
        s = s + 1;
    }
}

/// The context a priming step carries: the pitch alone.
fn prime_params(midi: u8) -> (p: Params)
    requires
        midi < 128,
    ensures
        p.wf(),
        lookup(p@, "midi_note"@) is Some,
        crate::envelope::to_samples(lookup(p@, "midi_note"@)->Some_0 as int) == midi as int,
{
    let mut p = Params::new();
    let pv: i64 = midi as i64 * SCALE;
    p.insert(new_name("midi_note"), pv);
    proof {
        reveal_strlit("midi_note");
        assert(lookup(p@, "midi_note"@) == Some(pv));
        lemma_to_samples_exact(midi as int);
    }
    p
}

/// `to_samples` of a whole pitch is the pitch itself.
proof fn lemma_to_samples_exact(m: int)
    requires
        0 <= m < 128,
    ensures
        crate::envelope::to_samples(m * SCALE) == m,
{
    assert(m * SCALE == SCALE * m) by (nonlinear_arith);
    vstd::arithmetic::div_mod::lemma_div_multiples_vanish(m, SCALE as int);
    assert(iabs(m * SCALE) == m * SCALE) by (nonlinear_arith)
        requires
            0 <= m,
            SCALE > 0,
    ;
}

/// An owned copy of a name.
fn new_name(s: &str) -> (r: String)
    ensures
        r@ == s@,
{
    s.to_owned()
}

/// Build the six-binding context for note `n` at offset `s`.
fn build_ctx(n: &Note, s: u64) -> (p: Params)
    requires
        note_wf(*n),
        s < n.end_time - n.start_time,
    ensures
        p.wf(),
        ctx_of_note(p@, *n, s as int),
{
    let dur: u64 = n.end_time - n.start_time;
    let dur_fp: i64 = (dur as i64) * SCALE;
    let sample_fp: i64 = (s as i64) * SCALE;
    let time_fp: i64 = div_by_rate(sample_fp);
    let rate_fp: i64 = RATE * SCALE;
    let midi_fp: i64 = (n.midi_note as i64) * SCALE;
    proof {
        assert((s as int) * (n.freq as int) <= 4_000_000_000_000 * 20_000_000_000 as int)
            by (nonlinear_arith)
            requires
                0 <= s as int <= 4_000_000_000_000,
                0 <= n.freq as int <= 20_000_000_000,
        ;
        assert((dur as int) * (SCALE as int) <= 4_000_000_000_000 * 1_000_000 as int)
            by (nonlinear_arith)
            requires
                0 <= dur as int <= 4_000_000_000_000,
        ;
        assert((s as int) * (SCALE as int) <= 4_000_000_000_000 * 1_000_000 as int)
            by (nonlinear_arith)
            requires
                0 <= s as int <= 4_000_000_000_000,
        ;
    }
    let x_fp: i64 = x_coord(s, n.freq);
    let mut p = Params::new();
    let ghost e0 = p@;
    let n1 = new_name("duration");
    let n2 = new_name("sample");
    let n3 = new_name("time");
    let n4 = new_name("rate");
    let n5 = new_name("midi_note");
    let n6 = new_name("x");
    p.insert(n1, dur_fp);
    let ghost e1 = p@;
    p.insert(n2, sample_fp);
    let ghost e2 = p@;
    p.insert(n3, time_fp);
    let ghost e3 = p@;
    p.insert(n4, rate_fp);
    let ghost e4 = p@;
    p.insert(n5, midi_fp);
    let ghost e5 = p@;
    p.insert(n6, x_fp);
    let ghost e6 = p@;
    proof {
        lemma_names_distinct();
        assert forall|k: Seq<char>|
            !(k == "duration"@ || k == "sample"@ || k == "time"@ || k == "rate"@ || k
                == "midi_note"@ || k == "x"@) implies lookup(e6, k) is None by {
            lemma_lookup_push(e5, e6.last(), k);
            lemma_lookup_push(e4, e5.last(), k);
            lemma_lookup_push(e3, e4.last(), k);
            lemma_lookup_push(e2, e3.last(), k);
            lemma_lookup_push(e1, e2.last(), k);
            lemma_lookup_push(e0, e1.last(), k);
        }
        lemma_lookup_push(e5, e6.last(), "duration"@);
        lemma_lookup_push(e4, e5.last(), "duration"@);
        lemma_lookup_push(e3, e4.last(), "duration"@);
        lemma_lookup_push(e2, e3.last(), "duration"@);
        lemma_lookup_push(e1, e2.last(), "duration"@);
        lemma_lookup_push(e0, e1.last(), "duration"@);
        assert(lookup(e6, "duration"@) == Some(dur_fp));
        lemma_lookup_push(e5, e6.last(), "sample"@);
        lemma_lookup_push(e4, e5.last(), "sample"@);
        lemma_lookup_push(e3, e4.last(), "sample"@);
        lemma_lookup_push(e2, e3.last(), "sample"@);
        lemma_lookup_push(e1, e2.last(), "sample"@);
        assert(lookup(e6, "sample"@) == Some(sample_fp));
        lemma_lookup_push(e5, e6.last(), "time"@);
        lemma_lookup_push(e4, e5.last(), "time"@);
        lemma_lookup_push(e3, e4.last(), "time"@);
        lemma_lookup_push(e2, e3.last(), "time"@);
        assert(lookup(e6, "time"@) == Some(time_fp));
        lemma_lookup_push(e5, e6.last(), "rate"@);
        lemma_lookup_push(e4, e5.last(), "rate"@);
        lemma_lookup_push(e3, e4.last(), "rate"@);
        assert(lookup(e6, "rate"@) == Some(rate_fp));
        lemma_lookup_push(e5, e6.last(), "midi_note"@);
        lemma_lookup_push(e4, e5.last(), "midi_note"@);
        assert(lookup(e6, "midi_note"@) == Some(midi_fp));
        lemma_lookup_push(e5, e6.last(), "x"@);
        assert(lookup(e6, "x"@) == Some(x_fp));
    }
    p
}

/// The six context names are pairwise distinct.
proof fn lemma_names_distinct()
    ensures
        "duration"@ != "sample"@,
        "duration"@ != "time"@,
        "duration"@ != "rate"@,
        "duration"@ != "midi_note"@,
        "duration"@ != "x"@,
        "sample"@ != "time"@,
        "sample"@ != "rate"@,
        "sample"@ != "midi_note"@,
        "sample"@ != "x"@,
        "time"@ != "rate"@,
        "time"@ != "midi_note"@,
        "time"@ != "x"@,
        "rate"@ != "midi_note"@,
        "rate"@ != "x"@,
        "midi_note"@ != "x"@,
{
    reveal_strlit("duration");
    reveal_strlit("sample");
    reveal_strlit("time");
    reveal_strlit("rate");
    reveal_strlit("midi_note");
    reveal_strlit("x");
    assert("duration"@.len() == 8);
    assert("sample"@.len() == 6);
    assert("time"@.len() == 4);
    assert("rate"@.len() == 4);
    assert("midi_note"@.len() == 9);
    assert("x"@.len() == 1);
    assert("time"@[0] == 't');
    assert("rate"@[0] == 'r');
}

/// Looking a name up after one more binding: the new binding answers for
/// its own name and defers every other.
proof fn lemma_lookup_push(entries: Seq<(String, i64)>, nv: (String, i64), k: Seq<char>)
    ensures
        lookup(entries.push(nv), k) == (if nv.0@ == k {
            Some(nv.1)
        } else {
            lookup(entries, k)
        }),
{
    let s2 = entries.push(nv);
    assert(s2.last() == nv);
    assert(s2.drop_last() =~= entries);
}

/// Divide a non-negative amplitude by the sample rate, truncating.
fn div_by_rate(x: i64) -> (r: i64)
    requires
        0 <= x,
    ensures
        r as int == tdiv(x as int, RATE as int),
        0 <= r <= x,
{
    let r = (x as u64) / (RATE as u64);
    proof {
        vstd::arithmetic::div_mod::lemma_div_nonincreasing(x as int, RATE as int);
        vstd::arithmetic::div_mod::lemma_div_pos_is_pos(x as int, RATE as int);
    }
    r as i64
}

/// The waveform phase coordinate `s·freq/rate`.
fn x_coord(s: u64, freq: i64) -> (r: i64)
    requires
        s <= 4_000_000_000_000,
        0 <= freq <= 20_000_000_000,
    ensures
        r as int == tdiv((s as int) * (freq as int), RATE as int),
        valid_amp(r as int),
{
    proof {
        assert((s as int) * (freq as int) <= 4_000_000_000_000 * 20_000_000_000 as int)
            by (nonlinear_arith)
            requires
                0 <= s as int <= 4_000_000_000_000,
                0 <= freq as int <= 20_000_000_000,
        ;
        assert(iabs((s as int) * (freq as int)) == (s as int) * (freq as int)) by (nonlinear_arith)
            requires
                0 <= s as int,
                0 <= freq as int,
        ;
    }
    let n: u128 = (s as u128) * (freq as u128);
    let q: u128 = n / (RATE as u128);
    proof {
        assert(4_000_000_000_000 * 20_000_000_000 as int == 44_100 * 1_814_058_956_916_099_773
            + 10_700) by (nonlinear_arith);
        vstd::arithmetic::div_mod::lemma_div_is_ordered(
            n as int,
            4_000_000_000_000 * 20_000_000_000 as int,
            RATE as int,
        );
        vstd::arithmetic::div_mod::lemma_fundamental_div_mod_converse(
            4_000_000_000_000 * 20_000_000_000 as int,
            RATE as int,
            1_814_058_956_916_099_773,
            10_700,
        );
        vstd::arithmetic::div_mod::lemma_div_pos_is_pos(n as int, RATE as int);
    }
    q as i64
}

/// Resolution sees only each instrument's program binding and percussion
/// flag, so priming leaves it unchanged.
pub proof fn lemma_find_stable(a: Seq<Instrument>, b: Seq<Instrument>, program: u8, i: int)
    requires
        a.len() == b.len(),
        0 <= i <= a.len(),
        forall|j: int|
            0 <= j < a.len() ==> #[trigger] b[j].midi_inst == a[j].midi_inst
                && b[j].midi_percussion == a[j].midi_percussion,
    ensures
        find_from(b, program, i) == find_from(a, program, i),
    decreases i,
{
    if i > 0 {
        assert(b[i - 1].midi_inst == a[i - 1].midi_inst && b[i - 1].midi_percussion == a[i
            - 1].midi_percussion);
        lemma_find_stable(a, b, program, i - 1);
    }
}

/// Whether a note's channel belongs to a bus's channel set.
fn channel_in(channels: &Vec<u8>, c: u8) -> (r: bool)
    ensures
        r == channels@.contains(c),
{
    let mut i: usize = 0;
    while i < channels.len()
        invariant
            i <= channels@.len(),
            forall|j: int| 0 <= j < i ==> channels@[j] != c,
        decreases channels@.len() - i,
    {
        if channels[i] == c {
            return true;
        }
        i = i + 1;
    }
    proof {
        assert(!channels@.contains(c));
    }
    false
}

/// Every instrument in a list is well formed.
pub open spec fn insts_wf(insts: Seq<Instrument>) -> bool {
    forall|i: int| 0 <= i < insts.len() ==> instrument_wf(&#[trigger] insts[i])
}

/// Every note in a list is renderable, and every note routed to the bus
/// fits the output window.
pub open spec fn notes_ok(notes: Seq<Note>, channels: Seq<u8>, total: int) -> bool {
    forall|i: int|
        0 <= i < notes.len() ==> note_wf(#[trigger] notes[i]) && (channels.contains(
            notes[i].channel,
        ) ==> notes[i].end_time <= total)
}

/// Some note routed to the bus resolves to no instrument: the fatal
/// configuration error.
pub open spec fn missing_instrument(
    notes: Seq<Note>,
    insts: Seq<Instrument>,
    channels: Seq<u8>,
) -> bool {
    exists|i: int|
        0 <= i < notes.len() && channels.contains(#[trigger] notes[i].channel)
            && spec_find_instrument(insts, notes[i].program) is None
}

/// Render one output bus: mix every routed note into a zeroed buffer of
/// `total` samples through the instrument its program resolves to, then
/// normalise to 16-bit PCM — exactly [`bus_mix`] followed by
/// [`spec_normalize`].  A routed note whose program resolves to no
/// instrument aborts the whole render.
pub fn render_bus(
    notes: &Vec<Note>,
    instruments: &Vec<Instrument>,
    channels: &Vec<u8>,
    total: usize,
) -> (r: Result<Vec<i16>, RenderError>)
    requires
        insts_wf(instruments@),
        notes_ok(notes@, channels@, total as int),
    ensures
        match r {
            Ok(out) => !missing_instrument(notes@, instruments@, channels@) && out@.len() == total
                && ({
                let m = bus_mix(instruments@, notes@, channels@, total as int, notes@.len() as int);
                forall|i: int|
                    0 <= i < out@.len() ==> #[trigger] out@[i] as int == spec_normalize(m.0, m.1)[i]
            }),
            Err(e) => e == RenderError::MissingInstrument && missing_instrument(
                notes@,
                instruments@,
                channels@,
            ),
        },
{
    let mut output: Vec<i64> = Vec::new();
    let mut z: usize = 0;
    while z < total
        invariant
            output@.len() == z,
            z <= total,
            forall|i: int| 0 <= i < z ==> output@[i] == 0i64,
        decreases total - z,
    {
        output.push(0);
        z = z + 1;
    }
    proof {
        assert(amp_view(output@) =~= zero_buf(total as int));
    }
    let mut peak: i64 = 0;
    let mut k: usize = 0;
    while k < notes.len()
        invariant
            insts_wf(instruments@),
            notes_ok(notes@, channels@, total as int),
            k <= notes@.len(),
            output@.len() == total,
            peak >= 0,
            forall|i: int| 0 <= i < output@.len() ==> valid_amp(#[trigger] output@[i] as int),
            forall|i: int| 0 <= i < output@.len() ==> iabs(#[trigger] output@[i] as int) <= peak,
            ({
                let m = bus_mix(instruments@, notes@, channels@, total as int, k as int);
                amp_view(output@) == m.0 && peak as int == m.1
            }),
            forall|j: int|
                0 <= j < k && channels@.contains(#[trigger] notes@[j].channel)
                    ==> spec_find_instrument(instruments@, notes@[j].program) is Some,
        decreases notes@.len() - k,
    {
        let n = notes[k];
        if channel_in(channels, n.channel) {
            match find_instrument(instruments, n.program) {
                None => {
                    proof {
                        assert(channels@.contains(notes@[k as int].channel)
                            && spec_find_instrument(instruments@, notes@[k as int].program)
                            is None);
                    }
                    return Err(RenderError::MissingInstrument);
                },
                Some(i) => {
                    let ghost out_pre = amp_view(output@);
                    let ghost pk_pre = peak as int;
                    proof {
                        assert forall|q: int| 0 <= q < out_pre.len() implies iabs(
                            #[trigger] out_pre[q],
                        ) <= pk_pre && valid_amp(out_pre[q]) by {
                            assert(out_pre[q] == output@[q] as int);
                        }
                        lemma_note_mix_bounds(
                            &instruments@[i as int],
                            n,
                            out_pre,
                            pk_pre,
                            n.end_time - n.start_time,
                        );
                    }
                    render_note(&n, &instruments[i], &mut output, &mut peak);
                    proof {
                        let m1 = note_mix(
                            &instruments@[i as int],
                            n,
                            out_pre,
                            pk_pre,
                            n.end_time - n.start_time,
                        );
                        assert forall|q: int| 0 <= q < output@.len() implies iabs(
                            #[trigger] output@[q] as int,
                        ) <= peak as int by {
                            assert(amp_view(output@)[q] == output@[q] as int);
                            assert(amp_view(output@)[q] == m1.0[q]);
                        }
                        let m2 = bus_mix(
                            instruments@,
                            notes@,
                            channels@,
                            total as int,
                            k as int + 1,
                        );
                        assert(amp_view(output@) == m2.0 && peak as int == m2.1);
                    }
                },
            }
        } else {
            proof {
                let m2 = bus_mix(instruments@, notes@, channels@, total as int, k as int + 1);
                assert(amp_view(output@) == m2.0 && peak as int == m2.1);
            }
        }
        k = k + 1;
    }
    let out16 = normalize_bus(&output, peak);
    proof {
        assert(!missing_instrument(notes@, instruments@, channels@));
        assert(notes@.len() as int == notes@.len());
    }
    Ok(out16)
}

/// Whether a note's channel is aggregated by any configured output.
pub open spec fn note_counted(n: Note, outputs: Seq<JSONOutput>) -> bool {
    exists|oi: int| 0 <= oi < outputs.len() && #[trigger] outputs[oi].channels@.contains(n.channel)
}

/// The end of the last sample any configured output will carry: the
/// greatest end time among counted notes.
pub open spec fn total_len(notes: Seq<Note>, outputs: Seq<JSONOutput>) -> int
    decreases notes.len(),
{
    if notes.len() == 0 {
        0
    } else {
        let rest = total_len(notes.drop_last(), outputs);
        if note_counted(notes.last(), outputs) && notes.last().end_time > rest {
            notes.last().end_time as int
        } else {
            rest
        }
    }
}

/// Every counted note ends within the total window.
pub proof fn lemma_total_len(notes: Seq<Note>, outputs: Seq<JSONOutput>, i: int)
    requires
        0 <= i < notes.len(),
        note_counted(notes[i], outputs),
    ensures
        notes[i].end_time <= total_len(notes, outputs),
        total_len(notes, outputs) >= 0,
    decreases notes.len(),
{
    lemma_total_nonneg(notes, outputs);
    if i == notes.len() - 1 {
    } else {
        assert(notes.drop_last()[i] == notes[i]);
        lemma_total_len(notes.drop_last(), outputs, i);
    }
}

/// The total window is never negative.
pub proof fn lemma_total_nonneg(notes: Seq<Note>, outputs: Seq<JSONOutput>)
    ensures
        total_len(notes, outputs) >= 0,
    decreases notes.len(),
{
    if notes.len() > 0 {
        lemma_total_nonneg(notes.drop_last(), outputs);
    }
}

/// Whether the note is counted by any output, exactly as
/// [`note_counted`] states.
fn note_counted_exec(n: &Note, outputs: &Vec<JSONOutput>) -> (r: bool)
    ensures
        r == note_counted(*n, outputs@),
{
    let mut i: usize = 0;
    while i < outputs.len()
        invariant
            i <= outputs@.len(),
            forall|j: int| 0 <= j < i ==> !#[trigger] outputs@[j].channels@.contains(n.channel),
        decreases outputs@.len() - i,
    {
        if channel_in(&outputs[i].channels, n.channel) {
            return true;
        }
        i = i + 1;
    }
    false
}

/// The length of the buffer every bus renders into, exactly as
/// [`total_len`] states.
fn compute_total(notes: &Vec<Note>, outputs: &Vec<JSONOutput>) -> (r: u64)
    requires
        forall|i: int| 0 <= i < notes@.len() ==> note_wf(#[trigger] notes@[i]),
    ensures
        r as int == total_len(notes@, outputs@),
{
    let mut r: u64 = 0;
    let mut k: usize = 0;
    proof {
        assert(notes@.take(0).len() == 0);
    }
    while k < notes.len()
        invariant
            k <= notes@.len(),
            forall|i: int| 0 <= i < notes@.len() ==> note_wf(#[trigger] notes@[i]),
            r as int == total_len(notes@.take(k as int), outputs@),
        decreases notes@.len() - k,
    {
        let n = notes[k];
        proof {
            assert(notes@.take(k as int + 1).drop_last() =~= notes@.take(k as int));
            assert(notes@.take(k as int + 1).last() == notes@[k as int]);
        }
        if note_counted_exec(&n, outputs) && n.end_time > r {
            r = n.end_time;
        }
        k = k + 1;
    }
    proof {
        assert(notes@.take(notes@.len() as int) =~= notes@);
    }
    r
}

/// Render every configured output bus.  Every routed note's instrument is
/// first primed for the note's pitch (priming is idempotent, so it may be
/// precomputed ahead of mixing); then each bus is mixed and normalised
/// against the primed instruments — exactly [`bus_mix`] followed by
/// [`spec_normalize`], per bus.  A counted note with no instrument aborts
/// the whole render with the configuration error.
pub fn render(
    notes: &Vec<Note>,
    instruments: &mut Vec<Instrument>,
    outputs: &Vec<JSONOutput>,
) -> (r: Result<Vec<Vec<i16>>, RenderError>)
    requires
        insts_wf(old(instruments)@),
        forall|i: int| 0 <= i < notes@.len() ==> note_wf(#[trigger] notes@[i]),
        total_len(notes@, outputs@) <= usize::MAX,
    ensures
        insts_wf(final(instruments)@),
        final(instruments)@.len() == old(instruments)@.len(),
        forall|j: int|
            0 <= j < old(instruments)@.len() ==> instrument_evolved(
                &old(instruments)@[j],
                &#[trigger] final(instruments)@[j],
            ),
        match r {
            Ok(bufs) => bufs@.len() == outputs@.len() && (forall|b: int|
                #![trigger bufs@[b]]
                0 <= b < bufs@.len() ==> ({
                    let m = bus_mix(
                        final(instruments)@,
                        notes@,
                        outputs@[b].channels@,
                        total_len(notes@, outputs@),
                        notes@.len() as int,
                    );
                    &&& bufs@[b]@.len() == total_len(notes@, outputs@)
                    &&& forall|i: int|
                        0 <= i < bufs@[b]@.len() ==> #[trigger] bufs@[b]@[i] as int
                            == spec_normalize(m.0, m.1)[i]
                })),
            Err(e) => e == RenderError::MissingInstrument && exists|j: int|
                0 <= j < notes@.len() && note_counted(#[trigger] notes@[j], outputs@)
                    && spec_find_instrument(old(instruments)@, notes@[j].program) is None,
        },
{
    // prime every counted note's instrument ahead of mixing
    proof {
        assert forall|j: int|
            0 <= j < old(instruments)@.len() implies instrument_evolved(
            &old(instruments)@[j],
            &#[trigger] instruments@[j],
        ) by {
            lemma_evolved_refl(&instruments@[j].carrier);
        }
    }
    let mut k: usize = 0;
    while k < notes.len()
        invariant
            insts_wf(old(instruments)@),
            insts_wf(instruments@),
            forall|i: int| 0 <= i < notes@.len() ==> note_wf(#[trigger] notes@[i]),
            k <= notes@.len(),
            instruments@.len() == old(instruments)@.len(),
            forall|j: int|
                0 <= j < old(instruments)@.len() ==> #[trigger] instruments@[j].midi_inst == old(
                    instruments,
                )@[j].midi_inst && instruments@[j].midi_percussion == old(
                    instruments,
                )@[j].midi_percussion,
            forall|j: int|
                0 <= j < old(instruments)@.len() ==> instrument_evolved(
                    &old(instruments)@[j],
                    &#[trigger] instruments@[j],
                ),
        decreases notes@.len() - k,
    {
        let n = notes[k];
        if note_counted_exec(&n, outputs) {
            match find_instrument(instruments, n.program) {
                None => {
                    proof {
                        lemma_find_stable(
                            old(instruments)@,
                            instruments@,
                            n.program,
                            instruments@.len() as int,
                        );
                        assert(note_counted(notes@[k as int], outputs@) && spec_find_instrument(
                            old(instruments)@,
                            notes@[k as int].program,
                        ) is None);
                    }
                    return Err(RenderError::MissingInstrument);
                },
                Some(i) => {
                    let ghost pre = instruments@;
                    let p = prime_params(n.midi_note);
                    {
                        let inst = &mut instruments[i];
                        inst.cache(&p);
                    }
                    proof {
                        assert forall|j: int|
                            0 <= j < old(instruments)@.len() implies #[trigger] instruments@[j].midi_inst
                            == old(instruments)@[j].midi_inst && instruments@[j].midi_percussion
                            == old(instruments)@[j].midi_percussion by {
                            if j != i {
                                assert(instruments@[j] == pre[j]);
                            }
                        }
                        assert forall|j: int|
                            0 <= j < old(instruments)@.len() implies instrument_evolved(
                            &old(instruments)@[j],
                            &#[trigger] instruments@[j],
                        ) by {
                            if j != i {
                                assert(instruments@[j] == pre[j]);
                            } else {
                                lemma_evolved_trans(
                                    &old(instruments)@[i as int].carrier,
                                    &pre[i as int].carrier,
                                    &instruments@[i as int].carrier,
                                    n.midi_note as int,
                                );
                            }
                        }
                    }
                },
            }
        }
        proof {
            assert(forall|j: int|
                0 <= j < old(instruments)@.len() ==> #[trigger] instruments@[j].midi_inst == old(
                    instruments,
                )@[j].midi_inst && instruments@[j].midi_percussion == old(
                    instruments,
                )@[j].midi_percussion);
            assert(forall|j: int|
                0 <= j < old(instruments)@.len() ==> instrument_evolved(
                    &old(instruments)@[j],
                    &#[trigger] instruments@[j],
                ));
        }
        k = k + 1;
    }
    // mix every bus against the primed instruments
    let ghost primed = instruments@;
    let total64 = compute_total(notes, outputs);
    let total = total64 as usize;
    let mut bufs: Vec<Vec<i16>> = Vec::new();
    let mut b: usize = 0;
    while b < outputs.len()
        invariant
            instruments@ == primed,
            insts_wf(instruments@),
            instruments@.len() == old(instruments)@.len(),
            forall|j: int|
                0 <= j < old(instruments)@.len() ==> #[trigger] instruments@[j].midi_inst == old(
                    instruments,
                )@[j].midi_inst && instruments@[j].midi_percussion == old(
                    instruments,
                )@[j].midi_percussion,
            forall|j: int|
                0 <= j < old(instruments)@.len() ==> instrument_evolved(
                    &old(instruments)@[j],
                    &#[trigger] instruments@[j],
                ),
            forall|i: int| 0 <= i < notes@.len() ==> note_wf(#[trigger] notes@[i]),
            total as int == total_len(notes@, outputs@),
            bufs@.len() == b,
            b <= outputs@.len(),
            forall|b2: int|
                #![trigger bufs@[b2]]
                0 <= b2 < b ==> ({
                    let m = bus_mix(
                        primed,
                        notes@,
                        outputs@[b2].channels@,
                        total as int,
                        notes@.len() as int,
                    );
                    &&& bufs@[b2]@.len() == total as int
                    &&& forall|i: int|
                        0 <= i < bufs@[b2]@.len() ==> #[trigger] bufs@[b2]@[i] as int
                            == spec_normalize(m.0, m.1)[i]
                }),
        decreases outputs@.len() - b,
    {
        proof {
            assert forall|i: int|
                0 <= i < notes@.len() && outputs@[b as int].channels@.contains(
                    #[trigger] notes@[i].channel,
                ) implies notes@[i].end_time <= total as int by {
                assert(note_counted(notes@[i], outputs@));
                lemma_total_len(notes@, outputs@, i);
            }
        }
        match render_bus(notes, instruments, &outputs[b].channels, total) {
            Ok(out) => {
                bufs.push(out);
            },
            Err(e) => {
                proof {
                    let j = choose|j: int|
                        0 <= j < notes@.len() && outputs@[b as int].channels@.contains(
                            #[trigger] notes@[j].channel,
                        ) && spec_find_instrument(primed, notes@[j].program) is None;
                    assert(note_counted(notes@[j], outputs@));
                    lemma_find_stable(
                        old(instruments)@,
                        primed,
                        notes@[j].program,
                        primed.len() as int,
                    );
                    assert(spec_find_instrument(old(instruments)@, notes@[j].program) is None);
                }
                return Err(e);
            },
        }
        b = b + 1;
    }
    Ok(bufs)
}

/// Normalisation preserves sign symmetry: slots holding opposite values
/// come out as opposite 16-bit samples, so a waveform symmetric around
/// its midline stays symmetric after scaling.
pub proof fn lemma_normalize_antisymmetric(out: Seq<int>, peak: int, i: int, j: int)
    requires
        0 <= i < out.len(),
        0 <= j < out.len(),
        out[j] == -out[i],
    ensures
        spec_normalize(out, peak)[j] == -spec_normalize(out, peak)[i],
{
    if peak != 0 {
        assert(out[j] * 32767 == -(out[i] * 32767)) by (nonlinear_arith)
            requires
                out[j] == -out[i],
        ;
        assert(iabs(-(out[i] * 32767)) == iabs(out[i] * 32767));
    }
}

} // verus!
