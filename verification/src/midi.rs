//! The decisions of the note-event decoder: tempo arithmetic, tick-to-
//! sample conversion, equal-tempered frequencies, and the pairing of
//! note-on with note-off events.  The event stream itself comes from an
//! outside reader; these functions turn its plain values into notes.

use vstd::prelude::*;

use crate::render::Note;
use crate::sample_bank::{pitch_ratio, pitch_ratio_exec};

verus! {

/// A sounding note awaiting its note-off event.
#[derive(Debug, Clone, Copy)]
pub struct PlayingNote {
    pub channel: u8,
    pub program: u8,
    pub note: u8,
    pub velocity: u8,
    pub start_time: u64,
}

/// Samples per tick from a raw 24-bit tempo value: the value encodes
/// microseconds per quarter note; a zero value keeps the old tempo, so
/// the conversion is total.
pub open spec fn spec_tempo(raw: int, old_tempo: int) -> int {
    if raw == 0 {
        old_tempo
    } else {
        let bpm = 60_000_000int / raw;
        if bpm == 0 {
            old_tempo
        } else {
            2_646_000int / bpm
        }
    }
}

/// Samples per tick from the three tempo bytes, exactly as
/// [`spec_tempo`] states; the result never exceeds the samples-per-tick
/// of one beat per minute.
pub fn tempo_from_bytes(b0: u8, b1: u8, b2: u8, old_tempo: u64) -> (r: u64)
    requires
        old_tempo <= 2_646_000,
    ensures
        r as int == spec_tempo(b0 * 65536 + b1 * 256 + b2, old_tempo as int),
        r <= 2_646_000,
{
    let raw: u64 = (b0 as u64) * 65536 + (b1 as u64) * 256 + (b2 as u64);
    if raw == 0 {
        return old_tempo;
    }
    let bpm: u64 = 60_000_000 / raw;
    if bpm == 0 {
        return old_tempo;
    }
    2_646_000 / bpm
}

/// The output-sample position of a tick count: whole elapsed quarter
/// notes times samples per tick; without a time base (no header yet) the
/// position is the origin.
pub open spec fn spec_event_time(cur: int, time_base: int, tempo: int) -> int {
    if time_base == 0 {
        0
    } else {
        (cur / time_base) * tempo
    }
}

/// The output-sample position of a tick count, exactly as
/// [`spec_event_time`] states.
pub fn event_time(cur: u32, time_base: u16, tempo: u64) -> (r: u64)
    requires
        tempo <= 2_646_000,
    ensures
        r as int == spec_event_time(cur as int, time_base as int, tempo as int),
        r <= 11_364_483_462_570_000,
{
    if time_base == 0 {
        return 0;
    }
    let q: u64 = (cur as u64) / (time_base as u64);
    proof {
        vstd::arithmetic::div_mod::lemma_div_nonincreasing(cur as int, time_base as int);
        vstd::arithmetic::div_mod::lemma_div_pos_is_pos(cur as int, time_base as int);
        assert((q as int) * (tempo as int) <= 4_294_967_295 * 2_646_000 as int)
            by (nonlinear_arith)
            requires
                0 <= q as int <= 4_294_967_295,
                0 <= tempo as int <= 2_646_000,
        ;
    }
    q * tempo
}

/// The equal-tempered frequency of a MIDI pitch as a fixed-point
/// amplitude: 440 Hz at pitch 69, scaled by the engine's semitone
/// ratios.
pub open spec fn spec_note_freq(m: int) -> int {
    440 * pitch_ratio(m - 69)
}

/// The frequency of a pitch, exactly as [`spec_note_freq`] states; small
/// enough for every renderer context.
pub fn note_freq(m: u8) -> (r: i64)
    requires
        m < 128,
    ensures
        r as int == spec_note_freq(m as int),
        0 <= r <= 20_000_000_000,
{
    let ratio = pitch_ratio_exec(m as i64 - 69);
    proof {
        lemma_pitch_ratio_small(m as int - 69);
        assert(440 * (ratio as int) <= 440 * 31_000_000) by (nonlinear_arith)
            requires
                0 <= ratio as int <= 31_000_000,
        ;
    }
    440 * ratio
}

/// Within the MIDI range, the semitone ratio stays below five octaves.
proof fn lemma_pitch_ratio_small(d: int)
    requires
        -127 <= d <= 58,
    ensures
        0 <= pitch_ratio(d) <= 31_000_000,
{
    let k = d / 12;
    let r = d % 12;
    let base = crate::sample_bank::semitone(r);
    vstd::arithmetic::div_mod::lemma_mod_division_less_than_divisor(d, 12);
    assert(0 <= r < 12);
    assert(1_000_000 <= base <= 1_887_749);
    vstd::arithmetic::div_mod::lemma_fundamental_div_mod(d, 12);
    assert(k <= 4) by {
        if k >= 5 {
            assert(d == 12 * k + r);
            assert(12 * k >= 60) by (nonlinear_arith)
                requires
                    k >= 5,
            ;
        }
    }
    if k >= 0 {
        vstd::arithmetic::power2::lemma2_to64();
        assert(vstd::arithmetic::power2::pow2(k as nat) <= 16) by {
            if k as nat <= 3 {
                vstd::arithmetic::power2::lemma_pow2_strictly_increases(k as nat, 4);
            }
        }
        assert(base * vstd::arithmetic::power2::pow2(k as nat) <= 1_887_749 * 16)
            by (nonlinear_arith)
            requires
                0 <= base <= 1_887_749,
                0 <= vstd::arithmetic::power2::pow2(k as nat) <= 16,
        ;
        assert(base * vstd::arithmetic::power2::pow2(k as nat) >= 0) by (nonlinear_arith)
            requires
                base >= 0,
                vstd::arithmetic::power2::pow2(k as nat) >= 0,
        ;
    } else {
        vstd::arithmetic::power2::lemma_pow2_pos((-k) as nat);
        vstd::arithmetic::div_mod::lemma_div_nonincreasing(
            base,
            vstd::arithmetic::power2::pow2((-k) as nat) as int,
        );
        vstd::arithmetic::div_mod::lemma_div_pos_is_pos(
            base,
            vstd::arithmetic::power2::pow2((-k) as nat) as int,
        );
    }
}

/// The program currently sounding on a channel: the latest change, or
/// the default program when none was seen.
pub open spec fn spec_program_for(programs: Seq<(u8, u8)>, ch: u8) -> u8
    decreases programs.len(),
{
    if programs.len() == 0 {
        0
    } else if programs.last().0 == ch {
        programs.last().1
    } else {
        spec_program_for(programs.drop_last(), ch)
    }
}

/// The program for a channel, exactly as [`spec_program_for`] states.
pub fn program_for(programs: &Vec<(u8, u8)>, ch: u8) -> (r: u8)
    ensures
        r == spec_program_for(programs@, ch),
{
    let mut i: usize = programs.len();
    proof {
        assert(programs@.take(programs@.len() as int) =~= programs@);
    }
    while i > 0
        invariant
            i <= programs@.len(),
            spec_program_for(programs@, ch) == spec_program_for(programs@.take(i as int), ch),
        decreases i,
    {
        i = i - 1;
        proof {
            assert(programs@.take(i as int + 1).last() == programs@[i as int]);
            assert(programs@.take(i as int + 1).drop_last() =~= programs@.take(i as int));
        }
        if programs[i].0 == ch {
            return programs[i].1;
        }
    }
    0
}

/// The latest sounding note on a channel with a pitch, if any.
pub open spec fn spec_last_match(playing: Seq<PlayingNote>, ch: u8, note: u8) -> Option<int>
    decreases playing.len(),
{
    if playing.len() == 0 {
        None
    } else if playing.last().channel == ch && playing.last().note == note {
        Some(playing.len() - 1)
    } else {
        spec_last_match(playing.drop_last(), ch, note)
    }
}

/// Close the latest sounding note matching a note-off event: remove it
/// from the sounding list and return the finished note, its frequency
/// derived from its pitch; with no matching note the event is dropped
/// rather than failing.
pub fn close_note(playing: &mut Vec<PlayingNote>, ch: u8, note: u8, end_time: u64) -> (r: Option<
    Note,
>)
    requires
        forall|i: int| 0 <= i < old(playing)@.len() ==> (#[trigger] old(playing)@[i]).note < 128,
    ensures
        forall|i: int| 0 <= i < final(playing)@.len() ==> (#[trigger] final(playing)@[i]).note
            < 128,
        match spec_last_match(old(playing)@, ch, note) {
            Some(i) => r is Some && final(playing)@ == old(playing)@.remove(i) && ({
                let pn = old(playing)@[i];
                let n = r->Some_0;
                n.channel == ch && n.program == pn.program && n.start_time == pn.start_time
                    && n.end_time == end_time && n.midi_note == pn.note && n.freq as int
                    == spec_note_freq(pn.note as int)
            }),
            None => r is None && final(playing)@ == old(playing)@,
        },
{
    let mut i: usize = playing.len();
    proof {
        assert(playing@.take(playing@.len() as int) =~= playing@);
    }
    while i > 0
        invariant
            i <= playing@.len(),
            playing@ == old(playing)@,
            forall|j: int| 0 <= j < playing@.len() ==> (#[trigger] playing@[j]).note < 128,
            spec_last_match(playing@, ch, note) == spec_last_match(
                playing@.take(i as int),
                ch,
                note,
            ),
            forall|j: int|
                i <= j < playing@.len() ==> !((#[trigger] playing@[j]).channel == ch
                    && playing@[j].note == note),
        decreases i,
    {
        i = i - 1;
        proof {
            assert(playing@.take(i as int + 1).last() == playing@[i as int]);
            assert(playing@.take(i as int + 1).drop_last() =~= playing@.take(i as int));
        }
        let pn = playing[i];
        if pn.channel == ch && pn.note == note {
            let freq = note_freq(pn.note);
            let finished = Note {
                channel: ch,
                program: pn.program,
                start_time: pn.start_time,
                end_time,
                midi_note: pn.note,
                freq,
            };
            playing.remove(i);
            return Some(finished);
        }
    }
    proof {
        assert(playing@.take(0).len() == 0);
    }
    None
}

/// The meta events the decoder reacts to.
#[derive(Debug, PartialEq, Eq, Structural, Copy, Clone)]
pub enum MetaKind {
    EndOfTrack,
    SetTempo,
    Other,
}

/// The channel messages the decoder reacts to.
#[derive(Debug, PartialEq, Eq, Structural, Copy, Clone)]
pub enum MidiMessage {
    NoteOn { ch: u8, note: u8, velocity: u8 },
    NoteOff { ch: u8, note: u8 },
    ProgramChange { ch: u8, program: u8 },
    Other,
}

/// A tick count advanced by a delta, pinned at the counter's ceiling.
pub open spec fn sat_add_u32(cur: int, delta: int) -> int {
    if cur + delta > 0xffff_ffff {
        0xffff_ffff as int
    } else {
        cur + delta
    }
}

/// A finished note closed from a sounding one: same pitch and program,
/// the window from its start to the closing instant, the frequency
/// derived from the pitch.
pub open spec fn note_closed(n: Note, pn: PlayingNote, ch: u8, end: int) -> bool {
    &&& n.channel == ch
    &&& n.program == pn.program
    &&& n.start_time == pn.start_time
    &&& n.end_time == end
    &&& n.midi_note == pn.note
    &&& n.freq as int == spec_note_freq(pn.note as int)
}

/// The note-event decoder's state: the current tempo and tick position,
/// the notes still sounding, the notes already closed, and the latest
/// program change per channel.
pub struct MidiHandler {
    time_base: u16,
    tempo: u64,
    cur_time: u32,
    playing_notes: Vec<PlayingNote>,
    finished_notes: Vec<Note>,
    cur_programs: Vec<(u8, u8)>,
}

impl MidiHandler {
    /// The ticks-per-quarter-note of the stream's header.
    pub closed spec fn time_base_v(&self) -> int {
        self.time_base as int
    }

    /// The samples per tick currently in force.
    pub closed spec fn tempo_v(&self) -> int {
        self.tempo as int
    }

    /// The tick position within the current track.
    pub closed spec fn cur_time_v(&self) -> int {
        self.cur_time as int
    }

    /// The notes still sounding.
    pub closed spec fn playing_view(&self) -> Seq<PlayingNote> {
        self.playing_notes@
    }

    /// The notes already closed, in closing order.
    pub closed spec fn notes_view(&self) -> Seq<Note> {
        self.finished_notes@
    }

    /// The program changes seen, latest last.
    pub closed spec fn programs_view(&self) -> Seq<(u8, u8)> {
        self.cur_programs@
    }

    /// The tempo stays within one beat per minute and every sounding
    /// pitch is a MIDI pitch.
    pub closed spec fn wf(&self) -> bool {
        self.tempo <= 2_646_000 && forall|i: int|
            0 <= i < self.playing_notes@.len() ==> (#[trigger] self.playing_notes@[i]).note < 128
    }

    /// A decoder before any event: everything at the origin.
    pub fn new() -> (r: MidiHandler)
        ensures
            r.wf(),
            r.time_base_v() == 0,
            r.tempo_v() == 0,
            r.cur_time_v() == 0,
            r.playing_view().len() == 0,
            r.notes_view().len() == 0,
            r.programs_view().len() == 0,
    {
        MidiHandler {
            time_base: 0,
            tempo: 0,
            cur_time: 0,
            playing_notes: Vec::new(),
            finished_notes: Vec::new(),
            cur_programs: Vec::new(),
        }
    }

    /// The stream header: remember the time base and start at the
    /// default 120 beats per minute.
    pub fn header(&mut self, _format: u16, _track: u16, time_base: u16)
        requires
            old(self).wf(),
        ensures
            final(self).wf(),
            final(self).time_base_v() == time_base as int,
            final(self).tempo_v() == 22_050,
            final(self).cur_time_v() == old(self).cur_time_v(),
            final(self).playing_view() == old(self).playing_view(),
            final(self).notes_view() == old(self).notes_view(),
            final(self).programs_view() == old(self).programs_view(),
    {
        self.time_base = time_base;
        self.tempo = 22_050;
    }

    /// A meta event: the end of a track resets the tick position, a
    /// tempo change with a full payload retunes samples per tick, and
    /// every meta event advances time by its delta.
    pub fn meta_event(&mut self, delta_time: u32, kind: MetaKind, data: &Vec<u8>)
        requires
            old(self).wf(),
        ensures
            final(self).wf(),
            final(self).time_base_v() == old(self).time_base_v(),
            final(self).playing_view() == old(self).playing_view(),
            final(self).notes_view() == old(self).notes_view(),
            final(self).programs_view() == old(self).programs_view(),
            final(self).cur_time_v() == sat_add_u32(
                if kind == MetaKind::EndOfTrack {
                    0
                } else {
                    old(self).cur_time_v()
                },
                delta_time as int,
            ),
            final(self).tempo_v() == (if kind == MetaKind::SetTempo && data@.len() >= 3 {
                spec_tempo(
                    data@[0] * 65536 + data@[1] * 256 + data@[2],
                    old(self).tempo_v(),
                )
            } else {
                old(self).tempo_v()
            }),
    {
        match kind {
            MetaKind::EndOfTrack => {
                self.cur_time = 0;
            },
            MetaKind::SetTempo => {
                if data.len() >= 3 {
                    self.tempo = tempo_from_bytes(data[0], data[1], data[2], self.tempo);
                }
            },
            MetaKind::Other => (),
        }
        self.cur_time = sat_add_exec(self.cur_time, delta_time);
    }

    /// A channel message: a note-on opens a sounding note under the
    /// channel's current program, a note-off closes the latest matching
    /// sounding note, a program change rebinds the channel; every
    /// message advances time by its delta first.
    pub fn midi_event(&mut self, delta_time: u32, msg: MidiMessage)
        requires
            old(self).wf(),
        ensures
            final(self).wf(),
            final(self).time_base_v() == old(self).time_base_v(),
            final(self).tempo_v() == old(self).tempo_v(),
            final(self).cur_time_v() == sat_add_u32(old(self).cur_time_v(), delta_time as int),
            ({
                let ct2 = sat_add_u32(old(self).cur_time_v(), delta_time as int);
                let when = spec_event_time(ct2, old(self).time_base_v(), old(self).tempo_v());
                match msg {
                    MidiMessage::NoteOn { ch, note, velocity } => final(self).notes_view() == old(self).notes_view() && final(self).programs_view() == old(self).programs_view() && (
                    if note < 128 {
                        final(self).playing_view() == old(self).playing_view().push(
                            PlayingNote {
                                channel: ch,
                                program: spec_program_for(old(self).programs_view(), ch),
                                note,
                                velocity,
                                start_time: when as u64,
                            },
                        )
                    } else {
                        final(self).playing_view() == old(self).playing_view()
                    }),
                    MidiMessage::NoteOff { ch, note } => final(self).programs_view() == old(self).programs_view() && match spec_last_match(old(self).playing_view(), ch, note) {
                        Some(i) => final(self).playing_view() == old(self).playing_view().remove(i)
                            && final(self).notes_view().len() == old(self).notes_view().len() + 1
                            && final(self).notes_view().drop_last() == old(self).notes_view()
                            && note_closed(
                            final(self).notes_view().last(),
                            old(self).playing_view()[i],
                            ch,
                            when,
                        ),
                        None => final(self).playing_view() == old(self).playing_view() && final(self).notes_view() == old(self).notes_view(),
                    },
                    MidiMessage::ProgramChange { ch, program } => final(self).playing_view() == old(self).playing_view() && final(self).notes_view() == old(self).notes_view() && final(self).programs_view() == old(self).programs_view().push((ch, program)),
                    MidiMessage::Other => final(self).playing_view() == old(self).playing_view()
                        && final(self).notes_view() == old(self).notes_view() && final(self).programs_view() == old(self).programs_view(),
                }
            }),
    {
        self.cur_time = sat_add_exec(self.cur_time, delta_time);
        match msg {
            MidiMessage::NoteOn { ch, note, velocity } => {
                if note < 128 {
                    let program = program_for(&self.cur_programs, ch);
                    let start_time = event_time(self.cur_time, self.time_base, self.tempo);
                    self.playing_notes.push(
                        PlayingNote { channel: ch, program, note, velocity, start_time },
                    );
                }
            },
            MidiMessage::NoteOff { ch, note } => {
                let end = event_time(self.cur_time, self.time_base, self.tempo);
                match close_note(&mut self.playing_notes, ch, note, end) {
                    Some(n) => {
                        self.finished_notes.push(n);
                        proof {
                            assert(self.finished_notes@.drop_last() =~= old(self).finished_notes@);
                        }
                    },
                    None => (),
                }
            },
            MidiMessage::ProgramChange { ch, program } => {
                self.cur_programs.push((ch, program));
            },
            MidiMessage::Other => (),
        }
    }

    /// An exclusive event only advances time.
    pub fn sys_ex_event(&mut self, delta_time: u32)
        requires
            old(self).wf(),
        ensures
            final(self).wf(),
            final(self).time_base_v() == old(self).time_base_v(),
            final(self).tempo_v() == old(self).tempo_v(),
            final(self).playing_view() == old(self).playing_view(),
            final(self).notes_view() == old(self).notes_view(),
            final(self).programs_view() == old(self).programs_view(),
            final(self).cur_time_v() == sat_add_u32(old(self).cur_time_v(), delta_time as int),
    {
        self.cur_time = sat_add_exec(self.cur_time, delta_time);
    }

    /// A track boundary changes nothing by itself.
    pub fn track_change(&mut self)
        ensures
            *final(self) == *old(self),
    {
    }

    /// Hand the closed notes over, in closing order.
    pub fn into_notes(self) -> (r: Vec<Note>)
        ensures
            r@ == self.notes_view(),
    {
        self.finished_notes
    }
}

/// Advance a tick counter, pinning at its ceiling.
fn sat_add_exec(cur: u32, delta: u32) -> (r: u32)
    ensures
        r as int == sat_add_u32(cur as int, delta as int),
{
    if cur > u32::MAX - delta {
        u32::MAX
    } else {
        cur + delta
    }
}

} // verus!
