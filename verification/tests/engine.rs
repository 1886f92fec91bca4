use scoresynth::ease::{ease_from_name, EaseFn};
use scoresynth::envelope::{EnvPhase, Envelope};
use scoresynth::error::RenderError;
use scoresynth::instrument::{Instrument, Modulator, SignalSource};
use scoresynth::midi::{
    close_note, event_time, note_freq, program_for, tempo_from_bytes, MetaKind, MidiHandler,
    MidiMessage, PlayingNote,
};
use scoresynth::parse::JSONOutput;
use scoresynth::render::{find_instrument, render, Note};
use scoresynth::sample_bank::SampleBank;
use scoresynth::samplegen::Params;
use scoresynth::waveform::Waveform;

const S: i64 = 1_000_000;

fn env_params(duration_samples: i64, sample: i64) -> Params {
    let mut p = Params::new();
    p.insert("duration".to_string(), duration_samples * S);
    p.insert("sample".to_string(), sample * S);
    p
}

fn bank_params(midi_note: i64, sample: i64) -> Params {
    let mut p = Params::new();
    p.insert("midi_note".to_string(), midi_note * S);
    p.insert("sample".to_string(), sample * S);
    p
}

fn linear_phase() -> EnvPhase {
    EnvPhase {
        start_time: 0,
        end_time: S,
        start_val: 0,
        delta_val: S,
        ease_fn: EaseFn::Linear,
    }
}

#[test]
fn envelope_boundary_start_and_end() {
    let env = Envelope::new(vec![linear_phase()]);
    assert_eq!(env.get_mod_sample(&env_params(100, 0)), Some(S));
    assert_eq!(env.get_mod_sample(&env_params(100, 100)), Some(0));
}

#[test]
fn envelope_outside_any_phase_is_no_value() {
    let mut ph = linear_phase();
    ph.end_time = S / 2;
    let env = Envelope::new(vec![ph]);
    assert_eq!(env.get_mod_sample(&env_params(100, 75)), None);
}

#[test]
fn envelope_empty_is_no_value() {
    let env = Envelope::new(Vec::new());
    assert_eq!(env.get_mod_sample(&env_params(100, 0)), None);
}

#[test]
fn envelope_last_matching_phase_wins() {
    let constant_zero = EnvPhase {
        start_time: 0,
        end_time: S,
        start_val: 0,
        delta_val: 0,
        ease_fn: EaseFn::Linear,
    };
    let constant_half = EnvPhase {
        start_time: 0,
        end_time: S,
        start_val: S / 2,
        delta_val: 0,
        ease_fn: EaseFn::Linear,
    };
    let env = Envelope::new(vec![constant_zero, constant_half]);
    // the later phase applies: 1 - 0.5
    assert_eq!(env.get_mod_sample(&env_params(100, 50)), Some(S / 2));
}

#[test]
fn envelope_zero_length_window_is_deterministic() {
    let mut ph = linear_phase();
    ph.start_time = 0;
    ph.end_time = 0;
    let env = Envelope::new(vec![ph]);
    // the window holds only sample zero and eases at its start value
    assert_eq!(env.get_mod_sample(&env_params(100, 0)), Some(S));
}

#[test]
fn bank_exact_hit_plays_verbatim_then_silence() {
    let mut bank = SampleBank::new("strings".to_string());
    bank.register(60, vec![5, -7, 9]);
    bank.cache(&bank_params(60, 0));
    assert_eq!(bank.get_sample(&bank_params(60, 0)), Some(5));
    assert_eq!(bank.get_sample(&bank_params(60, 1)), Some(-7));
    assert_eq!(bank.get_sample(&bank_params(60, 2)), Some(9));
    // the note may outlast its clip: silence, not a failure
    assert_eq!(bank.get_sample(&bank_params(60, 3)), Some(0));
}

#[test]
fn bank_resamples_octave_up() {
    let mut bank = SampleBank::new("strings".to_string());
    bank.register(60, vec![0, 1, 2, 3, 4]);
    bank.cache(&bank_params(72, 0));
    // ratio 2.0: nearest-neighbour picks every second sample to the end
    // of the source, silence once the scaled location passes it
    assert_eq!(bank.get_sample(&bank_params(72, 0)), Some(0));
    assert_eq!(bank.get_sample(&bank_params(72, 1)), Some(2));
    assert_eq!(bank.get_sample(&bank_params(72, 2)), Some(4));
    assert_eq!(bank.get_sample(&bank_params(72, 3)), Some(0));
    // one fewer entry than the source, so index 4 is already past the end
    assert_eq!(bank.get_sample(&bank_params(72, 4)), Some(0));
}

#[test]
fn bank_missing_pitch_never_panics_and_stays_unprimed() {
    let mut bank = SampleBank::new("empty".to_string());
    bank.cache(&bank_params(64, 0));
    assert_eq!(bank.get_sample(&bank_params(64, 0)), None);
}

#[test]
fn bank_priming_is_idempotent_and_never_redecodes() {
    let mut bank = SampleBank::new("strings".to_string());
    bank.register(60, vec![1, 2, 3]);
    bank.cache(&bank_params(60, 0));
    // replacing the clip after priming must not change the cached buffer:
    // priming again decodes nothing
    bank.register(60, vec![9, 9, 9]);
    bank.cache(&bank_params(60, 0));
    assert_eq!(bank.get_sample(&bank_params(60, 0)), Some(1));
    assert_eq!(bank.get_sample(&bank_params(60, 1)), Some(2));
}

#[test]
fn bank_is_never_a_modulator() {
    let bank = SampleBank::new("strings".to_string());
    assert_eq!(bank.get_mod_sample(&bank_params(60, 0)), None);
}

fn full_params(duration: i64, sample: i64, midi_note: i64, x_millionths: i64) -> Params {
    let mut p = Params::new();
    p.insert("duration".to_string(), duration * S);
    p.insert("sample".to_string(), sample * S);
    p.insert("time".to_string(), 0);
    p.insert("rate".to_string(), 44_100 * S);
    p.insert("midi_note".to_string(), midi_note * S);
    p.insert("x".to_string(), x_millionths);
    p
}

#[test]
fn instrument_applies_modulator_depth() {
    let carrier = SignalSource::Wave(Waveform::new("1".to_string()).unwrap());
    let half_open = EnvPhase {
        start_time: 0,
        end_time: S,
        start_val: S / 2,
        delta_val: 0,
        ease_fn: EaseFn::Linear,
    };
    let modulator = SignalSource::Env(Envelope::new(vec![half_open]));
    let inst = Instrument {
        name: "lead".to_string(),
        midi_inst: 0,
        midi_percussion: false,
        carrier,
        am: vec![Modulator { modulator, depth: S }],
    };
    // carrier 1.0, modulation sample 1 - 0.5 = 0.5, attenuation 1 - 0.5·1
    assert_eq!(inst.get_sample(&full_params(100, 10, 69, 0)), S / 2);
}

#[test]
fn instrument_missing_modulator_output_is_a_no_op() {
    let carrier = SignalSource::Wave(Waveform::new("1".to_string()).unwrap());
    let modulator = SignalSource::Env(Envelope::new(Vec::new()));
    let inst = Instrument {
        name: "lead".to_string(),
        midi_inst: 0,
        midi_percussion: false,
        carrier,
        am: vec![Modulator { modulator, depth: S }],
    };
    assert_eq!(inst.get_sample(&full_params(100, 10, 69, 0)), S);
}

fn plain_instrument(name: &str, program: u8, percussion: bool) -> Instrument {
    Instrument {
        name: name.to_string(),
        midi_inst: program,
        midi_percussion: percussion,
        carrier: SignalSource::Wave(Waveform::new("1".to_string()).unwrap()),
        am: Vec::new(),
    }
}

#[test]
fn find_instrument_skips_percussion_and_takes_last_match() {
    let instruments = vec![
        plain_instrument("a", 5, false),
        plain_instrument("b", 5, true),
        plain_instrument("c", 5, false),
        plain_instrument("d", 6, false),
    ];
    assert_eq!(find_instrument(&instruments, 5), Some(2));
    assert_eq!(find_instrument(&instruments, 6), Some(3));
    assert_eq!(find_instrument(&instruments, 7), None);
}

#[test]
fn render_missing_instrument_is_fatal() {
    let notes = vec![Note {
        channel: 0,
        program: 3,
        start_time: 0,
        end_time: 10,
        midi_note: 69,
        freq: note_freq(69),
    }];
    let mut instruments = vec![plain_instrument("lead", 0, false)];
    let outputs = vec![JSONOutput { output_file: "out.wav".to_string(), channels: vec![0] }];
    assert_eq!(
        render(&notes, &mut instruments, &outputs),
        Err(RenderError::MissingInstrument)
    );
}

#[test]
fn render_one_note_sine_peaks_full_range_and_is_sign_symmetric() {
    let notes = vec![Note {
        channel: 0,
        program: 0,
        start_time: 0,
        end_time: 4410,
        midi_note: 69,
        freq: note_freq(69),
    }];
    let mut instruments = vec![Instrument {
        name: "lead".to_string(),
        midi_inst: 0,
        midi_percussion: false,
        carrier: SignalSource::Wave(Waveform::new("sin(x)".to_string()).unwrap()),
        am: Vec::new(),
    }];
    let outputs = vec![JSONOutput { output_file: "out.wav".to_string(), channels: vec![0] }];
    let bufs = render(&notes, &mut instruments, &outputs).unwrap();
    assert_eq!(bufs.len(), 1);
    let buf = &bufs[0];
    assert_eq!(buf.len(), 4410);
    let max = *buf.iter().max().unwrap();
    let min = *buf.iter().min().unwrap();
    // normalisation drives the peak to the full 16-bit range
    assert!(max == 32767 || min == -32767);
    // the sine is symmetric in sign around its midline
    assert!(max > 32700, "max was {max}");
    assert!(min < -32700, "min was {min}");
}

#[test]
fn render_silence_does_not_divide_by_zero() {
    let notes = vec![Note {
        channel: 0,
        program: 0,
        start_time: 0,
        end_time: 100,
        midi_note: 69,
        freq: note_freq(69),
    }];
    let mut instruments = vec![Instrument {
        name: "quiet".to_string(),
        midi_inst: 0,
        midi_percussion: false,
        carrier: SignalSource::Wave(Waveform::new("0".to_string()).unwrap()),
        am: Vec::new(),
    }];
    let outputs = vec![JSONOutput { output_file: "out.wav".to_string(), channels: vec![0] }];
    let bufs = render(&notes, &mut instruments, &outputs).unwrap();
    assert!(bufs[0].iter().all(|&v| v == 0));
}

#[test]
fn tempo_and_tick_conversion() {
    // 500000 microseconds per quarter note = 120 beats per minute
    assert_eq!(tempo_from_bytes(0x07, 0xA1, 0x20, 0), 22_050);
    // a zero tempo payload keeps the old tempo
    assert_eq!(tempo_from_bytes(0, 0, 0, 777), 777);
    assert_eq!(event_time(480, 480, 22_050), 22_050);
    assert_eq!(event_time(480, 0, 22_050), 0);
}

#[test]
fn note_frequencies_are_equal_tempered() {
    assert_eq!(note_freq(69), 440 * S);
    assert_eq!(note_freq(81), 880 * S);
    assert_eq!(note_freq(57), 220 * S);
}

#[test]
fn program_changes_latest_wins() {
    let programs = vec![(0u8, 10u8), (1u8, 20u8), (0u8, 30u8)];
    assert_eq!(program_for(&programs, 0), 30);
    assert_eq!(program_for(&programs, 1), 20);
    assert_eq!(program_for(&programs, 9), 0);
}

#[test]
fn note_off_closes_latest_matching_note() {
    let mut playing = vec![
        PlayingNote { channel: 0, program: 1, note: 60, velocity: 90, start_time: 0 },
        PlayingNote { channel: 0, program: 2, note: 60, velocity: 90, start_time: 100 },
    ];
    let closed = close_note(&mut playing, 0, 60, 400).unwrap();
    assert_eq!(closed.program, 2);
    assert_eq!(closed.start_time, 100);
    assert_eq!(closed.end_time, 400);
    assert_eq!(closed.midi_note, 60);
    assert_eq!(playing.len(), 1);
    assert_eq!(playing[0].program, 1);
}

#[test]
fn note_off_without_note_on_is_dropped() {
    let mut playing: Vec<PlayingNote> = Vec::new();
    assert!(close_note(&mut playing, 0, 60, 400).is_none());
    assert!(playing.is_empty());
}

#[test]
fn ease_catalog_names_resolve() {
    assert_eq!(ease_from_name("Linear"), Some(EaseFn::Linear));
    assert_eq!(ease_from_name("BounceInOut"), Some(EaseFn::BounceInOut));
    assert_eq!(ease_from_name("QuintOut"), Some(EaseFn::QuintOut));
    assert_eq!(ease_from_name("Sideways"), None);
    assert_eq!(ease_from_name(""), None);
}

#[test]
fn quad_ease_at_midpoint() {
    let ph = EnvPhase {
        start_time: 0,
        end_time: S,
        start_val: 0,
        delta_val: S,
        ease_fn: EaseFn::QuadIn,
    };
    let env = Envelope::new(vec![ph]);
    // the eased value at the midpoint is 0.25, inverted to 0.75
    assert_eq!(env.get_mod_sample(&env_params(100, 50)), Some(750_000));
}

#[test]
fn expo_and_sine_eases_are_exact_at_their_ends() {
    for ease_fn in [EaseFn::ExpoIn, EaseFn::SineOut] {
        let ph = EnvPhase {
            start_time: 0,
            end_time: S,
            start_val: 0,
            delta_val: S,
            ease_fn,
        };
        let env = Envelope::new(vec![ph]);
        assert_eq!(env.get_mod_sample(&env_params(100, 0)), Some(S), "{ease_fn:?}");
        assert_eq!(env.get_mod_sample(&env_params(100, 100)), Some(0), "{ease_fn:?}");
    }
}

#[test]
fn bank_search_prefers_the_higher_neighbour() {
    let mut bank = SampleBank::new("strings".to_string());
    bank.register(62, vec![100, 100, 100]);
    bank.register(64, vec![10, 20, 30]);
    bank.cache(&bank_params(63, 0));
    // one semitone in both directions: the higher pitch is found first,
    // and the down-shift ratio keeps both leading samples
    assert_eq!(bank.get_sample(&bank_params(63, 0)), Some(10));
    assert_eq!(bank.get_sample(&bank_params(63, 1)), Some(20));
}

#[test]
fn arithmetic_saturates_at_the_amplitude_bound() {
    let big = eval_env_free("9999999999999 * 9999999999999");
    assert_eq!(big, 4_611_686_018_427_387_904);
}

fn eval_env_free(formula: &str) -> i64 {
    let w = Waveform::new(formula.to_string()).expect("formula should parse");
    w.get_sample(&Params::new()).expect("formula should evaluate")
}

#[test]
fn midi_handler_builds_a_note_from_paired_events() {
    let mut h = MidiHandler::new();
    h.header(0, 1, 480);
    // one quarter note at the default 120 beats per minute
    h.midi_event(0, MidiMessage::ProgramChange { ch: 0, program: 7 });
    h.midi_event(0, MidiMessage::NoteOn { ch: 0, note: 69, velocity: 100 });
    h.midi_event(480, MidiMessage::NoteOff { ch: 0, note: 69 });
    let notes = h.into_notes();
    assert_eq!(notes.len(), 1);
    let n = &notes[0];
    assert_eq!(n.channel, 0);
    assert_eq!(n.program, 7);
    assert_eq!(n.start_time, 0);
    assert_eq!(n.end_time, 22_050);
    assert_eq!(n.midi_note, 69);
    assert_eq!(n.freq, 440 * S);
}

#[test]
fn midi_handler_tempo_change_rescales_later_events() {
    let mut h = MidiHandler::new();
    h.header(0, 1, 480);
    // 1000000 microseconds per quarter note = 60 beats per minute
    h.meta_event(0, MetaKind::SetTempo, &vec![0x0F, 0x42, 0x40]);
    h.midi_event(0, MidiMessage::NoteOn { ch: 0, note: 60, velocity: 100 });
    h.midi_event(480, MidiMessage::NoteOff { ch: 0, note: 60 });
    let notes = h.into_notes();
    assert_eq!(notes.len(), 1);
    assert_eq!(notes[0].end_time, 44_100);
}

#[test]
fn midi_handler_end_of_track_resets_time() {
    let mut h = MidiHandler::new();
    h.header(0, 2, 480);
    h.midi_event(960, MidiMessage::NoteOn { ch: 0, note: 60, velocity: 100 });
    h.meta_event(0, MetaKind::EndOfTrack, &Vec::new());
    h.midi_event(480, MidiMessage::NoteOff { ch: 0, note: 60 });
    let notes = h.into_notes();
    // the second track's clock restarted, so the note closes earlier
    // than it opened; the pairing itself still succeeds
    assert_eq!(notes.len(), 1);
    assert_eq!(notes[0].start_time, 44_100);
    assert_eq!(notes[0].end_time, 22_050);
}

#[test]
fn midi_handler_unmatched_note_off_is_dropped() {
    let mut h = MidiHandler::new();
    h.header(0, 1, 480);
    h.midi_event(0, MidiMessage::NoteOff { ch: 0, note: 60 });
    assert!(h.into_notes().is_empty());
}

#[test]
fn envelope_overshoot_is_pinned_to_unit_range() {
    // a back-in curve undershoots early in its window; the modulation
    // sample stays a fraction in the unit range
    let ph = EnvPhase {
        start_time: 0,
        end_time: S,
        start_val: 0,
        delta_val: S,
        ease_fn: EaseFn::BackIn,
    };
    let env = Envelope::new(vec![ph]);
    let v = env.get_mod_sample(&env_params(100, 10)).unwrap();
    assert_eq!(v, S);
    for s in 0..=100 {
        let v = env.get_mod_sample(&env_params(100, s)).unwrap();
        assert!((0..=S).contains(&v), "sample {s} gave {v}");
    }
}
