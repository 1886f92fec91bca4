//! A deterministic software synthesiser: renders a symbolic score (timed
//! notes with pitch, channel and program) into integer PCM audio, driven by
//! declarative instrument definitions.
//!
//! All signal amplitudes are exact fixed-point numbers (see [`fixed`]), so
//! every stage of the pipeline — formula evaluation, envelopes, resampling,
//! mixing and normalisation — is deterministic and fully specified.

pub mod ease;
pub mod envelope;
pub mod error;
pub mod fixed;
pub mod instrument;
pub mod midi;
pub mod sample_bank;
pub mod parse;
pub mod render;
pub mod samplegen;
pub mod text;
pub mod waveform;
