//! The in-memory form of the instrument-configuration document.  The
//! document itself is decoded by an outside collaborator; these types are
//! what the engine consumes.  Fractional fields of the document (phase
//! times, values and depths) arrive as fixed-point amplitudes.

use vstd::prelude::*;

verus! {

/// The document's metadata block.
pub struct JSONMetadata {
    pub input_file: String,
    pub comments: String,
}

/// A named bank definition: which clip file serves each pitch.
pub struct JSONSampleBank {
    pub name: String,
    pub files: Vec<(u8, String)>,
}

/// A named waveform definition: a formula string.
pub struct JSONWaveform {
    pub name: String,
    pub equation: String,
}

/// A named output bus: a destination and the channels it aggregates.
pub struct JSONOutput {
    pub output_file: String,
    pub channels: Vec<u8>,
}

} // verus!
