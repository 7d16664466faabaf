//! Frame-synchronised rendering of audio waveforms and MIDI piano rolls.
//!
//! The crate turns a stream of decoded samples, or the note events of a MIDI
//! file, into a sequence of fixed-size raster frames. All arithmetic is done
//! on integers: times are microseconds, interpolation is rational.

pub mod arith;
pub mod data;
pub mod display;
