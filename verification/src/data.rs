//! The signal sources and what is drawn from them.

pub mod channel;
pub mod cli;
pub mod image;
pub mod lineup;
pub mod midi;
pub mod midi_file;
pub mod song;
pub mod timeline;
pub mod video;
pub mod waveform;
pub mod window;
