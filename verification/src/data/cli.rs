//! What the command line says.

use vstd::prelude::*;
use vstd::string::StringExecFns;

verus! {

/// The arguments of a run.
#[derive(Debug)]
pub struct Args {
    /// The configuration of a song of audio tracks; empty if none is named.
    pub song: String,
    /// The configuration of a MIDI song; empty if none is named.
    pub midi: String,
    /// The configuration of the output's size and rate.
    pub window: String,
    /// The name of a preset that stands in for `window`.
    pub window_preset: Option<String>,
}

/// What a run renders, and the path of its configuration.
#[derive(Debug)]
pub enum RenderMode {
    /// The waveforms of audio tracks.
    Song(String),
    /// The piano roll of a MIDI file.
    Midi(String),
}

impl Args {
    /// Where the song's configuration is looked for when the command line
    /// names neither a song nor a MIDI file.
    pub open spec fn default_song() -> Seq<char> {
        "./song.json"@
    }

    /// What the run renders: the song if one is named, or if nothing is
    /// named at all; else the MIDI file.
    pub fn render_mode(&self) -> (mode: RenderMode)
        ensures
            match mode {
                RenderMode::Song(path) => if self.song@.len() > 0 {
                    path == self.song
                } else {
                    self.midi@.len() == 0 && path@ == Args::default_song()
                },
                RenderMode::Midi(path) => self.song@.len() == 0 && self.midi@.len() > 0 && path
                    == self.midi,
            },
    {
        if !self.song.as_str().is_empty() {
            RenderMode::Song(self.song.clone())
        } else if !self.midi.as_str().is_empty() {
            RenderMode::Midi(self.midi.clone())
        } else {
            RenderMode::Song(String::from_str("./song.json"))
        }
    }
}

} // verus!
