//! The size and rate of the output.

use vstd::prelude::*;
use vstd::string::StringExecFns;
use crate::data::cli::Args;

verus! {

/// The canvas, its magnification in the video, the frame rate, and the
/// length of the window that a frame of a piano roll shows.
#[derive(Clone, Copy, Debug, PartialEq, Eq, Structural)]
pub struct Window {
    /// Columns of the canvas.
    pub width: u32,
    /// Rows of the canvas.
    pub height: u32,
    /// How many pixels of the video one pixel of the canvas becomes, each
    /// way.
    pub scale: u32,
    /// Frames per second.
    pub frame_rate: usize,
    /// Microseconds of a piano roll that one frame shows.
    pub duration_us: u32,
}

/// Where the window's configuration comes from.
#[derive(Debug)]
pub enum WindowSource {
    /// From a preset.
    Preset(Window),
    /// From the file with this path.
    File(String),
}

/// The preset for 16:9 video.
pub open spec fn preset_16x9() -> Window {
    Window { width: 480, height: 270, scale: 4, frame_rate: 60, duration_us: 5_000_000 }
}

/// The preset for 9:16 video.
pub open spec fn preset_9x16() -> Window {
    Window { width: 216, height: 384, scale: 5, frame_rate: 30, duration_us: 3_000_000 }
}

/// The preset for 9:18 video.
pub open spec fn preset_9x18() -> Window {
    Window { width: 216, height: 432, scale: 5, frame_rate: 30, duration_us: 3_000_000 }
}

/// The preset of the given name, if there is one.
pub open spec fn preset_named(name: Seq<char>) -> Option<Window> {
    if name == "16x9"@ {
        Some(preset_16x9())
    } else if name == "9x16"@ {
        Some(preset_9x16())
    } else if name == "9x18"@ {
        Some(preset_9x18())
    } else {
        None
    }
}

impl Window {
    /// Looks a preset up by its name: `16x9`, `9x16` or `9x18`.
    pub fn preset(name: &String) -> (window: Option<Window>)
        ensures
            window == preset_named(name@),
    {
        if *name == String::from_str("16x9") {
            Some(Window { width: 480, height: 270, scale: 4, frame_rate: 60, duration_us: 5_000_000 })
        } else if *name == String::from_str("9x16") {
            Some(Window { width: 216, height: 384, scale: 5, frame_rate: 30, duration_us: 3_000_000 })
        } else if *name == String::from_str("9x18") {
            Some(Window { width: 216, height: 432, scale: 5, frame_rate: 30, duration_us: 3_000_000 })
        } else {
            None
        }
    }

    /// Where the arguments say the window comes from: the preset, if one is
    /// named, else the window file. Nothing if the preset that is named
    /// does not exist.
    pub fn load_from_args(cmd: &Args) -> (source: Option<WindowSource>)
        ensures
            match cmd.window_preset {
                Some(name) => match preset_named(name@) {
                    Some(window) => source == Some(WindowSource::Preset(window)),
                    None => source is None,
                },
                None => source == Some(WindowSource::File(cmd.window)),
            },
    {
        match &cmd.window_preset {
            Some(name) => match Window::preset(name) {
                Some(window) => Some(WindowSource::Preset(window)),
                None => None,
            },
            None => Some(WindowSource::File(cmd.window.clone())),
        }
    }
}

} // verus!
