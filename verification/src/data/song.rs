//! A song of several audio channels, and the frame that shows one moment of
//! all of them: a grid of cells, one waveform in each.

use vstd::prelude::*;
use crate::data::channel::{Channel, TrackInfo};
use crate::data::video::{Encoding, VideoFrame};
use crate::data::waveform::{
    draw_waveform,
    drawn_levels,
    find_start_sample,
    lemma_start_sample,
    resample,
    wave_painted,
};
use crate::display::{black, white, RGB};
use crate::display::draw::{
    gradient_painted,
    printable_glyphs,
    rect,
    rect_gradient,
    rect_painted,
    text,
    text_fits,
    text_fits_in,
    text_painted,
};
use crate::display::frame::Frame;

verus! {

/// The audio channels of a song, in the order in which they are shown.
#[derive(Debug)]
pub struct Song {
    pub channels: Vec<Channel>,
    /// Where the video is written.
    pub video_file_out: String,
    /// Whether the cells get a gradient for a background, or a flat colour.
    pub use_gradients: bool,
}

/// A cell of the grid: its corner and its size, in pixels.
pub struct Cell {
    pub x: int,
    pub y: int,
    pub width: int,
    pub height: int,
}

/// The columns of the grid: two on a canvas that is at least as wide as it
/// is high, if there are two channels to show, and one otherwise.
pub open spec fn grid_cols(width: int, height: int, n: int) -> int {
    if width >= height {
        if n < 2 {
            n
        } else {
            2
        }
    } else {
        1
    }
}

/// The rows of a grid of `cols` columns that holds `n` cells.
pub open spec fn grid_rows(n: int, cols: int) -> int {
    (n + cols - 1) / cols
}

/// The cell of channel `i` of `n`. The canvas is divided evenly; pixels
/// that are left over stay unused at the right and at the bottom.
pub open spec fn cell(width: int, height: int, n: int, i: int) -> Cell {
    let cols = grid_cols(width, height, n);
    let rows = grid_rows(n, cols);
    Cell {
        x: (width / cols) * (i % cols),
        y: (height / rows) * (i / cols),
        width: width / cols,
        height: height / rows,
    }
}

/// Whether a canvas has room for a grid of `n` cells of at least one pixel.
pub open spec fn grid_fits(width: int, height: int, n: int) -> bool {
    &&& n >= 1
    &&& grid_cols(width, height, n) <= width
    &&& grid_rows(n, grid_cols(width, height, n)) <= height
}

/// Every cell of a grid that fits lies inside the canvas and is not empty.
pub proof fn lemma_cell_inside(width: int, height: int, n: int, i: int)
    requires
        grid_fits(width, height, n),
        0 <= i < n,
    ensures
        ({
            let c = cell(width, height, n, i);
            &&& 0 <= c.x
            &&& 0 <= c.y
            &&& 1 <= c.width
            &&& 1 <= c.height
            &&& c.x + c.width <= width
            &&& c.y + c.height <= height
        }),
{
    let cols = grid_cols(width, height, n);
    let rows = grid_rows(n, cols);
    let w = width / cols;
    let h = height / rows;
    let col = i % cols;
    let row = i / cols;
    assert(1 <= cols <= 2);
    assert(rows >= 1 && row < rows) by {
        vstd::arithmetic::div_mod::lemma_div_is_ordered(i, n - 1, cols);
        vstd::arithmetic::div_mod::lemma_div_plus_one(n - 1, cols);
        vstd::arithmetic::div_mod::lemma_div_pos_is_pos(n - 1, cols);
    }
    assert(0 <= row) by {
        vstd::arithmetic::div_mod::lemma_div_pos_is_pos(i, cols);
    }
    assert(w >= 1 && w * cols <= width) by {
        vstd::arithmetic::div_mod::lemma_fundamental_div_mod(width, cols);
        vstd::arithmetic::div_mod::lemma_div_is_ordered(cols, width, cols);
        vstd::arithmetic::div_mod::lemma_div_basics(cols);
        assert(cols * w == w * cols) by (nonlinear_arith);
    }
    assert(h >= 1 && h * rows <= height) by {
        vstd::arithmetic::div_mod::lemma_fundamental_div_mod(height, rows);
        vstd::arithmetic::div_mod::lemma_div_is_ordered(rows, height, rows);
        vstd::arithmetic::div_mod::lemma_div_basics(rows);
        assert(rows * h == h * rows) by (nonlinear_arith);
    }
    assert(0 <= w * col && w * col + w <= w * cols) by (nonlinear_arith)
        requires
            0 <= col < cols,
            w >= 1,
    ;
    assert(0 <= h * row && h * row + h <= h * rows) by (nonlinear_arith)
        requires
            0 <= row < rows,
            h >= 1,
    ;
}

/// `image` with one channel drawn into its cell: a black line in the
/// cell's last row, the background above it, the channel's name in white
/// four pixels from the corner, and the waveform of the frame's samples
/// from the start sample on, spread over the cell's columns. The cell's
/// last column is left as it is.
pub open spec fn channel_painted(
    image: Seq<Seq<RGB>>,
    c: Cell,
    channel: Channel,
    use_gradients: bool,
    raw: Seq<u8>,
) -> Seq<Seq<RGB>> {
    let lined = rect_painted(image, c.x, c.y + c.height - 1, c.x + c.width - 1, c.y + c.height, black());
    let filled = if use_gradients {
        gradient_painted(lined, c.x, c.y, c.x + c.width - 1, c.y + c.height - 1, channel.colour)
    } else {
        rect_painted(lined, c.x, c.y, c.x + c.width - 1, c.y + c.height - 1, channel.colour)
    };
    let named = text_painted(filled, c.x + 4, c.y + 4, printable_glyphs(channel.name@), white());
    wave_painted(named, c.x, c.y, c.height, drawn_levels(raw, channel.use_alignment, c.width))
}

/// Whether a channel can be drawn into the cell: the cell lies inside the
/// canvas, the name fits on the canvas, and the frame holds a sample.
pub open spec fn channel_fits(cols: nat, rows: nat, c: Cell, channel: Channel, raw: Seq<u8>) -> bool {
    &&& 0 <= c.x
    &&& 0 <= c.y
    &&& 1 <= c.width
    &&& 1 <= c.height
    &&& c.x + c.width <= cols
    &&& c.y + c.height <= rows
    &&& c.x + 4 <= u32::MAX
    &&& c.y + 4 <= u32::MAX
    &&& text_fits(cols, rows, c.x + 4, c.y + 4, printable_glyphs(channel.name@))
    &&& raw.len() > 0
}

/// `image` with the first `upto` channels drawn, each into its cell.
pub open spec fn song_painted(
    image: Seq<Seq<RGB>>,
    width: int,
    height: int,
    song: Song,
    samples: Seq<Vec<u8>>,
    upto: int,
) -> Seq<Seq<RGB>>
    decreases upto,
{
    if upto <= 0 {
        image
    } else {
        channel_painted(
            song_painted(image, width, height, song, samples, upto - 1),
            cell(width, height, song.channels@.len() as int, upto - 1),
            song.channels@[upto - 1],
            song.use_gradients,
            samples[upto - 1]@,
        )
    }
}

/// Draws one channel into its cell. See [`channel_painted`].
pub fn draw_channel(
    frame: &mut Frame,
    x: u32,
    y: u32,
    width: u32,
    height: u32,
    channel: &Channel,
    use_gradients: bool,
    raw: &Vec<u8>,
)
    requires
        old(frame).wf(),
        channel_fits(
            old(frame).cols(),
            old(frame).rows(),
            (Cell { x: x as int, y: y as int, width: width as int, height: height as int }),
            *channel,
            raw@,
        ),
    ensures
        final(frame).wf(),
        final(frame).cols() == old(frame).cols(),
        final(frame).rows() == old(frame).rows(),
        final(frame)@ == channel_painted(
            old(frame)@,
            (Cell { x: x as int, y: y as int, width: width as int, height: height as int }),
            *channel,
            use_gradients,
            raw@,
        ),
{
    proof {
        frame.lemma_shape();
    }
    rect(frame, x, y + height - 1, x + width - 1, y + height, [0, 0, 0]);
    if use_gradients {
        rect_gradient(frame, x, y, x + width - 1, y + height - 1, channel.colour);
    } else {
        rect(frame, x, y, x + width - 1, y + height - 1, channel.colour);
    }
    text(frame, x + 4, y + 4, channel.name.as_str());
    let start: usize = find_start_sample(raw, channel.use_alignment);
    proof {
        lemma_start_sample(raw@, channel.use_alignment, start as int);
    }
    let levels: Vec<u8> = resample(raw, start, raw.len() - start, width);
    draw_waveform(frame, x, y, height, &levels);
}

impl Song {
    /// Whether the song's next frame can be drawn on a canvas: the grid
    /// fits, there is one frame of samples for each channel, and each
    /// channel fits into its cell.
    pub open spec fn can_draw(&self, cols: nat, rows: nat, samples: Seq<Vec<u8>>) -> bool {
        &&& grid_fits(cols as int, rows as int, self.channels@.len() as int)
        &&& samples.len() == self.channels@.len()
        &&& forall|i: int|
            0 <= i < self.channels@.len() ==> channel_fits(
                cols,
                rows,
                cell(cols as int, rows as int, self.channels@.len() as int, i),
                #[trigger] self.channels@[i],
                samples[i]@,
            )
    }

    /// Tells whether the song's next frame can be drawn on the frame.
    pub fn fits(&self, frame: &Frame, samples: &Vec<Vec<u8>>) -> (ok: bool)
        requires
            frame.wf(),
        ensures
            ok == self.can_draw(frame.cols(), frame.rows(), samples@),
    {
        proof {
            frame.lemma_shape();
        }
        let screen_width: u32 = frame.width();
        let screen_height: u32 = frame.height();
        let n: usize = self.channels.len();
        if n == 0 || samples.len() != n {
            return false;
        }
        let cols: usize = if screen_width >= screen_height {
            if n < 2 {
                n
            } else {
                2
            }
        } else {
            1
        };
        let rows: usize = (n - 1) / cols + 1;
        proof {
            vstd::arithmetic::div_mod::lemma_div_plus_one(n - 1, cols as int);
        }
        if cols as u64 > screen_width as u64 || rows as u64 > screen_height as u64 {
            return false;
        }
        let channel_height: u32 = screen_height / (rows as u32);
        let channel_width: u32 = screen_width / (cols as u32);
        let mut i: usize = 0;
        while i < n
            invariant
                i <= n,
                n == self.channels@.len(),
                n == samples@.len(),
                frame.wf(),
                frame.cols() == screen_width,
                frame.rows() == screen_height,
                grid_fits(screen_width as int, screen_height as int, n as int),
                cols == grid_cols(screen_width as int, screen_height as int, n as int),
                rows == grid_rows(n as int, cols as int),
                channel_height == screen_height / (rows as u32),
                channel_width == screen_width / (cols as u32),
                forall|k: int|
                    0 <= k < i ==> channel_fits(
                        screen_width as nat,
                        screen_height as nat,
                        cell(screen_width as int, screen_height as int, n as int, k),
                        #[trigger] self.channels@[k],
                        samples@[k]@,
                    ),
            decreases n - i,
        {
            let row: usize = i / cols;
            let col: usize = i % cols;
            proof {
                lemma_cell_inside(screen_width as int, screen_height as int, n as int, i as int);
            }
            let y_offset: u32 = channel_height * (row as u32);
            let x_offset: u32 = channel_width * (col as u32);
            let channel = &self.channels[i];
            let raw = &samples[i];
            let ok: bool = x_offset <= u32::MAX - 4 && y_offset <= u32::MAX - 4 && text_fits_in(
                frame,
                x_offset + 4,
                y_offset + 4,
                channel.name.as_str(),
            ) && raw.len() > 0;
            if !ok {
                proof {
                    let c = cell(screen_width as int, screen_height as int, n as int, i as int);
                    assert(!channel_fits(
                        screen_width as nat,
                        screen_height as nat,
                        c,
                        self.channels@[i as int],
                        samples@[i as int]@,
                    ));
                }
                return false;
            }
            i = i + 1;
        }
        true
    }

    /// Attaches to each channel the track found in its file, in order.
    pub fn load_tracks_into_memory(&mut self, tracks: &Vec<TrackInfo>)
        requires
            tracks@.len() == old(self).channels@.len(),
        ensures
            final(self).video_file_out == old(self).video_file_out,
            final(self).use_gradients == old(self).use_gradients,
            final(self).channels@.len() == old(self).channels@.len(),
            forall|i: int|
                0 <= i < tracks@.len() ==> {
                    let before = old(self).channels@[i];
                    let after = #[trigger] final(self).channels@[i];
                    &&& after.wf()
                    &&& after.name == before.name
                    &&& after.file == before.file
                    &&& after.colour == before.colour
                    &&& after.use_alignment == before.use_alignment
                    &&& after.track == Some(tracks@[i])
                    &&& after.buffer@.len() == 0
                    &&& after.play_time_samples == 0
                    &&& after.play_time_samples_total == tracks@[i].n_frames
                    &&& !after.ended
                },
    {
        let n: usize = self.channels.len();
        let mut i: usize = 0;
        while i < n
            invariant
                i <= n,
                n == tracks@.len(),
                self.channels@.len() == n,
                self.video_file_out == old(self).video_file_out,
                self.use_gradients == old(self).use_gradients,
                forall|k: int| i <= k < n ==> self.channels@[k] == old(self).channels@[k],
                forall|k: int|
                    0 <= k < i ==> {
                        let before = old(self).channels@[k];
                        let after = #[trigger] self.channels@[k];
                        &&& after.wf()
                        &&& after.name == before.name
                        &&& after.file == before.file
                        &&& after.colour == before.colour
                        &&& after.use_alignment == before.use_alignment
                        &&& after.track == Some(tracks@[k])
                        &&& after.buffer@.len() == 0
                        &&& after.play_time_samples == 0
                        &&& after.play_time_samples_total == tracks@[k].n_frames
                        &&& !after.ended
                    },
            decreases n - i,
        {
            let track: TrackInfo = tracks[i];
            self.channels[i].load_track_into_memory(track);
            i = i + 1;
        }
    }

    /// Draws the frame that shows the given samples, one frame's worth for
    /// each channel, and makes the next frame of the video from it: channel
    /// `i` goes into cell `i` of the grid, row by row.
    pub fn draw(&self, frame: &mut Frame, encoding: &mut Encoding, samples: &Vec<Vec<u8>>) -> (out:
        VideoFrame)
        requires
            old(frame).wf(),
            self.can_draw(old(frame).cols(), old(frame).rows(), samples@),
            old(encoding).takes(old(frame).cols(), old(frame).rows()),
        ensures
            final(encoding).rendered(*old(encoding), final(frame)@, out),
            final(frame).wf(),
            final(frame).cols() == old(frame).cols(),
            final(frame).rows() == old(frame).rows(),
            final(frame)@ == song_painted(
                old(frame)@,
                old(frame).cols() as int,
                old(frame).rows() as int,
                *self,
                samples@,
                self.channels@.len() as int,
            ),
    {
        proof {
            frame.lemma_shape();
        }
        let ghost before = frame@;
        let screen_width: u32 = frame.width();
        let screen_height: u32 = frame.height();
        let n: usize = self.channels.len();
        let cols: usize = if screen_width >= screen_height {
            if n < 2 {
                n
            } else {
                2
            }
        } else {
            1
        };
        let rows: usize = (n - 1) / cols + 1;
        proof {
            vstd::arithmetic::div_mod::lemma_div_plus_one(n - 1, cols as int);
            lemma_cell_inside(screen_width as int, screen_height as int, n as int, 0);
        }
        let channel_height: u32 = screen_height / (rows as u32);
        let channel_width: u32 = screen_width / (cols as u32);
        let mut i: usize = 0;
        while i < n
            invariant
                i <= n,
                n == self.channels@.len(),
                frame.wf(),
                frame.cols() == screen_width,
                frame.rows() == screen_height,
                self.can_draw(screen_width as nat, screen_height as nat, samples@),
                cols == grid_cols(screen_width as int, screen_height as int, n as int),
                rows == grid_rows(n as int, cols as int),
                channel_height == screen_height / (rows as u32),
                channel_width == screen_width / (cols as u32),
                1 <= cols <= 2,
                1 <= rows <= screen_height,
                frame@ == song_painted(
                    before,
                    screen_width as int,
                    screen_height as int,
                    *self,
                    samples@,
                    i as int,
                ),
            decreases n - i,
        {
            let row: usize = i / cols;
            let col: usize = i % cols;
            proof {
                lemma_cell_inside(screen_width as int, screen_height as int, n as int, i as int);
                let c = cell(screen_width as int, screen_height as int, n as int, i as int);
                assert(c.width == channel_width);
                assert(c.height == channel_height);
                assert(c.x == channel_width * col);
                assert(c.y == channel_height * row);
                assert(channel_fits(
                    screen_width as nat,
                    screen_height as nat,
                    c,
                    self.channels@[i as int],
                    samples@[i as int]@,
                ));
            }
            let y_offset: u32 = channel_height * (row as u32);
            let x_offset: u32 = channel_width * (col as u32);
            draw_channel(
                frame,
                x_offset,
                y_offset,
                channel_width,
                channel_height,
                &self.channels[i],
                self.use_gradients,
                &samples[i],
            );
            i = i + 1;
        }
        encoding.render_frame(frame)
    }
}

} // verus!
