//! One frame of a waveform: where drawing starts, how the samples are
//! stretched to the width of the screen, and how they are painted.

use vstd::prelude::*;
use crate::display::{white, RGB};
use crate::display::draw::{has_shape, pixel, rect};
use crate::display::frame::Frame;

verus! {

/// A fall of at least this much from one sample to the next counts as an
/// edge.
pub const EDGE_THRESHOLD: u8 = 8;

/// The number of leading samples among which an edge is looked for: a
/// fifteenth of the frame's samples.
pub open spec fn search_window(len: nat) -> nat {
    len / 15
}

/// Whether the signal falls by at least the threshold from sample `x` to
/// the next.
pub open spec fn falls_at(raw: Seq<u8>, x: int) -> bool {
    raw[x] - raw[x + 1] >= EDGE_THRESHOLD
}

/// Whether `start` is where a frame's waveform starts: at the first falling
/// edge inside the search window, or at 0 if there is none or the channel
/// does not ask for alignment.
pub open spec fn is_start_sample(raw: Seq<u8>, use_alignment: bool, start: int) -> bool {
    let limit = search_window(raw.len()) as int;
    if use_alignment && exists|x: int| 0 <= x < limit && falls_at(raw, x) {
        &&& 0 <= start < limit
        &&& falls_at(raw, start)
        &&& forall|x: int| 0 <= x < start ==> !falls_at(raw, x)
    } else {
        start == 0
    }
}

/// The start of a frame's waveform: the one index that `is_start_sample`
/// accepts.
pub open spec fn start_sample(raw: Seq<u8>, use_alignment: bool) -> int {
    choose|start: int| is_start_sample(raw, use_alignment, start)
}

/// There is exactly one start sample, and it lies before the end of the
/// search window.
pub proof fn lemma_start_sample(raw: Seq<u8>, use_alignment: bool, start: int)
    requires
        is_start_sample(raw, use_alignment, start),
    ensures
        start_sample(raw, use_alignment) == start,
        0 <= start,
        start < search_window(raw.len()) || start == 0,
{
    let other = start_sample(raw, use_alignment);
    assert(is_start_sample(raw, use_alignment, other));
}

/// Finds the sample at which the frame's waveform starts.
pub fn find_start_sample(raw: &Vec<u8>, use_alignment: bool) -> (start: usize)
    ensures
        is_start_sample(raw@, use_alignment, start as int),
        start as int == start_sample(raw@, use_alignment),
{
    let limit: usize = raw.len() / 15;
    let mut start: usize = 0;
    if use_alignment {
        let mut x: usize = 0;
        while x < limit
            invariant_except_break
                x <= limit,
                start == 0,
                forall|k: int| 0 <= k < x ==> !falls_at(raw@, k),
            invariant
                limit == search_window(raw@.len()),
                use_alignment,
            ensures
                is_start_sample(raw@, use_alignment, start as int),
            decreases limit - x,
        {
            let previous: u8 = raw[x];
            let current: u8 = raw[x + 1];
            if previous >= current && previous - current >= EDGE_THRESHOLD {
                start = x;
                assert(falls_at(raw@, x as int));
                break ;
            }
            x = x + 1;
        }
    }
    proof {
        lemma_start_sample(raw@, use_alignment, start as int);
    }
    start
}

/// The index of the sample to the right of a position whose left
/// neighbour is sample `low`: the next sample, or `low` itself if the
/// position falls on it or no sample follows.
pub open spec fn right_of(len: int, low: int, t: int) -> int {
    if t == 0 || low + 1 >= len {
        low
    } else {
        low + 1
    }
}

/// The level of column `i` of `width`. The column lies at the position
/// `start + i × span / width` among the samples. Its level is interpolated
/// between the samples to the left and right of that position,
/// `(1 − t) × left + t × right` with `t` the position's fractional part,
/// and rounded down. Behind the last sample the last sample stands.
pub open spec fn column_level(raw: Seq<u8>, start: int, span: int, width: int, i: int) -> u8 {
    let low = start + (i * span) / width;
    let t = (i * span) % width;
    (((width - t) * raw[low] + t * raw[right_of(raw.len() as int, low, t)]) / width) as u8
}

/// The levels of the `width` columns, spread evenly over the `span`
/// samples from `start` on.
pub open spec fn resampled(raw: Seq<u8>, start: int, span: int, width: int) -> Seq<u8> {
    Seq::new(width as nat, |i: int| column_level(raw, start, span, width, i))
}

/// Whether the samples that the columns are spread over exist: `span`
/// samples from `start` on, and at least the one at `start`.
pub open spec fn can_resample(len: int, start: int, span: int, width: int) -> bool {
    width > 0 ==> start < len && start + span <= len
}

/// Tells whether the samples that the columns are spread over exist among
/// `len` samples.
pub fn can_resample_from(len: usize, start: usize, span: usize, width: u32) -> (ok: bool)
    ensures
        ok == can_resample(len as int, start as int, span as int, width as int),
{
    width == 0 || (start < len && span <= len - start)
}

/// The left neighbour of a column lies among the samples that the columns
/// are spread over.
pub proof fn lemma_column_inside(span: int, width: int, i: int)
    requires
        0 <= span,
        0 <= i < width,
    ensures
        0 <= (i * span) / width,
        span > 0 ==> (i * span) / width < span,
        span == 0 ==> (i * span) / width == 0,
        0 <= (i * span) % width < width,
{
    let p = i * span;
    assert(0 <= p && (span > 0 ==> p < width * span) && (span == 0 ==> p == 0)) by (nonlinear_arith)
        requires
            0 <= span,
            0 <= i < width,
            p == i * span,
    ;
    vstd::arithmetic::div_mod::lemma_div_pos_is_pos(p, width);
    vstd::arithmetic::div_mod::lemma_mod_bound(p, width);
    if span > 0 {
        vstd::arithmetic::div_mod::lemma_multiply_divide_lt(p, width, span);
    }
}

/// With as many columns as samples every column falls on a sample: the
/// levels are the samples themselves.
pub proof fn lemma_resample_identity(raw: Seq<u8>, start: int, width: int)
    requires
        0 <= start,
        0 <= width,
        start + width <= raw.len(),
    ensures
        resampled(raw, start, width, width) == raw.subrange(start, start + width),
{
    let out = resampled(raw, start, width, width);
    assert forall|i: int| 0 <= i < width implies out[i] == raw[start + i] by {
        vstd::arithmetic::div_mod::lemma_div_multiples_vanish(i, width);
        vstd::arithmetic::div_mod::lemma_mod_multiples_basic(i, width);
        assert(i * width == width * i) by (nonlinear_arith);
        assert((i * width) / width == i);
        assert((i * width) % width == 0);
        let v = raw[start + i] as int;
        vstd::arithmetic::div_mod::lemma_div_multiples_vanish(v, width);
        assert((width - 0) * v + 0 * v == width * v) by (nonlinear_arith);
        assert(((width - 0) * v + 0 * v) / width == v);
        assert(out[i] == column_level(raw, start, width, width, i));
    }
    assert(out =~= raw.subrange(start, start + width));
}

/// Resampling a whole frame of `n` samples to `n` columns without an offset
/// gives the frame back.
pub proof fn lemma_resample_idempotent(raw: Seq<u8>)
    ensures
        resampled(raw, 0, raw.len() as int, raw.len() as int) == raw,
{
    lemma_resample_identity(raw, 0, raw.len() as int);
    assert(raw.subrange(0, raw.len() as int) =~= raw);
}

/// The levels that are drawn for a frame: its samples from the start
/// sample on, spread over the columns.
pub open spec fn drawn_levels(raw: Seq<u8>, use_alignment: bool, width: int) -> Seq<u8> {
    let start = start_sample(raw, use_alignment);
    resampled(raw, start, raw.len() - start, width)
}

/// A frame that is drawn without a start offset into as many columns as
/// it has samples is drawn as it is: sample by sample.
pub proof fn lemma_drawn_unchanged(raw: Seq<u8>, use_alignment: bool)
    requires
        !use_alignment || start_sample(raw, use_alignment) == 0,
    ensures
        start_sample(raw, use_alignment) == 0,
        drawn_levels(raw, use_alignment, raw.len() as int) == raw,
{
    if !use_alignment {
        lemma_start_sample(raw, use_alignment, 0);
    }
    lemma_resample_idempotent(raw);
}

/// Stretches or shrinks `span` samples, from `start` on, to `width`
/// columns by linear interpolation.
pub fn resample(raw: &Vec<u8>, start: usize, span: usize, width: u32) -> (levels: Vec<u8>)
    requires
        can_resample(raw@.len() as int, start as int, span as int, width as int),
    ensures
        levels@ == resampled(raw@, start as int, span as int, width as int),
{
    let mut levels: Vec<u8> = Vec::with_capacity(width as usize);
    let len: usize = raw.len();
    let mut index: u32 = 0;
    while index < width
        invariant
            index <= width,
            len == raw@.len(),
            can_resample(raw@.len() as int, start as int, span as int, width as int),
            levels@.len() == index,
            forall|i: int|
                0 <= i < index ==> levels@[i] == column_level(
                    raw@,
                    start as int,
                    span as int,
                    width as int,
                    i,
                ),
        decreases width - index,
    {
        proof {
            lemma_column_inside(span as int, width as int, index as int);
        }
        assert(index * span <= u32::MAX * usize::MAX) by (nonlinear_arith)
            requires
                0 <= index <= u32::MAX,
                0 <= span <= usize::MAX,
        ;
        let position: u128 = (index as u128) * (span as u128);
        assert(position == index * span);
        let low: usize = start + (position / (width as u128)) as usize;
        let t: u64 = (position % (width as u128)) as u64;
        let high: usize = if t == 0 || low + 1 >= len {
            low
        } else {
            low + 1
        };
        let left: u64 = raw[low] as u64;
        let right: u64 = raw[high] as u64;
        let w: u64 = width as u64;
        assert((w - t) * left + t * right <= w * 255) by (nonlinear_arith)
            requires
                0 <= left <= 255,
                0 <= right <= 255,
                0 <= t < w,
        ;
        assert(w * 255 <= u32::MAX * 255) by (nonlinear_arith)
            requires
                w <= u32::MAX,
        ;
        let value: u64 = ((w - t) * left + t * right) / w;
        assert(value <= 255) by (nonlinear_arith)
            requires
                value == ((w - t) * left + t * right) / (w as int),
                (w - t) * left + t * right <= w * 255,
                w > 0,
        ;
        levels.push(value as u8);
        index = index + 1;
    }
    assert(levels@ =~= resampled(raw@, start as int, span as int, width as int));
    levels
}

/// The row, counted from the top of a cell `height` rows high, on which a
/// level is drawn.
pub open spec fn level_row(level: u8, height: int) -> int {
    level * height / 256
}

/// Whether the waveform covers row `r` of column `c` of its cell: each
/// column but the last is filled from its own level's row to that of the
/// column to its right, both included.
pub open spec fn wave_covers(levels: Seq<u8>, height: int, c: int, r: int) -> bool {
    &&& 0 <= c < levels.len() - 1
    &&& {
        let a = level_row(levels[c], height);
        let b = level_row(levels[c + 1], height);
        (a <= r <= b) || (b <= r <= a)
    }
}

/// `image` with the waveform painted in white into the cell whose corner
/// is `(x, y)` and which is `height` rows high.
pub open spec fn wave_painted(image: Seq<Seq<RGB>>, x: int, y: int, height: int, levels: Seq<u8>) -> Seq<
    Seq<RGB>,
> {
    Seq::new(
        image.len(),
        |py: int|
            Seq::new(
                image[py].len(),
                |px: int|
                    if wave_covers(levels, height, px - x, py - y) {
                        white()
                    } else {
                        image[py][px]
                    },
            ),
    )
}

/// The row of a level lies inside the cell.
pub proof fn lemma_level_row(level: u8, height: int)
    requires
        0 <= height,
    ensures
        0 <= level_row(level, height),
        height > 0 ==> level_row(level, height) < height,
        height == 0 ==> level_row(level, height) == 0,
{
    assert(0 <= level * height <= 255 * height) by (nonlinear_arith)
        requires
            0 <= level <= 255,
            0 <= height,
    ;
}

/// Paints the waveform of one frame into a cell: column by column a white
/// line from each level to the next.
pub fn draw_waveform(frame: &mut Frame, x: u32, y: u32, height: u32, levels: &Vec<u8>)
    requires
        old(frame).wf(),
        levels@.len() >= 2 ==> {
            &&& height > 0
            &&& x + levels@.len() - 1 <= old(frame).cols()
            &&& y + height <= old(frame).rows()
        },
    ensures
        final(frame).wf(),
        final(frame).cols() == old(frame).cols(),
        final(frame).rows() == old(frame).rows(),
        final(frame)@ == wave_painted(old(frame)@, x as int, y as int, height as int, levels@),
{
    proof {
        frame.lemma_shape();
    }
    let ghost before = frame@;
    let ghost cols = frame.cols();
    let ghost rows = frame.rows();
    let n: usize = levels.len();
    let mut column: usize = 1;
    while column < n
        invariant
            frame.wf(),
            frame.cols() == cols,
            frame.rows() == rows,
            has_shape(before, cols, rows),
            has_shape(frame@, cols, rows),
            n == levels@.len(),
            1 <= column,
            column <= n || n < 2,
            n >= 2 ==> height > 0 && x + n - 1 <= cols && y + height <= rows,
            cols <= u32::MAX,
            rows <= u32::MAX,
            forall|px: int, py: int|
                0 <= px < cols && 0 <= py < rows ==> #[trigger] frame@[py][px] == if wave_covers(
                    levels@,
                    height as int,
                    px - x,
                    py - y,
                ) && px - x < column - 1 {
                    white()
                } else {
                    before[py][px]
                },
        decreases n - column,
    {
        let x_position: u32 = x + (column as u32);
        proof {
            lemma_level_row(levels@[column - 1], height as int);
            lemma_level_row(levels@[column as int], height as int);
        }
        let mut y_previous: u32 = ((levels[column - 1] as u64) * (height as u64) / 256) as u32;
        let mut y_current: u32 = ((levels[column] as u64) * (height as u64) / 256) as u32;
        assert(y_previous == level_row(levels@[column - 1], height as int));
        assert(y_current == level_row(levels@[column as int], height as int));
        if y_previous > y_current {
            let swap: u32 = y_current;
            y_current = y_previous;
            y_previous = swap;
        }
        rect(frame, x_position - 1, y + y_previous, x_position, y + y_current, [255, 255, 255]);
        proof {
            frame.lemma_shape();
        }
        pixel(frame, x_position - 1, y + y_current, [255, 255, 255]);
        column = column + 1;
    }
    assert(frame@ =~~= wave_painted(before, x as int, y as int, height as int, levels@));
}

} // verus!
