//! The arithmetic of the scrolling piano roll: which ticks a frame shows,
//! and where on the screen a note falls.
//!
//! Time is exact. The playhead of frame `k` stands at
//! `k / frame_rate − window / 2` seconds; it is kept as the numerator of a
//! fraction of microseconds with the denominator `2 × frame_rate`. Where the
//! quotient of a division does not exist, because a song has no tempo or a
//! window no ticks, the result is one of the limits `Low` and `High`.

use vstd::prelude::*;
use crate::arith::{floor_div, lemma_floor_div_negative, lemma_trunc_div_sign, trunc_div};

verus! {

/// Microseconds in a second.
pub const MICROS: u64 = 1_000_000;

/// Notes that start at most this many ticks before the middle of the
/// window are emphasised.
pub const EMPHASIS_TICKS: u32 = 20;

/// Where the window of frame `frames` starts: the numerator of the
/// playhead, in microseconds over `2 × frame_rate`.
pub open spec fn window_start(frames: int, frame_rate: int, window_us: int) -> int {
    2 * frames * MICROS - window_us * frame_rate
}

/// Where the window of frame `frames` ends: one window's length after its
/// start.
pub open spec fn window_end(frames: int, frame_rate: int, window_us: int) -> int {
    2 * frames * MICROS + window_us * frame_rate
}

/// The tick at a moment, as far as 32 signed bits hold it. The moment is
/// `moment / (2 × frame_rate)` microseconds, a tick lasts `tempo / ppq`
/// microseconds. The tick is rounded toward zero. A song without a tempo
/// has ticks of no length: every moment but zero is then endlessly far
/// away.
pub open spec fn tick_unclamped(moment: int, frame_rate: int, ppq: int, tempo: int) -> int {
    let n = moment * ppq;
    let d = 2 * frame_rate * tempo;
    if d == 0 {
        if n < 0 {
            i32::MIN as int
        } else if n == 0 {
            0
        } else {
            i32::MAX as int
        }
    } else {
        let t = trunc_div(n, d);
        if t < i32::MIN {
            i32::MIN as int
        } else if t > i32::MAX {
            i32::MAX as int
        } else {
            t
        }
    }
}

/// The tick at a moment, kept inside the song: not before tick 0 and not
/// after `duration_ticks`.
pub open spec fn tick_clamped(moment: int, frame_rate: int, ppq: int, tempo: int, duration_ticks: int) -> int {
    let n = moment * ppq;
    let d = 2 * frame_rate * tempo;
    if d == 0 {
        if n > 0 {
            duration_ticks
        } else {
            0
        }
    } else {
        let t = trunc_div(n, d);
        if t < 0 {
            0
        } else if t > duration_ticks {
            duration_ticks
        } else {
            t
        }
    }
}

/// The ticks that a frame shows.
pub struct TickWindow {
    /// The first tick shown, inside the song.
    pub start: u32,
    /// The last tick shown, inside the song.
    pub end: u32,
    /// The tick at the left edge of the screen, which may lie outside the
    /// song.
    pub start_unclamped: i32,
    /// The tick at the right edge of the screen, which may lie outside the
    /// song.
    pub end_unclamped: i32,
}

/// The ticks that frame `frames` shows.
pub open spec fn tick_window(
    frames: u64,
    frame_rate: u32,
    window_us: u32,
    ppq: u16,
    tempo: u32,
    duration_ticks: u32,
) -> TickWindow {
    let from = window_start(frames as int, frame_rate as int, window_us as int);
    let to = window_end(frames as int, frame_rate as int, window_us as int);
    TickWindow {
        start: tick_clamped(from, frame_rate as int, ppq as int, tempo as int, duration_ticks as int) as u32,
        end: tick_clamped(to, frame_rate as int, ppq as int, tempo as int, duration_ticks as int) as u32,
        start_unclamped: tick_unclamped(from, frame_rate as int, ppq as int, tempo as int) as i32,
        end_unclamped: tick_unclamped(to, frame_rate as int, ppq as int, tempo as int) as i32,
    }
}

/// The ticks at one moment: clamped to the song, and unclamped.
fn ticks_at(moment: i128, frame_rate: u32, ppq: u16, tempo: u32, duration_ticks: u32) -> (ticks: (u32, i32))
    requires
        -0x40_0000_0000_0000_0000_0000 <= moment <= 0x40_0000_0000_0000_0000_0000,
    ensures
        ticks.0 == tick_clamped(moment as int, frame_rate as int, ppq as int, tempo as int, duration_ticks as int),
        ticks.1 == tick_unclamped(moment as int, frame_rate as int, ppq as int, tempo as int),
{
    assert(-0x40_0000_0000_0000_0000_0000 * 0x1_0000 <= moment * ppq <= 0x40_0000_0000_0000_0000_0000
        * 0x1_0000) by (nonlinear_arith)
        requires
            -0x40_0000_0000_0000_0000_0000 <= moment <= 0x40_0000_0000_0000_0000_0000,
            0 <= ppq < 0x1_0000,
    ;
    assert(0 <= 2 * frame_rate * tempo <= 2 * 0x1_0000_0000 * 0x1_0000_0000) by (nonlinear_arith)
        requires
            0 <= frame_rate < 0x1_0000_0000,
            0 <= tempo < 0x1_0000_0000,
    ;
    let n: i128 = moment * (ppq as i128);
    let d: u128 = 2 * (frame_rate as u128) * (tempo as u128);
    if d == 0 {
        if n < 0 {
            (0, i32::MIN)
        } else if n == 0 {
            (0, 0)
        } else {
            (duration_ticks, i32::MAX)
        }
    } else {
        proof {
            lemma_trunc_div_sign(n as int, d as int);
        }
        if n >= 0 {
            let q: u128 = (n as u128) / d;
            let clamped: u32 = if q > duration_ticks as u128 {
                duration_ticks
            } else {
                q as u32
            };
            let unclamped: i32 = if q > 0x7fff_ffff {
                i32::MAX
            } else {
                q as i32
            };
            (clamped, unclamped)
        } else {
            let q: u128 = ((-n) as u128) / d;
            let unclamped: i32 = if q >= 0x8000_0000 {
                i32::MIN
            } else {
                -(q as i32)
            };
            (0, unclamped)
        }
    }
}

/// Computes the ticks that frame `frames` shows.
pub fn get_tick_window(
    frames: u64,
    frame_rate: u32,
    window_us: u32,
    ppq: u16,
    tempo: u32,
    duration_ticks: u32,
) -> (window: TickWindow)
    ensures
        window == tick_window(frames, frame_rate, window_us, ppq, tempo, duration_ticks),
{
    let elapsed: i128 = (frames as i128) * 2_000_000;
    assert(elapsed == 2 * frames * MICROS) by (nonlinear_arith)
        requires
            elapsed == frames * 2_000_000,
            MICROS == 1_000_000,
    ;
    assert(0 <= window_us * frame_rate <= 0x1_0000_0000 * 0x1_0000_0000) by (nonlinear_arith)
        requires
            0 <= frame_rate < 0x1_0000_0000,
            0 <= window_us < 0x1_0000_0000,
    ;
    let half: i128 = (window_us as i128) * (frame_rate as i128);
    let from = ticks_at(elapsed - half, frame_rate, ppq, tempo, duration_ticks);
    let to = ticks_at(elapsed + half, frame_rate, ppq, tempo, duration_ticks);
    TickWindow { start: from.0, end: to.0, start_unclamped: from.1, end_unclamped: to.1 }
}

/// Where interpolation puts a value: on a pixel, or beyond every pixel on
/// one side.
#[derive(Clone, Copy, Debug, PartialEq, Eq, Structural)]
pub enum Position {
    /// On this pixel.
    At(i128),
    /// Before every pixel.
    Low,
    /// After every pixel.
    High,
}

/// Maps `value` from the range `v_min..v_max` to the range `m_min..m_max`
/// and rounds down:
/// `m_min + (value − v_min) × (m_max − m_min) / (v_max − v_min)`.
/// Where the first range is a single point, a value on it is mapped to
/// `m_min`, and so is every value if the second range is a single point;
/// any other value lies beyond the second range, on the side to which the
/// product of the two differences points.
pub open spec fn lerp_floor(value: int, v_min: int, v_max: int, m_min: int, m_max: int) -> Position {
    let n = (value - v_min) * (m_max - m_min);
    if v_max != v_min {
        Position::At((m_min + floor_div(n, v_max - v_min)) as i128)
    } else if n > 0 {
        Position::High
    } else if n < 0 {
        Position::Low
    } else {
        Position::At(m_min as i128)
    }
}

/// A value inside the first range is mapped into the second. This is
/// stated for a second range that runs downward, as the rows of pitches do.
pub proof fn lemma_lerp_inside(value: int, v_min: int, v_max: int, m_min: int, m_max: int)
    requires
        v_min <= value <= v_max,
        m_max <= m_min,
        -0x4000_0000_0000_0000 <= m_max,
        m_min <= 0x4000_0000_0000_0000,
    ensures
        lerp_floor(value, v_min, v_max, m_min, m_max) matches Position::At(v) && m_max <= v <= m_min,
{
    if v_max != v_min {
        let a = value - v_min;
        let b = v_max - v_min;
        let c = m_max - m_min;
        assert(b * c <= a * c <= 0) by (nonlinear_arith)
            requires
                0 <= a <= b,
                c <= 0,
        ;
        vstd::arithmetic::div_mod::lemma_div_multiples_vanish(c, b);
        vstd::arithmetic::div_mod::lemma_div_is_ordered(b * c, a * c, b);
        vstd::arithmetic::div_mod::lemma_div_is_ordered(a * c, 0, b);
    }
}

/// The pixel on which a position, moved by `shift / 40` pixels, is drawn:
/// rounded down and kept between `lo` and `hi`.
pub open spec fn pixel_of(p: Position, shift: int, lo: int, hi: int) -> int {
    match p {
        Position::Low => lo,
        Position::High => hi,
        Position::At(v) => {
            let moved = v + floor_div(shift, 40);
            if moved < lo {
                lo
            } else if moved > hi {
                hi
            } else {
                moved
            }
        },
    }
}

/// The quotient of `n` by `d`, rounded down.
fn floor_quotient(n: i128, d: i128) -> (q: i128)
    requires
        d != 0,
        -0x4000_0000_0000_0000_0000_0000 <= n <= 0x4000_0000_0000_0000_0000_0000,
        -0x4000_0000_0000_0000_0000_0000 <= d <= 0x4000_0000_0000_0000_0000_0000,
    ensures
        q == floor_div(n as int, d as int),
        -0x4000_0000_0000_0000_0000_0001 <= q <= 0x4000_0000_0000_0000_0000_0000,
{
    let (num, den): (i128, i128) = if d > 0 {
        (n, d)
    } else {
        (-n, -d)
    };
    if num >= 0 {
        proof {
            vstd::arithmetic::div_mod::lemma_div_pos_is_pos(num as int, den as int);
            vstd::arithmetic::div_mod::lemma_div_is_ordered_by_denominator(num as int, 1, den as int);
        }
        ((num as u128) / (den as u128)) as i128
    } else {
        proof {
            lemma_floor_div_negative(num as int, den as int);
            vstd::arithmetic::div_mod::lemma_div_plus_one(-num - 1, den as int);
            vstd::arithmetic::div_mod::lemma_div_is_ordered_by_denominator(-num - 1, 1, den as int);
        }
        let up: u128 = (((-num) as u128) + (den as u128) - 1) / (den as u128);
        -(up as i128)
    }
}

/// Interpolates. See [`lerp_floor`].
fn lerp(value: i64, v_min: i64, v_max: i64, m_min: i64, m_max: i64) -> (p: Position)
    requires
        -0x2_0000_0000 <= value <= 0x2_0000_0000,
        -0x2_0000_0000 <= v_min <= 0x2_0000_0000,
        -0x2_0000_0000 <= v_max <= 0x2_0000_0000,
        -0x2_0000_0000 <= m_min <= 0x2_0000_0000,
        -0x2_0000_0000 <= m_max <= 0x2_0000_0000,
    ensures
        p == lerp_floor(value as int, v_min as int, v_max as int, m_min as int, m_max as int),
        p matches Position::At(v) ==> -0x4000_0000_0000_0000_0000_0000_0000 <= v
            <= 0x4000_0000_0000_0000_0000_0000_0000,
{
    let a: i128 = (value - v_min) as i128;
    let c: i128 = (m_max - m_min) as i128;
    assert(-0x4_0000_0000 * 0x4_0000_0000 <= a * c <= 0x4_0000_0000 * 0x4_0000_0000) by (nonlinear_arith)
        requires
            -0x4_0000_0000 <= a <= 0x4_0000_0000,
            -0x4_0000_0000 <= c <= 0x4_0000_0000,
    ;
    let n: i128 = a * c;
    if v_max != v_min {
        let q: i128 = floor_quotient(n, (v_max - v_min) as i128);
        Position::At((m_min as i128) + q)
    } else if n > 0 {
        Position::High
    } else if n < 0 {
        Position::Low
    } else {
        Position::At(m_min as i128)
    }
}

/// Finds the pixel of a position. See [`pixel_of`].
fn to_pixel(p: Position, shift: i32, lo: u32, hi: u32) -> (pixel: u32)
    requires
        lo <= hi,
        -200 <= shift <= 200,
        p matches Position::At(v) ==> -0x4000_0000_0000_0000_0000_0000_0000 <= v
            <= 0x4000_0000_0000_0000_0000_0000_0000,
    ensures
        pixel == pixel_of(p, shift as int, lo as int, hi as int),
        lo <= pixel <= hi,
{
    match p {
        Position::Low => lo,
        Position::High => hi,
        Position::At(v) => {
            let step: i128 = floor_quotient(shift as i128, 40);
            let moved: i128 = v + step;
            if moved < lo as i128 {
                lo
            } else if moved > hi as i128 {
                hi
            } else {
                moved as u32
            }
        },
    }
}

/// The rectangle that shows a note: columns `x1..x2` of rows `y1..y2`.
#[derive(Clone, Copy, Debug, PartialEq, Eq, Structural)]
pub struct NoteBox {
    pub x1: u32,
    pub y1: u32,
    pub x2: u32,
    pub y2: u32,
}

/// By how many fortieths of a pixel a note's rectangle grows on each side.
/// A note that starts `d` ticks before the middle of the window, with `d`
/// from 0 up to `EMPHASIS_TICKS`, grows by `1 − d / EMPHASIS_TICKS` pixels;
/// a note that sounds at the middle of the window grows by one pixel more.
pub open spec fn emphasis(tick_on: int, tick_off: int, start: int, end: int) -> int {
    let twice_mid = start + end;
    let twice_distance = twice_mid - 2 * tick_on;
    let near: int = if 0 <= twice_distance < 2 * EMPHASIS_TICKS {
        2 * EMPHASIS_TICKS - twice_distance
    } else {
        0
    };
    let sounding: int = if 2 * tick_on < twice_mid && 2 * tick_off > twice_mid {
        40
    } else {
        0
    };
    near + sounding
}

/// The rectangle of a note in a row of the piano roll.
///
/// The ticks `start..end` are spread over the columns `0..x_max`, the
/// pitches `note_min..note_max` over the rows from `y_max − 4` up to
/// `y_min + 4`: the higher the pitch, the higher on the screen. The
/// rectangle reaches from the column of the note's start to that of its
/// end and is one row high; emphasis makes it grow on all sides. It stays
/// inside columns `0..x_max − 1` and rows `y_min..y_max − 1`. The notes of
/// a channel of a single pitch lie in row `y_max − 4`.
pub open spec fn note_box(
    tick_on: u32,
    tick_off: u32,
    pitch: u8,
    start: i32,
    end: i32,
    note_min: u8,
    note_max: u8,
    x_max: u32,
    y_min: u32,
    y_max: u32,
) -> NoteBox {
    let left = lerp_floor(tick_on as int, start as int, end as int, 0, x_max as int);
    let right = lerp_floor(tick_off as int, start as int, end as int, 0, x_max as int);
    let row = lerp_floor(pitch as int, note_min as int, note_max as int, y_max - 4, y_min + 4);
    let grow = emphasis(tick_on as int, tick_off as int, start as int, end as int);
    NoteBox {
        x1: pixel_of(left, -grow, 0, x_max - 1) as u32,
        y1: pixel_of(row, -grow, y_min as int, y_max - 1) as u32,
        x2: pixel_of(right, grow, 0, x_max - 1) as u32,
        y2: pixel_of(row, grow + 40, y_min as int, y_max - 1) as u32,
    }
}

/// Computes the rectangle of a note. See [`note_box`].
pub fn get_note_box(
    tick_on: u32,
    tick_off: u32,
    pitch: u8,
    start: i32,
    end: i32,
    note_min: u8,
    note_max: u8,
    x_max: u32,
    y_min: u32,
    y_max: u32,
) -> (b: NoteBox)
    requires
        1 <= x_max,
        y_min < y_max,
    ensures
        b == note_box(tick_on, tick_off, pitch, start, end, note_min, note_max, x_max, y_min, y_max),
        b.x1 < x_max,
        b.x2 < x_max,
        y_min <= b.y1 <= b.y2 < y_max,
        note_min <= pitch <= note_max && y_min + 8 <= y_max ==> b.y1 < b.y2,
{
    proof {
        vstd::arithmetic::div_mod::lemma_div_pos_is_pos(0, 40);
        if note_min <= pitch <= note_max && y_min + 8 <= y_max {
            lemma_lerp_inside(pitch as int, note_min as int, note_max as int, y_max - 4, y_min + 4);
        }
    }
    let left = lerp(tick_on as i64, start as i64, end as i64, 0, x_max as i64);
    let right = lerp(tick_off as i64, start as i64, end as i64, 0, x_max as i64);
    let row = lerp(pitch as i64, note_min as i64, note_max as i64, (y_max as i64) - 4, (y_min as i64) + 4);
    let twice_mid: i64 = (start as i64) + (end as i64);
    let twice_distance: i64 = twice_mid - 2 * (tick_on as i64);
    let near: i32 = if 0 <= twice_distance && twice_distance < 40 {
        (40 - twice_distance) as i32
    } else {
        0
    };
    let sounding: i32 = if 2 * (tick_on as i64) < twice_mid && 2 * (tick_off as i64) > twice_mid {
        40
    } else {
        0
    };
    let grow: i32 = near + sounding;
    NoteBox {
        x1: to_pixel(left, -grow, 0, x_max - 1),
        y1: to_pixel(row, -grow, y_min, y_max - 1),
        x2: to_pixel(right, grow, 0, x_max - 1),
        y2: to_pixel(row, grow + 40, y_min, y_max - 1),
    }
}

} // verus!
