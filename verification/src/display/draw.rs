//! Painting primitives: single pixels, filled rectangles and bitmap text.
//!
//! Every primitive is specified by the raster it leaves behind, as a function
//! of the raster it was given.

use vstd::prelude::*;
use vstd::string::StrSliceExecFns;
use crate::display::{white, RGB};
use crate::display::font::{glyph, glyph_at, FONT_HEIGHT, FONT_SEPARATION, FONT_WIDTH};
use crate::display::frame::Frame;

verus! {

/// Every row of `image` has `cols` pixels.
pub open spec fn has_shape(image: Seq<Seq<RGB>>, cols: nat, rows: nat) -> bool {
    &&& image.len() == rows
    &&& forall|y: int| 0 <= y < rows ==> (#[trigger] image[y]).len() == cols
}

/// `image` with the pixel in column `x` of row `y` set to `colour`.
pub open spec fn pixel_painted(image: Seq<Seq<RGB>>, x: int, y: int, colour: RGB) -> Seq<Seq<RGB>> {
    image.update(y, image[y].update(x, colour))
}

/// `image` with every pixel of columns `x1..x2` and rows `y1..y2` set to
/// `colour`. The upper bounds are exclusive.
pub open spec fn rect_painted(
    image: Seq<Seq<RGB>>,
    x1: int,
    y1: int,
    x2: int,
    y2: int,
    colour: RGB,
) -> Seq<Seq<RGB>> {
    Seq::new(
        image.len(),
        |y: int|
            Seq::new(
                image[y].len(),
                |x: int|
                    if x1 <= x < x2 && y1 <= y < y2 {
                        colour
                    } else {
                        image[y][x]
                    },
            ),
    )
}

/// How many of the rows `0..n` have the remainder `c` when divided by three.
pub open spec fn rows_below(n: int, c: int) -> int {
    (n + 2 - c) / 3
}

/// `v` lowered by `n`, but not below zero.
pub open spec fn faded(v: u8, n: int) -> u8 {
    if v >= n {
        (v - n) as u8
    } else {
        0
    }
}

/// The colour of row `y` in a gradient that starts with `colour` in row `y1`:
/// each row whose number has remainder `c` modulo three lowers component `c`
/// of all rows below it by one, down to zero.
pub open spec fn gradient_colour(colour: RGB, y1: int, y: int) -> RGB {
    [
        faded(colour[0], rows_below(y, 0) - rows_below(y1, 0)),
        faded(colour[1], rows_below(y, 1) - rows_below(y1, 1)),
        faded(colour[2], rows_below(y, 2) - rows_below(y1, 2)),
    ]
}

/// `image` with columns `x1..x2` of rows `y1..y2` filled by the gradient that
/// starts with `colour`.
pub open spec fn gradient_painted(
    image: Seq<Seq<RGB>>,
    x1: int,
    y1: int,
    x2: int,
    y2: int,
    colour: RGB,
) -> Seq<Seq<RGB>> {
    Seq::new(
        image.len(),
        |y: int|
            Seq::new(
                image[y].len(),
                |x: int|
                    if x1 <= x < x2 && y1 <= y < y2 {
                        gradient_colour(colour, y1, y)
                    } else {
                        image[y][x]
                    },
            ),
    )
}

/// Whether the glyph has a dot in column `dx` of line `dy` of its cell.
pub open spec fn glyph_bit(bits: u32, dx: int, dy: int) -> bool {
    &&& 0 <= dx < FONT_WIDTH
    &&& 0 <= dy < FONT_HEIGHT
    &&& (bits >> ((dy * FONT_WIDTH + dx) as u32)) & 1 == 1
}

/// Every dot of the glyph, drawn with its cell's corner at `(x, y)`, falls
/// inside a raster of the given size.
pub open spec fn glyph_fits(cols: nat, rows: nat, x: int, y: int, bits: u32) -> bool {
    forall|dx: int, dy: int| #[trigger] glyph_bit(bits, dx, dy) ==> x + dx < cols && y + dy < rows
}

/// `image` with the dots of the glyph set to `colour`, the glyph's cell having
/// its corner at `(x, y)`.
pub open spec fn letter_painted(image: Seq<Seq<RGB>>, x: int, y: int, bits: u32, colour: RGB) -> Seq<
    Seq<RGB>,
> {
    Seq::new(
        image.len(),
        |py: int|
            Seq::new(
                image[py].len(),
                |px: int|
                    if glyph_bit(bits, px - x, py - y) {
                        colour
                    } else {
                        image[py][px]
                    },
            ),
    )
}

/// Whether the font has a glyph for the character.
pub open spec fn is_printable(c: char) -> bool {
    32 <= c as u32 <= 127
}

/// The glyphs of the printable characters of `text`, in order. Characters
/// without a glyph are left out and take no room.
pub open spec fn printable_glyphs(text: Seq<char>) -> Seq<u32>
    decreases text.len(),
{
    if text.len() == 0 {
        Seq::empty()
    } else {
        let before = printable_glyphs(text.drop_last());
        if is_printable(text.last()) {
            before.push(glyph((text.last() as u32 - 32) as int))
        } else {
            before
        }
    }
}

/// Every glyph of the line fits in a raster of the given size, and the
/// corner of its cell can be computed in 32 bits.
pub open spec fn text_fits(cols: nat, rows: nat, x: int, y: int, glyphs: Seq<u32>) -> bool {
    forall|k: int|
        0 <= k < glyphs.len() ==> {
            &&& k * FONT_SEPARATION + x <= u32::MAX
            &&& glyph_fits(cols, rows, k * FONT_SEPARATION + x, y, #[trigger] glyphs[k])
        }
}

/// `image` with the glyphs painted side by side from `(x, y)` to the right,
/// `FONT_SEPARATION` columns apart.
pub open spec fn text_painted(image: Seq<Seq<RGB>>, x: int, y: int, glyphs: Seq<u32>, colour: RGB) -> Seq<
    Seq<RGB>,
>
    decreases glyphs.len(),
{
    if glyphs.len() == 0 {
        image
    } else {
        letter_painted(
            text_painted(image, x, y, glyphs.drop_last(), colour),
            (glyphs.len() - 1) * FONT_SEPARATION + x,
            y,
            glyphs.last(),
            colour,
        )
    }
}

/// Draws a single pixel.
pub fn pixel(frame: &mut Frame, x: u32, y: u32, colour: RGB)
    requires
        old(frame).wf(),
        x < old(frame).cols(),
        y < old(frame).rows(),
    ensures
        final(frame).wf(),
        final(frame).cols() == old(frame).cols(),
        final(frame).rows() == old(frame).rows(),
        final(frame)@ == pixel_painted(old(frame)@, x as int, y as int, colour),
{
    frame.put_pixel(x, y, colour);
}

/// Draws one glyph of the font. The cell's corner is at `(x, y)`; only the
/// glyph's dots are painted.
pub fn letter(frame: &mut Frame, x: u32, y: u32, letter: u32, colour: RGB)
    requires
        old(frame).wf(),
        glyph_fits(old(frame).cols(), old(frame).rows(), x as int, y as int, letter),
    ensures
        final(frame).wf(),
        final(frame).cols() == old(frame).cols(),
        final(frame).rows() == old(frame).rows(),
        final(frame)@ == letter_painted(old(frame)@, x as int, y as int, letter, colour),
{
    proof {
        frame.lemma_shape();
    }
    let ghost before = frame@;
    let ghost cols = frame.cols();
    let ghost rows = frame.rows();
    let mut line_offset: u32 = 0;
    while line_offset < FONT_HEIGHT
        invariant
            frame.wf(),
            frame.cols() == cols,
            frame.rows() == rows,
            has_shape(before, cols, rows),
            has_shape(frame@, cols, rows),
            line_offset <= FONT_HEIGHT,
            glyph_fits(cols, rows, x as int, y as int, letter),
            forall|px: int, py: int|
                0 <= px < cols && 0 <= py < rows ==> #[trigger] frame@[py][px] == if glyph_bit(
                    letter,
                    px - x,
                    py - y,
                ) && py - y < line_offset {
                    colour
                } else {
                    before[py][px]
                },
        decreases FONT_HEIGHT - line_offset,
    {
        let mut letter_offset: u32 = 0;
        while letter_offset < FONT_WIDTH
            invariant
                frame.wf(),
                frame.cols() == cols,
                frame.rows() == rows,
                has_shape(before, cols, rows),
                has_shape(frame@, cols, rows),
                line_offset < FONT_HEIGHT,
                letter_offset <= FONT_WIDTH,
                glyph_fits(cols, rows, x as int, y as int, letter),
                forall|px: int, py: int|
                    0 <= px < cols && 0 <= py < rows ==> #[trigger] frame@[py][px] == if glyph_bit(
                        letter,
                        px - x,
                        py - y,
                    ) && (py - y < line_offset || (py - y == line_offset && px - x < letter_offset)) {
                        colour
                    } else {
                        before[py][px]
                    },
            decreases FONT_WIDTH - letter_offset,
        {
            let shift: u32 = (line_offset * FONT_WIDTH) + letter_offset;
            let chr: u32 = (letter >> shift) & 1;
            if chr == 1 {
                assert(glyph_bit(letter, letter_offset as int, line_offset as int));
                proof {
                    frame.lemma_shape();
                }
                pixel(frame, x + letter_offset, y + line_offset, colour);
            }
            letter_offset = letter_offset + 1;
        }
        line_offset = line_offset + 1;
    }
    assert(frame@ =~~= letter_painted(before, x as int, y as int, letter, colour));
}

/// Tells whether every dot of a glyph falls inside a raster of the given
/// size.
pub fn glyph_fits_in(cols: u32, rows: u32, x: u32, y: u32, bits: u32) -> (fits: bool)
    ensures
        fits == glyph_fits(cols as nat, rows as nat, x as int, y as int, bits),
{
    let mut line_offset: u32 = 0;
    while line_offset < FONT_HEIGHT
        invariant
            line_offset <= FONT_HEIGHT,
            forall|dx: int, dy: int|
                #[trigger] glyph_bit(bits, dx, dy) && dy < line_offset ==> x + dx < cols && y + dy < rows,
        decreases FONT_HEIGHT - line_offset,
    {
        let mut letter_offset: u32 = 0;
        while letter_offset < FONT_WIDTH
            invariant
                line_offset < FONT_HEIGHT,
                letter_offset <= FONT_WIDTH,
                forall|dx: int, dy: int|
                    #[trigger] glyph_bit(bits, dx, dy) && (dy < line_offset || (dy == line_offset && dx
                        < letter_offset)) ==> x + dx < cols && y + dy < rows,
            decreases FONT_WIDTH - letter_offset,
        {
            let shift: u32 = (line_offset * FONT_WIDTH) + letter_offset;
            let chr: u32 = (bits >> shift) & 1;
            if chr == 1 {
                assert(glyph_bit(bits, letter_offset as int, line_offset as int));
                if (x as u64) + (letter_offset as u64) >= cols as u64 || (y as u64) + (line_offset as u64)
                    >= rows as u64 {
                    return false;
                }
            }
            letter_offset = letter_offset + 1;
        }
        line_offset = line_offset + 1;
    }
    true
}

/// Tells whether a line of text can be drawn on the frame from `(x, y)`
/// on.
pub fn text_fits_in(frame: &Frame, x: u32, y: u32, text: &str) -> (fits: bool)
    requires
        frame.wf(),
    ensures
        fits == text_fits(frame.cols(), frame.rows(), x as int, y as int, printable_glyphs(text@)),
{
    proof {
        frame.lemma_shape();
    }
    let cols: u32 = frame.width();
    let rows: u32 = frame.height();
    let ghost all = printable_glyphs(text@);
    let n: usize = text.unicode_len();
    let mut i: usize = 0;
    let mut tx: u64 = 0;
    while i < n
        invariant
            n == text@.len(),
            i <= n,
            all == printable_glyphs(text@),
            tx == printable_glyphs(text@.take(i as int)).len(),
            printable_glyphs(text@.take(i as int)) == all.take(tx as int),
            tx <= all.len(),
            tx <= i,
            cols == frame.cols(),
            rows == frame.rows(),
            text_fits(cols as nat, rows as nat, x as int, y as int, all.take(tx as int)),
        decreases n - i,
    {
        let c: char = text.get_char(i);
        let code: u32 = c as u32;
        proof {
            assert(text@.take(i + 1).drop_last() =~= text@.take(i as int));
            assert(text@.take(i + 1).last() == c);
            lemma_glyphs_prefix(text@, i + 1);
        }
        if 32 <= code && code <= 127 {
            let bits: u32 = glyph_at((code - 32) as usize);
            proof {
                let now = printable_glyphs(text@.take(i + 1));
                assert(now == printable_glyphs(text@.take(i as int)).push(bits));
                assert(now[tx as int] == bits);
            }
            assert(tx * 6 <= usize::MAX * 6) by (nonlinear_arith)
                requires
                    tx <= usize::MAX,
            ;
            let corner: u128 = (tx as u128) * (FONT_SEPARATION as u128) + (x as u128);
            if corner > u32::MAX as u128 || !glyph_fits_in(cols, rows, corner as u32, y, bits) {
                proof {
                    assert(0 <= tx < all.len());
                    assert(all[tx as int] == bits);
                    assert(corner == tx * FONT_SEPARATION + x);
                    assert(!(tx * FONT_SEPARATION + x <= u32::MAX && glyph_fits(
                        cols as nat,
                        rows as nat,
                        tx * FONT_SEPARATION + x,
                        y as int,
                        all[tx as int],
                    )));
                }
                return false;
            }
            proof {
                assert forall|k: int| 0 <= k < tx + 1 implies {
                    &&& k * FONT_SEPARATION + x <= u32::MAX
                    &&& glyph_fits(
                        cols as nat,
                        rows as nat,
                        k * FONT_SEPARATION + x,
                        y as int,
                        #[trigger] all.take(tx + 1)[k],
                    )
                } by {
                    if k < tx {
                        assert(all.take(tx as int)[k] == all.take(tx + 1)[k]);
                    }
                }
            }
            tx = tx + 1;
        }
        i = i + 1;
    }
    proof {
        assert(text@.take(n as int) =~= text@);
        assert(all.take(tx as int) =~= all);
    }
    true
}

/// Draws a line of text in white. See [`text_colour`].
pub fn text(frame: &mut Frame, x: u32, y: u32, text: &str)
    requires
        old(frame).wf(),
        text_fits(old(frame).cols(), old(frame).rows(), x as int, y as int, printable_glyphs(text@)),
    ensures
        final(frame).wf(),
        final(frame).cols() == old(frame).cols(),
        final(frame).rows() == old(frame).rows(),
        final(frame)@ == text_painted(
            old(frame)@,
            x as int,
            y as int,
            printable_glyphs(text@),
            white(),
        ),
{
    text_colour(frame, x, y, text, [0xff, 0xff, 0xff]);
}

/// Draws a line of text. Characters outside the font's range are skipped
/// and take no room; the others follow each other `FONT_SEPARATION` columns
/// apart.
pub fn text_colour(frame: &mut Frame, x: u32, y: u32, text: &str, colour: RGB)
    requires
        old(frame).wf(),
        text_fits(old(frame).cols(), old(frame).rows(), x as int, y as int, printable_glyphs(text@)),
    ensures
        final(frame).wf(),
        final(frame).cols() == old(frame).cols(),
        final(frame).rows() == old(frame).rows(),
        final(frame)@ == text_painted(old(frame)@, x as int, y as int, printable_glyphs(text@), colour),
{
    let ghost before = frame@;
    let ghost cols = frame.cols();
    let ghost rows = frame.rows();
    let ghost all = printable_glyphs(text@);
    let n: usize = text.unicode_len();
    let mut i: usize = 0;
    let mut tx: u32 = 0;
    while i < n
        invariant
            frame.wf(),
            frame.cols() == cols,
            frame.rows() == rows,
            n == text@.len(),
            i <= n,
            all == printable_glyphs(text@),
            text_fits(cols, rows, x as int, y as int, all),
            tx == printable_glyphs(text@.take(i as int)).len(),
            printable_glyphs(text@.take(i as int)) == all.take(tx as int),
            tx <= all.len(),
            frame@ == text_painted(before, x as int, y as int, all.take(tx as int), colour),
        decreases n - i,
    {
        let c: char = text.get_char(i);
        let code: u32 = c as u32;
        proof {
            assert(text@.take(i + 1).drop_last() =~= text@.take(i as int));
            assert(text@.take(i + 1).last() == c);
            lemma_glyphs_prefix(text@, i + 1);
        }
        if 32 <= code && code <= 127 {
            let bits: u32 = glyph_at((code - 32) as usize);
            proof {
                let now = printable_glyphs(text@.take(i + 1));
                assert(now == printable_glyphs(text@.take(i as int)).push(bits));
                assert(now[tx as int] == bits);
                assert(all.take(tx + 1).drop_last() =~= all.take(tx as int));
            }
            letter(frame, tx * FONT_SEPARATION + x, y, bits, colour);
            tx = tx + 1;
        }
        i = i + 1;
    }
    proof {
        assert(text@.take(n as int) =~= text@);
        assert(all.take(tx as int) =~= all);
    }
}

/// The glyphs of a prefix of a text are a prefix of the text's glyphs.
pub proof fn lemma_glyphs_prefix(text: Seq<char>, n: int)
    requires
        0 <= n <= text.len(),
    ensures
        printable_glyphs(text.take(n)).len() <= printable_glyphs(text).len(),
        printable_glyphs(text.take(n)) == printable_glyphs(text).take(
            printable_glyphs(text.take(n)).len() as int,
        ),
    decreases text.len(),
{
    if n == text.len() {
        assert(text.take(n) =~= text);
        assert(printable_glyphs(text).take(printable_glyphs(text).len() as int) =~= printable_glyphs(
            text,
        ));
    } else {
        lemma_glyphs_prefix(text.drop_last(), n);
        assert(text.drop_last().take(n) =~= text.take(n));
        let short = printable_glyphs(text.take(n));
        let before = printable_glyphs(text.drop_last());
        assert(printable_glyphs(text).take(short.len() as int) =~= before.take(short.len() as int));
    }
}

/// Fills columns `x1..x2` of rows `y1..y2`; both upper bounds are exclusive.
/// An empty range paints nothing.
pub fn rect(frame: &mut Frame, x1: u32, y1: u32, x2: u32, y2: u32, colour: RGB)
    requires
        old(frame).wf(),
        x1 < x2 && y1 < y2 ==> x2 <= old(frame).cols() && y2 <= old(frame).rows(),
    ensures
        final(frame).wf(),
        final(frame).cols() == old(frame).cols(),
        final(frame).rows() == old(frame).rows(),
        final(frame)@ == rect_painted(old(frame)@, x1 as int, y1 as int, x2 as int, y2 as int, colour),
{
    proof {
        frame.lemma_shape();
    }
    let ghost before = frame@;
    let ghost cols = frame.cols();
    let ghost rows = frame.rows();
    let mut y: u32 = y1;
    while y < y2
        invariant
            frame.wf(),
            frame.cols() == cols,
            frame.rows() == rows,
            has_shape(before, cols, rows),
            has_shape(frame@, cols, rows),
            y1 <= y,
            y <= y2 || y == y1,
            x1 < x2 && y1 < y2 ==> x2 <= cols && y2 <= rows,
            forall|px: int, py: int|
                0 <= px < cols && 0 <= py < rows ==> #[trigger] frame@[py][px] == if x1 <= px < x2 && y1
                    <= py < y {
                    colour
                } else {
                    before[py][px]
                },
        decreases y2 - y,
    {
        let mut x: u32 = x1;
        while x < x2
            invariant
                frame.wf(),
                frame.cols() == cols,
                frame.rows() == rows,
                has_shape(before, cols, rows),
                has_shape(frame@, cols, rows),
                y1 <= y < y2,
                x1 <= x,
                x <= x2 || x == x1,
                x1 < x2 && y1 < y2 ==> x2 <= cols && y2 <= rows,
                forall|px: int, py: int|
                    0 <= px < cols && 0 <= py < rows ==> #[trigger] frame@[py][px] == if (x1 <= px < x2
                        && y1 <= py < y) || (py == y && x1 <= px < x) {
                        colour
                    } else {
                        before[py][px]
                    },
            decreases x2 - x,
        {
            pixel(frame, x, y, colour);
            x = x + 1;
        }
        y = y + 1;
    }
    assert(frame@ =~~= rect_painted(before, x1 as int, y1 as int, x2 as int, y2 as int, colour));
}

/// One component of a gradient from one row to the next: among the rows
/// `y1..y + 1` there is one more with the remainder `c` than among the rows
/// `y1..y` if `y` has that remainder, and the component is lowered by one
/// for it unless it is zero already.
pub proof fn lemma_band_step(v: u8, y1: int, y: int, c: int)
    requires
        0 <= y1 <= y,
        0 <= c < 3,
    ensures
        0 <= rows_below(y, c) - rows_below(y1, c),
        faded(v, rows_below(y + 1, c) - rows_below(y1, c)) == if y % 3 == c && faded(
            v,
            rows_below(y, c) - rows_below(y1, c),
        ) > 0 {
            (faded(v, rows_below(y, c) - rows_below(y1, c)) - 1) as u8
        } else {
            faded(v, rows_below(y, c) - rows_below(y1, c))
        },
{
    let before = rows_below(y, c);
    let after = rows_below(y + 1, c);
    assert(after == if y % 3 == c {
        before + 1
    } else {
        before
    });
    assert(rows_below(y1, c) <= before);
}

/// The colour of the row after row `y` of a gradient.
fn next_band(band: RGB, y: u32, Ghost(colour): Ghost<RGB>, Ghost(y1): Ghost<u32>) -> (next: RGB)
    requires
        y1 <= y,
        band == gradient_colour(colour, y1 as int, y as int),
    ensures
        next == gradient_colour(colour, y1 as int, y + 1),
{
    let r: u8 = if y % 3 == 0 && band[0] > 0 {
        band[0] - 1
    } else {
        band[0]
    };
    let g: u8 = if y % 3 == 1 && band[1] > 0 {
        band[1] - 1
    } else {
        band[1]
    };
    let b: u8 = if y % 3 == 2 && band[2] > 0 {
        band[2] - 1
    } else {
        band[2]
    };
    let next: RGB = [r, g, b];
    proof {
        let goal = gradient_colour(colour, y1 as int, y + 1);
        assert(next[0] == goal[0]) by {
            lemma_band_step(colour[0], y1 as int, y as int, 0);
        }
        assert(next[1] == goal[1]) by {
            lemma_band_step(colour[1], y1 as int, y as int, 1);
        }
        assert(next[2] == goal[2]) by {
            lemma_band_step(colour[2], y1 as int, y as int, 2);
        }
        assert(next =~= goal);
    }
    next
}

/// Fills columns `x1..x2` of rows `y1..y2` with a banded gradient: the first
/// row has `colour`, and after each row one component is lowered by one,
/// red after rows whose number is a multiple of three, green and blue after
/// the two that follow. A component that has reached zero stays there.
pub fn rect_gradient(frame: &mut Frame, x1: u32, y1: u32, x2: u32, y2: u32, colour: RGB)
    requires
        old(frame).wf(),
        x1 < x2 && y1 < y2 ==> x2 <= old(frame).cols() && y2 <= old(frame).rows(),
    ensures
        final(frame).wf(),
        final(frame).cols() == old(frame).cols(),
        final(frame).rows() == old(frame).rows(),
        final(frame)@ == gradient_painted(
            old(frame)@,
            x1 as int,
            y1 as int,
            x2 as int,
            y2 as int,
            colour,
        ),
{
    proof {
        frame.lemma_shape();
    }
    let ghost before = frame@;
    let ghost cols = frame.cols();
    let ghost rows = frame.rows();
    let mut col_prev: RGB = colour;
    let mut y: u32 = y1;
    while y < y2
        invariant
            frame.wf(),
            frame.cols() == cols,
            frame.rows() == rows,
            has_shape(before, cols, rows),
            has_shape(frame@, cols, rows),
            y1 <= y,
            y <= y2 || y == y1,
            x1 < x2 && y1 < y2 ==> x2 <= cols && y2 <= rows,
            col_prev == gradient_colour(colour, y1 as int, y as int),
            forall|px: int, py: int|
                0 <= px < cols && 0 <= py < rows ==> #[trigger] frame@[py][px] == if x1 <= px < x2 && y1
                    <= py < y {
                    gradient_colour(colour, y1 as int, py)
                } else {
                    before[py][px]
                },
        decreases y2 - y,
    {
        let mut x: u32 = x1;
        while x < x2
            invariant
                frame.wf(),
                frame.cols() == cols,
                frame.rows() == rows,
                has_shape(before, cols, rows),
                has_shape(frame@, cols, rows),
                y1 <= y < y2,
                x1 <= x,
                x <= x2 || x == x1,
                x1 < x2 && y1 < y2 ==> x2 <= cols && y2 <= rows,
                col_prev == gradient_colour(colour, y1 as int, y as int),
                forall|px: int, py: int|
                    0 <= px < cols && 0 <= py < rows ==> #[trigger] frame@[py][px] == if x1 <= px < x2
                        && y1 <= py < y {
                        gradient_colour(colour, y1 as int, py)
                    } else if py == y && x1 <= px < x {
                        col_prev
                    } else {
                        before[py][px]
                    },
            decreases x2 - x,
        {
            pixel(frame, x, y, col_prev);
            x = x + 1;
        }
        col_prev = next_band(col_prev, y, Ghost(colour), Ghost(y1));
        y = y + 1;
    }
    assert(frame@ =~~= gradient_painted(before, x1 as int, y1 as int, x2 as int, y2 as int, colour));
}

} // verus!
