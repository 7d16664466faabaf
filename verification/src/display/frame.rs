//! A fixed-size RGB raster, kept in an `image::RgbImage`.

use vstd::prelude::*;
use crate::display::RGB;

verus! {

/// A raster of `width × height` pixels.
///
/// Its view is the sequence of its rows, each a sequence of pixels, so that
/// `frame@[y][x]` is the pixel in column `x` of row `y`.
#[verifier::external_body]
#[derive(Debug)]
pub struct Frame {
    image: image::RgbImage,
}

/// The pixels that the image of a frame holds, row by row.
pub uninterp spec fn frame_pixels(frame: Frame) -> Seq<Seq<RGB>>;

/// The width with which the image of a frame was made.
pub uninterp spec fn frame_width(frame: Frame) -> nat;

/// The raster of `rows` rows and `cols` columns that is black everywhere.
pub open spec fn blank(cols: nat, rows: nat) -> Seq<Seq<RGB>> {
    Seq::new(rows, |y: int| Seq::new(cols, |x: int| [0u8, 0u8, 0u8]))
}

/// The bytes of a raster, row by row, three bytes per pixel.
pub open spec fn raw_bytes(image: Seq<Seq<RGB>>, cols: nat) -> Seq<u8> {
    Seq::new(image.len() * cols * 3, |i: int| image[(i / 3) / (cols as int)][(i / 3) % (cols as int)][i % 3])
}

/// Calls `image::RgbImage::new`: an image of the given size whose bytes
/// are all zero.
#[verifier::external_body]
fn image_new(width: u32, height: u32) -> (frame: Frame)
    requires
        width * height * 3 <= usize::MAX,
    ensures
        frame_width(frame) == width,
        frame_pixels(frame) == blank(width as nat, height as nat),
{
    Frame { image: image::RgbImage::new(width, height) }
}

/// Calls `ImageBuffer::width`.
#[verifier::external_body]
fn image_width(frame: &Frame) -> (width: u32)
    ensures
        width == frame_width(*frame),
{
    frame.image.width()
}

/// Calls `ImageBuffer::height`: the number of the image's rows.
#[verifier::external_body]
fn image_height(frame: &Frame) -> (height: u32)
    ensures
        height == frame_pixels(*frame).len(),
{
    frame.image.height()
}

/// Calls `ImageBuffer::get_pixel` and hands out the pixel's three bytes.
#[verifier::external_body]
fn image_get(frame: &Frame, x: u32, y: u32) -> (colour: RGB)
    requires
        x < frame_width(*frame),
        y < frame_pixels(*frame).len(),
    ensures
        colour == frame_pixels(*frame)[y as int][x as int],
{
    frame.image.get_pixel(x, y).0
}

/// Calls `ImageBuffer::put_pixel`: the one pixel is replaced, and the
/// image keeps its size.
#[verifier::external_body]
fn image_put(frame: &mut Frame, x: u32, y: u32, colour: RGB)
    requires
        x < frame_width(*old(frame)),
        y < frame_pixels(*old(frame)).len(),
    ensures
        frame_width(*final(frame)) == frame_width(*old(frame)),
        frame_pixels(*final(frame)) == frame_pixels(*old(frame)).update(
            y as int,
            frame_pixels(*old(frame))[y as int].update(x as int, colour),
        ),
{
    frame.image.put_pixel(x, y, image::Rgb(colour))
}

/// Copies the buffer that `ImageBuffer::as_raw` hands out: the image's
/// bytes row by row, red, green and blue of each pixel.
#[verifier::external_body]
fn image_raw(frame: &Frame) -> (bytes: Vec<u8>)
    ensures
        bytes@ == raw_bytes(frame_pixels(*frame), frame_width(*frame)),
{
    frame.image.as_raw().clone()
}

/// A cell of a row-major grid lies inside the grid's storage.
pub proof fn lemma_cell_index_bound(w: int, h: int, x: int, y: int)
    requires
        0 <= x < w,
        0 <= y < h,
    ensures
        0 <= y * w + x < h * w,
        h * w == w * h,
{
    assert(y * w + x < h * w && 0 <= y * w && h * w == w * h) by (nonlinear_arith)
        requires
            0 <= x < w,
            0 <= y < h,
    ;
}

impl View for Frame {
    type V = Seq<Seq<RGB>>;

    closed spec fn view(&self) -> Seq<Seq<RGB>> {
        frame_pixels(*self)
    }
}

impl Frame {
    /// Every row holds `cols()` pixels, and the raster's bytes fit in
    /// memory.
    pub closed spec fn wf(&self) -> bool {
        &&& frame_width(*self) <= u32::MAX
        &&& frame_pixels(*self).len() <= u32::MAX
        &&& forall|y: int|
            0 <= y < frame_pixels(*self).len() ==> (#[trigger] frame_pixels(*self)[y]).len() == frame_width(
                *self,
            )
        &&& frame_width(*self) * frame_pixels(*self).len() * 3 <= usize::MAX
    }

    /// The number of columns.
    pub closed spec fn cols(&self) -> nat {
        frame_width(*self)
    }

    /// The number of rows.
    pub closed spec fn rows(&self) -> nat {
        frame_pixels(*self).len()
    }

    /// The view has `rows()` rows of `cols()` pixels, and the raster's bytes
    /// fit in memory.
    pub proof fn lemma_shape(&self)
        requires
            self.wf(),
        ensures
            self@.len() == self.rows(),
            forall|y: int| 0 <= y < self.rows() ==> (#[trigger] self@[y]).len() == self.cols(),
            self.cols() <= u32::MAX,
            self.rows() <= u32::MAX,
            self.cols() * self.rows() * 3 <= usize::MAX,
    {
    }

    /// A black raster of the given size.
    pub fn new(width: u32, height: u32) -> (frame: Frame)
        requires
            width * height * 3 <= usize::MAX,
        ensures
            frame.wf(),
            frame.cols() == width,
            frame.rows() == height,
            frame@ == blank(width as nat, height as nat),
    {
        image_new(width, height)
    }

    /// The number of columns.
    pub fn width(&self) -> (w: u32)
        ensures
            w == self.cols(),
    {
        image_width(self)
    }

    /// The number of rows.
    pub fn height(&self) -> (h: u32)
        ensures
            h == self.rows(),
    {
        image_height(self)
    }

    /// The pixel in column `x` of row `y`.
    pub fn get_pixel(&self, x: u32, y: u32) -> (colour: RGB)
        requires
            self.wf(),
            x < self.cols(),
            y < self.rows(),
        ensures
            colour == self@[y as int][x as int],
    {
        image_get(self, x, y)
    }

    /// Sets the pixel in column `x` of row `y`, and no other.
    pub fn put_pixel(&mut self, x: u32, y: u32, colour: RGB)
        requires
            old(self).wf(),
            x < old(self).cols(),
            y < old(self).rows(),
        ensures
            final(self).wf(),
            final(self).cols() == old(self).cols(),
            final(self).rows() == old(self).rows(),
            final(self)@ == old(self)@.update(y as int, old(self)@[y as int].update(x as int, colour)),
    {
        image_put(self, x, y, colour);
    }

    /// The raster's bytes: row by row, and red, green and blue of each pixel.
    pub fn as_raw(&self) -> (bytes: Vec<u8>)
        requires
            self.wf(),
        ensures
            bytes@ == raw_bytes(self@, self.cols()),
    {
        image_raw(self)
    }
}

} // verus!
