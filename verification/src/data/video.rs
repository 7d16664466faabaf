//! The last stage before the encoder: a canvas becomes the pixels of one
//! frame of the video, at the output's size.

use vstd::prelude::*;
use crate::display::frame::{raw_bytes, Frame};

verus! {

/// What `fast_image_resize` makes of an image of `width × height` pixels
/// of three bytes each, resized with its nearest-neighbour algorithm to
/// `out_width × out_height` pixels.
pub uninterp spec fn resized_nearest(
    pixels: Seq<u8>,
    width: u32,
    height: u32,
    out_width: u32,
    out_height: u32,
) -> Seq<u8>;

/// Calls `fast_image_resize::Resizer::resize` on a view of the pixels as
/// `U8x3`, with the algorithm `ResizeAlg::Nearest`, into a fresh image of
/// the wanted size, and hands out that image's buffer. The buffer has three
/// bytes for each pixel of the output.
#[verifier::external_body]
fn resize_nearest(pixels: &Vec<u8>, width: u32, height: u32, out_width: u32, out_height: u32) -> (out: Vec<
    u8,
>)
    requires
        width * height * 3 <= pixels@.len(),
        out_width * out_height * 3 <= usize::MAX,
    ensures
        out@ == resized_nearest(pixels@, width, height, out_width, out_height),
        out@.len() == out_width * out_height * 3,
{
    let source = fast_image_resize::images::ImageRef::new(
        width,
        height,
        pixels,
        fast_image_resize::PixelType::U8x3,
    ).unwrap();
    let mut target = fast_image_resize::images::Image::new(
        out_width,
        out_height,
        fast_image_resize::PixelType::U8x3,
    );
    let options = fast_image_resize::ResizeOptions::new().resize_alg(fast_image_resize::ResizeAlg::Nearest);
    fast_image_resize::Resizer::new().resize(&source, &mut target, &options).unwrap();
    target.into_vec()
}

/// The size of the canvas and of the video, and how far the video has got.
#[derive(Clone, Copy, Debug, PartialEq, Eq, Structural)]
pub struct Encoding {
    /// Columns of the canvas.
    pub width: u32,
    /// Rows of the canvas.
    pub height: u32,
    /// How many pixels of the video one pixel of the canvas becomes, each
    /// way.
    pub scale: u32,
    /// The frames handed to the encoder so far. Frame `k` is shown `k`
    /// frame durations after the start.
    pub position: u64,
}

/// One frame of the video: its place in the sequence and its pixels, row
/// by row, three bytes each.
#[derive(Debug)]
pub struct VideoFrame {
    /// The number of the frame, from 0.
    pub index: u64,
    /// Rows of the video.
    pub rows: usize,
    /// Columns of the video.
    pub cols: usize,
    pub pixels: Vec<u8>,
}

impl Encoding {
    /// Whether the video's size can be computed and its pixels held.
    pub open spec fn fits(width: u32, height: u32, scale: u32) -> bool {
        &&& width * scale <= u32::MAX
        &&& height * scale <= u32::MAX
        &&& (width * scale) * (height * scale) * 3 <= usize::MAX
        &&& width * height * 3 <= usize::MAX
    }

    /// Whether the encoding can take a canvas of the given size as its next
    /// frame: the canvas has the encoding's size, the video's size fits,
    /// and the number of the frame can be counted.
    pub open spec fn takes(&self, cols: nat, rows: nat) -> bool {
        &&& cols == self.width
        &&& rows == self.height
        &&& Encoding::fits(self.width, self.height, self.scale)
        &&& self.position < u64::MAX
    }

    /// Whether `out` is the frame that the encoding `before` makes of
    /// `image`, and `self` the encoding after it.
    pub open spec fn rendered(
        &self,
        before: Encoding,
        image: Seq<Seq<crate::display::RGB>>,
        out: VideoFrame,
    ) -> bool {
        &&& *self == (Encoding { position: (before.position + 1) as u64, ..before })
        &&& out.index == before.position
        &&& out.rows == before.height * before.scale
        &&& out.cols == before.width * before.scale
        &&& out.pixels@ == before.resized(image)
        &&& out.pixels@.len() == out.rows * out.cols * 3
    }

    /// Tells whether the encoding can take the frame as its next frame.
    pub fn accepts(&self, frame: &Frame) -> (ok: bool)
        requires
            frame.wf(),
        ensures
            ok == self.takes(frame.cols(), frame.rows()),
    {
        frame.width() == self.width && frame.height() == self.height && self.position < u64::MAX
            && Encoding::new(self.width, self.height, self.scale).is_some()
    }

    /// The pixels of the video frame that shows `image`.
    pub open spec fn resized(&self, image: Seq<Seq<crate::display::RGB>>) -> Seq<u8> {
        if self.scale == 1 {
            raw_bytes(image, self.width as nat)
        } else {
            resized_nearest(
                raw_bytes(image, self.width as nat),
                self.width,
                self.height,
                (self.width * self.scale) as u32,
                (self.height * self.scale) as u32,
            )
        }
    }

    /// The encoding of a canvas at the start of the video, if the video's
    /// size fits.
    pub fn new(width: u32, height: u32, scale: u32) -> (encoding: Option<Encoding>)
        ensures
            encoding == if Encoding::fits(width, height, scale) {
                Some(Encoding { width, height, scale, position: 0 })
            } else {
                None::<Encoding>
            },
    {
        assert(width * scale <= 0xffff_ffff * 0xffff_ffff && height * scale <= 0xffff_ffff * 0xffff_ffff)
            by (nonlinear_arith)
            requires
                0 <= width <= 0xffff_ffff,
                0 <= height <= 0xffff_ffff,
                0 <= scale <= 0xffff_ffff,
        ;
        let out_width: u64 = (width as u64) * (scale as u64);
        let out_height: u64 = (height as u64) * (scale as u64);
        if out_width > u32::MAX as u64 || out_height > u32::MAX as u64 {
            return None;
        }
        assert(out_width * out_height <= 0xffff_ffff * 0xffff_ffff) by (nonlinear_arith)
            requires
                0 <= out_width <= 0xffff_ffff,
                0 <= out_height <= 0xffff_ffff,
        ;
        assert(width * height <= 0xffff_ffff * 0xffff_ffff) by (nonlinear_arith)
            requires
                0 <= width <= 0xffff_ffff,
                0 <= height <= 0xffff_ffff,
        ;
        let out_bytes: u128 = (out_width as u128) * (out_height as u128) * 3;
        let bytes: u128 = (width as u128) * (height as u128) * 3;
        if out_bytes > usize::MAX as u128 || bytes > usize::MAX as u128 {
            return None;
        }
        Some(Encoding { width, height, scale, position: 0 })
    }

    /// The canvas at the size of the video: as it is at scale 1, else
    /// magnified.
    pub fn resize_frame(&self, frame: &Frame) -> (pixels: Vec<u8>)
        requires
            frame.wf(),
            frame.cols() == self.width,
            frame.rows() == self.height,
            Encoding::fits(self.width, self.height, self.scale),
        ensures
            pixels@ == self.resized(frame@),
            pixels@.len() == (self.width * self.scale) * (self.height * self.scale) * 3,
    {
        proof {
            frame.lemma_shape();
        }
        let raw: Vec<u8> = frame.as_raw();
        assert(raw@.len() == self.width * self.height * 3) by (nonlinear_arith)
            requires
                raw@.len() == self.height * self.width * 3,
        ;
        if self.scale == 1 {
            assert((self.width * 1) * (self.height * 1) * 3 == self.width * self.height * 3)
                by (nonlinear_arith);
            return raw;
        }
        resize_nearest(&raw, self.width, self.height, self.width * self.scale, self.height * self.scale)
    }

    /// Makes the next frame of the video from the canvas and moves the
    /// position on by one frame.
    pub fn render_frame(&mut self, buffer: &Frame) -> (out: VideoFrame)
        requires
            buffer.wf(),
            old(self).takes(buffer.cols(), buffer.rows()),
        ensures
            final(self).rendered(*old(self), buffer@, out),
    {
        let pixels: Vec<u8> = self.resize_frame(buffer);
        let rows: u32 = self.height * self.scale;
        let cols: u32 = self.width * self.scale;
        assert(cols * rows * 3 == rows * cols * 3) by (nonlinear_arith);
        let out = VideoFrame { index: self.position, rows: rows as usize, cols: cols as usize, pixels };
        self.update_position();
        out
    }

    /// Moves the position on by one frame.
    pub fn update_position(&mut self)
        requires
            old(self).position < u64::MAX,
        ensures
            *final(self) == (Encoding { position: (old(self).position + 1) as u64, ..*old(self) }),
    {
        self.position = self.position + 1;
    }
}

} // verus!
