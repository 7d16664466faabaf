//! Turning a buffer of RGBA pixels into a raster.

use vstd::prelude::*;
use crate::display::RGB;
use crate::display::draw::has_shape;
use crate::display::frame::Frame;

verus! {

/// The raster of `width × height` pixels whose pixel `i`, counted row by
/// row, has the first three of the four bytes from `4 × i` on.
pub open spec fn rgb_of_rgba(bytes: Seq<u8>, width: nat, height: nat) -> Seq<Seq<RGB>> {
    Seq::new(
        height,
        |y: int|
            Seq::new(
                width,
                |x: int|
                    [
                        bytes[4 * (y * width + x)],
                        bytes[4 * (y * width + x) + 1],
                        bytes[4 * (y * width + x) + 2],
                    ],
            ),
    )
}

/// The picture that a buffer of RGBA pixels shows, without its alpha
/// channel: what is written out as a PNG.
pub fn pixels_to_png(frame: &[u8], width: u32, height: u32) -> (picture: Frame)
    requires
        4 * (width * height) <= frame@.len(),
    ensures
        picture.wf(),
        picture.cols() == width,
        picture.rows() == height,
        picture@ == rgb_of_rgba(frame@, width as nat, height as nat),
{
    let total: usize = frame.len();
    assert(0 <= width * height && width * height * 3 <= 4 * (width * height)) by (nonlinear_arith)
        requires
            width >= 0,
            height >= 0,
    ;
    let mut picture = Frame::new(width, height);
    proof {
        picture.lemma_shape();
    }
    let ghost goal = rgb_of_rgba(frame@, width as nat, height as nat);
    let mut y: u32 = 0;
    while y < height
        invariant
            y <= height,
            picture.wf(),
            picture.cols() == width,
            picture.rows() == height,
            4 * (width * height) <= frame@.len() <= usize::MAX,
            goal == rgb_of_rgba(frame@, width as nat, height as nat),
            has_shape(picture@, width as nat, height as nat),
            forall|px: int, py: int|
                0 <= px < width && 0 <= py < y ==> #[trigger] picture@[py][px] == goal[py][px],
        decreases height - y,
    {
        let mut x: u32 = 0;
        while x < width
            invariant
                x <= width,
                y < height,
                picture.wf(),
                picture.cols() == width,
                picture.rows() == height,
                4 * (width * height) <= frame@.len() <= usize::MAX,
                goal == rgb_of_rgba(frame@, width as nat, height as nat),
                has_shape(picture@, width as nat, height as nat),
                forall|px: int, py: int|
                    0 <= px < width && (0 <= py < y || (py == y && px < x)) ==> #[trigger] picture@[py][px]
                        == goal[py][px],
            decreases width - x,
        {
            proof {
                crate::display::frame::lemma_cell_index_bound(
                    width as int,
                    height as int,
                    x as int,
                    y as int,
                );
                assert(0 <= y * width) by (nonlinear_arith)
                    requires
                        0 <= y,
                        0 <= width,
                ;
            }
            let index: usize = (y as usize) * (width as usize) + (x as usize);
            let colour: RGB = [frame[4 * index], frame[4 * index + 1], frame[4 * index + 2]];
            picture.put_pixel(x, y, colour);
            proof {
                picture.lemma_shape();
            }
            x = x + 1;
        }
        y = y + 1;
    }
    proof {
        picture.lemma_shape();
    }
    assert(picture@ =~~= goal);
    picture
}

} // verus!
