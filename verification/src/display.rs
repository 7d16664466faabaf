//! The raster and the primitives that paint on it.

use vstd::prelude::*;

pub mod font;
pub mod frame;
pub mod draw;

verus! {

/// An RGB colour, one byte per component.
pub type RGB = [u8; 3];

/// Black, the colour of shadows and of the line under a cell.
pub open spec fn black() -> RGB {
    [0u8, 0u8, 0u8]
}

/// White, the colour of names, notes and waveforms.
pub open spec fn white() -> RGB {
    [255u8, 255u8, 255u8]
}

} // verus!
