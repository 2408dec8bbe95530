//! Packed 24-bit RGB colours for the pixel projection of a grid.

use vstd::prelude::*;

verus! {

/// The colour of a live cell: all three 8-bit channels at their maximum.
pub const WHITE: u32 = 0x00FF_FFFF;

/// The colour of a dead cell.
pub const BLACK: u32 = 0;

/// A colour packed as `R << 16 | G << 8 | B`.
pub open spec fn pack_rgb(r: u8, g: u8, b: u8) -> u32 {
    ((r as u32) << 16) | ((g as u32) << 8) | (b as u32)
}

/// The colour that the pixel projection gives a cell.
pub open spec fn pixel_of(alive: bool) -> u32 {
    if alive {
        WHITE
    } else {
        BLACK
    }
}

/// White is the packing of three saturated channels, black that of three
/// empty ones.
pub proof fn lemma_packed_extremes()
    ensures
        WHITE == pack_rgb(255, 255, 255),
        BLACK == pack_rgb(0, 0, 0),
{
    assert(0x00FF_FFFFu32 == ((255u8 as u32) << 16) | ((255u8 as u32) << 8) | (255u8 as u32))
        by (bit_vector);
    assert(0u32 == ((0u8 as u32) << 16) | ((0u8 as u32) << 8) | (0u8 as u32)) by (bit_vector);
}

} // verus!
