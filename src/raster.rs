//! The pixel grid of a rendered image. Pixels are numbered row by row from
//! the top-left corner, so that the whole image can be handed out as one
//! range of independent pieces of work.
use vstd::prelude::*;

verus! {

/// The size of an image in pixels.
#[derive(Clone, Copy, Debug, PartialEq, Eq, Structural)]
pub struct Raster {
    pub width: u32,
    pub height: u32,
}

/// The column and row of pixel number `index` in an image `width` wide.
pub open spec fn pixel_of(width: nat, index: nat) -> (nat, nat) {
    (index % width, index / width)
}

/// The number of the pixel at column `x`, row `y`, in an image `width` wide.
pub open spec fn index_of(width: nat, x: nat, y: nat) -> nat {
    y * width + x
}

impl Raster {
    /// The number of pixels in the image.
    pub fn pixel_count(&self) -> (r: u64)
        ensures
            r == self.width * self.height,
    {
        assert(self.width * self.height <= u32::MAX * u32::MAX) by (nonlinear_arith);
        self.width as u64 * self.height as u64
    }

    /// The column and row of pixel number `index`.
    pub fn pixel(&self, index: u64) -> (r: (u32, u32))
        requires
            index < self.width * self.height,
        ensures
            (r.0 as nat, r.1 as nat) == pixel_of(self.width as nat, index as nat),
            r.0 < self.width,
            r.1 < self.height,
    {
        let w = self.width as u64;
        assert(w > 0) by (nonlinear_arith)
            requires
                index < self.width * self.height,
                w == self.width,
        ;
        let x = index % w;
        let y = index / w;
        assert(y < self.height) by (nonlinear_arith)
            requires
                index < w * self.height,
                y == index / w,
                w > 0,
        ;
        (x as u32, y as u32)
    }

    /// The number of the pixel at column `x`, row `y`.
    pub fn index(&self, x: u32, y: u32) -> (r: u64)
        requires
            x < self.width,
            y < self.height,
        ensures
            r == index_of(self.width as nat, x as nat, y as nat),
            r < self.width * self.height,
    {
        assert(y * self.width + x < self.width * self.height) by (nonlinear_arith)
            requires
                x < self.width,
                y < self.height,
        ;
        assert(self.width * self.height <= u32::MAX * u32::MAX) by (nonlinear_arith);
        let row_start: u64 = y as u64 * self.width as u64;
        row_start + x as u64
    }
}

/// Numbering the pixels row by row visits each pixel once: the pixel of a
/// number gives that number back, and the number of a pixel gives that pixel.
pub proof fn lemma_pixel_numbering_round_trip(raster: Raster, index: nat, x: nat, y: nat)
    requires
        index < raster.width * raster.height,
        x < raster.width,
        y < raster.height,
    ensures
        index_of(
            raster.width as nat,
            pixel_of(raster.width as nat, index).0,
            pixel_of(raster.width as nat, index).1,
        ) == index,
        pixel_of(raster.width as nat, index_of(raster.width as nat, x, y)) == (x, y),
{
    let w = raster.width as nat;
    assert(w > 0) by (nonlinear_arith)
        requires
            index < raster.width * raster.height,
            w == raster.width,
    ;
    assert((index / w) * w + index % w == index) by (nonlinear_arith)
        requires
            w > 0,
    ;
    assert((y * w + x) % w == x && (y * w + x) / w == y) by (nonlinear_arith)
        requires
            w > 0,
            x < w,
    ;
}

} // verus!
