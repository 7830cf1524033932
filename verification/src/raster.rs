use vstd::prelude::*;

verus! {

/// Width of one character cell, in pixels. The renderer, the degrade path and
/// the recovery path all agree on this value; recovery breaks if they differ.
pub const CHAR_WIDTH: usize = 25;

/// Height of one character cell, in pixels.
pub const CHAR_HEIGHT: usize = 25;

/// One pixel: four 8-bit channels (red, green, blue, alpha).
#[derive(Clone, Copy, Debug, PartialEq, Eq, Structural)]
pub struct Pixel {
    pub r: u8,
    pub g: u8,
    pub b: u8,
    pub a: u8,
}

/// The background / "no content" marker: fully opaque black.
pub open spec fn is_sentinel(p: Pixel) -> bool {
    p.r == 0 && p.g == 0 && p.b == 0 && p.a == 255
}

/// Mathematical model of a raster: dimensions and a row-major pixel sequence.
#[verifier::ext_equal]
pub ghost struct ImageV {
    pub width: int,
    pub height: int,
    pub pixels: Seq<Pixel>,
}

impl ImageV {
    /// A well-formed raster has exactly `width * height` pixels.
    pub open spec fn wf(self) -> bool {
        self.width >= 0 && self.height >= 0 && self.pixels.len() == self.width * self.height
    }

    /// The pixel at column `x`, row `y` (row-major storage).
    pub open spec fn pix(self, x: int, y: int) -> Pixel {
        self.pixels[y * self.width + x]
    }
}

/// A raster image: a 2-D grid of pixels with row-major storage.
pub struct Image {
    pub width: usize,
    pub height: usize,
    pub pixels: Vec<Pixel>,
}

impl View for Image {
    type V = ImageV;

    open spec fn view(&self) -> ImageV {
        ImageV {
            width: self.width as int,
            height: self.height as int,
            pixels: self.pixels@,
        }
    }
}

impl Image {
    pub open spec fn wf(&self) -> bool {
        self@.wf()
    }

    /// Builds a raster from row-major pixel data.
    pub fn new(width: usize, height: usize, pixels: Vec<Pixel>) -> (r: Image)
        requires
            pixels@.len() == width * height,
        ensures
            r.wf(),
            r@ == (ImageV { width: width as int, height: height as int, pixels: pixels@ }),
    {
        Image { width, height, pixels }
    }

    /// The pixel at column `x`, row `y`.
    pub fn get(&self, x: usize, y: usize) -> (p: Pixel)
        requires
            self.wf(),
            x < self.width,
            y < self.height,
        ensures
            p == self@.pix(x as int, y as int),
    {
        let n = self.pixels.len();
        proof {
            assert((y as int) * (self.width as int) + x < (self.width as int) * (self.height
                as int)) by (nonlinear_arith)
                requires
                    0 <= x < self.width as int,
                    0 <= y < self.height as int,
            ;
            assert(n == self@.pixels.len());
        }
        self.pixels[y * self.width + x]
    }
}

} // verus!
