//! The raster: a width x height grid of 3-channel 8-bit pixels, stored
//! row-major as packed RGB byte triples. Grayscale pixels are written as
//! equal R = G = B. The buffer starts zeroed (black) and is filled by the
//! renderer; ownership of the raw bytes is handed out once at save time.

use vstd::prelude::*;
use vstd::pervasive::VecAdditionalExecFns;

verus! {

/// Byte offset of the first channel of pixel (x, y) in a row-major
/// RGB buffer of the given width.
pub open spec fn pixel_index(x: int, y: int, width: int) -> int {
    3 * (y * width + x)
}

/// The first channel of pixel (x, y) lies within a 3 * width * height
/// byte buffer whenever the pixel is in range.
pub proof fn lemma_pixel_index_bounds(x: int, y: int, width: int, height: int)
    requires
        0 <= x < width,
        0 <= y < height,
    ensures
        0 <= pixel_index(x, y, width),
        pixel_index(x, y, width) + 2 < 3 * width * height,
{
    assert(0 <= y * width + x && y * width + x < width * height) by (nonlinear_arith)
        requires
            0 <= x < width,
            0 <= y < height,
    ;
    assert(3 * (y * width + x) + 2 < 3 * (width * height)) by (nonlinear_arith)
        requires
            y * width + x < width * height,
    ;
    assert(3 * (width * height) == 3 * width * height) by (nonlinear_arith);
}

/// Distinct in-range pixels occupy distinct (and disjoint) byte triples.
pub proof fn lemma_pixel_index_injective(x1: int, y1: int, x2: int, y2: int, width: int)
    requires
        0 <= x1 < width,
        0 <= x2 < width,
        0 <= y1,
        0 <= y2,
        !(x1 == x2 && y1 == y2),
    ensures
        y1 * width + x1 != y2 * width + x2,
{
    assert(y1 * width + x1 != y2 * width + x2) by (nonlinear_arith)
        requires
            0 <= x1 < width,
            0 <= x2 < width,
            0 <= y1,
            0 <= y2,
            !(x1 == x2 && y1 == y2),
    ;
}

/// A raster image buffer of packed RGB bytes.
pub struct Raster {
    width: u32,
    height: u32,
    data: Vec<u8>,
}

impl Raster {
    pub closed spec fn spec_width(self) -> u32 {
        self.width
    }

    pub closed spec fn spec_height(self) -> u32 {
        self.height
    }

    /// The underlying packed bytes, row-major, three per pixel.
    pub closed spec fn bytes(self) -> Seq<u8> {
        self.data@
    }

    /// Well-formed: the buffer holds exactly three bytes per pixel.
    pub open spec fn wf(self) -> bool {
        self.bytes().len() == 3 * (self.spec_width() as int) * (self.spec_height() as int)
    }

    /// The (R, G, B) value of pixel (x, y).
    pub open spec fn pixel(self, x: int, y: int) -> (u8, u8, u8) {
        let base = pixel_index(x, y, self.spec_width() as int);
        (self.bytes()[base], self.bytes()[base + 1], self.bytes()[base + 2])
    }

    /// A fresh raster of the given dimensions with every byte zero, so
    /// every pixel black.
    pub fn new(width: u32, height: u32) -> (r: Raster)
        requires
            3 * (width as int) * (height as int) <= usize::MAX as int,
        ensures
            r.wf(),
            r.spec_width() == width,
            r.spec_height() == height,
            forall|x: int, y: int|
                0 <= x < width && 0 <= y < height ==> r.pixel(x, y) == (0u8, 0u8, 0u8),
    {
        proof {
            assert((width as int) * (height as int) <= 3 * (width as int) * (height as int)
                && 3 * ((width as int) * (height as int)) == 3 * (width as int) * (height as int))
                by (nonlinear_arith);
        }
        let len: usize = 3 * ((width as usize) * (height as usize));
        let mut data: Vec<u8> = Vec::new();
        let mut i: usize = 0;
        while i < len
            invariant
                i <= len,
                data@.len() == i,
                forall|k: int| 0 <= k < i ==> data@[k] == 0u8,
            decreases len - i,
        {
            data.push(0u8);
            i = i + 1;
        }
        let r = Raster { width, height, data };
        proof {
            assert forall|x: int, y: int|
                0 <= x < width && 0 <= y < height implies r.pixel(x, y) == (0u8, 0u8, 0u8) by {
                lemma_pixel_index_bounds(x, y, width as int, height as int);
            }
        }
        r
    }

    pub fn width(&self) -> (r: u32)
        ensures
            r == self.spec_width(),
    {
        self.width
    }

    pub fn height(&self) -> (r: u32)
        ensures
            r == self.spec_height(),
    {
        self.height
    }

    /// Write the grayscale level into all three channels of pixel (x, y),
    /// leaving every other pixel as it was.
    pub fn set_gray(&mut self, x: u32, y: u32, level: u8)
        requires
            old(self).wf(),
            x < old(self).spec_width(),
            y < old(self).spec_height(),
        ensures
            final(self).wf(),
            final(self).spec_width() == old(self).spec_width(),
            final(self).spec_height() == old(self).spec_height(),
            final(self).pixel(x as int, y as int) == (level, level, level),
            forall|i: int, j: int|
                0 <= i < final(self).spec_width() && 0 <= j < final(self).spec_height() && !(i
                    == x && j == y) ==> final(self).pixel(i, j) == old(self).pixel(i, j),
    {
        let w = self.width;
        let h = self.height;
        proof {
            lemma_pixel_index_bounds(x as int, y as int, w as int, h as int);
        }
        let n: usize = self.data.len();
        let base: usize = 3 * ((y as usize) * (w as usize) + (x as usize));
        self.data.set(base, level);
        self.data.set(base + 1, level);
        self.data.set(base + 2, level);
        proof {
            let wi = w as int;
            let b = pixel_index(x as int, y as int, wi);
            assert forall|i: int, j: int|
                0 <= i < self.spec_width() && 0 <= j < self.spec_height() && !(i == x && j == y)
                    implies self.pixel(i, j) == old(self).pixel(i, j) by {
                lemma_pixel_index_injective(i, j, x as int, y as int, wi);
                let l1 = j * wi + i;
                let l2 = (y as int) * wi + (x as int);
                assert(3 * l1 + 2 < 3 * l2 || 3 * l2 + 2 < 3 * l1) by (nonlinear_arith)
                    requires
                        l1 != l2,
                        0 <= l1,
                        0 <= l2,
                ;
                lemma_pixel_index_bounds(i, j, wi, h as int);
            }
        }
    }

    /// Read the (R, G, B) value of pixel (x, y).
    pub fn get_pixel(&self, x: u32, y: u32) -> (r: (u8, u8, u8))
        requires
            self.wf(),
            x < self.spec_width(),
            y < self.spec_height(),
        ensures
            r == self.pixel(x as int, y as int),
    {
        proof {
            lemma_pixel_index_bounds(
                x as int,
                y as int,
                self.spec_width() as int,
                self.spec_height() as int,
            );
        }
        let n: usize = self.data.len();
        let base: usize = 3 * ((y as usize) * (self.width as usize) + (x as usize));
        (self.data[base], self.data[base + 1], self.data[base + 2])
    }

    /// Hand out the packed bytes, consuming the raster: the form an image
    /// sink takes.
    pub fn into_bytes(self) -> (r: Vec<u8>)
        ensures
            r@ == self.bytes(),
    {
        self.data
    }
}

} // verus!
