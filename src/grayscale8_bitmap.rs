//! An 8-bit grayscale bitmap, one byte per pixel in row-major order.
use crate::arith::lemma_floor_unique;
use vstd::prelude::*;

verus! {

/// Row-major index of pixel `(x, y)` in an image `w` pixels wide.
pub open spec fn pixel_index(w: int, x: int, y: int) -> int {
    y * w + x
}

pub proof fn lemma_pixel_index(w: int, h: int, x: int, y: int)
    requires
        0 <= x < w,
        0 <= y < h,
        w <= 65535,
        h <= 65535,
    ensures
        0 <= pixel_index(w, x, y) < w * h,
        w * h <= 65535 * 65535,
        0 <= y * w <= pixel_index(w, x, y),
        pixel_index(w, x, y) % w == x,
        pixel_index(w, x, y) / w == y,
{
    assert(0 <= y * w && y * w + x < w * h <= 65535 * 65535) by (nonlinear_arith)
        requires
            0 <= x < w,
            0 <= y < h,
            w <= 65535,
            h <= 65535,
    ;
    lemma_floor_unique(y * w + x, w, y);
}

pub proof fn lemma_area_bound(w: int, h: int)
    requires
        0 <= w <= 65535,
        0 <= h <= 65535,
    ensures
        0 <= w * h <= 65535 * 65535,
{
    assert(0 <= w * h <= 65535 * 65535) by (nonlinear_arith)
        requires
            0 <= w <= 65535,
            0 <= h <= 65535,
    ;
}

/// An 8-bit grayscale bitmap; a new one is black.
#[derive(Debug)]
pub struct Grayscale8Bitmap {
    width: u16,
    height: u16,
    data: Vec<u8>,
}

impl Grayscale8Bitmap {
    pub closed spec fn spec_width(&self) -> int {
        self.width as int
    }

    pub closed spec fn spec_height(&self) -> int {
        self.height as int
    }

    pub closed spec fn pixels(&self) -> Seq<u8> {
        self.data@
    }

    pub open spec fn wf(&self) -> bool {
        self.pixels().len() == self.spec_width() * self.spec_height()
    }

    pub open spec fn pixel(&self, x: int, y: int) -> u8 {
        self.pixels()[pixel_index(self.spec_width(), x, y)]
    }

    /// A black bitmap of the given size.
    pub fn new(width: u16, height: u16) -> (r: Grayscale8Bitmap)
        ensures
            r.wf(),
            r.spec_width() == width,
            r.spec_height() == height,
            forall|i: int| 0 <= i < r.pixels().len() ==> #[trigger] r.pixels()[i] == 0,
    {
        proof {
            lemma_area_bound(width as int, height as int);
        }
        Grayscale8Bitmap { width, height, data: vec![0u8; width as usize * height as usize] }
    }

    pub fn width(&self) -> (r: u16)
        ensures
            r == self.spec_width(),
    {
        self.width
    }

    pub fn height(&self) -> (r: u16)
        ensures
            r == self.spec_height(),
    {
        self.height
    }

    /// The pixels in row-major order.
    pub fn data(&self) -> (r: &[u8])
        ensures
            r@ == self.pixels(),
    {
        self.data.as_slice()
    }

    /// The pixels in row-major order, for writing in place.
    pub fn data_mut(&mut self) -> (r: &mut [u8])
        ensures
            r@ == old(self).pixels(),
            final(r)@ == final(self).pixels(),
            final(self).spec_width() == old(self).spec_width(),
            final(self).spec_height() == old(self).spec_height(),
    {
        self.data.as_mut_slice()
    }

    /// The value of the pixel at `(x, y)`.
    pub fn get_pixel(&self, x: u16, y: u16) -> (r: u8)
        requires
            self.wf(),
            x < self.spec_width(),
            y < self.spec_height(),
        ensures
            r == self.pixel(x as int, y as int),
    {
        proof {
            lemma_pixel_index(self.spec_width(), self.spec_height(), x as int, y as int);
        }
        let index = y as usize * self.width as usize + x as usize;
        self.data[index]
    }

    /// Sets the pixel at `(x, y)` to `value`.
    pub fn set_pixel(&mut self, x: u16, y: u16, value: u8)
        requires
            old(self).wf(),
            x < old(self).spec_width(),
            y < old(self).spec_height(),
        ensures
            final(self).wf(),
            final(self).spec_width() == old(self).spec_width(),
            final(self).spec_height() == old(self).spec_height(),
            final(self).pixels() == old(self).pixels().update(
                pixel_index(old(self).spec_width(), x as int, y as int),
                value,
            ),
    {
        proof {
            lemma_pixel_index(self.spec_width(), self.spec_height(), x as int, y as int);
        }
        let index = y as usize * self.width as usize + x as usize;
        self.data.set(index, value);
    }

    /// A copy of the `width` by `height` region whose top-left corner is `(x, y)`.
    pub fn extract(&self, x: u16, y: u16, width: u16, height: u16) -> (r: Grayscale8Bitmap)
        requires
            self.wf(),
            x + width <= self.spec_width(),
            y + height <= self.spec_height(),
        ensures
            r.wf(),
            r.spec_width() == width,
            r.spec_height() == height,
            forall|i: int, j: int|
                0 <= i < width && 0 <= j < height ==> #[trigger] r.pixel(i, j) == self.pixel(
                    x + i,
                    y + j,
                ),
    {
        let mut extracted: Vec<u8> = Vec::new();
        let mut row: u16 = 0;
        while row < height
            invariant
                self.wf(),
                x + width <= self.spec_width(),
                y + height <= self.spec_height(),
                0 <= row <= height,
                extracted@.len() == row * width,
                forall|i: int, j: int|
                    0 <= i < width && 0 <= j < row ==> #[trigger] extracted@[pixel_index(
                        width as int,
                        i,
                        j,
                    )] == self.pixel(x + i, y + j),
            decreases height - row,
        {
            let mut col: u16 = 0;
            while col < width
                invariant
                    self.wf(),
                    x + width <= self.spec_width(),
                    y + height <= self.spec_height(),
                    0 <= row < height,
                    0 <= col <= width,
                    extracted@.len() == row * width + col,
                    forall|i: int, j: int|
                        (0 <= i < width && 0 <= j < row) || (0 <= i < col && j == row)
                            ==> #[trigger] extracted@[pixel_index(width as int, i, j)]
                            == self.pixel(x + i, y + j),
                decreases width - col,
            {
                let value = self.get_pixel(x + col, y + row);
                proof {
                    lemma_pixel_index(width as int, height as int, col as int, row as int);
                }
                extracted.push(value);
                proof {
                    assert forall|i: int, j: int|
                        (0 <= i < width && 0 <= j < row) || (0 <= i < col + 1 && j == row)
                            implies #[trigger] extracted@[pixel_index(width as int, i, j)]
                        == self.pixel(x + i, y + j) by {
                        lemma_pixel_index(width as int, height as int, i, j);
                        if j < row {
                            assert(pixel_index(width as int, i, j) < row * width) by (
                            nonlinear_arith)
                                requires
                                    0 <= i < width,
                                    0 <= j < row,
                            ;
                        }
                    }
                }
                col += 1;
            }
            proof {
                assert((row + 1) * width == row * width + width) by (nonlinear_arith);
            }
            row += 1;
        }
        proof {
            lemma_area_bound(width as int, height as int);
            assert(height * width == width * height) by (nonlinear_arith);
        }
        Grayscale8Bitmap { width, height, data: extracted }
    }
}

} // verus!
