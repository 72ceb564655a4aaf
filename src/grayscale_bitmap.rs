//! An 8-bit grayscale bitmap without bounds checks of its own: the caller keeps
//! coordinates inside the image.
use crate::grayscale8_bitmap::{lemma_area_bound, lemma_pixel_index, pixel_index};
use vstd::prelude::*;

verus! {

/// An 8-bit grayscale bitmap; a new one is black.
#[derive(Debug)]
pub struct GrayscaleBitmap {
    width: u16,
    height: u16,
    data: Vec<u8>,
}

impl GrayscaleBitmap {
    pub closed spec fn spec_width(&self) -> int {
        self.width as int
    }

    pub closed spec fn spec_height(&self) -> int {
        self.height as int
    }

    pub closed spec fn pixels(&self) -> Seq<u8> {
        self.data@
    }

    pub open spec fn wf(&self) -> bool {
        self.pixels().len() == self.spec_width() * self.spec_height()
    }

    pub open spec fn pixel(&self, x: int, y: int) -> u8 {
        self.pixels()[pixel_index(self.spec_width(), x, y)]
    }

    /// A black bitmap of the given size.
    pub fn new(width: u16, height: u16) -> (r: GrayscaleBitmap)
        ensures
            r.wf(),
            r.spec_width() == width,
            r.spec_height() == height,
            forall|i: int| 0 <= i < r.pixels().len() ==> #[trigger] r.pixels()[i] == 0,
    {
        proof {
            lemma_area_bound(width as int, height as int);
        }
        GrayscaleBitmap { width, height, data: vec![0u8; width as usize * height as usize] }
    }

    pub fn width(&self) -> (r: u16)
        ensures
            r == self.spec_width(),
    {
        self.width
    }

    pub fn height(&self) -> (r: u16)
        ensures
            r == self.spec_height(),
    {
        self.height
    }

    /// The value of the pixel at `(x, y)`.
    pub fn get_pixel(&self, x: u16, y: u16) -> (r: u8)
        requires
            self.wf(),
            x < self.spec_width(),
            y < self.spec_height(),
        ensures
            r == self.pixel(x as int, y as int),
    {
        proof {
            lemma_pixel_index(self.spec_width(), self.spec_height(), x as int, y as int);
        }
        let index = y as usize * self.width as usize + x as usize;
        self.data[index]
    }

    /// Sets the pixel at `(x, y)` to `value`.
    pub fn set_pixel(&mut self, x: u16, y: u16, value: u8)
        requires
            old(self).wf(),
            x < old(self).spec_width(),
            y < old(self).spec_height(),
        ensures
            final(self).wf(),
            final(self).spec_width() == old(self).spec_width(),
            final(self).spec_height() == old(self).spec_height(),
            final(self).pixels() == old(self).pixels().update(
                pixel_index(old(self).spec_width(), x as int, y as int),
                value,
            ),
    {
        proof {
            lemma_pixel_index(self.spec_width(), self.spec_height(), x as int, y as int);
        }
        let index = y as usize * self.width as usize + x as usize;
        self.data.set(index, value);
    }
}

} // verus!
