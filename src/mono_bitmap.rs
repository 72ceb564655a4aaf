//! A monochrome bitmap, eight pixels to a byte, rows padded to whole bytes.
use crate::arith::lemma_floor_unique;
use vstd::prelude::*;

verus! {

/// Bit `k` (0 is the least significant) of byte `b` is set.
pub open spec fn bit_set(b: u8, k: u8) -> bool {
    b & (1u8 << k) != 0
}

pub proof fn lemma_set_bit(b: u8, k: u8, j: u8)
    requires
        k < 8,
        j < 8,
    ensures
        bit_set(b | (1u8 << k), j) == (j == k || bit_set(b, j)),
        bit_set(b & !(1u8 << k), j) == (j != k && bit_set(b, j)),
{
    assert((b | (1u8 << k)) & (1u8 << j) != 0 <==> (j == k || b & (1u8 << j) != 0))
        by (bit_vector)
        requires
            k < 8,
            j < 8,
    ;
    assert((b & !(1u8 << k)) & (1u8 << j) != 0 <==> (j != k && b & (1u8 << j) != 0))
        by (bit_vector)
        requires
            k < 8,
            j < 8,
    ;
}

pub proof fn lemma_zero_byte(j: u8)
    requires
        j < 8,
    ensures
        !bit_set(0u8, j),
{
    assert(0u8 & (1u8 << j) == 0) by (bit_vector);
}

/// Two pixels of one row share a byte exactly when their columns do, divided by eight.
proof fn lemma_byte_index(wb: int, x: int, y: int, x2: int, y2: int)
    requires
        wb > 0,
        0 <= x / 8 < wb,
        0 <= x2 / 8 < wb,
        0 <= x,
        0 <= x2,
        y * wb + x / 8 == y2 * wb + x2 / 8,
    ensures
        y == y2,
        x / 8 == x2 / 8,
{
    lemma_floor_unique(y * wb + x / 8, wb, y);
    lemma_floor_unique(y2 * wb + x2 / 8, wb, y2);
}

/// A monochrome bitmap; a new one has every pixel off.
pub struct MonoBitmap {
    width: u16,
    height: u16,
    data: Vec<u8>,
    /// The number of bytes per row.
    width_bytes: u16,
}

/// A plain bitmap is a monochrome one.
pub type Bitmap = MonoBitmap;

impl MonoBitmap {
    pub closed spec fn bytes(&self) -> Seq<u8> {
        self.data@
    }

    pub closed spec fn row_bytes(&self) -> int {
        self.width_bytes as int
    }

    pub closed spec fn spec_width(&self) -> int {
        self.width as int
    }

    pub closed spec fn spec_height(&self) -> int {
        self.height as int
    }

    pub open spec fn wf(&self) -> bool {
        &&& self.row_bytes() == (self.spec_width() + 7) / 8
        &&& self.bytes().len() == self.row_bytes() * self.spec_height()
    }

    /// The byte that holds pixel `(x, y)`.
    pub open spec fn byte_index(&self, x: int, y: int) -> int {
        y * self.row_bytes() + x / 8
    }

    /// Pixel `(x, y)` is on.
    pub open spec fn pixel(&self, x: int, y: int) -> bool {
        bit_set(self.bytes()[self.byte_index(x, y)], (x % 8) as u8)
    }

    proof fn lemma_byte_in_range(&self, x: int, y: int)
        requires
            self.wf(),
            0 <= x < self.spec_width(),
            0 <= y < self.spec_height(),
        ensures
            0 <= x / 8 < self.row_bytes(),
            0 <= self.byte_index(x, y) < self.bytes().len(),
            0 <= y * self.row_bytes() <= self.byte_index(x, y),
            self.bytes().len() <= 8192 * 65535,
    {
        assert(self.row_bytes() * self.spec_height() <= 8192 * 65535) by (nonlinear_arith)
            requires
                self.row_bytes() == (self.spec_width() + 7) / 8,
                self.spec_width() <= 65535,
                0 <= self.spec_height() <= 65535,
        ;
        let wb = self.row_bytes();
        let h = self.spec_height();
        assert(0 <= y * wb + x / 8 < wb * h) by (nonlinear_arith)
            requires
                0 <= x / 8 < wb,
                0 <= y < h,
        ;
    }

    /// A bitmap of the given size with every pixel off.
    pub fn new(width: u16, height: u16) -> (r: MonoBitmap)
        ensures
            r.wf(),
            r.spec_width() == width,
            r.spec_height() == height,
            forall|x: int, y: int|
                0 <= x < width && 0 <= y < height ==> !#[trigger] r.pixel(x, y),
    {
        let width_bytes = ((width as u32 + 7) / 8) as u16;
        proof {
            assert(width_bytes as int * height as int <= 8192 * 65535) by (nonlinear_arith)
                requires
                    width_bytes <= 8192,
                    height <= 65535,
            ;
        }
        let data = vec![0u8; width_bytes as usize * height as usize];
        let r = MonoBitmap { width, height, data, width_bytes };
        proof {
            assert forall|x: int, y: int| 0 <= x < width && 0 <= y < height implies !#[trigger] r.pixel(
                x,
                y,
            ) by {
                r.lemma_byte_in_range(x, y);
                lemma_zero_byte((x % 8) as u8);
            }
        }
        r
    }

    pub fn width(&self) -> (r: u16)
        ensures
            r == self.spec_width(),
    {
        self.width
    }

    pub fn height(&self) -> (r: u16)
        ensures
            r == self.spec_height(),
    {
        self.height
    }

    pub fn width_bytes(&self) -> (r: u16)
        ensures
            r == self.row_bytes(),
    {
        self.width_bytes
    }

    pub fn data(&self) -> (r: &[u8])
        ensures
            r@ == self.bytes(),
    {
        self.data.as_slice()
    }

    /// Turns the pixel at `(x, y)` on or off.
    pub fn set_pixel(&mut self, x: u16, y: u16, value: bool)
        requires
            old(self).wf(),
            x < old(self).spec_width(),
            y < old(self).spec_height(),
        ensures
            final(self).wf(),
            final(self).spec_width() == old(self).spec_width(),
            final(self).spec_height() == old(self).spec_height(),
            forall|x2: int, y2: int|
                0 <= x2 < old(self).spec_width() && 0 <= y2 < old(self).spec_height() ==> #[trigger] final(self).pixel(
                    x2,
                    y2,
                ) == if x2 == x && y2 == y {
                    value
                } else {
                    old(self).pixel(x2, y2)
                },
    {
        proof {
            self.lemma_byte_in_range(x as int, y as int);
        }
        let byte_index = y as usize * self.width_bytes as usize + (x / 8) as usize;
        let bit_index = (x % 8) as u8;
        let mask: u8 = 1u8 << bit_index;
        let old_byte = self.data[byte_index];
        let new_byte = if value {
            old_byte | mask
        } else {
            old_byte & !mask
        };
        self.data.set(byte_index, new_byte);
        proof {
            let s0 = *old(self);
            assert forall|x2: int, y2: int|
                0 <= x2 < s0.spec_width() && 0 <= y2 < s0.spec_height() implies #[trigger] self.pixel(x2, y2) == if x2
                == x && y2 == y {
                value
            } else {
                s0.pixel(x2, y2)
            } by {
                s0.lemma_byte_in_range(x2, y2);
                lemma_set_bit(old_byte, bit_index, (x2 % 8) as u8);
                if s0.byte_index(x2, y2) == byte_index {
                    lemma_byte_index(s0.row_bytes(), x as int, y as int, x2, y2);
                }
            }
        }
    }

    /// Whether the pixel at `(x, y)` is on.
    pub fn get_pixel(&self, x: u16, y: u16) -> (r: bool)
        requires
            self.wf(),
            x < self.spec_width(),
            y < self.spec_height(),
        ensures
            r == self.pixel(x as int, y as int),
    {
        proof {
            self.lemma_byte_in_range(x as int, y as int);
        }
        let byte_index = y as usize * self.width_bytes as usize + (x / 8) as usize;
        let bit_index = (x % 8) as u8;
        let mask: u8 = 1u8 << bit_index;
        self.data[byte_index] & mask != 0
    }
}

} // verus!
