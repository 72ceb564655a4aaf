//! The packed cell value: two 16-bit global cell coordinates in one `i32`.
//!
//! The latitude cell fills the high 16 bits and the longitude cell the low 16
//! bits, the same bits as `(lat << 16) | (lon & 0xFFFF)`. Both coordinates are
//! kept strictly inside the `i16` range, so the pattern of `i32::MIN`
//! (latitude `i16::MIN`) never encodes a cell and marks an empty one.
use crate::arith::{floor_div_i64, floor_mod_i64, lemma_floor_bounds, lemma_floor_unique};
use crate::types::{signed16, GlobalCell};
use vstd::prelude::*;

verus! {

/// The value of a cell that holds no data yet.
pub const EMPTY_CELL: i32 = -2147483648;

/// A coordinate that the packed form holds: strictly inside the `i16` range.
pub open spec fn valid_cell_coord(v: int) -> bool {
    -0x8000 < v < 0x7FFF
}

/// The packed value of a cell: latitude in the high half, longitude bits in the low half.
pub open spec fn pack_cell(lon: int, lat: int) -> int {
    lat * 0x10000 + lon % 0x10000
}

/// The longitude cell read back from the low 16 bits.
pub open spec fn unpack_lon(v: int) -> int {
    signed16(v % 0x10000)
}

/// The latitude cell read back from the high 16 bits.
pub open spec fn unpack_lat(v: int) -> int {
    v / 0x10000
}

/// A packed value whose two halves are both coordinates that can be packed.
pub open spec fn is_valid_packed(v: int) -> bool {
    valid_cell_coord(unpack_lon(v)) && valid_cell_coord(unpack_lat(v))
}

/// Packing and unpacking are inverse, every packed value fits in an `i32`,
/// and none of them is the empty marker.
pub proof fn lemma_pack_cell(lon: int, lat: int)
    requires
        valid_cell_coord(lon),
        valid_cell_coord(lat),
    ensures
        unpack_lon(pack_cell(lon, lat)) == lon,
        unpack_lat(pack_cell(lon, lat)) == lat,
        i32::MIN < pack_cell(lon, lat) <= i32::MAX,
        is_valid_packed(pack_cell(lon, lat)),
{
    let m = lon % 0x10000;
    lemma_floor_bounds(lon, 0x10000);
    let v = pack_cell(lon, lat);
    lemma_floor_unique(v, 0x10000, lat);
    if lon >= 0 {
        lemma_floor_unique(lon, 0x10000, 0);
    } else {
        lemma_floor_unique(lon, 0x10000, -1);
    }
}

/// The empty marker is not a valid packed cell.
pub proof fn lemma_empty_is_not_valid()
    ensures
        !is_valid_packed(EMPTY_CELL as int),
{
    lemma_floor_unique(EMPTY_CELL as int, 0x10000, -0x8000);
}

/// A cell value packed from a longitude and a latitude global cell.
#[derive(Clone, Copy, Debug)]
pub struct CellKey {
    value: i32,
}

impl View for CellKey {
    type V = int;

    closed spec fn view(&self) -> int {
        self.value as int
    }
}

impl CellKey {
    pub open spec fn is_valid(self) -> bool {
        is_valid_packed(self@)
    }

    /// Packs two global cells; both must lie strictly inside the `i16` range.
    pub fn from_cell_coords(x: &GlobalCell, y: &GlobalCell) -> (r: Self)
        requires
            valid_cell_coord(x.value as int),
            valid_cell_coord(y.value as int),
        ensures
            r@ == pack_cell(x.value as int, y.value as int),
            unpack_lon(r@) == x.value,
            unpack_lat(r@) == y.value,
            r.is_valid(),
            r@ != EMPTY_CELL,
    {
        proof {
            lemma_pack_cell(x.value as int, y.value as int);
            lemma_empty_is_not_valid();
        }
        let low = floor_mod_i64(x.value as i64, 0x10000);
        let value = y.value as i64 * 0x10000 + low;
        CellKey { value: value as i32 }
    }

    pub fn from_i32(value: i32) -> (r: Self)
        ensures
            r@ == value,
    {
        CellKey { value }
    }

    /// Unpacks the longitude and latitude cells of a valid key.
    pub fn to_cell_coords(&self) -> (r: (GlobalCell, GlobalCell))
        requires
            self.is_valid(),
        ensures
            r.0.value == unpack_lon(self@),
            r.1.value == unpack_lat(self@),
    {
        let low = floor_mod_i64(self.value as i64, 0x10000);
        proof {
            lemma_floor_bounds(self@, 0x10000);
        }
        let x = if low >= 0x8000 {
            low - 0x10000
        } else {
            low
        };
        let y = floor_div_i64(self.value as i64, 0x10000);
        (GlobalCell::new(x as i32), GlobalCell::new(y as i32))
    }

    /// Unpacks the two cells, or `None` when either half is out of range
    /// (an empty cell among them).
    pub fn try_to_cell_coords(&self) -> (r: Option<(GlobalCell, GlobalCell)>)
        ensures
            r is Some <==> self.is_valid(),
            r matches Some(c) ==> c.0.value == unpack_lon(self@) && c.1.value == unpack_lat(
                self@,
            ),
    {
        let low = floor_mod_i64(self.value as i64, 0x10000);
        proof {
            lemma_floor_bounds(self@, 0x10000);
        }
        let x = if low >= 0x8000 {
            low - 0x10000
        } else {
            low
        };
        let y = floor_div_i64(self.value as i64, 0x10000);
        if x <= -0x8000 || x >= 0x7FFF || y <= -0x8000 || y >= 0x7FFF {
            None
        } else {
            Some((GlobalCell::new(x as i32), GlobalCell::new(y as i32)))
        }
    }

    pub fn to_i32(&self) -> (r: i32)
        ensures
            r == self@,
    {
        self.value
    }

    /// The key of an empty cell.
    pub fn empty() -> (r: Self)
        ensures
            r@ == EMPTY_CELL,
            !r.is_valid(),
    {
        proof {
            lemma_empty_is_not_valid();
        }
        CellKey { value: EMPTY_CELL }
    }
}

} // verus!
