//! An elevation tile as read from an HGT file: big-endian 16-bit heights,
//! row by row from the north-west corner, and the tile's name.
use crate::errors::SionError;
use crate::text::{parse_i16_in, parse_i16_spec};
use crate::types::{signed16};
use vstd::prelude::*;
use vstd::string::StrSliceExecFns;
use vstd::utf8::is_ascii_chars;

verus! {

/// The height stored big-endian in bytes `hi` and `lo`.
pub open spec fn height_from_bytes(hi: u8, lo: u8) -> int {
    signed16(hi as int * 0x100 + lo as int)
}

/// The (longitude, latitude) that a tile name such as `N46E006` or `S46W123`
/// gives: seven ASCII characters, `N` or `S`, a two-character latitude, `E`
/// or `W`, a three-character longitude.
pub open spec fn tile_name_spec(s: Seq<char>) -> Option<(int, int)> {
    if !is_ascii_chars(s) || s.len() != 7 || !(s[0] == 'N' || s[0] == 'S') || !(s[3] == 'E'
        || s[3] == 'W') {
        None
    } else {
        let lat_sign: int = if s[0] == 'N' {
            1
        } else {
            -1
        };
        let lon_sign: int = if s[3] == 'E' {
            1
        } else {
            -1
        };
        match (parse_i16_spec(s.subrange(1, 3)), parse_i16_spec(s.subrange(4, 7))) {
            (Some(lat), Some(lon)) => Some((lon_sign * lon, lat_sign * lat)),
            _ => None,
        }
    }
}

pub struct DemTile {
    lon: i16,
    lat: i16,
    size: usize,
    data: Vec<u8>,
}

impl DemTile {
    pub closed spec fn bytes(&self) -> Seq<u8> {
        self.data@
    }

    pub closed spec fn spec_lon(&self) -> i16 {
        self.lon
    }

    pub closed spec fn spec_lat(&self) -> i16 {
        self.lat
    }

    /// Cells per row (and rows).
    pub closed spec fn spec_size(&self) -> usize {
        self.size
    }

    pub fn lon(&self) -> (r: i16)
        ensures
            r == self.spec_lon(),
    {
        self.lon
    }

    pub fn lat(&self) -> (r: i16)
        ensures
            r == self.spec_lat(),
    {
        self.lat
    }

    pub fn size(&self) -> (r: usize)
        ensures
            r == self.spec_size(),
    {
        self.size
    }

    /// The height at byte offset `2 * index`.
    pub open spec fn height_spec(&self, index: int) -> int {
        height_from_bytes(self.bytes()[2 * index], self.bytes()[2 * index + 1])
    }

    /// The number of bytes of height data.
    pub fn byte_len(&self) -> (r: usize)
        ensures
            r == self.bytes().len(),
    {
        self.data.len()
    }

    pub fn new(lon: i16, lat: i16, size: usize, data: Vec<u8>) -> (r: DemTile)
        ensures
            r.spec_lon() == lon,
            r.spec_lat() == lat,
            r.spec_size() == size,
            r.bytes() == data@,
    {
        DemTile { lon, lat, size, data }
    }

    /// The height of cell `(x, y)`, rows counted from the north.
    pub fn height_at(&self, x: u16, y: u16) -> (r: i16)
        requires
            2 * (y * self.spec_size() + x) + 1 < self.bytes().len(),
        ensures
            r == self.height_spec(y * self.spec_size() + x),
    {
        let n = self.data.len();
        proof {
            assert(0 <= y * self.spec_size() <= y * self.spec_size() + x) by (nonlinear_arith)
                requires
                    y >= 0,
                    self.spec_size() >= 0,
                    x >= 0,
            ;
        }
        self.height_at_index(y as usize * self.size + x as usize)
    }

    /// The height of the `index`-th cell in row-major order.
    pub fn height_at_index(&self, index: usize) -> (r: i16)
        requires
            2 * index + 1 < self.bytes().len(),
        ensures
            r == self.height_spec(index as int),
    {
        let n = self.data.len();
        assert(2 * index + 1 < n);
        let byte_offset = index * 2;
        let hi = self.data[byte_offset] as i32;
        let lo = self.data[byte_offset + 1] as i32;
        let u = hi * 0x100 + lo;
        if u >= 0x8000 {
            (u - 0x10000) as i16
        } else {
            u as i16
        }
    }

    /// Reads the longitude and latitude from a tile name such as `N46E006`.
    pub fn parse_tile_name(tile_name: &str) -> (r: Result<(i16, i16), SionError>)
        ensures
            match tile_name_spec(tile_name@) {
                Some((lon, lat)) => r matches Ok(p) && p.0 == lon && p.1 == lat,
                None => r matches Err(e) && e.message@ == "Invalid tile name"@,
            },
    {
        if !tile_name.is_ascii() || tile_name.unicode_len() != 7 {
            return Err(SionError::new("Invalid tile name"));
        }
        let lat_sign: i16 = match tile_name.get_char(0) {
            'N' => 1,
            'S' => -1,
            _ => {
                return Err(SionError::new("Invalid tile name"));
            },
        };
        let lat = match parse_i16_in(tile_name, 1, 3) {
            Some(v) => v,
            None => {
                return Err(SionError::new("Invalid tile name"));
            },
        };
        let lon_sign: i16 = match tile_name.get_char(3) {
            'E' => 1,
            'W' => -1,
            _ => {
                return Err(SionError::new("Invalid tile name"));
            },
        };
        let lon = match parse_i16_in(tile_name, 4, 7) {
            Some(v) => v,
            None => {
                return Err(SionError::new("Invalid tile name"));
            },
        };
        proof {
            crate::text::lemma_short_parse_bound(tile_name@.subrange(1, 3));
            crate::text::lemma_short_parse_bound(tile_name@.subrange(4, 7));
        }
        Ok((lon_sign * lon, lat_sign * lat))
    }
}

} // verus!
