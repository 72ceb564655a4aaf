//! Coordinate types: degrees, global and tile-local cell indices, grid units
//! and tile keys, with the floor and modulo rules that connect them.
use crate::arith::{floor_div_i64, floor_mod_i64, lemma_floor_bounds, lemma_floor_unique};
use vstd::prelude::*;

verus! {

/// Degrees are held as whole micro-degrees.
pub const MICRODEGREES_PER_DEGREE: i32 = 1_000_000;

/// A grid unit is a cell divided by `2^GRID_UNITS_PER_DEM_CELL_BITS` on each axis.
pub const GRID_UNITS_PER_DEM_CELL_BITS: i32 = 8;

pub const GRID_UNITS_PER_DEM_CELL: i32 = 256;

/// The largest number of cells per degree that the conversions handle.
pub const MAX_DEM_TILE_SIZE: i32 = 1_000_000;

pub open spec fn valid_tile_size(ts: int) -> bool {
    1 <= ts <= MAX_DEM_TILE_SIZE
}

/// A degree value (in micro-degrees) that `Deg` accepts: strictly between -181 and 180 degrees.
pub open spec fn valid_degree_micro(m: int) -> bool {
    -181 * MICRODEGREES_PER_DEGREE < m < 180 * MICRODEGREES_PER_DEGREE
}

/// `floor(degrees * ts)`: the global cell that holds a point.
pub open spec fn cell_of_degrees(micro: int, ts: int) -> int {
    (micro * ts) / (MICRODEGREES_PER_DEGREE as int)
}

/// A longitude cell index brought into `[-180 * ts, 180 * ts)`.
pub open spec fn wrap_lon_cell(v: int, ts: int) -> int {
    if v < -180 * ts {
        v + 360 * ts
    } else if v >= 180 * ts {
        v - 360 * ts
    } else {
        v
    }
}

/// The degree of a cell's tile edge, `v / ts` in micro-degrees rounded down,
/// renormalised into `[-180, 180)` when the division leaves that range.
pub open spec fn tile_degrees_micro(v: int, ts: int) -> int {
    let m = (v * MICRODEGREES_PER_DEGREE) / ts;
    if m < -180 * MICRODEGREES_PER_DEGREE {
        m + 360 * MICRODEGREES_PER_DEGREE
    } else if m >= 180 * MICRODEGREES_PER_DEGREE {
        m - 360 * MICRODEGREES_PER_DEGREE
    } else {
        m
    }
}

/// The integer degree of the one-degree tile that holds cell `v`.
pub open spec fn tile_index_of(v: int, ts: int) -> int {
    tile_degrees_micro(v, ts) / (MICRODEGREES_PER_DEGREE as int)
}

/// Cells between `-540 * ts` and `540 * ts` have a tile; the tile of
/// a cell and the cell's offset in it give back the cell, wrapped.
pub proof fn lemma_tile_index_of(v: int, ts: int)
    requires
        valid_tile_size(ts),
        -540 * ts <= v < 540 * ts,
    ensures
        tile_index_of(v, ts) == wrap_lon_cell(v, ts) / ts,
        tile_index_of(v, ts) * ts + v % ts == wrap_lon_cell(v, ts),
        wrap_lon_cell(v, ts) % ts == v % ts,
        valid_degree_micro(tile_degrees_micro(v, ts)),
        -180 <= tile_index_of(v, ts) < 180,
{
    let u = MICRODEGREES_PER_DEGREE as int;
    let t = v / ts;
    lemma_floor_bounds(v, ts);
    let x = v * u;
    let m = x / ts;
    lemma_floor_bounds(x, ts);
    // t * u <= m < t * u + u
    assert(t * ts * u <= x < t * ts * u + ts * u) by (nonlinear_arith)
        requires
            t * ts <= v < t * ts + ts,
            x == v * u,
            u > 0,
    ;
    assert(t * u <= m < t * u + u) by (nonlinear_arith)
        requires
            t * ts * u <= x < t * ts * u + ts * u,
            m * ts <= x < m * ts + ts,
            ts > 0,
    ;
    lemma_floor_unique(m, u, t);
    assert(-540 <= t < 540) by (nonlinear_arith)
        requires
            t * ts <= v < t * ts + ts,
            -540 * ts <= v < 540 * ts,
            ts > 0,
    ;
    let k: int = if t < -180 {
        360
    } else if t >= 180 {
        -360
    } else {
        0
    };
    assert(m < -180 * u <==> t < -180);
    assert(m >= 180 * u <==> t >= 180);
    assert(tile_degrees_micro(v, ts) == m + k * u);
    lemma_floor_unique(m + k * u, u, t + k);
    assert(v < -180 * ts <==> t < -180) by (nonlinear_arith)
        requires
            t * ts <= v < t * ts + ts,
            ts > 0,
    ;
    assert(v >= 180 * ts <==> t >= 180) by (nonlinear_arith)
        requires
            t * ts <= v < t * ts + ts,
            ts > 0,
    ;
    if t < -180 {
        assert(wrap_lon_cell(v, ts) == v + 360 * ts);
        assert((t + 360) * ts == t * ts + 360 * ts) by (nonlinear_arith);
        lemma_floor_unique(v + 360 * ts, ts, t + 360);
    } else if t >= 180 {
        assert(wrap_lon_cell(v, ts) == v - 360 * ts);
        assert((t - 360) * ts == t * ts - 360 * ts) by (nonlinear_arith);
        lemma_floor_unique(v - 360 * ts, ts, t - 360);
    } else {
        assert(wrap_lon_cell(v, ts) == v);
    }
}

/// The cell of a valid degree value lies within `[-181 * ts, 180 * ts]`.
pub proof fn lemma_cell_of_degrees_bounds(m: int, ts: int)
    requires
        valid_degree_micro(m),
        ts > 0,
    ensures
        -181 * ts <= cell_of_degrees(m, ts) <= 180 * ts,
{
    let u = MICRODEGREES_PER_DEGREE as int;
    let p = m * ts;
    let q = p / u;
    lemma_floor_bounds(p, u);
    assert(-181 * u * ts <= p <= 180 * u * ts) by (nonlinear_arith)
        requires
            p == m * ts,
            -181 * u < m < 180 * u,
            ts > 0,
    ;
    assert(-181 * ts <= q <= 180 * ts) by (nonlinear_arith)
        requires
            -181 * u * ts <= p <= 180 * u * ts,
            q * u <= p < q * u + u,
            u > 0,
    ;
}

#[derive(Clone, Copy, Debug, PartialEq, Eq)]
pub enum CoordinateError {
    /// A degree value outside the open range (-181, 180).
    InvalidDegree,
}

/// A longitude or latitude, held in whole micro-degrees, strictly between
/// -181 and 180 degrees.
#[derive(Clone, Copy, Debug)]
pub struct Deg {
    micro: i32,
}

impl View for Deg {
    type V = int;

    closed spec fn view(&self) -> int {
        self.micro as int
    }
}

impl Deg {
    #[verifier::type_invariant]
    spec fn inv(self) -> bool {
        valid_degree_micro(self.micro as int)
    }

    /// A degree value from micro-degrees; values outside (-181, 180) degrees are refused.
    pub fn new(micro_degrees: i32) -> (r: Result<Deg, CoordinateError>)
        ensures
            r is Ok <==> valid_degree_micro(micro_degrees as int),
            r matches Ok(d) ==> d@ == micro_degrees,
    {
        if micro_degrees > -181 * MICRODEGREES_PER_DEGREE && micro_degrees < 180
            * MICRODEGREES_PER_DEGREE {
            Ok(Deg { micro: micro_degrees })
        } else {
            Err(CoordinateError::InvalidDegree)
        }
    }

    pub fn micro_degrees(&self) -> (r: i32)
        ensures
            r == self@,
            valid_degree_micro(r as int),
    {
        proof {
            use_type_invariant(self);
        }
        self.micro
    }

    /// The whole degree at or below this value.
    pub fn to_int_floor(&self) -> (r: i32)
        ensures
            r == self@ / (MICRODEGREES_PER_DEGREE as int),
            -181 <= r < 180,
    {
        proof {
            use_type_invariant(self);
            lemma_floor_bounds(self@, MICRODEGREES_PER_DEGREE as int);
        }
        floor_div_i64(self.micro as i64, MICRODEGREES_PER_DEGREE as i64) as i32
    }
}

/// A cell index along one axis, unique over the globe for a given tile size
/// (`dem_tile_size` cells per degree).
#[derive(Clone, Copy, Debug, PartialEq, Eq, Structural, PartialOrd, Ord)]
pub struct GlobalCell {
    pub value: i32,
}

impl GlobalCell {
    pub fn new(value: i32) -> (r: GlobalCell)
        ensures
            r.value == value,
    {
        GlobalCell { value }
    }

    /// `floor(degrees * dem_tile_size)`.
    pub fn from_degrees(value: &Deg, dem_tile_size: i32) -> (r: GlobalCell)
        requires
            valid_tile_size(dem_tile_size as int),
        ensures
            r.value == cell_of_degrees(value@, dem_tile_size as int),
    {
        let micro = value.micro_degrees();
        proof {
            let p = micro as int * dem_tile_size as int;
            assert(-181 * MICRODEGREES_PER_DEGREE * dem_tile_size <= p <= 180
                * MICRODEGREES_PER_DEGREE * dem_tile_size) by (nonlinear_arith)
                requires
                    p == micro as int * dem_tile_size as int,
                    valid_degree_micro(micro as int),
                    valid_tile_size(dem_tile_size as int),
            ;
            lemma_cell_of_degrees_bounds(micro as int, dem_tile_size as int);
        }
        let p = micro as i64 * dem_tile_size as i64;
        GlobalCell::new(floor_div_i64(p, MICRODEGREES_PER_DEGREE as i64) as i32)
    }

    /// The cell of a latitude tile edge plus a tile-local row, counting rows
    /// southward from the tile's northern edge.
    pub fn from_local_cell_lat(lat: &Deg, cell_y: LocalCell, dem_tile_size: i32) -> (r: GlobalCell)
        requires
            valid_tile_size(dem_tile_size as int),
            0 <= cell_y.value < dem_tile_size,
        ensures
            r.value == cell_of_degrees(lat@, dem_tile_size as int) + dem_tile_size - 1
                - cell_y.value,
    {
        let micro = lat.micro_degrees();
        let base = GlobalCell::from_degrees(lat, dem_tile_size);
        proof {
            lemma_cell_of_degrees_bounds(micro as int, dem_tile_size as int);
        }
        let v = base.value + (dem_tile_size - 1 - cell_y.value);
        GlobalCell::new(v)
    }

    /// The tile edge degree of this cell, `value / dem_tile_size`, brought
    /// back into `[-180, 180)` where the division leaves it.
    pub fn to_tile_degrees(&self, dem_tile_size: i32) -> (r: Deg)
        requires
            valid_tile_size(dem_tile_size as int),
            -540 * dem_tile_size <= self.value < 540 * dem_tile_size,
        ensures
            r@ == tile_degrees_micro(self.value as int, dem_tile_size as int),
    {
        proof {
            lemma_tile_index_of(self.value as int, dem_tile_size as int);
            let x = self.value as int * MICRODEGREES_PER_DEGREE;
            lemma_floor_bounds(x, dem_tile_size as int);
            assert(-540 * MICRODEGREES_PER_DEGREE * dem_tile_size <= x < 540
                * MICRODEGREES_PER_DEGREE * dem_tile_size) by (nonlinear_arith)
                requires
                    x == self.value as int * MICRODEGREES_PER_DEGREE,
                    -540 * dem_tile_size <= self.value < 540 * dem_tile_size,
            ;
            assert(-540 * MICRODEGREES_PER_DEGREE <= x / dem_tile_size as int <= 540
                * MICRODEGREES_PER_DEGREE) by (nonlinear_arith)
                requires
                    -540 * MICRODEGREES_PER_DEGREE * dem_tile_size <= x < 540
                        * MICRODEGREES_PER_DEGREE * dem_tile_size,
                    (x / dem_tile_size as int) * dem_tile_size <= x < (x / dem_tile_size as int)
                        * dem_tile_size + dem_tile_size,
                    dem_tile_size > 0,
            ;
        }
        let x = self.value as i64 * MICRODEGREES_PER_DEGREE as i64;
        let m = floor_div_i64(x, dem_tile_size as i64);
        let full = 360 * MICRODEGREES_PER_DEGREE as i64;
        let micro = if m < -180 * MICRODEGREES_PER_DEGREE as i64 {
            m + full
        } else if m >= 180 * MICRODEGREES_PER_DEGREE as i64 {
            m - full
        } else {
            m
        };
        Deg { micro: micro as i32 }
    }

    /// The cell's column inside its tile: `value mod dem_tile_size`, never negative.
    pub fn to_local_cell_lon(&self, dem_tile_size: i32) -> (r: LocalCell)
        requires
            dem_tile_size > 0,
        ensures
            r.value == self.value as int % dem_tile_size as int,
    {
        let m = floor_mod_i64(self.value as i64, dem_tile_size as i64);
        LocalCell::new(m as i32)
    }

    /// The cell's row inside its tile. Tile rows count southward while global
    /// latitude cells count northward: `dem_tile_size - 1 - (value mod dem_tile_size)`.
    pub fn to_local_cell_lat(&self, dem_tile_size: i32) -> (r: LocalCell)
        requires
            dem_tile_size > 0,
        ensures
            r.value == dem_tile_size - 1 - self.value as int % dem_tile_size as int,
            0 <= r.value < dem_tile_size,
    {
        let v = self.value;
        let ts = dem_tile_size;
        proof {
            lemma_floor_bounds(v as int, ts as int);
        }
        if v < 0 {
            proof {
                crate::arith::lemma_negative_floor(v as int, ts as int);
            }
            let mut a = -1 - v % ts;
            if a < 0 {
                a += ts;
            }
            LocalCell::new(a)
        } else {
            LocalCell::new(ts - 1 - v % ts)
        }
    }
}

/// A cell's position inside its tile, `0 .. dem_tile_size - 1` on each axis.
#[derive(Clone, Copy, Debug, PartialEq, Eq, Structural)]
pub struct LocalCell {
    pub value: i32,
}

impl LocalCell {
    pub fn new(value: i32) -> (r: LocalCell)
        ensures
            r.value == value,
    {
        LocalCell { value }
    }
}

/// A position in grid units, `GRID_UNITS_PER_DEM_CELL` of them per cell.
#[derive(Clone, Copy, Debug, PartialEq, Eq, Structural)]
pub struct Grid {
    pub value: i32,
}

impl Grid {
    pub fn new(value: i32) -> (r: Grid)
        ensures
            r.value == value,
    {
        Grid { value }
    }

    /// `floor(degrees * dem_tile_size * GRID_UNITS_PER_DEM_CELL)`.
    pub fn from_degrees(value: &Deg, dem_tile_size: i32) -> (r: Grid)
        requires
            1 <= dem_tile_size <= 40_000,
        ensures
            r.value == (value@ * dem_tile_size * GRID_UNITS_PER_DEM_CELL) / (
            MICRODEGREES_PER_DEGREE as int),
    {
        let micro = value.micro_degrees();
        let ts64 = dem_tile_size as i64;
        assert(ts64 * 256 <= 40_000 * 256);
        let units = ts64 * GRID_UNITS_PER_DEM_CELL as i64;
        proof {
            assert(units == dem_tile_size * 256);
            assert(-181 * MICRODEGREES_PER_DEGREE * 40_000 * 256 <= micro * units <= 180
                * MICRODEGREES_PER_DEGREE * 40_000 * 256) by (nonlinear_arith)
                requires
                    valid_degree_micro(micro as int),
                    1 <= units <= 40_000 * 256,
            ;
            lemma_cell_of_degrees_bounds(micro as int, units as int);
            assert(micro * units == value@ * dem_tile_size * GRID_UNITS_PER_DEM_CELL) by (
            nonlinear_arith)
                requires
                    units == dem_tile_size * 256,
                    micro == value@,
            ;
        }
        let p = micro as i64 * units;
        Grid::new(floor_div_i64(p, MICRODEGREES_PER_DEGREE as i64) as i32)
    }

    /// The cell this grid position falls in: `floor(value / GRID_UNITS_PER_DEM_CELL)`.
    pub fn to_global_cell(&self) -> (r: GlobalCell)
        ensures
            r.value == self.value as int / (GRID_UNITS_PER_DEM_CELL as int),
    {
        proof {
            lemma_floor_bounds(self.value as int, GRID_UNITS_PER_DEM_CELL as int);
        }
        GlobalCell::new(floor_div_i64(self.value as i64, GRID_UNITS_PER_DEM_CELL as i64) as i32)
    }
}

/// The integer longitude and latitude of a one-degree source tile.
#[derive(Clone, Copy, Debug, PartialEq, Eq, Structural)]
pub struct TileKey {
    pub lon: i32,
    pub lat: i32,
}

/// The bits of a 16-bit value read as unsigned: `v mod 2^16`.
pub open spec fn unsigned16(v: int) -> int {
    v % 0x10000
}

/// An unsigned 16-bit pattern read as a signed value.
pub open spec fn signed16(u: int) -> int {
    if u >= 0x8000 {
        u - 0x10000
    } else {
        u
    }
}

impl TileKey {
    pub fn from_lon_lat(lon: i32, lat: i32) -> (r: TileKey)
        ensures
            r.lon == lon,
            r.lat == lat,
    {
        TileKey { lon, lat }
    }

    /// Unpacks a key from 16 bits: the low byte is the longitude, the high
    /// byte the latitude, both read as unsigned bytes.
    pub fn from_i16(value: i16) -> (r: TileKey)
        ensures
            r.lon == unsigned16(value as int) % 0x100,
            r.lat == unsigned16(value as int) / 0x100,
    {
        let u = floor_mod_i64(value as i64, 0x10000);
        proof {
            lemma_floor_bounds(u as int, 0x100);
        }
        TileKey { lon: (u % 0x100) as i32, lat: (u / 0x100) as i32 }
    }

    /// Packs the low bytes of latitude and longitude into 16 bits, latitude
    /// in the high byte.
    pub fn to_i16(&self) -> (r: i16)
        ensures
            r == signed16((self.lat as int % 0x100) * 0x100 + self.lon as int % 0x100),
    {
        let lat_byte = floor_mod_i64(self.lat as i64, 0x100);
        let lon_byte = floor_mod_i64(self.lon as i64, 0x100);
        let u = lat_byte * 0x100 + lon_byte;
        if u >= 0x8000 {
            (u - 0x10000) as i16
        } else {
            u as i16
        }
    }
}

} // verus!
