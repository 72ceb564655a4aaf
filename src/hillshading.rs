//! Integer building blocks of hillshading: the 3x3 elevation window, the
//! Sobel-style gradients `p` and `q`, angle differences and integer shading.
use crate::arith::floor_div_i64;
use crate::dem_tile::DemTile;
use vstd::prelude::*;

verus! {

/// Rust's integer division: the quotient rounded toward zero.
pub open spec fn trunc_div(x: int, d: int) -> int {
    if x >= 0 {
        x / d
    } else {
        -((-x) / d)
    }
}

/// Elevations of a cell and its eight neighbours, row by row from the top left.
pub struct Matrix3x3 {
    pub data: [i16; 9],
}

/// The east-west gradient numerator: right column minus left column, the
/// middle row counting twice.
pub open spec fn p_prime_spec(e: Seq<i16>) -> int {
    (e[8] + 2 * e[5] + e[2]) - (e[6] + 2 * e[3] + e[0])
}

/// The north-south gradient numerator: bottom row minus top row, the middle
/// column counting twice.
pub open spec fn q_prime_spec(e: Seq<i16>) -> int {
    (e[8] + 2 * e[7] + e[6]) - (e[2] + 2 * e[1] + e[0])
}

pub open spec fn fits_i16(v: int) -> bool {
    -0x8000 <= v < 0x8000
}

impl Matrix3x3 {
    pub fn new(elevations: [i16; 9]) -> (r: Matrix3x3)
        ensures
            r.data@ == elevations@,
    {
        Matrix3x3 { data: elevations }
    }

    pub fn height_tl(&self) -> (r: i16)
        ensures
            r == self.data@[0],
    {
        self.data[0]
    }

    pub fn height_tc(&self) -> (r: i16)
        ensures
            r == self.data@[1],
    {
        self.data[1]
    }

    pub fn height_tr(&self) -> (r: i16)
        ensures
            r == self.data@[2],
    {
        self.data[2]
    }

    pub fn height_cl(&self) -> (r: i16)
        ensures
            r == self.data@[3],
    {
        self.data[3]
    }

    pub fn height_cr(&self) -> (r: i16)
        ensures
            r == self.data@[5],
    {
        self.data[5]
    }

    pub fn height_bl(&self) -> (r: i16)
        ensures
            r == self.data@[6],
    {
        self.data[6]
    }

    pub fn height_bc(&self) -> (r: i16)
        ensures
            r == self.data@[7],
    {
        self.data[7]
    }

    pub fn height_br(&self) -> (r: i16)
        ensures
            r == self.data@[8],
    {
        self.data[8]
    }
}

/// The two gradient numerators of a window, in 16-bit arithmetic: each of
/// the weighted column and row sums, and the differences, must fit `i16`.
pub fn calculate_pq_2(e: &Matrix3x3) -> (r: (i16, i16))
    requires
        fits_i16(e.data@[8] + 2 * e.data@[5] + e.data@[2]),
        fits_i16(e.data@[6] + 2 * e.data@[3] + e.data@[0]),
        fits_i16(e.data@[8] + 2 * e.data@[7] + e.data@[6]),
        fits_i16(e.data@[2] + 2 * e.data@[1] + e.data@[0]),
        fits_i16(2 * e.data@[5]),
        fits_i16(2 * e.data@[3]),
        fits_i16(2 * e.data@[7]),
        fits_i16(2 * e.data@[1]),
        fits_i16(e.data@[8] + 2 * e.data@[5]),
        fits_i16(e.data@[6] + 2 * e.data@[3]),
        fits_i16(e.data@[8] + 2 * e.data@[7]),
        fits_i16(e.data@[2] + 2 * e.data@[1]),
        fits_i16(p_prime_spec(e.data@)),
        fits_i16(q_prime_spec(e.data@)),
    ensures
        r.0 == p_prime_spec(e.data@),
        r.1 == q_prime_spec(e.data@),
{
    let p_prime = (e.height_br() + 2 * e.height_cr() + e.height_tr()) - (e.height_bl() + 2
        * e.height_cl() + e.height_tl());
    let q_prime = (e.height_br() + 2 * e.height_bc() + e.height_bl()) - (e.height_tr() + 2
        * e.height_tc() + e.height_tl());
    (p_prime, q_prime)
}

/// The angle between two directions in degrees, folded into `0 ..= 180`
/// for directions less than a full turn apart.
pub open spec fn diff_between_angles_spec(a: int, b: int) -> int {
    let d = if a - b < 0 {
        b - a
    } else {
        a - b
    };
    if d > 180 {
        360 - d
    } else {
        d
    }
}

pub fn diff_between_angles_deg(a: i16, b: i16) -> (r: i16)
    requires
        -0x7FFF <= a - b <= 0x7FFF,
    ensures
        r == diff_between_angles_spec(a as int, b as int),
{
    let d = a - b;
    let diff = if d < 0 {
        -d
    } else {
        d
    };
    if diff > 180 {
        360 - diff
    } else {
        diff
    }
}

/// Light from slope and from the angle to the sun, each scaled to `0 ..= 255`
/// with integer division, multiplied and scaled back.
pub open spec fn hillshading_2_spec(sun_azimuth: int, slope: int, aspect: int) -> int {
    let slope_light = trunc_div((90 - slope) * 255, 90);
    let aspect_light = trunc_div((180 - diff_between_angles_spec(aspect, sun_azimuth)) * 255, 180);
    trunc_div(slope_light * aspect_light, 255)
}

pub fn hillshading_2(sun_azimuth: i16, slope: i16, aspect: i16) -> (r: i16)
    requires
        -0x7FFF <= aspect - sun_azimuth <= 0x7FFF,
        0 <= slope <= 90,
        0 <= diff_between_angles_spec(aspect as int, sun_azimuth as int) <= 180,
    ensures
        r == hillshading_2_spec(sun_azimuth as int, slope as int, aspect as int),
        0 <= r <= 255,
{
    let slope_light_intensity = (90 - slope as i32) * 255 / 90;
    let aspect_diff = diff_between_angles_deg(aspect, sun_azimuth);
    let aspect_light_intensity = (180 - aspect_diff as i32) * 255 / 180;
    proof {
        assert(0 <= slope_light_intensity <= 255);
        assert(0 <= aspect_light_intensity <= 255);
        assert(0 <= slope_light_intensity * aspect_light_intensity <= 255 * 255) by (
        nonlinear_arith)
            requires
                0 <= slope_light_intensity <= 255,
                0 <= aspect_light_intensity <= 255,
        ;
    }
    let light_intensity = (slope_light_intensity * aspect_light_intensity) / 255;
    light_intensity as i16
}

/// The same shading with scale factors of 256, divided by shifting.
pub open spec fn hillshading_3_spec(sun_azimuth: int, slope: int, aspect: int) -> int {
    let slope_light = trunc_div((90 - slope) * 256, 90);
    let aspect_light = trunc_div((180 - diff_between_angles_spec(aspect, sun_azimuth)) * 256, 180);
    (slope_light * aspect_light) / 256
}

pub fn hillshading_3(sun_azimuth: i16, slope: i16, aspect: i16) -> (r: i16)
    requires
        -0x7FFF <= aspect - sun_azimuth <= 0x7FFF,
        0 <= slope <= 90,
        0 <= diff_between_angles_spec(aspect as int, sun_azimuth as int) <= 180,
    ensures
        r == hillshading_3_spec(sun_azimuth as int, slope as int, aspect as int),
        0 <= r <= 256,
{
    let slope_light_intensity = ((90 - slope as i32) * 256) / 90;
    let aspect_diff = diff_between_angles_deg(aspect, sun_azimuth);
    let aspect_light_intensity = ((180 - aspect_diff as i32) * 256) / 180;
    proof {
        assert(0 <= slope_light_intensity <= 256);
        assert(0 <= aspect_light_intensity <= 256);
        assert(0 <= slope_light_intensity * aspect_light_intensity <= 256 * 256) by (
        nonlinear_arith)
            requires
                0 <= slope_light_intensity <= 256,
                0 <= aspect_light_intensity <= 256,
        ;
    }
    let light_intensity = floor_div_i64(
        (slope_light_intensity * aspect_light_intensity) as i64,
        256,
    );
    light_intensity as i16
}

/// Holds an aspect and slope code for each cell of a `size` by `size` tile.
pub struct XasTile {
    pub size: usize,
    pub data: Vec<u8>,
}

impl XasTile {
    /// A tile with every code zero.
    pub fn new(size: usize) -> (r: XasTile)
        requires
            size * size * 2 <= usize::MAX,
        ensures
            r.size == size,
            r.data@.len() == size * size * 2,
            forall|i: int| 0 <= i < r.data@.len() ==> #[trigger] r.data@[i] == 0,
    {
        XasTile { size, data: vec![0u8; size * size * 2] }
    }
}

/// The two gradient numerators at cell `(x, y)` of a DEM tile, from its eight
/// neighbours.
pub fn calculate_pq(dem_tile: &DemTile, x: usize, y: usize) -> (r: (i32, i32))
    requires
        1 <= x,
        1 <= y,
        2 * ((y + 1) * dem_tile.spec_size() + x + 1) + 1 < dem_tile.bytes().len(),
    ensures
        ({
            let s = dem_tile.spec_size() as int;
            let c = y * s + x;
            let h = |i: int| dem_tile.height_spec(i);
            &&& r.0 == (h(c + s + 1) + 2 * h(c + 1) + h(c - s + 1)) - (h(c + s - 1) + 2 * h(c - 1)
                + h(c - s - 1))
            &&& r.1 == (h(c + s + 1) + 2 * h(c + s) + h(c + s - 1)) - (h(c - s + 1) + 2 * h(c - s)
                + h(c - s - 1))
        }),
{
    let size = dem_tile.size();
    let _ = dem_tile.byte_len();
    proof {
        assert(0 <= (y - 1) * size && (y - 1) * size + size == y * size && y * size + size == (y
            + 1) * size) by (nonlinear_arith)
            requires
                y >= 1,
                size >= 0,
        ;
    }
    let center_index = y * size + x;
    let top_center_index = center_index - size;
    let bottom_center_index = center_index + size;
    let height_tl = dem_tile.height_at_index(top_center_index - 1) as i32;
    let height_bl = dem_tile.height_at_index(bottom_center_index - 1) as i32;
    let height_br = dem_tile.height_at_index(bottom_center_index + 1) as i32;
    let height_tr = dem_tile.height_at_index(top_center_index + 1) as i32;
    let p = (height_br + 2 * dem_tile.height_at_index(center_index + 1) as i32 + height_tr) - (
    height_bl + 2 * dem_tile.height_at_index(center_index - 1) as i32 + height_tl);
    let q = (height_br + 2 * dem_tile.height_at_index(bottom_center_index) as i32 + height_bl) - (
    height_tr + 2 * dem_tile.height_at_index(top_center_index) as i32 + height_tl);
    (p, q)
}

} // verus!
