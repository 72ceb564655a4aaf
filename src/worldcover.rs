//! ESA WorldCover land-cover tiles: where they are published, how a
//! compressed TIFF tile is decoded, and how its pixels are classified into
//! the 3 by 3 batch of rasters that one WorldCover file covers.
use crate::dem_tile_id::{tile_id_name, DemTileId};
use crate::grayscale8_bitmap::pixel_index;
use crate::raster16::Raster16;
use crate::text::string_from_chars;
use crate::water_bodies::WaterBodyValue;
use vstd::prelude::*;
use vstd::string::StrSliceExecFns;

verus! {

pub const WORLD_COVER_S3_DOMAIN: &'static str = "https://esa-worldcover.s3.eu-central-1.amazonaws.com";

pub const WORLD_COVER_VERSION: &'static str = "v200";

pub const WORLD_COVER_YEAR: &'static str = "2021";

pub const WORLD_COVER_CACHE_DIR: &'static str = "WorldCover";

/// Pixels per side of one WorldCover raster.
pub const WORLD_COVER_TILE_SIZE: u16 = 12000;

/// Rasters per side of the batch that one WorldCover file covers.
pub const WORLD_COVER_TILES_IN_BATCH: u16 = 3;

/// Pixels per side of one WorldCover file.
pub const WORLD_COVER_BITMAP_SIZE: u16 = 36000;

/// Appends the characters of `s`.
fn push_str(out: &mut Vec<char>, s: &str)
    ensures
        final(out)@ == old(out)@ + s@,
{
    let n = s.unicode_len();
    let mut i: usize = 0;
    while i < n
        invariant
            n == s@.len(),
            0 <= i <= n,
            out@ == old(out)@ + s@.subrange(0, i as int),
        decreases n - i,
    {
        out.push(s.get_char(i));
        proof {
            assert(s@.subrange(0, i + 1) =~= s@.subrange(0, i as int).push(s@[i as int]));
        }
        i += 1;
    }
    proof {
        assert(s@.subrange(0, n as int) =~= s@);
    }
}

/// The address of the grid that lists every WorldCover tile.
pub fn geojson_url() -> (r: String)
    ensures
        r@ == WORLD_COVER_S3_DOMAIN@ + "/esa_worldcover_grid.geojson"@,
{
    let mut chars: Vec<char> = Vec::new();
    push_str(&mut chars, WORLD_COVER_S3_DOMAIN);
    push_str(&mut chars, "/esa_worldcover_grid.geojson");
    string_from_chars(&chars)
}

/// The address of the WorldCover file named after a tile.
pub fn world_cover_tile_download_url(tile_id: &DemTileId) -> (r: String)
    ensures
        r@ == WORLD_COVER_S3_DOMAIN@ + "/"@ + WORLD_COVER_VERSION@ + "/"@ + WORLD_COVER_YEAR@
            + "/map/ESA_WorldCover_10m_"@ + WORLD_COVER_YEAR@ + "_"@ + WORLD_COVER_VERSION@ + "_"@
            + tile_id_name(tile_id.lon as int, tile_id.lat as int) + "_Map.tif"@,
{
    let name = tile_id.to_string();
    let mut chars: Vec<char> = Vec::new();
    push_str(&mut chars, WORLD_COVER_S3_DOMAIN);
    push_str(&mut chars, "/");
    push_str(&mut chars, WORLD_COVER_VERSION);
    push_str(&mut chars, "/");
    push_str(&mut chars, WORLD_COVER_YEAR);
    push_str(&mut chars, "/map/ESA_WorldCover_10m_");
    push_str(&mut chars, WORLD_COVER_YEAR);
    push_str(&mut chars, "_");
    push_str(&mut chars, WORLD_COVER_VERSION);
    push_str(&mut chars, "_");
    push_str(&mut chars, name.as_str());
    push_str(&mut chars, "_Map.tif");
    string_from_chars(&chars)
}

/// The file name under which a tile's WorldCover file is cached.
pub fn world_cover_tile_file_name(tile_id: &DemTileId) -> (r: String)
    ensures
        r@ == tile_id_name(tile_id.lon as int, tile_id.lat as int) + ".tif"@,
{
    let name = tile_id.to_string();
    let mut chars: Vec<char> = Vec::new();
    push_str(&mut chars, name.as_str());
    push_str(&mut chars, ".tif");
    string_from_chars(&chars)
}

/// The class of a WorldCover pixel: 255 has no data, 80 is water, any other
/// land-cover class is not water.
pub open spec fn world_cover_class(pixel: u8) -> WaterBodyValue {
    if pixel == 255 {
        WaterBodyValue::NoData
    } else if pixel == 80 {
        WaterBodyValue::Water
    } else {
        WaterBodyValue::NonWater
    }
}

pub fn water_body_value_of(pixel: u8) -> (r: WaterBodyValue)
    ensures
        r == world_cover_class(pixel),
{
    match pixel {
        255 => WaterBodyValue::NoData,
        80 => WaterBodyValue::Water,
        _ => WaterBodyValue::NonWater,
    }
}

/// What pixel `i` of batch raster `k` holds after a decoded TIFF tile of
/// `tw` by `th` pixels, whose top-left pixel lies at `(x0, y0)` of the whole
/// file, was placed: the tile's pixel class where the tile covers it.
pub open spec fn placed_pixel(
    before: u16,
    k: int,
    i: int,
    x0: int,
    y0: int,
    tw: int,
    th: int,
    data: Seq<u8>,
) -> u16 {
    let gx = (k % 3) * 12000 + i % 12000;
    let gy = (k / 3) * 12000 + i / 12000;
    if x0 <= gx < x0 + tw && y0 <= gy < y0 + th {
        world_cover_class(data[(gy - y0) * tw + (gx - x0)]).spec_value()
    } else {
        before
    }
}

/// The batch: nine 12000 by 12000 rasters, row by row.
pub open spec fn valid_batch(tiles: Seq<Raster16>) -> bool {
    &&& tiles.len() == 9
    &&& forall|k: int|
        0 <= k < 9 ==> (#[trigger] tiles[k]).wf() && tiles[k].spec_width() == 12000
            && tiles[k].spec_height() == 12000
}

/// Placed so far: rows above `y` of the tile, and the first `x` pixels of row `y`.
pub open spec fn placed_up_to(
    k: int,
    i: int,
    x0: int,
    y0: int,
    tw: int,
    y: int,
    x: int,
) -> bool {
    let gx = (k % 3) * 12000 + i % 12000;
    let gy = (k / 3) * 12000 + i / 12000;
    x0 <= gx < x0 + tw && y0 <= gy && (gy - y0 < y || (gy - y0 == y && gx - x0 < x))
}

/// A fresh batch, every pixel 0.
pub fn new_world_cover_batch() -> (r: Vec<Raster16>)
    ensures
        valid_batch(r@),
{
    let mut tiles: Vec<Raster16> = Vec::new();
    let mut k: usize = 0;
    while k < 9
        invariant
            0 <= k <= 9,
            tiles@.len() == k,
            forall|j: int|
                0 <= j < k ==> (#[trigger] tiles@[j]).wf() && tiles@[j].spec_width() == 12000
                    && tiles@[j].spec_height() == 12000,
        decreases 9 - k,
    {
        tiles.push(Raster16::new(WORLD_COVER_TILE_SIZE, WORLD_COVER_TILE_SIZE));
        k += 1;
    }
    tiles
}

/// Classifies the pixels of one decoded TIFF tile into the batch; pixels that
/// fall beyond the file's 36000 by 36000 pixels are skipped.
pub fn place_world_cover_tile(
    tiles: &mut Vec<Raster16>,
    tile_x0: u32,
    tile_y0: u32,
    tile_width: u32,
    tile_height: u32,
    data: &Vec<u8>,
)
    requires
        valid_batch(old(tiles)@),
        tile_x0 + tile_width <= 0xFFFF_FFFF,
        tile_y0 + tile_height <= 0xFFFF_FFFF,
        data@.len() == tile_width * tile_height,
    ensures
        valid_batch(final(tiles)@),
        forall|k: int, i: int|
            0 <= k < 9 && 0 <= i < 12000 * 12000 ==> #[trigger] final(tiles)@[k].pixels()[i]
                == placed_pixel(
                old(tiles)@[k].pixels()[i],
                k,
                i,
                tile_x0 as int,
                tile_y0 as int,
                tile_width as int,
                tile_height as int,
                data@,
            ),
{
    let ghost orig = tiles@;
    let mut y: u32 = 0;
    while y < tile_height
        invariant
            valid_batch(tiles@),
            orig == old(tiles)@,
            tile_x0 + tile_width <= 0xFFFF_FFFF,
            tile_y0 + tile_height <= 0xFFFF_FFFF,
            data@.len() == tile_width * tile_height,
            0 <= y <= tile_height,
            forall|k: int, i: int|
                0 <= k < 9 && 0 <= i < 12000 * 12000 ==> #[trigger] tiles@[k].pixels()[i] == if placed_up_to(
                    k,
                    i,
                    tile_x0 as int,
                    tile_y0 as int,
                    tile_width as int,
                    y as int,
                    0,
                ) {
                    placed_pixel(
                        orig[k].pixels()[i],
                        k,
                        i,
                        tile_x0 as int,
                        tile_y0 as int,
                        tile_width as int,
                        tile_height as int,
                        data@,
                    )
                } else {
                    orig[k].pixels()[i]
                },
        decreases tile_height - y,
    {
        let abs_y = tile_y0 + y;
        let mut x: u32 = 0;
        while x < tile_width
            invariant
                valid_batch(tiles@),
                orig == old(tiles)@,
                tile_x0 + tile_width <= 0xFFFF_FFFF,
                tile_y0 + tile_height <= 0xFFFF_FFFF,
                data@.len() == tile_width * tile_height,
                0 <= y < tile_height,
                abs_y == tile_y0 + y,
                0 <= x <= tile_width,
                forall|k: int, i: int|
                    0 <= k < 9 && 0 <= i < 12000 * 12000 ==> #[trigger] tiles@[k].pixels()[i]
                        == if placed_up_to(
                        k,
                        i,
                        tile_x0 as int,
                        tile_y0 as int,
                        tile_width as int,
                        y as int,
                        x as int,
                    ) {
                        placed_pixel(
                            orig[k].pixels()[i],
                            k,
                            i,
                            tile_x0 as int,
                            tile_y0 as int,
                            tile_width as int,
                            tile_height as int,
                            data@,
                        )
                    } else {
                        orig[k].pixels()[i]
                    },
            decreases tile_width - x,
        {
            let abs_x = tile_x0 + x;
            proof {
                assert(0 <= y * tile_width + x < tile_width * tile_height) by (nonlinear_arith)
                    requires
                        0 <= y < tile_height,
                        0 <= x < tile_width,
                ;
            }
            if abs_y < WORLD_COVER_BITMAP_SIZE as u32 && abs_x < WORLD_COVER_BITMAP_SIZE as u32 {
                let tile_row = abs_y / WORLD_COVER_TILE_SIZE as u32;
                let tile_col = abs_x / WORLD_COVER_TILE_SIZE as u32;
                let local_x = (abs_x % WORLD_COVER_TILE_SIZE as u32) as u16;
                let local_y = (abs_y % WORLD_COVER_TILE_SIZE as u32) as u16;
                proof {
                    assert(tile_row <= 2 && tile_col <= 2) by (nonlinear_arith)
                        requires
                            tile_row == abs_y / 12000,
                            tile_col == abs_x / 12000,
                            abs_y < 36000,
                            abs_x < 36000,
                    ;
                }
                let k = (tile_row * 3 + tile_col) as usize;
                let n = data.len();
                let pixel_value = data[y as usize * tile_width as usize + x as usize];
                let value = water_body_value_of(pixel_value).value();
                let ghost idx = pixel_index(12000, local_x as int, local_y as int);
                proof {
                    crate::grayscale8_bitmap::lemma_pixel_index(
                        12000,
                        12000,
                        local_x as int,
                        local_y as int,
                    );
                    assert(k as int % 3 == tile_col && k as int / 3 == tile_row);
                }
                tiles[k].set_pixel(local_x, local_y, value);
                proof {
                    assert forall|kk: int, i: int|
                        0 <= kk < 9 && 0 <= i < 12000 * 12000 implies #[trigger] tiles@[kk].pixels()[i]
                        == if placed_up_to(
                        kk,
                        i,
                        tile_x0 as int,
                        tile_y0 as int,
                        tile_width as int,
                        y as int,
                        x + 1,
                    ) {
                        placed_pixel(
                            orig[kk].pixels()[i],
                            kk,
                            i,
                            tile_x0 as int,
                            tile_y0 as int,
                            tile_width as int,
                            tile_height as int,
                            data@,
                        )
                    } else {
                        orig[kk].pixels()[i]
                    } by {
                        let gx = (kk % 3) * 12000 + i % 12000;
                        let gy = (kk / 3) * 12000 + i / 12000;
                        if gx == abs_x && gy == abs_y {
                            assert(kk == k && i == idx);
                        }
                        if kk == k && i == idx {
                            assert(gx == abs_x && gy == abs_y);
                        }
                    }
                }
            } else {
                proof {
                    assert forall|kk: int, i: int|
                        0 <= kk < 9 && 0 <= i < 12000 * 12000 implies placed_up_to(
                        kk,
                        i,
                        tile_x0 as int,
                        tile_y0 as int,
                        tile_width as int,
                        y as int,
                        x + 1,
                    ) == placed_up_to(
                        kk,
                        i,
                        tile_x0 as int,
                        tile_y0 as int,
                        tile_width as int,
                        y as int,
                        x as int,
                    ) by {
                        let gx = (kk % 3) * 12000 + i % 12000;
                        let gy = (kk / 3) * 12000 + i / 12000;
                        assert(gx < 36000 && gy < 36000);
                    }
                }
            }
            x += 1;
        }
        y += 1;
    }
}

/// What zlib decompression of a byte stream gives: the bytes, or `None`
/// where the stream is not valid zlib data. It depends on the stream alone.
pub uninterp spec fn zlib_inflated(data: Seq<u8>) -> Option<Seq<u8>>;

/// Relies on flate2's `read::ZlibDecoder` read to the end: the decompressed
/// bytes of an in-memory zlib stream, or an error for an invalid one.
#[verifier::external_body]
fn zlib_decompress(data: &[u8]) -> (r: Option<Vec<u8>>)
    ensures
        r matches Some(v) ==> zlib_inflated(data@) == Some(v@),
        r is None ==> zlib_inflated(data@) is None,
{
    let mut decompressed = Vec::new();
    match std::io::Read::read_to_end(&mut flate2::read::ZlibDecoder::new(data), &mut decompressed) {
        Ok(_) => Some(decompressed),
        Err(_) => None,
    }
}

/// Accepts decompressed tile data only when it holds exactly the expected
/// number of pixels.
pub fn check_tile_data(decompressed: Option<Vec<u8>>, expected_len: usize) -> (r: Result<
    Vec<u8>,
    String,
>)
    ensures
        match decompressed {
            None => r matches Err(e) && e@ == "Failed to decompress tile data"@,
            Some(d) => if d@.len() == expected_len {
                r matches Ok(v) && v@ == d@
            } else {
                r matches Err(e) && e@ == "Decompressed data size does not match expected size"@
            },
        },
{
    match decompressed {
        None => Err("Failed to decompress tile data".to_owned()),
        Some(d) => {
            if d.len() == expected_len {
                Ok(d)
            } else {
                Err("Decompressed data size does not match expected size".to_owned())
            }
        },
    }
}

/// Decompresses one zlib-compressed TIFF tile of `expected_len` pixels.
pub fn decompress_tile_data(compressed: &[u8], expected_len: usize) -> (r: Result<Vec<u8>, String>)
    ensures
        match zlib_inflated(compressed@) {
            None => r is Err,
            Some(d) => if d.len() == expected_len {
                r matches Ok(v) && v@ == d
            } else {
                r is Err
            },
        },
{
    check_tile_data(zlib_decompress(compressed), expected_len)
}

} // verus!
