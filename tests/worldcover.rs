use flate2::write::ZlibEncoder;
use flate2::Compression;
use sion::dem_tile_id::DemTileId;
use sion::raster16::Raster16;
use sion::water_bodies::{WaterBodiesProcessingTile, WaterBodyValue};
use sion::worldcover::{
    check_tile_data, decompress_tile_data, geojson_url, new_world_cover_batch,
    place_world_cover_tile, water_body_value_of, world_cover_tile_download_url,
    world_cover_tile_file_name,
};
use std::io::Write;

#[test]
fn world_cover_addresses() {
    assert_eq!(
        geojson_url(),
        "https://esa-worldcover.s3.eu-central-1.amazonaws.com/esa_worldcover_grid.geojson"
    );
    let tile_id: DemTileId = "S54E168".parse().unwrap();
    assert_eq!(
        world_cover_tile_download_url(&tile_id),
        "https://esa-worldcover.s3.eu-central-1.amazonaws.com/v200/2021/map/\
        ESA_WorldCover_10m_2021_v200_S54E168_Map.tif"
    );
    assert_eq!(world_cover_tile_file_name(&tile_id), "S54E168.tif");
}

#[test]
fn world_cover_classes() {
    assert_eq!(water_body_value_of(255), WaterBodyValue::NoData);
    assert_eq!(water_body_value_of(80), WaterBodyValue::Water);
    assert_eq!(water_body_value_of(10), WaterBodyValue::NonWater);
}

#[test]
fn zlib_tiles_are_decompressed_and_checked() {
    let pixels: Vec<u8> = (0..64u8).collect();
    let mut encoder = ZlibEncoder::new(Vec::new(), Compression::default());
    encoder.write_all(&pixels).unwrap();
    let compressed = encoder.finish().unwrap();
    assert_ne!(compressed, pixels);
    assert_eq!(decompress_tile_data(&compressed, 64).unwrap(), pixels);
    assert_eq!(
        decompress_tile_data(&compressed, 63).err().unwrap(),
        "Decompressed data size does not match expected size"
    );
    assert_eq!(
        decompress_tile_data(&[1, 2, 3], 3).err().unwrap(),
        "Failed to decompress tile data"
    );
    assert_eq!(check_tile_data(Some(vec![7]), 1).unwrap(), vec![7]);
}

#[test]
fn decoded_tiles_land_in_the_right_raster() {
    let mut tiles = new_world_cover_batch();
    assert_eq!(tiles.len(), 9);
    // a 2 by 2 tile straddling the corner shared by rasters 0, 1, 3 and 4
    place_world_cover_tile(&mut tiles, 11999, 11999, 2, 2, &vec![80, 255, 10, 80]);
    assert_eq!(tiles[0].get_pixel(11999, 11999), 2);
    assert_eq!(tiles[1].get_pixel(0, 11999), 0);
    assert_eq!(tiles[3].get_pixel(11999, 0), 1);
    assert_eq!(tiles[4].get_pixel(0, 0), 2);
    assert_eq!(tiles[4].get_pixel(1, 0), 0);
    // pixels beyond the file are skipped
    place_world_cover_tile(&mut tiles, 35999, 35999, 2, 1, &vec![80, 80]);
    assert_eq!(tiles[8].get_pixel(11999, 11999), 2);
}

#[test]
fn downsampling_takes_the_dominant_class() {
    let tile_id = DemTileId::new(168, -54);
    let mut raster = Raster16::new(2, 2);
    raster.set_pixel(0, 0, 2);
    raster.set_pixel(1, 0, 1);
    raster.set_pixel(0, 1, 1);
    raster.set_pixel(1, 1, 0);
    let tile = WaterBodiesProcessingTile::downsample_from_worldcover_tile(&tile_id, &raster);
    assert_eq!(tile.tile_size(), 1800);
    assert_eq!(tile.get_cell(0, 0), 2);
    assert_eq!(tile.get_cell(1799, 0), 1);
    assert_eq!(tile.get_cell(0, 1799), 1);
    assert_eq!(tile.get_cell(1799, 1799), 0);
}

#[test]
fn downsampling_breaks_ties_toward_the_higher_class() {
    let tile_id = DemTileId::new(1, 1);
    let mut raster = Raster16::new(1, 1);
    raster.set_pixel(0, 0, 7);
    let tile = WaterBodiesProcessingTile::downsample_from_worldcover_tile(&tile_id, &raster);
    assert_eq!(tile.get_cell(0, 0), 2);
    assert_eq!(tile.get_cell(900, 900), 2);
}
