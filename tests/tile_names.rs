use sion::dem_tile::DemTile;
use sion::dem_tile_id::DemTileId;

#[test]
fn parsing_and_formatting_tile_ids() {
    let tile_id: DemTileId = "N54E168".parse().unwrap();
    assert_eq!(tile_id.lon, 168);
    assert_eq!(tile_id.lat, 54);
    assert_eq!(tile_id.to_string(), "N54E168");

    let tile_id: DemTileId = "n54e168".parse().unwrap();
    assert_eq!(tile_id.lon, 168);
    assert_eq!(tile_id.lat, 54);
    assert_eq!(tile_id.to_string(), "N54E168");

    let tile_id: DemTileId = "S54W168".parse().unwrap();
    assert_eq!(tile_id.lon, -168);
    assert_eq!(tile_id.lat, -54);
    assert_eq!(tile_id.to_string(), "S54W168");

    let tile_id: DemTileId = "N54W168".parse().unwrap();
    assert_eq!(tile_id.lon, -168);
    assert_eq!(tile_id.lat, 54);
    assert_eq!(tile_id.to_string(), "N54W168");

    let tile_id: DemTileId = "S54E168".parse().unwrap();
    assert_eq!(tile_id.lon, 168);
    assert_eq!(tile_id.lat, -54);
    assert_eq!(tile_id.to_string(), "S54E168");
}

#[test]
fn malformed_tile_ids_are_refused() {
    assert_eq!(DemTileId::parse("N54E16").err().unwrap(), "Invalid tile ID length");
    assert_eq!(DemTileId::parse("NX4E168").err().unwrap(), "Failed to parse latitude");
    assert_eq!(DemTileId::parse("N54E1x8").err().unwrap(), "Failed to parse longitude");
    assert_eq!(DemTileId::parse("N5é4E168").err().unwrap(), "Invalid tile ID length");
    let tile_id = DemTileId::parse("N+5E-12").unwrap();
    assert_eq!((tile_id.lon, tile_id.lat), (-12, 5));
}

#[test]
fn tile_id_names_are_not_padded() {
    assert_eq!(DemTileId::new(6, 5).to_string(), "N5E6");
    assert_eq!(DemTileId::new(0, 0).to_string(), "N0E0");
    assert_eq!(DemTileId::new(-1, -10).to_string(), "S10W1");
}

#[test]
fn valid_tile_names() {
    assert_eq!(DemTile::parse_tile_name("N46E006").unwrap(), (6, 46));
    assert_eq!(DemTile::parse_tile_name("S46W123").unwrap(), (-123, -46));
}

#[test]
fn invalid_tile_names() {
    for name in ["X", "46E006", "SX6W123", "S16W1234", "n46e006"] {
        match DemTile::parse_tile_name(name) {
            Ok(_) => panic!("Should not have parsed tile name"),
            Err(error) => assert_eq!(error.message, "Invalid tile name"),
        }
    }
}

#[test]
fn heights_are_big_endian() {
    let tile = DemTile::new(6, 46, 2, vec![0x02, 0xDC, 0xFF, 0xFE, 0x00, 0x01, 0x80, 0x00]);
    assert_eq!(tile.lon(), 6);
    assert_eq!(tile.lat(), 46);
    assert_eq!(tile.size(), 2);
    assert_eq!(tile.height_at(0, 0), 732);
    assert_eq!(tile.height_at(1, 0), -2);
    assert_eq!(tile.height_at(0, 1), 1);
    assert_eq!(tile.height_at_index(3), -32768);
}
