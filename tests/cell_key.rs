use sion::cell_key::CellKey;
use sion::types::GlobalCell;

fn round_trip(x: i32, y: i32) -> (i32, i32) {
    let cell_key = CellKey::from_cell_coords(&GlobalCell::new(x), &GlobalCell::new(y));
    let (tile_lon_cell, tile_lat_cell) = cell_key.to_cell_coords();
    (tile_lon_cell.value, tile_lat_cell.value)
}

#[test]
fn cell_key_test_cell_keys_1() {
    let (lon, lat) = round_trip(100, 200);
    assert_eq!(lon, 100);
    assert_eq!(lat, 200);
}

#[test]
fn cell_key_test_cell_keys_2() {
    let (lon, lat) = round_trip(-1239, 195);
    assert_eq!(lon, -1239);
    assert_eq!(lat, 195);
}

#[test]
fn cell_key_test_cell_keys_3() {
    let (lon, lat) = round_trip(-1419, -180);
    assert_eq!(lon, -1419);
    assert_eq!(lat, -180);
}

#[test]
fn dem_buffer_test_cell_keys_1() {
    let cell_key = CellKey::from_cell_coords(&GlobalCell::new(100), &GlobalCell::new(200));
    let (tile_lon_cell, tile_lat_cell) = cell_key.to_cell_coords();
    assert_eq!(tile_lon_cell.value, 100);
    assert_eq!(tile_lat_cell.value, 200);
}

#[test]
fn dem_buffer_test_cell_keys_2() {
    let cell_key = CellKey::from_cell_coords(&GlobalCell::new(-1239), &GlobalCell::new(195));
    let (tile_lon_cell, tile_lat_cell) = cell_key.to_cell_coords();
    assert_eq!(tile_lon_cell.value, -1239);
    assert_eq!(tile_lat_cell.value, 195);
}

#[test]
fn dem_buffer_test_cell_keys_3() {
    let cell_key = CellKey::from_cell_coords(&GlobalCell::new(-1419), &GlobalCell::new(-180));
    let (tile_lon_cell, tile_lat_cell) = cell_key.to_cell_coords();
    assert_eq!(tile_lon_cell.value, -1419);
    assert_eq!(tile_lat_cell.value, -180);
}

#[test]
fn packed_value_matches_the_bit_layout() {
    let key = CellKey::from_cell_coords(&GlobalCell::new(-1), &GlobalCell::new(2));
    assert_eq!(key.to_i32(), (2 << 16) | 0xFFFF);
    let key = CellKey::from_cell_coords(&GlobalCell::new(5), &GlobalCell::new(-3));
    assert_eq!(key.to_i32(), (-3 << 16) | 5);
}

#[test]
fn empty_cell_does_not_decode() {
    assert_eq!(CellKey::empty().to_i32(), i32::MIN);
    assert!(CellKey::empty().try_to_cell_coords().is_none());
    assert!(CellKey::from_i32(0).try_to_cell_coords().is_some());
}
