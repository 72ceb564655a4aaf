use sion::testing::Abs;
use sion::types::{CoordinateError, Deg, GlobalCell, Grid, LocalCell, TileKey};

#[test]
fn test_to_local_cell_lon_negative_1() {
    let global_cell = GlobalCell::new(-1);
    let dem_tile_size = 256;
    let local_cell = global_cell.to_local_cell_lon(dem_tile_size);
    assert_eq!(local_cell.value, 255);
}

#[test]
fn test_to_local_cell_lon_negative_2() {
    let global_cell = GlobalCell::new(-10);
    let dem_tile_size = 10;
    let local_cell = global_cell.to_local_cell_lon(dem_tile_size);
    assert_eq!(local_cell.value, 0);
}

#[test]
fn test_to_local_cell_lon_negative_3() {
    let global_cell = GlobalCell::new(-11);
    let dem_tile_size = 10;
    let local_cell = global_cell.to_local_cell_lon(dem_tile_size);
    assert_eq!(local_cell.value, 9);
}

#[test]
fn test_to_local_cell_lat_positive() {
    let local_cell = GlobalCell::new(1).to_local_cell_lat(10);
    assert_eq!(local_cell.value, 8);
}

#[test]
fn test_to_local_cell_lat_zero() {
    let local_cell = GlobalCell::new(0).to_local_cell_lat(10);
    assert_eq!(local_cell.value, 9);
}

#[test]
fn test_to_local_cell_lat_negative_1() {
    let local_cell = GlobalCell::new(-1).to_local_cell_lat(10);
    assert_eq!(local_cell.value, 0);
}

#[test]
fn test_to_local_cell_lat_negative_2() {
    let local_cell = GlobalCell::new(-2).to_local_cell_lat(10);
    assert_eq!(local_cell.value, 1);
}

#[test]
fn test_to_local_cell_lat_negative_3() {
    let local_cell = GlobalCell::new(-9).to_local_cell_lat(10);
    assert_eq!(local_cell.value, 8);
}

#[test]
fn test_to_local_cell_lat_negative_4() {
    let local_cell = GlobalCell::new(-10).to_local_cell_lat(10);
    assert_eq!(local_cell.value, 9);
}

#[test]
fn test_to_local_cell_lat_negative_5() {
    let local_cell = GlobalCell::new(-11).to_local_cell_lat(10);
    assert_eq!(local_cell.value, 0);
}

fn whole_degrees(value: i32) -> Deg {
    Deg::new(value * 1_000_000).unwrap()
}

#[test]
fn test_from_local_cell_lat_1() {
    let g = GlobalCell::from_local_cell_lat(&whole_degrees(0), LocalCell::new(1799), 1800);
    assert_eq!(g.value, 0);
}

#[test]
fn test_from_local_cell_lat_2() {
    let g = GlobalCell::from_local_cell_lat(&whole_degrees(0), LocalCell::new(0), 1800);
    assert_eq!(g.value, 1799);
}

#[test]
fn test_from_local_cell_lat_3() {
    let g = GlobalCell::from_local_cell_lat(&whole_degrees(1), LocalCell::new(1799), 1800);
    assert_eq!(g.value, 1800);
}

#[test]
fn test_from_local_cell_lat_4() {
    let g = GlobalCell::from_local_cell_lat(&whole_degrees(-1), LocalCell::new(0), 1800);
    assert_eq!(g.value, -1);
}

#[test]
fn test_from_local_cell_lat_5() {
    let g = GlobalCell::from_local_cell_lat(&whole_degrees(-1), LocalCell::new(1799), 1800);
    assert_eq!(g.value, -1800);
}

#[test]
fn test_from_local_cell_lat_6() {
    let g = GlobalCell::from_local_cell_lat(&whole_degrees(-2), LocalCell::new(0), 1800);
    assert_eq!(g.value, -1801);
}

#[test]
fn from_local_cell_lat_counts_rows_southward() {
    let g = GlobalCell::from_local_cell_lat(&whole_degrees(0), LocalCell::new(22), 157);
    assert_eq!(g.value, 134);
    let g = GlobalCell::from_local_cell_lat(&whole_degrees(0), LocalCell::new(22), 1800);
    assert_eq!(g.value, 1777);
}

#[test]
fn degrees_outside_the_range_are_refused() {
    assert_eq!(Deg::new(180_000_000).err(), Some(CoordinateError::InvalidDegree));
    assert_eq!(Deg::new(-181_000_000).err(), Some(CoordinateError::InvalidDegree));
    assert!(Deg::new(179_999_999).is_ok());
    assert!(Deg::new(-180_999_999).is_ok());
}

#[test]
fn from_degrees_is_the_floor() {
    let cell = GlobalCell::from_degrees(&Deg::new(7_655_320).unwrap(), 180);
    assert_eq!(cell.value, 1377);
    let cell = GlobalCell::from_degrees(&Deg::new(-500_000).unwrap(), 3);
    assert_eq!(cell.value, -2);
    let cell = GlobalCell::from_degrees(&Deg::new(-1_000_000).unwrap(), 180);
    assert_eq!(cell.value, -180);
}

#[test]
fn tile_degrees_wrap_at_the_antimeridian() {
    assert_eq!(GlobalCell::new(32400).to_tile_degrees(180).to_int_floor(), -180);
    assert_eq!(GlobalCell::new(32399).to_tile_degrees(180).to_int_floor(), 179);
    assert_eq!(GlobalCell::new(-32401).to_tile_degrees(180).to_int_floor(), 179);
    assert_eq!(GlobalCell::new(-32400).to_tile_degrees(180).to_int_floor(), -180);
    assert_eq!(GlobalCell::new(-1).to_tile_degrees(180).to_int_floor(), -1);
    assert_eq!(GlobalCell::new(1377).to_tile_degrees(180).micro_degrees(), 7_650_000);
}

#[test]
fn grid_units_round_down_to_cells() {
    let grid = Grid::from_degrees(&Deg::new(1_000_000).unwrap(), 10);
    assert_eq!(grid.value, 2560);
    assert_eq!(grid.to_global_cell().value, 10);
    assert_eq!(Grid::new(-1).to_global_cell().value, -1);
    assert_eq!(Grid::new(255).to_global_cell().value, 0);
}

#[test]
fn tile_keys_pack_into_sixteen_bits() {
    let key = TileKey::from_lon_lat(7, 46);
    let packed = key.to_i16();
    assert_eq!(packed, 46 * 256 + 7);
    assert_eq!(TileKey::from_i16(packed), key);
    assert_eq!(TileKey::from_i16(-1), TileKey::from_lon_lat(255, 255));
    assert_eq!(TileKey::from_lon_lat(-1, -1).to_i16(), -1);
}

#[test]
fn absolute_values_of_integers() {
    assert_eq!(<i16 as Abs>::abs(-7), 7);
    assert_eq!(<i32 as Abs>::abs(-2147483647), 2147483647);
    assert_eq!(<i64 as Abs>::abs(12), 12);
}
