use rand::rngs::StdRng;
use rand::{Rng, SeedableRng};
use sion::dem_buffer::{BlockMove, BufferState, ConfigError, DemBuffer, TileSlice, ViewError};
use sion::types::{Deg, TileKey};

fn deg(value: f64) -> Deg {
    Deg::new((value * 1_000_000.0).round() as i32).unwrap()
}

fn check_properties(dem_buffer: &DemBuffer) {
    assert!(dem_buffer.prop_center_cell_is_correct_one());
    assert!(dem_buffer.prop_all_cells_are_set());
    assert!(dem_buffer.prop_all_cells_are_good_neighbors());
}

fn tile_keys(dem_buffer: &DemBuffer) -> Vec<(i32, i32)> {
    dem_buffer.slices_loaded().iter().map(|s| (s.tile_key.lon, s.tile_key.lat)).collect()
}

#[test]
fn test_initial_loading() {
    let mut dem_buffer = DemBuffer::new(200, 200, 180, 30).unwrap();

    dem_buffer.update_map_position(&deg(7.65532), &deg(46.64649), 200, 100).unwrap();

    check_properties(&dem_buffer);
    assert_eq!(dem_buffer.state(), BufferState::Initialized);
    assert_eq!(dem_buffer.block_move(), None);
    assert_eq!(dem_buffer.slices_loaded().len(), 4);
}

#[test]
fn test_handling_dateline() {
    let mut dem_buffer = DemBuffer::new(200, 200, 180, 30).unwrap();

    dem_buffer.update_map_position(&deg(179.9), &deg(46.64649), 200, 100).unwrap();

    check_properties(&dem_buffer);
    assert_eq!(dem_buffer.state(), BufferState::Initialized);
    assert_eq!(dem_buffer.block_move(), None);
    assert_eq!(dem_buffer.slices_loaded().len(), 4);
}

#[test]
fn test_no_update_is_required_if_no_movement() {
    let visible_area_width = 80;
    let visible_area_height = 60;

    let mut dem_buffer = DemBuffer::new(200, 200, 180, 30).unwrap();

    dem_buffer
        .update_map_position(&deg(7.65532), &deg(46.64649), visible_area_width, visible_area_height)
        .unwrap();
    check_properties(&dem_buffer);

    dem_buffer
        .update_map_position(&deg(7.65532), &deg(46.64649), visible_area_width, visible_area_height)
        .unwrap();
    check_properties(&dem_buffer);

    assert_eq!(dem_buffer.state(), BufferState::Initialized);
    assert_eq!(dem_buffer.block_move(), None);
    assert_eq!(dem_buffer.slices_loaded().len(), 0);
}

#[test]
fn test_moved_too_far_so_full_reload_is_needed() {
    let visible_area_width = 80;
    let visible_area_height = 60;

    let mut dem_buffer = DemBuffer::new(200, 200, 180, 30).unwrap();
    dem_buffer
        .update_map_position(&deg(7.65532), &deg(46.64649), visible_area_width, visible_area_height)
        .unwrap();
    check_properties(&dem_buffer);

    dem_buffer
        .update_map_position(&deg(9.0), &deg(46.64649), visible_area_width, visible_area_height)
        .unwrap();
    check_properties(&dem_buffer);

    assert_eq!(dem_buffer.state(), BufferState::Initialized);
    assert_eq!(dem_buffer.block_move(), None);
    assert_eq!(dem_buffer.slices_loaded().len(), 4);
}

#[test]
fn test_partial_update_is_required_to_the_right() {
    let buffer_size = 200;
    let visible_area_width = 80;
    let visible_area_height = 60;

    let mut dem_buffer = DemBuffer::new(buffer_size, buffer_size, 180, 30).unwrap();
    dem_buffer
        .update_map_position(&deg(7.65532), &deg(46.64649), visible_area_width, visible_area_height)
        .unwrap();
    check_properties(&dem_buffer);

    dem_buffer
        .update_map_position(&deg(8.0), &deg(46.64649), visible_area_width, visible_area_height)
        .unwrap();
    check_properties(&dem_buffer);

    assert_eq!(dem_buffer.state(), BufferState::Initialized);
    assert_ne!(dem_buffer.block_move(), None);
    assert_eq!(dem_buffer.slices_loaded().len(), 2);
}

#[test]
fn test_partial_update_is_required_to_the_left() {
    let buffer_size = 200;
    let visible_area_width = 80;
    let visible_area_height = 60;

    let mut dem_buffer = DemBuffer::new(buffer_size, buffer_size, 180, 30).unwrap();
    dem_buffer
        .update_map_position(&deg(7.65532), &deg(46.64649), visible_area_width, visible_area_height)
        .unwrap();
    check_properties(&dem_buffer);

    dem_buffer
        .update_map_position(&deg(7.2), &deg(46.64649), visible_area_width, visible_area_height)
        .unwrap();
    check_properties(&dem_buffer);

    assert_eq!(dem_buffer.state(), BufferState::Initialized);
    assert_ne!(dem_buffer.block_move(), None);
    assert_eq!(dem_buffer.slices_loaded().len(), 4);
}

#[test]
fn test_properties() {
    let rnd_seed = 42;
    let mut rng = StdRng::seed_from_u64(rnd_seed);

    let buffer_size = 200;
    let dem_tile_size = 180;
    let min_cell_distance_to_edge_before_refresh = 30;

    let mut dem_buffer = DemBuffer::new(
        buffer_size,
        buffer_size,
        dem_tile_size,
        min_cell_distance_to_edge_before_refresh,
    )
    .unwrap();

    let visible_area_width = 80;
    let visible_area_height = 60;
    let lon: f64 = rng.random_range(-10.0..10.0);
    let lat: f64 = rng.random_range(-10.0..10.0);

    dem_buffer
        .update_map_position(&deg(lon), &deg(lat), visible_area_width, visible_area_height)
        .unwrap();

    assert!(dem_buffer.prop_center_cell_is_correct_one(), "Center cell is not correct",);
    assert!(dem_buffer.prop_all_cells_are_set());
    assert!(dem_buffer.prop_all_cells_are_good_neighbors());

    let lon_move: f64 = rng.random_range(-2.0..2.0);
    let lat_move: f64 = rng.random_range(-2.0..2.0);

    dem_buffer
        .update_map_position(
            &deg(lon + lon_move),
            &deg(lat + lat_move),
            visible_area_width,
            visible_area_height,
        )
        .unwrap();

    check_properties(&dem_buffer);
}

#[test]
fn first_load_pages_in_the_four_tiles_around_the_center() {
    let mut dem_buffer = DemBuffer::new(200, 200, 180, 30).unwrap();
    dem_buffer.update_map_position(&deg(7.65532), &deg(46.64649), 80, 60).unwrap();
    assert_eq!(tile_keys(&dem_buffer), vec![(7, 47), (8, 47), (7, 46), (8, 46)]);
    assert_eq!(dem_buffer.center_global_cell_lon().value, 1377);
    assert_eq!(dem_buffer.center_global_cell_lat().value, 8396);
    let first = dem_buffer.slices_loaded()[0];
    assert_eq!(
        first,
        TileSlice {
            tile_key: TileKey::from_lon_lat(7, 47),
            slice_buffer_x0: 0,
            slice_buffer_y0: 0,
            slice_tile_x0: sion::types::LocalCell::new(17),
            slice_tile_y0: sion::types::LocalCell::new(143),
            slice_width: 163,
            slice_height: 37,
        }
    );
}

#[test]
fn center_cell_decodes_to_center() {
    let mut dem_buffer = DemBuffer::new(200, 200, 180, 30).unwrap();
    dem_buffer.update_map_position(&deg(7.65532), &deg(46.64649), 80, 60).unwrap();
    let (lon, lat) = dem_buffer.get_cell(100, 100).to_cell_coords();
    assert_eq!((lon.value, lat.value), (1377, 8396));
    let (lon, lat) = dem_buffer.get_cell(0, 0).to_cell_coords();
    assert_eq!((lon.value, lat.value), (1277, 8496));
}

#[test]
fn move_east_relocates_the_overlap() {
    let mut dem_buffer = DemBuffer::new(200, 200, 180, 30).unwrap();
    dem_buffer.update_map_position(&deg(7.65532), &deg(46.64649), 80, 60).unwrap();
    dem_buffer.update_map_position(&deg(8.0), &deg(46.64649), 80, 60).unwrap();
    assert_eq!(
        dem_buffer.block_move(),
        Some(BlockMove {
            source_x0: 63,
            source_y0: 0,
            block_width: 137,
            block_height: 200,
            dest_x0: 0,
            dest_y0: 0,
        })
    );
    assert_eq!(tile_keys(&dem_buffer), vec![(8, 47), (8, 46)]);
}

#[test]
fn move_west_pages_in_the_west_strip() {
    let mut dem_buffer = DemBuffer::new(200, 200, 180, 30).unwrap();
    dem_buffer.update_map_position(&deg(7.65532), &deg(46.64649), 80, 60).unwrap();
    dem_buffer.update_map_position(&deg(7.2), &deg(46.64649), 80, 60).unwrap();
    assert_eq!(tile_keys(&dem_buffer), vec![(6, 47), (7, 47), (6, 46), (7, 46)]);
    let block_move = dem_buffer.block_move().unwrap();
    assert_eq!(block_move.dest_x0, 81);
    assert_eq!(block_move.block_width, 119);
}

#[test]
fn move_north_pages_in_the_north_strip() {
    let mut dem_buffer = DemBuffer::new(200, 200, 180, 30).unwrap();
    dem_buffer.update_map_position(&deg(7.65532), &deg(46.64649), 80, 60).unwrap();
    dem_buffer.update_map_position(&deg(7.65532), &deg(46.9), 80, 60).unwrap();
    check_properties(&dem_buffer);
    let block_move = dem_buffer.block_move().unwrap();
    assert_eq!(block_move.block_width, 200);
    assert!(block_move.dest_y0 > 0);
    assert!(dem_buffer.slices_loaded().iter().all(|s| s.slice_buffer_y0 < block_move.dest_y0));
}

#[test]
fn diagonal_move_pages_in_two_strips() {
    let mut dem_buffer = DemBuffer::new(200, 200, 180, 30).unwrap();
    dem_buffer.update_map_position(&deg(7.65532), &deg(46.64649), 80, 60).unwrap();
    dem_buffer.update_map_position(&deg(7.9), &deg(46.4), 80, 60).unwrap();
    check_properties(&dem_buffer);
    let block_move = dem_buffer.block_move().unwrap();
    assert!(block_move.block_width < 200);
    assert!(block_move.block_height < 200);
}

#[test]
fn crossing_the_antimeridian_keeps_neighbors() {
    let mut dem_buffer = DemBuffer::new(200, 200, 180, 30).unwrap();
    dem_buffer.update_map_position(&deg(179.5), &deg(-20.0), 80, 60).unwrap();
    dem_buffer.update_map_position(&deg(179.9), &deg(-20.0), 80, 60).unwrap();
    check_properties(&dem_buffer);
    assert_ne!(dem_buffer.block_move(), None);
    let (lon, _) = dem_buffer.get_cell(199, 0).to_cell_coords();
    assert!(lon.value < 0);
}

#[test]
fn latitude_beyond_the_range_is_refused() {
    let mut dem_buffer = DemBuffer::new(200, 200, 180, 30).unwrap();
    dem_buffer.update_map_position(&deg(7.0), &deg(46.0), 80, 60).unwrap();
    let result = dem_buffer.update_map_position(&deg(7.0), &deg(179.8), 80, 60);
    assert_eq!(result, Err(ViewError::LatitudeOutOfRange));
    assert_eq!(dem_buffer.center_global_cell_lat().value, 46 * 180);
    check_properties(&dem_buffer);
}

#[test]
fn invalid_configurations_are_refused() {
    assert_eq!(DemBuffer::new(200, 200, 0, 30).err(), Some(ConfigError::InvalidTileSize));
    assert_eq!(DemBuffer::new(200, 200, 183, 30).err(), Some(ConfigError::InvalidTileSize));
    assert_eq!(DemBuffer::new(0, 200, 180, 30).err(), Some(ConfigError::InvalidDimensions));
    assert_eq!(DemBuffer::new(200, -1, 180, 30).err(), Some(ConfigError::InvalidDimensions));
    assert_eq!(DemBuffer::new(64801, 1, 180, 30).err(), Some(ConfigError::InvalidDimensions));
}

#[test]
fn uninitialized_buffer_fails_its_properties() {
    let dem_buffer = DemBuffer::new(10, 10, 180, 3).unwrap();
    assert_eq!(dem_buffer.state(), BufferState::Uninitialized);
    assert!(!dem_buffer.prop_center_cell_is_correct_one());
    assert!(!dem_buffer.prop_all_cells_are_set());
    assert!(!dem_buffer.prop_all_cells_are_good_neighbors());
}

#[test]
fn first_call_is_a_full_reload_of_four_slices() {
    let mut dem_buffer = DemBuffer::new(200, 200, 180, 30).unwrap();
    dem_buffer.update_map_position(&deg(7.65532), &deg(46.64649), 80, 60).unwrap();
    assert_eq!(dem_buffer.block_move(), None);
    assert_eq!(dem_buffer.slices_loaded().len(), 4);
    check_properties(&dem_buffer);
}

#[test]
fn reload_at_the_antimeridian_wraps_longitude() {
    let mut dem_buffer = DemBuffer::new(200, 200, 180, 30).unwrap();
    dem_buffer.update_map_position(&deg(179.9), &deg(46.64649), 80, 60).unwrap();
    check_properties(&dem_buffer);
    assert_eq!(tile_keys(&dem_buffer), vec![(179, 47), (-180, 47), (179, 46), (-180, 46)]);
    let (west, _) = dem_buffer.get_cell(117, 100).to_cell_coords();
    let (east, _) = dem_buffer.get_cell(118, 100).to_cell_coords();
    assert_eq!((west.value, east.value), (32399, -32400));
}

#[test]
fn a_visible_area_as_wide_as_the_buffer_moves_the_whole_block_again() {
    let mut dem_buffer = DemBuffer::new(200, 200, 180, 30).unwrap();
    dem_buffer.update_map_position(&deg(7.65532), &deg(46.64649), 200, 100).unwrap();
    dem_buffer.update_map_position(&deg(7.65532), &deg(46.64649), 200, 100).unwrap();
    check_properties(&dem_buffer);
    assert_eq!(dem_buffer.slices_loaded().len(), 0);
    assert_eq!(
        dem_buffer.block_move(),
        Some(BlockMove {
            source_x0: 0,
            source_y0: 0,
            block_width: 200,
            block_height: 200,
            dest_x0: 0,
            dest_y0: 0,
        })
    );
}

#[test]
fn vertical_move_pages_in_the_north_strip_over_the_block_width_only() {
    let mut dem_buffer = DemBuffer::new(200, 200, 180, 30).unwrap();
    dem_buffer.update_map_position(&deg(7.65532), &deg(46.64649), 80, 60).unwrap();
    dem_buffer.update_map_position(&deg(7.65532), &deg(46.9), 80, 60).unwrap();
    let block_move = dem_buffer.block_move().unwrap();
    let covered: i32 = dem_buffer
        .slices_loaded()
        .iter()
        .map(|s| s.slice_width * s.slice_height)
        .sum();
    assert_eq!(covered, 200 * 200 - block_move.block_width * block_move.block_height);
    assert_eq!(tile_keys(&dem_buffer), vec![(7, 47), (8, 47)]);
}
