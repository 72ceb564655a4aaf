use sion::dem_tile::DemTile;
use sion::hillshading::{
    calculate_pq, calculate_pq_2, diff_between_angles_deg, hillshading_2, hillshading_3, Matrix3x3,
    XasTile,
};

fn assert_eq_approx(a: f32, b: f32, tolerance: f32) {
    if (a - b).abs() > tolerance {
        panic!("assertion failed: `(left ~= right)`\n  left: `{:?}`,\n right: `{:?}`", a, b);
    }
}

fn latitude_to_world_cell_y_and_fraction(lat: f32, tile_size: i16) -> (i32, f32) {
    let lat_int = lat as i16;
    let fraction = lat - lat_int as f32;
    let cell_with_fraction = fraction * (tile_size as f32);
    let local_cell_y = cell_with_fraction.floor() as i16;
    let world_cell_y = (lat_int as i32) * (tile_size as i32) + (local_cell_y as i32);
    let mut cell_fraction = cell_with_fraction - (cell_with_fraction as i16) as f32;
    if local_cell_y < 0 {
        cell_fraction = 1. + cell_fraction;
    }
    (world_cell_y, cell_fraction)
}

fn from_world_cell_y_to_latitude_and_local_cell_y(world_cell_y: i32, tile_size: i16) -> (i16, i16) {
    let mut lat = world_cell_y / (tile_size as i32);
    if world_cell_y < 0 {
        lat = lat - 1;
    }
    let mut modulo = world_cell_y % (tile_size as i32);
    if modulo < 0 {
        modulo = (tile_size as i32) + modulo;
    }
    let local_cell_y = tile_size - 1 - (modulo as i16);
    (lat as i16, local_cell_y)
}

#[test]
fn test_icebreaker() {
    let tile_size = 1800;

    let lat = 0.177;
    let (world_cell_y, cell_fraction) = latitude_to_world_cell_y_and_fraction(lat, tile_size);
    assert_eq!(world_cell_y, 318);
    assert_eq!(cell_fraction, 0.6000061);
    assert_eq!(from_world_cell_y_to_latitude_and_local_cell_y(world_cell_y, tile_size), (0, 1481));

    let lat = 0.;
    let (world_cell_y, cell_fraction) = latitude_to_world_cell_y_and_fraction(lat, tile_size);
    assert_eq!(world_cell_y, 0);
    assert_eq!(cell_fraction, 0.);
    assert_eq!(from_world_cell_y_to_latitude_and_local_cell_y(world_cell_y, tile_size), (0, 1799));

    let lat = -0.0001 / (tile_size as f32);
    let (world_cell_y, cell_fraction) = latitude_to_world_cell_y_and_fraction(lat, tile_size);
    assert_eq!(world_cell_y, -1);
    assert_eq!(cell_fraction, 0.9999);
    assert_eq!(from_world_cell_y_to_latitude_and_local_cell_y(world_cell_y, tile_size), (-1, 0));

    let lat = 0.0001 / (tile_size as f32);
    let (world_cell_y, cell_fraction) = latitude_to_world_cell_y_and_fraction(lat, tile_size);
    assert_eq!(world_cell_y, 0);
    assert_eq!(cell_fraction, 0.0001);
    assert_eq!(from_world_cell_y_to_latitude_and_local_cell_y(world_cell_y, tile_size), (0, 1799));

    let lat = (-0.5001) / (tile_size as f32);
    let (world_cell_y, cell_fraction) = latitude_to_world_cell_y_and_fraction(lat, tile_size);
    assert_eq!(world_cell_y, -1);
    assert_eq_approx(cell_fraction, 0.4999, 0.0001);
    assert_eq!(from_world_cell_y_to_latitude_and_local_cell_y(world_cell_y, tile_size), (-1, 0));

    let lat = 0.5 / (tile_size as f32);
    let (world_cell_y, cell_fraction) = latitude_to_world_cell_y_and_fraction(lat, tile_size);
    assert_eq!(world_cell_y, 0);
    assert_eq!(cell_fraction, 0.5);
    assert_eq!(from_world_cell_y_to_latitude_and_local_cell_y(world_cell_y, tile_size), (0, 1799));

    let lat = 7.5;
    let (world_cell_y, cell_fraction) = latitude_to_world_cell_y_and_fraction(lat, tile_size);
    assert_eq!(world_cell_y, 13500);
    assert_eq!(cell_fraction, 0.);
    assert_eq!(from_world_cell_y_to_latitude_and_local_cell_y(world_cell_y, tile_size), (7, 899));

    let lat = 8.;
    let (world_cell_y, cell_fraction) = latitude_to_world_cell_y_and_fraction(lat, tile_size);
    assert_eq!(world_cell_y, 14400);
    assert_eq!(cell_fraction, 0.);
    assert_eq!(from_world_cell_y_to_latitude_and_local_cell_y(world_cell_y, tile_size), (8, 1799));
    assert_eq!(
        from_world_cell_y_to_latitude_and_local_cell_y(world_cell_y - 1, tile_size),
        (7, 0)
    );

    let lat = 46.499889;
    let (world_cell_y, cell_fraction) = latitude_to_world_cell_y_and_fraction(lat, tile_size);
    assert_eq!(world_cell_y, 83699);
    assert_eq!(cell_fraction, 0.8009033);
    assert_eq!(from_world_cell_y_to_latitude_and_local_cell_y(world_cell_y, tile_size), (46, 900));
}

#[test]
fn gradients_of_slopes() {
    let west = Matrix3x3::new([1000, 1045, 1090, 1000, 1045, 1090, 1000, 1045, 1090]);
    assert_eq!(calculate_pq_2(&west), (360, 0));
    let north = Matrix3x3::new([1000, 1000, 1000, 1045, 1045, 1045, 1090, 1090, 1090]);
    assert_eq!(calculate_pq_2(&north), (0, 360));
    let natural = Matrix3x3::new([1250, 1256, 1265, 1271, 1280, 1297, 1274, 1303, 1318]);
    assert_eq!(calculate_pq_2(&natural), (111, 171));
    assert_eq!(natural.height_tl(), 1250);
    assert_eq!(natural.height_tc(), 1256);
    assert_eq!(natural.height_tr(), 1265);
    assert_eq!(natural.height_cl(), 1271);
    assert_eq!(natural.height_cr(), 1297);
    assert_eq!(natural.height_bl(), 1274);
    assert_eq!(natural.height_bc(), 1303);
    assert_eq!(natural.height_br(), 1318);
}

#[test]
fn angles_differ_by_at_most_half_a_turn() {
    assert_eq!(diff_between_angles_deg(10, 350), 20);
    assert_eq!(diff_between_angles_deg(350, 10), 20);
    assert_eq!(diff_between_angles_deg(90, 45), 45);
    assert_eq!(diff_between_angles_deg(0, 180), 180);
}

#[test]
fn integer_hillshading() {
    assert_eq!(hillshading_2(45, 45, 0), 95);
    assert_eq!(hillshading_2(45, 26, 0), 135);
    assert_eq!(hillshading_2(45, 0, 45), 255);
    assert_eq!(hillshading_3(45, 45, 0), 96);
    assert_eq!(hillshading_3(45, 0, 45), 256);
    assert_eq!(hillshading_3(45, 90, 45), 0);
}

#[test]
fn gradients_on_a_dem_tile() {
    let mut data = Vec::new();
    for h in [1000i16, 1045, 1090, 1000, 1045, 1090, 1000, 1045, 1090] {
        data.extend_from_slice(&h.to_be_bytes());
    }
    let tile = DemTile::new(6, 46, 3, data);
    assert_eq!(calculate_pq(&tile, 1, 1), (360, 0));
}

#[test]
fn xas_tile_starts_empty() {
    let tile = XasTile::new(3);
    assert_eq!(tile.size, 3);
    assert_eq!(tile.data.len(), 18);
}
