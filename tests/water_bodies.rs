use sion::dem_tile_id::DemTileId;
use sion::water_bodies::{
    color_water_bodies, try_color_next_water_body, Rect, WaterBodiesProcessingTile, WaterBodyValue,
};

#[derive(Debug)]
struct Scene {
    scene: String,
}

impl Scene {
    fn new(scene: &str) -> Self {
        Scene { scene: scene.to_string() }
    }

    fn to_tile(&self) -> WaterBodiesProcessingTile {
        let tile_id: DemTileId = "N54E168".parse().unwrap();
        let lines = self
            .scene
            .lines()
            .map(|line| line.trim())
            .filter(|line| !line.is_empty())
            .collect::<Vec<&str>>();
        let tile_size = lines.len() as u16;
        let mut tile = WaterBodiesProcessingTile::new(&tile_id, tile_size);
        for (y, line) in lines.iter().enumerate() {
            if line.len() != tile_size as usize {
                panic!("Line length does not match tile size");
            }
            for (x, c) in line.chars().enumerate() {
                tile.set_cell(x as u16, y as u16, (c as u16) - '0' as u16);
            }
        }
        tile
    }

    fn from_tile(tile: &WaterBodiesProcessingTile) -> Scene {
        let mut scene = String::new();
        for y in 0..tile.tile_size() {
            for x in 0..tile.tile_size() {
                scene.push_str(&tile.get_cell(x, y).to_string());
            }
            scene.push('\n');
        }
        Scene::new(&scene)
    }
}

impl PartialEq for Scene {
    fn eq(&self, other: &Self) -> bool {
        self.scene.replace("\n", "") == other.scene.replace("\n", "")
    }
}

#[test]
fn color_scene_1() {
    let scene = Scene::new(
        r#"
0000100
0010100
1011110
1111100
0011100
0011000
0001000"#,
    );
    let mut tile = scene.to_tile();
    let water_bodies = color_water_bodies(&mut tile);
    let expected_scene = Scene::new(
        r#"
0000200
0020200
2022220
2222200
0022200
0022000
0002000"#,
    );
    assert_eq!(Scene::from_tile(&tile), expected_scene);
    assert_eq!(water_bodies.len(), 1);
    assert_eq!(water_bodies[0].color, 2);
    assert_eq!(water_bodies[0].surface_area, 19);
    assert_eq!(water_bodies[0].coverage, Rect { min_x: 0, min_y: 0, width: 6, height: 7 });
}

#[test]
fn color_scene_2() {
    let scene = Scene::new(
        r#"
0000100
0010100
1011110
1111100
0011100
0011010
0001001"#,
    );
    let mut tile = scene.to_tile();
    let water_bodies = color_water_bodies(&mut tile);
    let expected_scene = Scene::new(
        r#"
0000200
0020200
2022220
2222200
0022200
0022030
0002004"#,
    );
    assert_eq!(Scene::from_tile(&tile), expected_scene);
    assert_eq!(water_bodies.len(), 3);
    assert_eq!(water_bodies[1].color, 3);
    assert_eq!(water_bodies[1].surface_area, 1);
    assert_eq!(water_bodies[2].color, 4);
    assert_eq!(water_bodies[2].surface_area, 1)
}

#[test]
fn color_scene_3() {
    let scene = Scene::new(
        r#"
0000
0001
0011
0000"#,
    );
    let mut tile = scene.to_tile();
    let water_bodies = color_water_bodies(&mut tile);
    let expected_scene = Scene::new(
        r#"
0000
0002
0022
0000"#,
    );
    assert_eq!(Scene::from_tile(&tile), expected_scene);
    assert_eq!(water_bodies.len(), 1);
    assert_eq!(water_bodies[0].color, 2);
    assert_eq!(water_bodies[0].surface_area, 3);
}

#[test]
fn a_scene_without_water_yields_no_body() {
    let mut tile = Scene::new("\n00\n02").to_tile();
    assert!(try_color_next_water_body(2, (0, 0), &mut tile).is_none());
    assert!(color_water_bodies(&mut tile).is_empty());
    assert_eq!(tile.get_cell(1, 1), 2);
}

#[test]
fn the_next_point_follows_the_found_cell() {
    let mut tile = Scene::new("\n000\n010\n001").to_tile();
    let (body, next) = try_color_next_water_body(7, (0, 0), &mut tile).unwrap();
    assert_eq!(body.color, 7);
    assert_eq!(body.surface_area, 1);
    assert_eq!(next, Some((2, 1)));
    let (body, next) = try_color_next_water_body(8, (2, 1), &mut tile).unwrap();
    assert_eq!(body.coverage, Rect { min_x: 2, min_y: 2, width: 1, height: 1 });
    assert_eq!(next, None);
}

#[test]
fn rect_extends_to_hold_points() {
    let mut rect = Rect::default();
    rect.extend((3, 4));
    assert_eq!(rect, Rect { min_x: 3, min_y: 4, width: 1, height: 1 });
    rect.extend((1, 6));
    assert_eq!(rect, Rect { min_x: 1, min_y: 4, width: 3, height: 3 });
}

#[test]
fn water_body_values() {
    assert_eq!(WaterBodyValue::NoData.value(), 0);
    assert_eq!(WaterBodyValue::NonWater.value(), 1);
    assert_eq!(WaterBodyValue::Water.value(), 2);
}

#[test]
fn labelling_changes_only_water_cells() {
    let mut tile = Scene::new("\n130\n101\n011").to_tile();
    let water_bodies = color_water_bodies(&mut tile);
    assert_eq!(Scene::from_tile(&tile), Scene::new("\n230\n203\n033"));
    assert_eq!(water_bodies.len(), 2);
    assert_eq!(water_bodies[0].surface_area, 2);
    assert_eq!(water_bodies[1].surface_area, 3);
    assert_eq!(water_bodies[1].coverage, Rect { min_x: 1, min_y: 1, width: 2, height: 2 });
}
