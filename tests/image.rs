use mapgen::biome::Biome;
use mapgen::image::{equator_distance, scale_unit_to_u8, VisualizationMode};
use mapgen::tile::Tile;
use mapgen::world::World;

fn tile(id: usize, x: usize, y: usize, altitude: i64, biome: Biome) -> Tile {
    Tile { id, x, y, altitude, temperature: 500_000, rainfall: -500_000, biome }
}

fn small_world() -> World {
    World {
        seeds: [0, 0, 0],
        width: 2,
        height: 2,
        size: 4,
        equator: 1,
        tiles: vec![
            tile(0, 0, 0, -1_000_000, Biome::Sea),
            tile(1, 1, 0, 0, Biome::Coast),
            tile(2, 0, 1, 500_000, Biome::Hill),
            tile(3, 1, 1, 1_000_000, Biome::Peak),
        ],
        rivers: vec![2],
    }
}

#[test]
fn channel_scaling() {
    assert_eq!(scale_unit_to_u8(-1_000_000), 0);
    assert_eq!(scale_unit_to_u8(1_000_000), 255);
    assert_eq!(scale_unit_to_u8(0), 127);
    assert_eq!(scale_unit_to_u8(500_000), 191);
    assert_eq!(scale_unit_to_u8(-3_000_000), 0);
    assert_eq!(scale_unit_to_u8(3_000_000), 255);
}

#[test]
fn mode_names_and_cycle() {
    assert_eq!(VisualizationMode::Biome.name(), "biome");
    assert_eq!(VisualizationMode::AltitudeWithSea.name(), "altitude (with sea)");
    assert_eq!(VisualizationMode::EquatorDistance.name(), "equator_distance");
    let mut m = VisualizationMode::Biome;
    let mut seen = Vec::new();
    for _ in 0..5 {
        m = m.next();
        seen.push(m);
    }
    assert_eq!(
        seen,
        vec![
            VisualizationMode::Altitude,
            VisualizationMode::Rainfall,
            VisualizationMode::Temperature,
            VisualizationMode::EquatorDistance,
            VisualizationMode::Biome,
        ]
    );
    assert_eq!(VisualizationMode::Sunlight.next(), VisualizationMode::Biome);
}

#[test]
fn tile_colours() {
    let w = small_world();
    assert_eq!(w.tiles[0].rgb(&VisualizationMode::Biome, &w), [25, 25, 200, 0]);
    assert_eq!(w.tiles[3].rgb(&VisualizationMode::Biome, &w), [215, 215, 215, 255]);
    assert_eq!(w.tiles[2].rgb(&VisualizationMode::Altitude, &w), [191, 191, 191, 255]);
    assert_eq!(w.tiles[0].rgb(&VisualizationMode::AltitudeWithSea, &w), [0, 0, 0, 255]);
    assert_eq!(w.tiles[2].rgb(&VisualizationMode::AltitudeWithSea, &w), [95, 95, 0, 255]);
    assert_eq!(w.tiles[1].rgb(&VisualizationMode::Temperature, &w), [191, 0, 0, 255]);
    assert_eq!(w.tiles[1].rgb(&VisualizationMode::Rainfall, &w), [0, 0, 63, 255]);
    assert_eq!(w.tiles[1].rgb(&VisualizationMode::Debug, &w), [127, 63, 191, 255]);
    assert_eq!(w.tiles[0].rgb(&VisualizationMode::EquatorDistance, &w), [0, 0, 0, 255]);
    assert_eq!(w.tiles[2].rgb(&VisualizationMode::EquatorDistance, &w), [127, 127, 127, 255]);
}

#[test]
fn equator_distance_uses_half_the_height() {
    assert_eq!(equator_distance(5, 4), 600_000);
    assert_eq!(equator_distance(5, 2), 200_000);
    assert_eq!(equator_distance(4, 2), 0);
    assert_eq!(equator_distance(4, 0), 1_000_000);
    let w = World {
        seeds: [0, 0, 0],
        width: 1,
        height: 5,
        size: 5,
        equator: 2,
        tiles: (0..5).map(|k| tile(k, 0, k, 0, Biome::Plains)).collect(),
        rivers: vec![],
    };
    assert_eq!(w.tiles[4].rgb(&VisualizationMode::EquatorDistance, &w), [51, 51, 51, 255]);
    assert_eq!(w.tiles[2].rgb(&VisualizationMode::EquatorDistance, &w), [102, 102, 102, 255]);
}

#[test]
fn modes_without_colouring() {
    assert!(!VisualizationMode::Vegetation.is_renderable());
    assert!(!VisualizationMode::Hardness.is_renderable());
    assert!(!VisualizationMode::Sunlight.is_renderable());
    assert!(VisualizationMode::Biome.is_renderable());
    assert!(VisualizationMode::EquatorDistance.is_renderable());
}

#[test]
fn image_marks_rivers() {
    let w = small_world();
    let img = w.generate_image(&VisualizationMode::Altitude);
    assert_eq!(img, vec![[0, 0, 0, 255], [127, 127, 127, 255], [255, 0, 0, 255], [255, 255, 255, 255]]);
}
