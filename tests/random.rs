use mapgen::biome::Biome;
use mapgen::params::WorldParameters;
use mapgen::random::{complete_seeds, fill_seeds};
use mapgen::tile::Tile;
use mapgen::world::World;
use rand::SeedableRng;

#[test]
fn supplied_seeds_come_first() {
    assert_eq!(complete_seeds(&vec![9], [1, 2, 3]), [9, 2, 3]);
    assert_eq!(complete_seeds(&vec![], [1, 2, 3]), [1, 2, 3]);
    assert_eq!(complete_seeds(&vec![7, 8, 9, 10], [1, 2, 3]), [7, 8, 9]);
}

#[test]
fn filled_seeds_keep_supplied_ones_and_repeat_for_one_generator_seed() {
    let mut rng = rand::rngs::StdRng::seed_from_u64(11);
    let a = fill_seeds(&vec![5, 6], &mut rng);
    assert_eq!(&a[..2], &[5, 6]);
    let mut rng = rand::rngs::StdRng::seed_from_u64(11);
    let b = fill_seeds(&vec![5, 6], &mut rng);
    assert_eq!(a, b);
    let mut rng = rand::rngs::StdRng::seed_from_u64(11);
    assert_eq!(fill_seeds(&vec![1, 2, 3], &mut rng), [1, 2, 3]);
}

fn params(river_factor: i64) -> WorldParameters {
    WorldParameters {
        sea_level: 0,
        peak_h: 800_000,
        mountain_h: 600_000,
        hills_h: 400_000,
        frozen_t: -600_000,
        tundra_t: -400_000,
        boreal_t: -200_000,
        boreal_r: 200_000,
        temperate_t: 200_000,
        temperate_r: 100_000,
        rainforest_t: 400_000,
        rainforest_r: 300_000,
        wetlands_r: 600_000,
        desert_cutoff: 500_000,
        plains_cutoff: 0,
        global_heat_scaling: 1_000_000,
        river_factor,
        altitude_scale: 100_000_000,
        temperature_scale: 100_000_000,
        rainfall_scale: 100_000_000,
    }
}

fn ramp_world(width: usize, height: usize) -> World {
    let mut tiles = Vec::new();
    for k in 0..width * height {
        let (x, y) = (k % width, k / width);
        tiles.push(Tile {
            id: k,
            x,
            y,
            altitude: 100_000 * (y as i64 + 1),
            temperature: 0,
            rainfall: 0,
            biome: Biome::Plains,
        });
    }
    World { seeds: [0, 0, 0], width, height, size: width * height, equator: height / 2, tiles, rivers: Vec::new() }
}

#[test]
fn generated_rivers_start_on_high_tiles() {
    // 10 + 10 over 100 * 0.1 asks for two rivers; rows 5 .. 9 are at or above the mountain altitude.
    let p = params(100_000);
    let mut w = ramp_world(10, 10);
    let mut rng = rand::rngs::StdRng::seed_from_u64(3);
    w.generate_rivers(&p, &mut rng);
    assert!(!w.rivers.is_empty());
    let first = w.rivers[0];
    assert!(first >= 50);
    let path = w.trace_river(first, p.sea_level);
    assert_eq!(&w.rivers[..path.len()], &path[..]);
    let rest = &w.rivers[path.len()..];
    assert!(rest[0] >= 50);
    assert_eq!(rest, &w.trace_river(rest[0], p.sea_level)[..]);
    let mut again = ramp_world(10, 10);
    let mut rng = rand::rngs::StdRng::seed_from_u64(3);
    again.generate_rivers(&p, &mut rng);
    assert_eq!(again.rivers, w.rivers);
}

#[test]
fn no_rivers_without_sources() {
    let mut p = params(100_000);
    p.mountain_h = 2_000_000;
    let mut w = ramp_world(10, 10);
    let mut rng = rand::rngs::StdRng::seed_from_u64(3);
    w.generate_rivers(&p, &mut rng);
    assert!(w.rivers.is_empty());
}
