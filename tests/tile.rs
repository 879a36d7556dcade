use mapgen::biome::Biome;
use mapgen::fixed::{clamp_unit, floor_div, UNIT};
use mapgen::params::WorldParameters;
use mapgen::tile::{adjusted_temperature, blended_altitude, latitude, xy_to_index, NoiseSample, Tile};

fn params() -> WorldParameters {
    WorldParameters {
        sea_level: 0,
        peak_h: 800_000,
        mountain_h: 600_000,
        hills_h: 400_000,
        frozen_t: -600_000,
        tundra_t: -400_000,
        boreal_t: -200_000,
        boreal_r: 200_000,
        temperate_t: 200_000,
        temperate_r: 100_000,
        rainforest_t: 400_000,
        rainforest_r: 300_000,
        wetlands_r: 600_000,
        desert_cutoff: 500_000,
        plains_cutoff: 0,
        global_heat_scaling: 1_000_000,
        river_factor: 100_000,
        altitude_scale: 100_000_000,
        temperature_scale: 100_000_000,
        rainfall_scale: 100_000_000,
    }
}

#[test]
fn clamp_and_floor() {
    assert_eq!(clamp_unit(2_000_000), UNIT);
    assert_eq!(clamp_unit(-2_000_000), -UNIT);
    assert_eq!(clamp_unit(123), 123);
    assert_eq!(floor_div(-6, 10), -1);
    assert_eq!(floor_div(-10, 10), -1);
    assert_eq!(floor_div(7, 2), 3);
}

#[test]
fn latitude_values() {
    assert_eq!(latitude(2, 0), 1_000_000);
    assert_eq!(latitude(2, 2), 0);
    assert_eq!(latitude(2, 3), 500_000);
    assert_eq!(latitude(2, 4), 1_000_000);
    assert_eq!(latitude(0, 0), 0);
    assert_eq!(latitude(3, 1), 666_666);
}

#[test]
fn temperature_formula() {
    assert_eq!(adjusted_temperature(1_000_000, 1_000_000, 0), -800_000);
    assert_eq!(adjusted_temperature(500_000, 1_000_000, 300_000), -340_000);
    assert_eq!(adjusted_temperature(0, 1_000_000, 2_000_000), 400_000);
    assert_eq!(adjusted_temperature(0, 1_000_000, -3), -1);
    assert_eq!(adjusted_temperature(0, 1_000_000, -60_000_000), -UNIT);
    assert_eq!(adjusted_temperature(2_000_000, 1_000_000_000, 0), -UNIT);
}

#[test]
fn altitude_blend() {
    assert_eq!(blended_altitude(300_000, 500_000), 400_000);
    assert_eq!(blended_altitude(1_500_000, 1_500_000), UNIT);
    assert_eq!(blended_altitude(-1, 0), -1);
    assert_eq!(blended_altitude(i64::MIN, i64::MIN), -UNIT);
}

#[test]
fn tile_factory() {
    let p = params();
    let s = NoiseSample { warped: 100_000, detail: 300_000, temperature: 100_000, rainfall: 250_000 };
    let t = Tile::new(5, 1, 1, 2, &s, &p);
    assert_eq!(t.id, 5);
    assert_eq!((t.x, t.y), (1, 1));
    assert_eq!(t.altitude, 200_000);
    assert_eq!(t.temperature, -380_000);
    assert_eq!(t.rainfall, 250_000);
    assert_eq!(t.biome, Biome::Boreal);
    assert!(!t.is_sea());
    let wet = NoiseSample { warped: 100_000, detail: 300_000, temperature: 0, rainfall: 3_000_000 };
    let t = Tile::new(0, 0, 2, 2, &wet, &p);
    assert_eq!(t.rainfall, UNIT);
    assert_eq!(t.biome, Biome::Wetland);
}

#[test]
fn tiles_compare_by_id() {
    let p = params();
    let a = Tile::new(3, 3, 0, 1, &NoiseSample { warped: 0, detail: 0, temperature: 0, rainfall: 0 }, &p);
    let b = Tile::new(3, 0, 1, 1, &NoiseSample { warped: 900_000, detail: 900_000, temperature: 0, rainfall: 0 }, &p);
    let c = Tile::new(4, 3, 0, 1, &NoiseSample { warped: 0, detail: 0, temperature: 0, rainfall: 0 }, &p);
    assert!(a == b);
    assert!(a != c);
}

#[test]
fn index_of_coordinates() {
    let p = params();
    let t = Tile::new(0, 3, 2, 2, &NoiseSample { warped: 0, detail: 0, temperature: 0, rainfall: 0 }, &p);
    assert_eq!(xy_to_index(&t, 4), 11);
}
