use mapgen::biome::{classify, rule_order, Biome, Rule};
use mapgen::params::{ParameterError, WorldParameters};

fn params() -> WorldParameters {
    WorldParameters {
        sea_level: 0,
        peak_h: 800_000,
        mountain_h: 600_000,
        hills_h: 400_000,
        frozen_t: -600_000,
        tundra_t: -400_000,
        boreal_t: -200_000,
        boreal_r: 200_000,
        temperate_t: 200_000,
        temperate_r: 100_000,
        rainforest_t: 400_000,
        rainforest_r: 300_000,
        wetlands_r: 600_000,
        desert_cutoff: 500_000,
        plains_cutoff: 0,
        global_heat_scaling: 1_000_000,
        river_factor: 100_000,
        altitude_scale: 100_000_000,
        temperature_scale: 100_000_000,
        rainfall_scale: 100_000_000,
    }
}

#[test]
fn peak_wins_whatever_the_climate() {
    let p = params();
    for &t in &[-1_000_000i64, -500_000, 0, 500_000, 1_000_000] {
        for &w in &[-1_000_000i64, 0, 700_000, 1_000_000] {
            assert_eq!(classify(850_000, t, w, &p), Biome::Peak);
            assert_eq!(classify(800_000, t, w, &p), Biome::Peak);
        }
    }
}

#[test]
fn altitude_bands() {
    let p = params();
    assert_eq!(classify(700_000, 0, 0, &p), Biome::Mountain);
    assert_eq!(classify(600_000, 0, 0, &p), Biome::Mountain);
    assert_eq!(classify(500_000, 0, 0, &p), Biome::Hill);
    assert_eq!(classify(400_000, -900_000, 900_000, &p), Biome::Hill);
    assert_eq!(classify(0, 0, 0, &p), Biome::Sea);
    assert_eq!(classify(-500_000, 900_000, 900_000, &p), Biome::Sea);
}

#[test]
fn climate_rules_in_order() {
    let p = params();
    assert_eq!(classify(100_000, -700_000, 900_000, &p), Biome::Frozen);
    assert_eq!(classify(100_000, -500_000, 900_000, &p), Biome::Tundra);
    assert_eq!(classify(100_000, -300_000, 300_000, &p), Biome::Boreal);
    assert_eq!(classify(100_000, -300_000, 100_000, &p), Biome::Temperate);
    assert_eq!(classify(100_000, 0, 700_000, &p), Biome::Wetland);
    assert_eq!(classify(100_000, 500_000, 400_000, &p), Biome::Rainforest);
    assert_eq!(classify(100_000, 100_000, 150_000, &p), Biome::Temperate);
    assert_eq!(classify(100_000, -100_000, 50_000, &p), Biome::Plains);
    assert_eq!(classify(100_000, 300_000, 50_000, &p), Biome::Desert);
}

#[test]
fn uncovered_sample_is_debug() {
    let p = params();
    assert_eq!(classify(100_000, 900_000, 0, &p), Biome::Debug);
}

#[test]
fn rule_list_order_and_labels() {
    let rules = rule_order();
    assert_eq!(rules.len(), 12);
    assert_eq!(rules[0], Rule::Peak);
    assert_eq!(rules[3], Rule::Sea);
    assert_eq!(rules[11], Rule::Desert);
    assert_eq!(Rule::Wetland.biome(), Biome::Wetland);
    let p = params();
    assert!(Rule::Boreal.holds(0, -300_000, 300_000, &p));
    assert!(!Rule::Boreal.holds(0, -300_000, 100_000, &p));
    assert!(Rule::Plains.holds(0, -100_000, 100_000, &p));
    assert!(!Rule::Plains.holds(0, -100_000, 100_001, &p));
}

#[test]
fn biome_is_sea() {
    assert!(Biome::Sea.is_sea());
    assert!(!Biome::Coast.is_sea());
}

#[test]
fn parameter_validation() {
    let p = params();
    assert_eq!(p.validate(), Ok(()));
    let mut q = params();
    q.altitude_scale = 0;
    assert_eq!(q.validate(), Err(ParameterError::NonPositiveScale));
    let mut q = params();
    q.rainfall_scale = -5;
    q.river_factor = 0;
    assert_eq!(q.validate(), Err(ParameterError::NonPositiveScale));
    let mut q = params();
    q.river_factor = 0;
    assert_eq!(q.validate(), Err(ParameterError::ZeroRiverFactor));
}
