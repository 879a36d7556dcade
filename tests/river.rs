use mapgen::biome::Biome;
use mapgen::river::river_count;
use mapgen::tile::Tile;
use mapgen::world::World;

fn world_from(width: usize, height: usize, altitude: impl Fn(usize, usize) -> i64) -> World {
    let mut tiles = Vec::new();
    for k in 0..width * height {
        let (x, y) = (k % width, k / width);
        tiles.push(Tile {
            id: k,
            x,
            y,
            altitude: altitude(x, y),
            temperature: 0,
            rainfall: 0,
            biome: Biome::Plains,
        });
    }
    World {
        seeds: [0, 0, 0],
        width,
        height,
        size: width * height,
        equator: height / 2,
        tiles,
        rivers: Vec::new(),
    }
}

fn ramp(_x: usize, y: usize) -> i64 {
    100_000 * (y as i64 + 1)
}

#[test]
fn river_runs_to_the_edge() {
    let w = world_from(5, 6, ramp);
    let path = w.trace_river(4 * 5 + 2, 0);
    assert_eq!(path, vec![22, 17, 12, 7]);
    assert_eq!(path.len(), 4);
}

#[test]
fn river_from_second_row_is_one_tile() {
    let w = world_from(5, 6, ramp);
    assert_eq!(w.trace_river(7, 0), vec![7]);
}

#[test]
fn local_minimum_stops_at_once() {
    let w = world_from(5, 5, |x, y| if (x, y) == (2, 2) { 100_000 } else { 500_000 });
    assert_eq!(w.trace_river(12, 0), vec![12]);
}

#[test]
fn coast_tile_ends_the_river() {
    let mut w = world_from(5, 6, ramp);
    w.tiles[17].biome = Biome::Coast;
    assert_eq!(w.trace_river(22, 0), vec![22, 17]);
}

#[test]
fn river_takes_the_strictly_lowest_land_neighbour() {
    // Tile 12 (2, 2) has neighbours 11 (west), 13 (east), 7 (north), 17 (south).
    let mut w = world_from(5, 5, |_, _| 900_000);
    w.tiles[12].altitude = 800_000;
    w.tiles[11].altitude = 300_000;
    w.tiles[13].altitude = 300_000;
    w.tiles[7].altitude = 500_000;
    assert_eq!(w.next_river_step(12, 0), Some(11));
    // Below sea level a neighbour is not land and is never taken.
    w.tiles[11].altitude = -100_000;
    assert_eq!(w.next_river_step(12, 0), Some(13));
}

#[test]
fn neighbour_on_the_boundary_ends_the_river() {
    let mut w = world_from(4, 4, |_, _| 900_000);
    w.tiles[5].altitude = 500_000;
    w.tiles[4].altitude = 100_000;
    assert_eq!(w.next_river_step(5, 0), None);
    assert_eq!(w.trace_river(5, 0), vec![5]);
}

#[test]
fn lowest_land_neighbour_prefers_the_first_on_a_tie() {
    let w = world_from(3, 3, |x, _| if x == 1 { 200_000 } else { 100_000 });
    assert_eq!(w.lowest_land_neighbor(&vec![3, 5, 1], 0), Some(3));
    assert_eq!(w.lowest_land_neighbor(&vec![3, 5, 1], 150_000), Some(1));
    assert_eq!(w.lowest_land_neighbor(&vec![3, 5], 150_000), None);
}

#[test]
fn sources_are_the_high_tiles_in_order() {
    let w = world_from(4, 4, ramp);
    assert_eq!(w.river_sources(300_000), (8..16).collect::<Vec<usize>>());
    assert_eq!(w.river_sources(500_000), Vec::<usize>::new());
}

#[test]
fn rivers_are_concatenated() {
    let mut w = world_from(5, 6, ramp);
    w.trace_rivers(&vec![22, 7, 23], 0);
    assert_eq!(w.rivers, vec![22, 17, 12, 7, 7, 23, 18, 13, 8]);
}

#[test]
fn river_count_rounds() {
    assert_eq!(river_count(800, 600, 100_000), 140);
    assert_eq!(river_count(100, 50, 1_000_000), 2);
    assert_eq!(river_count(10, 5, 1_000_000), 0);
    assert_eq!(river_count(100, 24, 1_000_000), 1);
    assert_eq!(river_count(100, 100, 0), 0);
    assert_eq!(river_count(100, 100, -1_000_000), 0);
}
