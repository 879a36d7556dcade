//! One grid cell and the factory that derives its attributes from raw noise.

use vstd::prelude::*;
use crate::biome::{Biome, biome_of, classify};
use crate::fixed::{UNIT, WIDE, abs_int, clamp_unit, clamp_unit_spec, floor_div};
use crate::params::WorldParameters;

verus! {

/// The raw noise values sampled for one coordinate, in fixed point and not
/// yet clamped.
#[derive(Clone, Copy, Debug, PartialEq, Eq, Structural)]
pub struct NoiseSample {
    /// The altitude field sampled at the domain-warped coordinate.
    pub warped: i64,
    /// The altitude field sampled at twice the base frequency.
    pub detail: i64,
    /// The temperature field.
    pub temperature: i64,
    /// The rainfall field.
    pub rainfall: i64,
}

/// One grid cell. Equality and order go by `id` alone.
#[derive(Clone, Copy, Debug)]
pub struct Tile {
    pub id: usize,
    pub x: usize,
    pub y: usize,
    pub altitude: i64,
    pub temperature: i64,
    pub rainfall: i64,
    pub biome: Biome,
}

/// Distance of row `y` from the equator row, as a fraction of the equator's
/// own row number: 0 on the equator, `UNIT` at the poles. A grid whose equator
/// is row 0 is all equator.
pub open spec fn latitude_spec(equator: int, y: int) -> int {
    if equator <= 0 {
        0
    } else {
        abs_int(equator - y) * UNIT / equator
    }
}

/// Raw temperature noise biased towards cold away from the equator:
/// `(-latitude * 8 * heat + raw * 2) / 10`, clamped.
pub open spec fn temperature_spec(latitude: int, heat: int, raw: int) -> int {
    clamp_unit_spec((-(latitude * 8 * heat) / (UNIT as int) + 2 * raw) / 10)
}

/// The mean of the warped and detail altitude samples, clamped.
pub open spec fn altitude_spec(warped: int, detail: int) -> int {
    clamp_unit_spec((warped + detail) / 2)
}

/// The tile that the factory builds at `(x, y)` from `s`.
pub open spec fn tile_spec(
    id: int,
    x: int,
    y: int,
    equator: int,
    s: NoiseSample,
    p: WorldParameters,
) -> Tile {
    let altitude = altitude_spec(s.warped as int, s.detail as int);
    let temperature = temperature_spec(
        latitude_spec(equator, y),
        p.global_heat_scaling as int,
        s.temperature as int,
    );
    let rainfall = clamp_unit_spec(s.rainfall as int);
    Tile {
        id: id as usize,
        x: x as usize,
        y: y as usize,
        altitude: altitude as i64,
        temperature: temperature as i64,
        rainfall: rainfall as i64,
        biome: biome_of(altitude, temperature, rainfall, p),
    }
}

/// Whether the tile's attributes lie in the normalized range.
pub open spec fn attributes_in_range(t: Tile) -> bool {
    &&& -UNIT <= t.altitude <= UNIT
    &&& -UNIT <= t.temperature <= UNIT
    &&& -UNIT <= t.rainfall <= UNIT
}

/// Latitude of row `y` for the given equator row (see `latitude_spec`).
pub fn latitude(equator: usize, y: usize) -> (r: i64)
    requires
        y <= 2 * equator + 1,
    ensures
        r == latitude_spec(equator as int, y as int),
        0 <= r <= 2 * UNIT,
{
    if equator == 0 {
        return 0;
    }
    let d: u128 = if equator >= y {
        (equator - y) as u128
    } else {
        (y - equator) as u128
    };
    let n: u128 = d * (UNIT as u128);
    let q: u128 = n / (equator as u128);
    proof {
        let e = equator as int;
        assert(d <= e + 1);
        assert(n <= (e + 1) * UNIT) by (nonlinear_arith)
            requires n == d * UNIT, d <= e + 1, d >= 0;
        assert(q <= 2 * UNIT) by (nonlinear_arith)
            requires q as int == (n as int) / e, n <= (e + 1) * UNIT, e >= 1, n >= 0;
        assert(d == abs_int(e - y as int));
    }
    q as i64
}

/// Temperature after the latitude bias (see `temperature_spec`).
pub fn adjusted_temperature(latitude: i64, heat: i64, raw: i64) -> (r: i64)
    requires
        0 <= latitude <= 2 * UNIT,
    ensures
        r == temperature_spec(latitude as int, heat as int, raw as int),
        -UNIT <= r <= UNIT,
{
    let lat8: i128 = (latitude as i128) * 8;
    proof {
        assert(-0x80_0000_0000_0000_0000_0000 <= lat8 * heat <= 0x80_0000_0000_0000_0000_0000) by (nonlinear_arith)
            requires
                lat8 == latitude * 8,
                0 <= latitude <= 2 * UNIT,
                i64::MIN <= heat <= i64::MAX,
        ;
    }
    let prod: i128 = lat8 * (heat as i128);
    proof {
        assert(-0x80_0000_0000_0000_0000_0000 <= prod <= 0x80_0000_0000_0000_0000_0000) by (nonlinear_arith)
            requires
                prod == latitude * 8 * heat,
                0 <= latitude <= 2 * UNIT,
                i64::MIN <= heat <= i64::MAX,
        ;
    }
    let cooled: i128 = floor_div(-prod, UNIT as i128);
    proof {
        assert(-WIDE <= cooled <= WIDE) by (nonlinear_arith)
            requires
                cooled == (-prod) / (UNIT as int),
                -0x80_0000_0000_0000_0000_0000 <= prod <= 0x80_0000_0000_0000_0000_0000,
        ;
    }
    let blended: i128 = floor_div(cooled + 2 * (raw as i128), 10);
    clamp_unit(blended)
}

/// Altitude from the warped and detail samples (see `altitude_spec`).
pub fn blended_altitude(warped: i64, detail: i64) -> (r: i64)
    ensures
        r == altitude_spec(warped as int, detail as int),
        -UNIT <= r <= UNIT,
{
    let m: i128 = floor_div((warped as i128) + (detail as i128), 2);
    clamp_unit(m)
}

impl Tile {
    /// Builds the tile at `(x, y)` with the given id: altitude, temperature
    /// (biased by the tile's latitude) and rainfall from `sample`, clamped to
    /// the normalized range, and the biome that classifies them.
    pub fn new(
        id: usize,
        x: usize,
        y: usize,
        equator: usize,
        sample: &NoiseSample,
        params: &WorldParameters,
    ) -> (r: Tile)
        requires
            y <= 2 * equator + 1,
        ensures
            r == tile_spec(id as int, x as int, y as int, equator as int, *sample, *params),
            attributes_in_range(r),
    {
        let altitude = blended_altitude(sample.warped, sample.detail);
        let lat = latitude(equator, y);
        let temperature = adjusted_temperature(lat, params.global_heat_scaling, sample.temperature);
        let rainfall = clamp_unit(sample.rainfall as i128);
        let biome = classify(altitude, temperature, rainfall, params);
        Tile { id, x, y, altitude, temperature, rainfall, biome }
    }

    /// Whether the tile is classified `Sea`.
    pub fn is_sea(&self) -> (r: bool)
        ensures
            r == (self.biome == Biome::Sea),
    {
        self.biome.is_sea()
    }
}

impl PartialEq for Tile {
    fn eq(&self, other: &Tile) -> (r: bool) {
        self.id == other.id
    }
}

impl vstd::std_specs::cmp::PartialEqSpecImpl for Tile {
    open spec fn obeys_eq_spec() -> bool {
        true
    }

    open spec fn eq_spec(&self, other: &Tile) -> bool {
        self.id == other.id
    }
}

/// The row-major index of `tile`'s coordinates on rows of `width`.
pub fn xy_to_index(tile: &Tile, width: usize) -> (r: usize)
    requires
        tile.x + tile.y * width <= usize::MAX,
    ensures
        r == tile.x + tile.y * width,
{
    proof {
        assert(tile.y * width <= usize::MAX) by (nonlinear_arith)
            requires tile.x + tile.y * width <= usize::MAX, tile.x >= 0;
    }
    tile.x + tile.y * width
}

} // verus!
