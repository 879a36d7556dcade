//! Colouring of tiles for display: each visualization mode maps a tile to an
//! RGBA pixel.

use vstd::prelude::*;
use crate::biome::Biome;
use crate::fixed::{UNIT, abs_int};
use crate::tile::Tile;
use crate::world::World;

verus! {

/// What a rendered pixel shows.
#[derive(Clone, Copy, Debug, PartialEq, Eq, Structural)]
pub enum VisualizationMode {
    Biome,
    Altitude,
    AltitudeWithSea,
    Temperature,
    Rainfall,
    Vegetation,
    Hardness,
    Sunlight,
    Debug,
    EquatorDistance,
}

/// The name of a mode, as shown to the user.
pub open spec fn mode_name(m: VisualizationMode) -> Seq<char> {
    match m {
        VisualizationMode::Biome => "biome"@,
        VisualizationMode::Altitude => "altitude"@,
        VisualizationMode::AltitudeWithSea => "altitude (with sea)"@,
        VisualizationMode::Temperature => "temperature"@,
        VisualizationMode::Rainfall => "rainfall"@,
        VisualizationMode::Vegetation => "vegetation"@,
        VisualizationMode::Hardness => "hardness"@,
        VisualizationMode::Sunlight => "sunlight"@,
        VisualizationMode::Debug => "debug"@,
        VisualizationMode::EquatorDistance => "equator_distance"@,
    }
}

/// The mode that follows `m` when the user cycles through the displayable
/// modes: biome, altitude, rainfall, temperature, equator distance, and back
/// to biome. Any other mode goes back to biome.
pub open spec fn mode_after(m: VisualizationMode) -> VisualizationMode {
    match m {
        VisualizationMode::Biome => VisualizationMode::Altitude,
        VisualizationMode::Altitude => VisualizationMode::Rainfall,
        VisualizationMode::Rainfall => VisualizationMode::Temperature,
        VisualizationMode::Temperature => VisualizationMode::EquatorDistance,
        _ => VisualizationMode::Biome,
    }
}

/// Whether mode `m` has a colouring: every mode but vegetation, hardness
/// and sunlight.
pub open spec fn renderable(m: VisualizationMode) -> bool {
    !(m is Vegetation || m is Hardness || m is Sunlight)
}

/// Distance of row `y` from the middle of a grid of `height` rows, as a
/// fraction of half the height: `|height / 2 - y| / (height / 2)`, that is
/// `|height - 2y| / height`, rounded down; 0 on the middle line, `UNIT` on
/// the outer rows' edges.
pub open spec fn equator_distance_spec(height: int, y: int) -> int {
    abs_int(height - 2 * y) * UNIT / height
}

impl VisualizationMode {
    /// Whether the mode has a colouring (see `renderable`).
    pub fn is_renderable(&self) -> (r: bool)
        ensures
            r == renderable(*self),
    {
        match self {
            VisualizationMode::Vegetation | VisualizationMode::Hardness | VisualizationMode::Sunlight => false,
            _ => true,
        }
    }

    /// The mode's name.
    pub fn name(&self) -> (r: String)
        ensures
            r@ == mode_name(*self),
    {
        let s = match self {
            VisualizationMode::Biome => "biome",
            VisualizationMode::Altitude => "altitude",
            VisualizationMode::AltitudeWithSea => "altitude (with sea)",
            VisualizationMode::Temperature => "temperature",
            VisualizationMode::Rainfall => "rainfall",
            VisualizationMode::Vegetation => "vegetation",
            VisualizationMode::Hardness => "hardness",
            VisualizationMode::Sunlight => "sunlight",
            VisualizationMode::Debug => "debug",
            VisualizationMode::EquatorDistance => "equator_distance",
        };
        s.to_string()
    }

    /// The next mode of the display cycle (see `mode_after`).
    pub fn next(&self) -> (r: VisualizationMode)
        ensures
            r == mode_after(*self),
    {
        match self {
            VisualizationMode::Biome => VisualizationMode::Altitude,
            VisualizationMode::Altitude => VisualizationMode::Rainfall,
            VisualizationMode::Rainfall => VisualizationMode::Temperature,
            VisualizationMode::Temperature => VisualizationMode::EquatorDistance,
            _ => VisualizationMode::Biome,
        }
    }
}

/// A normalized value mapped linearly from `[-UNIT, UNIT]` onto `[0, 255]`,
/// rounded down; values outside the range saturate.
pub open spec fn scale_spec(v: int) -> int {
    if v <= -UNIT {
        0
    } else if v >= UNIT {
        255
    } else {
        (v + UNIT) * 255 / (2 * UNIT)
    }
}

/// Maps a normalized value onto a colour channel (see `scale_spec`).
pub fn scale_unit_to_u8(v: i64) -> (r: u8)
    ensures
        r == scale_spec(v as int),
{
    if v <= -UNIT {
        0
    } else if v >= UNIT {
        255
    } else {
        let s: i64 = (v + UNIT) * 255 / (2 * UNIT);
        proof {
            assert(0 <= s <= 255) by (nonlinear_arith)
                requires s == (v + UNIT) * 255 / (2 * UNIT), -UNIT < v < UNIT;
        }
        s as u8
    }
}

/// The display colour of a biome.
pub open spec fn biome_rgb(b: Biome) -> Seq<u8> {
    match b {
        Biome::Frozen => seq![255u8, 255, 255],
        Biome::Tundra => seq![150u8, 140, 130],
        Biome::Boreal => seq![150u8, 150, 130],
        Biome::Temperate => seq![35u8, 80, 35],
        Biome::Rainforest => seq![90u8, 120, 35],
        Biome::Wetland => seq![55u8, 80, 75],
        Biome::Plains => seq![180u8, 180, 135],
        Biome::Desert => seq![255u8, 235, 185],
        Biome::Hill => seq![105u8, 110, 100],
        Biome::Mountain => seq![125u8, 130, 130],
        Biome::Peak => seq![215u8, 215, 215],
        Biome::Coast => seq![30u8, 75, 220],
        Biome::Sea => seq![25u8, 25, 200],
        Biome::Debug => seq![255u8, 0, 0],
    }
}

/// The RGBA pixel of tile `t` in a renderable mode `m` on a grid of
/// `height` rows.
pub open spec fn pixel_spec(t: Tile, m: VisualizationMode, height: int) -> Seq<u8> {
    let alt = scale_spec(t.altitude as int) as u8;
    match m {
        VisualizationMode::Debug => seq![
            alt,
            scale_spec(t.rainfall as int) as u8,
            scale_spec(t.temperature as int) as u8,
            255u8,
        ],
        VisualizationMode::Biome => biome_rgb(t.biome).push(alt),
        VisualizationMode::Altitude => seq![alt, alt, alt, 255u8],
        VisualizationMode::AltitudeWithSea => if t.altitude < 0 {
            seq![0u8, 0, alt, 255]
        } else {
            seq![alt / 2, alt / 2, 0u8, 255]
        },
        VisualizationMode::Rainfall => seq![0u8, 0, scale_spec(t.rainfall as int) as u8, 255],
        VisualizationMode::Temperature => seq![scale_spec(t.temperature as int) as u8, 0, 0, 255],
        VisualizationMode::EquatorDistance => {
            let c = scale_spec(-equator_distance_spec(height, t.y as int)) as u8;
            seq![c, c, c, 255u8]
        },
        _ => seq![0u8, 0, 0, 255],
    }
}

/// The colour that marks a river tile.
pub open spec fn river_rgba() -> Seq<u8> {
    seq![255u8, 0, 0, 255]
}

/// Distance of row `y` from the middle of the grid (see
/// `equator_distance_spec`).
pub fn equator_distance(height: usize, y: usize) -> (r: i64)
    requires
        y < height,
    ensures
        r == equator_distance_spec(height as int, y as int),
        0 <= r <= UNIT,
{
    let h: u128 = height as u128;
    let twice: u128 = 2 * (y as u128);
    let d: u128 = if h >= twice {
        h - twice
    } else {
        twice - h
    };
    let n: u128 = d * (UNIT as u128);
    let q: u128 = n / h;
    proof {
        assert(d <= h);
        assert(d == abs_int(height - 2 * y));
        assert(n <= h * UNIT) by (nonlinear_arith)
            requires n == d * UNIT, d <= h, d >= 0;
        assert(q <= UNIT) by (nonlinear_arith)
            requires q as int == (n as int) / (h as int), n <= h * UNIT, h >= 1, n >= 0;
    }
    q as i64
}

/// The display colour of a biome.
fn biome_color(b: Biome) -> (r: [u8; 3])
    ensures
        r@ == biome_rgb(b),
{
    let r: [u8; 3] = match b {
        Biome::Frozen => [255, 255, 255],
        Biome::Tundra => [150, 140, 130],
        Biome::Boreal => [150, 150, 130],
        Biome::Temperate => [35, 80, 35],
        Biome::Rainforest => [90, 120, 35],
        Biome::Wetland => [55, 80, 75],
        Biome::Plains => [180, 180, 135],
        Biome::Desert => [255, 235, 185],
        Biome::Hill => [105, 110, 100],
        Biome::Mountain => [125, 130, 130],
        Biome::Peak => [215, 215, 215],
        Biome::Coast => [30, 75, 220],
        Biome::Sea => [25, 25, 200],
        Biome::Debug => [255, 0, 0],
    };
    assert(r@ =~= biome_rgb(b));
    r
}

impl Tile {
    /// The tile's RGBA pixel in mode `mode` (see `pixel_spec`).
    pub fn rgb(&self, mode: &VisualizationMode, world: &World) -> (r: [u8; 4])
        requires
            self.y < world.height,
            renderable(*mode),
        ensures
            r@ == pixel_spec(*self, *mode, world.height as int),
    {
        let alt = scale_unit_to_u8(self.altitude);
        let r: [u8; 4] = match mode {
            VisualizationMode::Debug => [
                alt,
                scale_unit_to_u8(self.rainfall),
                scale_unit_to_u8(self.temperature),
                255,
            ],
            VisualizationMode::Biome => {
                let c = biome_color(self.biome);
                [c[0], c[1], c[2], alt]
            },
            VisualizationMode::Altitude => [alt, alt, alt, 255],
            VisualizationMode::AltitudeWithSea => {
                if self.altitude < 0 {
                    [0, 0, alt, 255]
                } else {
                    [alt / 2, alt / 2, 0, 255]
                }
            },
            VisualizationMode::Rainfall => [0, 0, scale_unit_to_u8(self.rainfall), 255],
            VisualizationMode::Temperature => [scale_unit_to_u8(self.temperature), 0, 0, 255],
            VisualizationMode::EquatorDistance => {
                let c = scale_unit_to_u8(-equator_distance(world.height, self.y));
                [c, c, c, 255]
            },
            _ => [0, 0, 0, 255],
        };
        assert(r@ =~= pixel_spec(*self, *mode, world.height as int));
        r
    }
}

impl World {
    /// The pixel of tile `k` in a renderable mode `m`: river tiles are
    /// marked, the others coloured by `pixel_spec`.
    pub open spec fn image_pixel(&self, m: VisualizationMode, k: int) -> Seq<u8> {
        if self.rivers@.contains(k as usize) {
            river_rgba()
        } else {
            pixel_spec(self.tiles@[k], m, self.height as int)
        }
    }

    /// The grid as RGBA pixels in row-major order, river tiles marked.
    pub fn generate_image(&self, mode: &VisualizationMode) -> (r: Vec<[u8; 4]>)
        requires
            self.well_formed(),
            renderable(*mode),
        ensures
            r@.len() == self.size,
            forall|k: int| 0 <= k < self.size ==> (#[trigger] r@[k])@ == self.image_pixel(*mode, k),
    {
        let mut img: Vec<[u8; 4]> = Vec::new();
        let mut k: usize = 0;
        while k < self.tiles.len()
            invariant
                self.well_formed(),
                renderable(*mode),
                k <= self.tiles@.len(),
                img@.len() == k,
                forall|q: int| 0 <= q < k ==> (#[trigger] img@[q])@ == pixel_spec(self.tiles@[q], *mode, self.height as int),
            decreases self.tiles.len() - k,
        {
            proof {
                let t = self.tiles@[k as int];
                lemma_row_in_grid(k as int, self.width as int, self.height as int);
                assert(t.y < self.height);
            }
            let px = self.tiles[k].rgb(mode, self);
            img.push(px);
            k = k + 1;
        }
        let mut i: usize = 0;
        while i < self.rivers.len()
            invariant
                self.well_formed(),
                i <= self.rivers@.len(),
                img@.len() == self.size,
                forall|q: int| 0 <= q < self.size ==> (#[trigger] img@[q])@ == if self.rivers@.subrange(0, i as int).contains(q as usize) {
                    river_rgba()
                } else {
                    pixel_spec(self.tiles@[q], *mode, self.height as int)
                },
            decreases self.rivers.len() - i,
        {
            let j = self.rivers[i];
            let ghost seen = self.rivers@.subrange(0, i as int);
            assert(self.rivers@.subrange(0, i as int + 1) =~= seen.push(j));
            if j < img.len() {
                let red: [u8; 4] = [255, 0, 0, 255];
                img.set(j, red);
                proof {
                    assert(red@ =~= river_rgba());
                }
            }
            proof {
                assert forall|q: int| 0 <= q < self.size implies (#[trigger] img@[q])@ == if self.rivers@.subrange(0, i as int + 1).contains(q as usize) {
                    river_rgba()
                } else {
                    pixel_spec(self.tiles@[q], *mode, self.height as int)
                } by {
                    if q != j as int {
                        if seen.push(j).contains(q as usize) {
                            let w = choose|w: int| 0 <= w < seen.len() + 1 && seen.push(j)[w] == q as usize;
                            assert(w < seen.len());
                            assert(seen.contains(q as usize));
                        }
                        if seen.contains(q as usize) {
                            let w = choose|w: int| 0 <= w < seen.len() && seen[w] == q as usize;
                            assert(seen.push(j)[w] == q as usize);
                        }
                    } else {
                        assert(seen.push(j)[seen.len() as int] == j);
                    }
                }
            }
            i = i + 1;
        }
        proof {
            assert(self.rivers@.subrange(0, self.rivers@.len() as int) =~= self.rivers@);
        }
        img
    }
}

proof fn lemma_row_in_grid(k: int, width: int, height: int)
    requires
        0 <= k < width * height,
        width > 0,
    ensures
        k / width < height,
{
    vstd::arithmetic::div_mod::lemma_fundamental_div_mod(k, width);
    assert(k / width < height) by (nonlinear_arith)
        requires
            k == width * (k / width) + k % width,
            0 <= k % width < width,
            k < width * height,
            width > 0,
    ;
}

} // verus!
