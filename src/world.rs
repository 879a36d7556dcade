//! Grid assembly and the coastline pass.

use vstd::prelude::*;
use crate::biome::Biome;
use crate::grid::{adjacent, neighbors};
use crate::params::WorldParameters;
use crate::tile::{NoiseSample, Tile, tile_spec};

verus! {

/// Why a world cannot be built.
#[derive(Clone, Copy, Debug, PartialEq, Eq, Structural)]
pub enum BuildError {
    /// The width or the height is zero.
    EmptyDimension,
    /// `width * height` does not fit in a `usize`.
    TooLarge,
    /// The collected tiles are not exactly one tile for each id of the grid.
    TileSetMismatch,
}

/// Whether tile `t` stands at the coordinates its id gives on rows of
/// `width`.
pub open spec fn coords_match(t: Tile, width: int) -> bool {
    t.x == (t.id as int) % width && t.y == (t.id as int) / width
}

/// Whether some tile of `ts` has id `k`.
pub open spec fn has_id(ts: Seq<Tile>, k: int) -> bool {
    exists|j: int| 0 <= j < ts.len() && #[trigger] ts[j].id == k
}

/// Whether the ids of `ts` are exactly `0 .. n`, each once.
pub open spec fn complete_ids(ts: Seq<Tile>, n: int) -> bool {
    &&& forall|j: int| 0 <= j < ts.len() ==> #[trigger] ts[j].id < n
    &&& forall|i: int, j: int|
        0 <= i < ts.len() && 0 <= j < ts.len() && i != j ==> #[trigger] ts[i].id != #[trigger] ts[j].id
    &&& forall|k: int| 0 <= k < n ==> #[trigger] has_id(ts, k)
}

/// The tiles of `ts` in order of id: position `k` holds the tile whose id
/// is `k`.
pub open spec fn arranged(ts: Seq<Tile>, n: int) -> Seq<Tile> {
    Seq::new(n as nat, |k: int| ts[choose|j: int| 0 <= j < ts.len() && ts[j].id == k])
}

/// Whether the Sea tile at `s` has `j` among its neighbours.
pub open spec fn marks(ts: Seq<Tile>, s: int, j: int, width: int) -> bool {
    &&& 0 <= s < ts.len()
    &&& ts[s].biome == Biome::Sea
    &&& neighbors(s, width, ts.len() as int).contains(j as usize)
}

/// Whether tile `j` borders a Sea tile.
pub open spec fn borders_sea(ts: Seq<Tile>, j: int, width: int) -> bool {
    exists|s: int| #[trigger] marks(ts, s, j, width)
}

/// The biome of tile `j` after the coastline pass: a tile that is not Sea
/// and borders a Sea tile becomes `Coast`; every other keeps its biome.
pub open spec fn coast_biome(ts: Seq<Tile>, j: int, width: int) -> Biome {
    if ts[j].biome != Biome::Sea && borders_sea(ts, j, width) {
        Biome::Coast
    } else {
        ts[j].biome
    }
}

/// The grid after the coastline pass.
pub open spec fn coast_tagged(ts: Seq<Tile>, width: int) -> Seq<Tile> {
    Seq::new(ts.len(), |j: int| Tile { biome: coast_biome(ts, j, width), ..ts[j] })
}

/// Collects tiles of `ts` in order of id into a grid of `n` tiles; `None`
/// unless the ids are exactly `0 .. n`, each once.
pub fn arrange_by_id(ts: Vec<Tile>, n: usize) -> (r: Option<Vec<Tile>>)
    ensures
        r is Some <==> complete_ids(ts@, n as int),
        r matches Some(v) ==> v@ == arranged(ts@, n as int),
{
    let mut slots: Vec<Option<Tile>> = Vec::new();
    let mut k: usize = 0;
    while k < n
        invariant
            k <= n,
            slots@.len() == k,
            forall|i: int| 0 <= i < k ==> slots@[i] is None,
        decreases n - k,
    {
        slots.push(None);
        k = k + 1;
    }
    let mut j: usize = 0;
    while j < ts.len()
        invariant
            j <= ts.len(),
            slots@.len() == n,
            forall|i: int| 0 <= i < j ==> #[trigger] ts@[i].id < n,
            forall|a: int, b: int|
                0 <= a < j && 0 <= b < j && a != b ==> #[trigger] ts@[a].id != #[trigger] ts@[b].id,
            forall|i: int| 0 <= i < j ==> slots@[ts@[i].id as int] == Some(#[trigger] ts@[i]),
            forall|q: int|
                0 <= q < n && #[trigger] slots@[q] is Some ==> exists|i: int| 0 <= i < j && ts@[i].id == q,
        decreases ts.len() - j,
    {
        let t = ts[j];
        if t.id >= n {
            return None;
        }
        if slots[t.id].is_some() {
            proof {
                let i = choose|i: int| 0 <= i < j && ts@[i].id == t.id;
                assert(ts@[i].id == ts@[j as int].id);
            }
            return None;
        }
        slots.set(t.id, Some(t));
        proof {
            assert forall|q: int| 0 <= q < n && #[trigger] slots@[q] is Some implies exists|i: int|
                0 <= i < j + 1 && ts@[i].id == q by {
                if q == t.id {
                    assert(ts@[j as int].id == q);
                }
            }
        }
        j = j + 1;
    }
    proof {
        if complete_ids(ts@, n as int) {
            assert forall|q: int| 0 <= q < n implies #[trigger] slots@[q] is Some by {
                assert(has_id(ts@, q));
                let i = choose|i: int| 0 <= i < ts@.len() && #[trigger] ts@[i].id == q;
                assert(slots@[ts@[i].id as int] == Some(ts@[i]));
            }
        }
    }
    let mut out: Vec<Tile> = Vec::new();
    let mut k: usize = 0;
    while k < n
        invariant
            k <= n,
            slots@.len() == n,
            complete_ids(ts@, n as int) ==> forall|q: int| 0 <= q < n ==> #[trigger] slots@[q] is Some,
            forall|i: int| 0 <= i < ts@.len() ==> #[trigger] ts@[i].id < n,
            forall|a: int, b: int|
                0 <= a < ts@.len() && 0 <= b < ts@.len() && a != b ==> #[trigger] ts@[a].id
                    != #[trigger] ts@[b].id,
            forall|i: int| 0 <= i < ts@.len() ==> slots@[ts@[i].id as int] == Some(#[trigger] ts@[i]),
            forall|q: int|
                0 <= q < n && #[trigger] slots@[q] is Some ==> exists|i: int|
                    0 <= i < ts@.len() && ts@[i].id == q,
            out@.len() == k,
            forall|q: int| 0 <= q < k ==> slots@[q] == Some(#[trigger] out@[q]),
        decreases n - k,
    {
        match slots[k] {
            Some(t) => {
                out.push(t);
            },
            None => {
                proof {
                    if complete_ids(ts@, n as int) {
                        assert(has_id(ts@, k as int));
                        let i = choose|i: int| 0 <= i < ts@.len() && #[trigger] ts@[i].id == k;
                        assert(slots@[ts@[i].id as int] == Some(ts@[i]));
                    }
                }
                return None;
            },
        }
        k = k + 1;
    }
    proof {
        assert forall|q: int| 0 <= q < n implies #[trigger] has_id(ts@, q) by {
            assert(slots@[q] == Some(out@[q]));
        }
        assert forall|q: int| 0 <= q < n implies out@[q] == #[trigger] arranged(ts@, n as int)[q] by {
            assert(slots@[q] == Some(out@[q]));
            assert(has_id(ts@, q));
            let i = choose|i: int| 0 <= i < ts@.len() && ts@[i].id == q;
            assert(slots@[ts@[i].id as int] == Some(ts@[i]));
        }
        assert(out@ =~= arranged(ts@, n as int));
    }
    Some(out)
}

/// Whether a Sea tile before position `i` has `j` among its neighbours.
pub open spec fn marked_before(ts: Seq<Tile>, j: int, i: int, width: int) -> bool {
    exists|s: int| s < i && #[trigger] marks(ts, s, j, width)
}

/// The biome of tile `j` once the Sea tiles before position `i` have marked
/// their neighbours.
pub open spec fn partial_biome(ts: Seq<Tile>, j: int, i: int, width: int) -> Biome {
    if ts[j].biome != Biome::Sea && marked_before(ts, j, i, width) {
        Biome::Coast
    } else {
        ts[j].biome
    }
}

/// Marks as `Coast` every tile that is not Sea and borders a Sea tile
/// (west, east, north or south); no other tile and no attribute changes.
pub fn tag_coast(tiles: &mut Vec<Tile>, width: usize)
    requires
        width > 0,
        old(tiles)@.len() as int % width as int == 0,
    ensures
        final(tiles)@ == coast_tagged(old(tiles)@, width as int),
{
    let ghost orig = tiles@;
    let n = tiles.len();
    let mut i: usize = 0;
    while i < n
        invariant
            width > 0,
            n == orig.len(),
            n % width == 0,
            i <= n,
            tiles@.len() == n,
            forall|j: int|
                0 <= j < n ==> #[trigger] tiles@[j] == (Tile {
                    biome: partial_biome(orig, j, i as int, width as int),
                    ..orig[j]
                }),
        decreases n - i,
    {
        assert(tiles@[i as int] == (Tile { biome: partial_biome(orig, i as int, i as int, width as int), ..orig[i as int] }));
        if tiles[i].is_sea() {
            let adj = adjacent(i, width, n);
            let mut m: usize = 0;
            while m < adj.len()
                invariant
                    width > 0,
                    n == orig.len(),
                    i < n,
                    orig[i as int].biome == Biome::Sea,
                    adj@ == neighbors(i as int, width as int, n as int),
                    forall|k: int| 0 <= k < adj@.len() ==> #[trigger] adj@[k] < n,
                    m <= adj.len(),
                    tiles@.len() == n,
                    forall|j: int|
                        0 <= j < n ==> #[trigger] tiles@[j] == (Tile {
                            biome: if orig[j].biome != Biome::Sea && (marked_before(
                                orig,
                                j,
                                i as int,
                                width as int,
                            ) || adj@.subrange(0, m as int).contains(j as usize)) {
                                Biome::Coast
                            } else {
                                orig[j].biome
                            },
                            ..orig[j]
                        }),
                decreases adj.len() - m,
            {
                let j = adj[m];
                let ghost before = tiles@;
                let ghost seen = adj@.subrange(0, m as int);
                assert(adj@.subrange(0, m as int + 1) =~= seen.push(j));
                assert(before[j as int] == before[j as int]);
                if !tiles[j].is_sea() {
                    let mut t = tiles[j];
                    t.biome = Biome::Coast;
                    tiles.set(j, t);
                }
                proof {
                    assert forall|q: int| 0 <= q < n implies #[trigger] tiles@[q] == (Tile {
                        biome: if orig[q].biome != Biome::Sea && (marked_before(
                            orig,
                            q,
                            i as int,
                            width as int,
                        ) || adj@.subrange(0, m as int + 1).contains(q as usize)) {
                            Biome::Coast
                        } else {
                            orig[q].biome
                        },
                        ..orig[q]
                    }) by {
                        assert(before[q] == before[q]);
                        if q != j as int {
                            assert(seen.push(j).contains(q as usize) ==> seen.contains(q as usize)) by {
                                if seen.push(j).contains(q as usize) {
                                    let k = choose|k: int| 0 <= k < seen.len() + 1 && seen.push(j)[k] == q as usize;
                                    assert(k < seen.len());
                                }
                            }
                            assert(seen.contains(q as usize) ==> seen.push(j).contains(q as usize)) by {
                                if seen.contains(q as usize) {
                                    let k = choose|k: int| 0 <= k < seen.len() && seen[k] == q as usize;
                                    assert(seen.push(j)[k] == q as usize);
                                }
                            }
                        } else {
                            assert(seen.push(j)[seen.len() as int] == j);
                        }
                    }
                }
                m = m + 1;
            }
            assert(adj@.subrange(0, adj@.len() as int) =~= adj@);
        }
        proof {
            assert forall|j: int| 0 <= j < n implies #[trigger] tiles@[j] == (Tile {
                biome: partial_biome(orig, j, i as int + 1, width as int),
                ..orig[j]
            }) by {
                assert(tiles@[j] == tiles@[j]);
                if marked_before(orig, j, i as int + 1, width as int) {
                    let s = choose|s: int| s < i + 1 && #[trigger] marks(orig, s, j, width as int);
                    if s < i {
                        assert(marked_before(orig, j, i as int, width as int));
                    }
                } else {
                    if marks(orig, i as int, j, width as int) {
                        assert(marked_before(orig, j, i as int + 1, width as int));
                    }
                }
            }
        }
        i = i + 1;
    }
    proof {
        assert forall|j: int| 0 <= j < n implies #[trigger] tiles@[j] == coast_tagged(orig, width as int)[j] by {
            assert(tiles@[j] == tiles@[j]);
            if borders_sea(orig, j, width as int) {
                let s = choose|s: int| #[trigger] marks(orig, s, j, width as int);
                assert(marked_before(orig, j, n as int, width as int));
            }
            if marked_before(orig, j, n as int, width as int) {
                let s = choose|s: int| s < n && #[trigger] marks(orig, s, j, width as int);
                assert(borders_sea(orig, j, width as int));
            }
        }
        assert(tiles@ =~= coast_tagged(orig, width as int));
    }
}

/// The coastline pass leaves the set of Sea tiles as it was.
pub proof fn lemma_coast_keeps_sea(ts: Seq<Tile>, width: int)
    ensures
        coast_tagged(ts, width).len() == ts.len(),
        forall|j: int|
            0 <= j < ts.len() ==> (#[trigger] coast_tagged(ts, width)[j].biome == Biome::Sea <==> ts[j].biome
                == Biome::Sea),
{
}

/// Running the coastline pass a second time changes nothing.
pub proof fn lemma_coast_idempotent(ts: Seq<Tile>, width: int)
    ensures
        coast_tagged(coast_tagged(ts, width), width) == coast_tagged(ts, width),
{
    let once = coast_tagged(ts, width);
    lemma_coast_keeps_sea(ts, width);
    assert forall|j: int| 0 <= j < ts.len() implies #[trigger] coast_tagged(once, width)[j] == once[j] by {
        assert forall|s: int| #[trigger] marks(once, s, j, width) <==> marks(ts, s, j, width) by {
            if 0 <= s < ts.len() {
                assert(once[s].biome == Biome::Sea <==> ts[s].biome == Biome::Sea);
            }
        }
        if borders_sea(once, j, width) {
            let s = choose|s: int| #[trigger] marks(once, s, j, width);
            assert(marks(ts, s, j, width));
        }
        if borders_sea(ts, j, width) {
            let s = choose|s: int| #[trigger] marks(ts, s, j, width);
            assert(marks(once, s, j, width));
        }
    }
    assert(coast_tagged(once, width) =~= once);
}

/// On a grid that is Sea everywhere the coastline pass changes nothing.
pub proof fn lemma_coast_all_sea(ts: Seq<Tile>, width: int)
    requires
        forall|j: int| 0 <= j < ts.len() ==> #[trigger] ts[j].biome == Biome::Sea,
    ensures
        coast_tagged(ts, width) == ts,
{
    assert(coast_tagged(ts, width) =~= ts);
}

/// Filled tiles arriving in any order give the same grid: two complete
/// collections that hold the same tiles are arranged, and then coast-tagged,
/// identically.
pub proof fn lemma_arrival_order_irrelevant(a: Seq<Tile>, b: Seq<Tile>, n: int, width: int)
    requires
        n >= 0,
        complete_ids(a, n),
        complete_ids(b, n),
        forall|t: Tile| a.contains(t) <==> b.contains(t),
    ensures
        arranged(a, n) == arranged(b, n),
        coast_tagged(arranged(a, n), width) == coast_tagged(arranged(b, n), width),
{
    assert forall|k: int| 0 <= k < n implies #[trigger] arranged(a, n)[k] == arranged(b, n)[k] by {
        assert(has_id(a, k));
        assert(has_id(b, k));
        let ia = choose|j: int| 0 <= j < a.len() && a[j].id == k;
        let ib = choose|j: int| 0 <= j < b.len() && b[j].id == k;
        assert(a.contains(a[ia]));
        assert(b.contains(a[ia]));
        let jb = choose|j: int| 0 <= j < b.len() && b[j] == a[ia];
        assert(b[jb].id == b[ib].id);
    }
    assert(arranged(a, n) =~= arranged(b, n));
}

/// A complete collection is arranged in ascending id order: position `k`
/// holds id `k`, and every arranged tile was collected.
pub proof fn lemma_arranged_ids(ts: Seq<Tile>, n: int)
    requires
        complete_ids(ts, n),
        n >= 0,
    ensures
        arranged(ts, n).len() == n,
        forall|k: int| 0 <= k < n ==> (#[trigger] arranged(ts, n)[k]).id == k && ts.contains(arranged(ts, n)[k]),
{
    assert forall|k: int| 0 <= k < n implies (#[trigger] arranged(ts, n)[k]).id == k && ts.contains(arranged(ts, n)[k]) by {
        assert(has_id(ts, k));
    }
}

/// The ids of the tiles of `ts`, in order, that no classification rule
/// covered (biome `Debug`).
pub open spec fn debug_ids(ts: Seq<Tile>) -> Seq<usize>
    decreases ts.len(),
{
    if ts.len() == 0 {
        Seq::empty()
    } else {
        debug_ids(ts.drop_last()) + if ts.last().biome == Biome::Debug {
            seq![ts.last().id]
        } else {
            Seq::empty()
        }
    }
}

/// Lists, in collection order, the ids of the tiles that the classifier
/// left `Debug`. Run on the collected tiles before `build`, whose coastline
/// pass may relabel such a tile as `Coast`; a non-empty result means the
/// parameter record leaves part of the attribute space uncovered.
pub fn unclassified_ids(tiles: &Vec<Tile>) -> (r: Vec<usize>)
    ensures
        r@ == debug_ids(tiles@),
{
    let mut r: Vec<usize> = Vec::new();
    let mut j: usize = 0;
    while j < tiles.len()
        invariant
            j <= tiles@.len(),
            r@ == debug_ids(tiles@.subrange(0, j as int)),
        decreases tiles.len() - j,
    {
        let ghost pre = tiles@.subrange(0, j as int + 1);
        proof {
            assert(pre.drop_last() =~= tiles@.subrange(0, j as int));
            assert(pre.last() == tiles@[j as int]);
        }
        if tiles[j].biome == Biome::Debug {
            r.push(tiles[j].id);
            proof {
                assert(r@ =~= debug_ids(pre));
            }
        } else {
            proof {
                assert(r@ =~= debug_ids(pre));
            }
        }
        j = j + 1;
    }
    proof {
        assert(tiles@.subrange(0, tiles@.len() as int) =~= tiles@);
    }
    r
}

/// A generation request: the parameters, seeds and dimensions that every
/// tile of the grid is built from.
#[derive(Clone, Copy, Debug)]
pub struct WorldBuilder {
    pub params: WorldParameters,
    pub seeds: [u32; 3],
    pub width: usize,
    pub height: usize,
    pub size: usize,
    pub equator: usize,
}

/// An assembled grid: `tiles[k]` has id `k`, in row-major order.
#[derive(Clone, Debug)]
pub struct World {
    pub seeds: [u32; 3],
    pub width: usize,
    pub height: usize,
    pub size: usize,
    pub equator: usize,
    pub tiles: Vec<Tile>,
    pub rivers: Vec<usize>,
}

impl WorldBuilder {
    /// Positive dimensions, `size == width * height` and the equator on row
    /// `height / 2`.
    pub open spec fn well_formed(&self) -> bool {
        &&& self.width > 0
        &&& self.height > 0
        &&& self.size == self.width * self.height
        &&& self.equator == self.height / 2
    }

    /// A request for a `width` by `height` grid; fails on a zero dimension,
    /// and on a grid whose cell count does not fit in a `usize`.
    pub fn new(width: usize, height: usize, params: WorldParameters, seeds: [u32; 3]) -> (r: Result<
        WorldBuilder,
        BuildError,
    >)
        ensures
            r == Err::<WorldBuilder, BuildError>(BuildError::EmptyDimension) <==> (width == 0 || height
                == 0),
            r == Err::<WorldBuilder, BuildError>(BuildError::TooLarge) <==> (width > 0 && height > 0
                && width * height > usize::MAX),
            r is Ok <==> (width > 0 && height > 0 && width * height <= usize::MAX),
            r matches Ok(b) ==> b.well_formed() && b.width == width && b.height == height && b.params
                == params && b.seeds == seeds,
    {
        if width == 0 || height == 0 {
            return Err(BuildError::EmptyDimension);
        }
        if width > usize::MAX / height {
            proof {
                assert(width * height > usize::MAX) by (nonlinear_arith)
                    requires width > usize::MAX / height, height > 0;
            }
            return Err(BuildError::TooLarge);
        }
        proof {
            assert(width * height <= usize::MAX) by (nonlinear_arith)
                requires width <= usize::MAX / height, height > 0;
        }
        Ok(WorldBuilder { params, seeds, width, height, size: width * height, equator: height / 2 })
    }

    /// Builds the tile at `(x, y)` from its noise sample; its id is
    /// `x + width * y`.
    pub fn tile_at(&self, x: usize, y: usize, sample: &NoiseSample) -> (r: Tile)
        requires
            self.well_formed(),
            x < self.width,
            y < self.height,
        ensures
            r == tile_spec(x + self.width * y, x as int, y as int, self.equator as int, *sample, self.params),
            r.id == x + self.width * y,
            coords_match(r, self.width as int),
    {
        proof {
            assert(x + self.width * y == y * self.width + x) by (nonlinear_arith);
            vstd::arithmetic::div_mod::lemma_fundamental_div_mod_converse(
                x + self.width * y,
                self.width as int,
                y as int,
                x as int,
            );
            assert(x + self.width * y < self.size) by (nonlinear_arith)
                requires
                    x < self.width,
                    y < self.height,
                    self.size == self.width * self.height,
            ;
            assert(y <= 2 * self.equator + 1) by (nonlinear_arith)
                requires self.equator == self.height / 2, y < self.height;
        }
        Tile::new(x + self.width * y, x, y, self.equator, sample, &self.params)
    }

    /// Assembles the collected tiles, whatever order they arrived in, into
    /// the row-major grid and runs the coastline pass on it. Fails unless the
    /// collected ids are exactly `0 .. size`, each once: no partial grid is
    /// ever returned.
    pub fn build(&self, collected: Vec<Tile>) -> (r: Result<World, BuildError>)
        requires
            self.well_formed(),
        ensures
            r is Ok <==> complete_ids(collected@, self.size as int) && forall|j: int|
                0 <= j < collected@.len() ==> coords_match(#[trigger] collected@[j], self.width as int),
            r is Err ==> r == Err::<World, BuildError>(BuildError::TileSetMismatch),
            r matches Ok(w) ==> {
                &&& w.well_formed()
                &&& w.seeds == self.seeds
                &&& w.width == self.width
                &&& w.height == self.height
                &&& w.tiles@ == coast_tagged(arranged(collected@, self.size as int), self.width as int)
                &&& w.rivers@.len() == 0
            },
    {
        let mut j: usize = 0;
        while j < collected.len()
            invariant
                self.well_formed(),
                j <= collected@.len(),
                forall|i: int| 0 <= i < j ==> coords_match(#[trigger] collected@[i], self.width as int),
            decreases collected.len() - j,
        {
            let t = collected[j];
            if t.x != t.id % self.width || t.y != t.id / self.width {
                return Err(BuildError::TileSetMismatch);
            }
            j = j + 1;
        }
        let ghost gathered = collected@;
        match arrange_by_id(collected, self.size) {
            None => Err(BuildError::TileSetMismatch),
            Some(tiles) => {
                let mut tiles = tiles;
                let ghost before = tiles@;
                proof {
                    vstd::arithmetic::div_mod::lemma_mod_multiples_basic(
                        self.height as int,
                        self.width as int,
                    );
                    assert(self.size == self.height * self.width) by (nonlinear_arith)
                        requires self.size == self.width * self.height;
                    lemma_arranged_ids(gathered, self.size as int);
                    assert forall|k: int| 0 <= k < before.len() implies coords_match(
                        #[trigger] before[k],
                        self.width as int,
                    ) by {
                        let i = choose|i: int| 0 <= i < gathered.len() && gathered[i] == before[k];
                        assert(coords_match(gathered[i], self.width as int));
                    }
                }
                tag_coast(&mut tiles, self.width);
                proof {
                    assert forall|k: int| 0 <= k < tiles@.len() implies (#[trigger] tiles@[k]).id == k
                        && coords_match(tiles@[k], self.width as int) by {
                        assert(before[k].id == k);
                        assert(coords_match(before[k], self.width as int));
                    }
                }
                Ok(World {
                    seeds: self.seeds,
                    width: self.width,
                    height: self.height,
                    size: self.size,
                    equator: self.equator,
                    tiles,
                    rivers: Vec::new(),
                })
            },
        }
    }
}

impl World {
    /// Positive dimensions, `size == width * height`, the equator on row
    /// `height / 2`, and `tiles[k]` with id `k` for every `k < size`.
    pub open spec fn well_formed(&self) -> bool {
        &&& self.width > 0
        &&& self.height > 0
        &&& self.size == self.width * self.height
        &&& self.equator == self.height / 2
        &&& self.tiles@.len() == self.size
        &&& forall|k: int|
            0 <= k < self.tiles@.len() ==> (#[trigger] self.tiles@[k]).id == k && coords_match(
                self.tiles@[k],
                self.width as int,
            )
    }

    /// Runs the coastline pass again on the grid.
    pub fn generate_coast(&mut self)
        requires
            old(self).well_formed(),
        ensures
            final(self).well_formed(),
            final(self).tiles@ == coast_tagged(old(self).tiles@, old(self).width as int),
            final(self).seeds == old(self).seeds,
            final(self).width == old(self).width,
            final(self).height == old(self).height,
            final(self).rivers == old(self).rivers,
    {
        proof {
            vstd::arithmetic::div_mod::lemma_mod_multiples_basic(self.height as int, self.width as int);
            assert(self.size == self.height * self.width) by (nonlinear_arith)
                requires self.size == self.width * self.height;
        }
        let ghost before = self.tiles@;
        tag_coast(&mut self.tiles, self.width);
        proof {
            assert forall|k: int| 0 <= k < self.tiles@.len() implies (#[trigger] self.tiles@[k]).id == k
                && coords_match(self.tiles@[k], self.width as int) by {
                assert(before[k].id == k);
                assert(coords_match(before[k], self.width as int));
            }
        }
    }
}

} // verus!
