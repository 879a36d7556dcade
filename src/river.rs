//! River tracing: greedy steepest descent from high tiles.

use vstd::prelude::*;
use crate::biome::Biome;
use crate::fixed::UNIT;
use crate::grid::{adjacent, is_boundary, neighbors, on_boundary};
use crate::tile::Tile;
use crate::world::World;

verus! {

/// Among the first `k` candidates of `nb`, the land tile (altitude at least
/// `sea_level`) of strictly lowest altitude; the earliest one on a tie.
pub open spec fn lowest_land(ts: Seq<Tile>, nb: Seq<usize>, k: int, sea_level: int) -> Option<usize>
    decreases k,
{
    if k <= 0 {
        None
    } else {
        let prev = lowest_land(ts, nb, k - 1, sea_level);
        let c = nb[k - 1];
        if ts[c as int].altitude < sea_level {
            prev
        } else {
            match prev {
                None => Some(c),
                Some(b) => if ts[c as int].altitude < ts[b as int].altitude {
                    Some(c)
                } else {
                    prev
                },
            }
        }
    }
}

/// The tile a river at `cur` flows to next, if any: the lowest land
/// neighbour, provided it is strictly lower than `cur`, `cur` is not Coast
/// and that neighbour is not on the grid's boundary.
pub open spec fn next_step(ts: Seq<Tile>, width: int, sea_level: int, cur: int) -> Option<usize> {
    if ts[cur].biome == Biome::Coast {
        None
    } else {
        match lowest_land(
            ts,
            neighbors(cur, width, ts.len() as int),
            neighbors(cur, width, ts.len() as int).len() as int,
            sea_level,
        ) {
            None => None,
            Some(n) => if ts[n as int].altitude < ts[cur].altitude && !on_boundary(
                n as int,
                width,
                ts.len() as int,
            ) {
                Some(n)
            } else {
                None
            },
        }
    }
}

/// The river that starts at `cur`: `cur`, then the river from its next step.
pub open spec fn river_path(ts: Seq<Tile>, width: int, sea_level: int, cur: int) -> Seq<usize>
    decreases ts[cur].altitude - i64::MIN,
{
    match next_step(ts, width, sea_level, cur) {
        None => seq![cur as usize],
        Some(n) => seq![cur as usize] + river_path(ts, width, sea_level, n as int),
    }
}

/// The rivers from each of `sources` in turn, concatenated.
pub open spec fn rivers_of(ts: Seq<Tile>, width: int, sea_level: int, sources: Seq<usize>) -> Seq<usize>
    decreases sources.len(),
{
    if sources.len() == 0 {
        Seq::empty()
    } else {
        rivers_of(ts, width, sea_level, sources.drop_last()) + river_path(
            ts,
            width,
            sea_level,
            sources.last() as int,
        )
    }
}

/// Whether `r` lists, in ascending order, exactly the ids of the tiles of
/// `ts` whose altitude is at least `cutoff`.
pub open spec fn is_source_list(ts: Seq<Tile>, cutoff: int, r: Seq<usize>) -> bool {
    &&& forall|a: int, b: int| 0 <= a < b < r.len() ==> r[a] < r[b]
    &&& forall|k: int| 0 <= k < r.len() ==> #[trigger] r[k] < ts.len() && ts[r[k] as int].altitude >= cutoff
    &&& forall|j: int| 0 <= j < ts.len() && ts[j].altitude >= cutoff ==> #[trigger] r.contains(j as usize)
}

/// `round((width + height) / (100 * factor))` for the fixed-point river
/// factor `factor`, halves rounded up; no rivers for a factor that is not
/// positive.
pub open spec fn river_count_spec(width: int, height: int, factor: int) -> int {
    if factor <= 0 {
        0
    } else {
        (2 * (width + height) * UNIT + 100 * factor) / (200 * factor)
    }
}

/// How many rivers a `width` by `height` grid gets for the fixed-point
/// river factor `factor` (see `river_count_spec`); smaller factors give more.
pub fn river_count(width: usize, height: usize, factor: i64) -> (r: u128)
    ensures
        r == river_count_spec(width as int, height as int, factor as int),
{
    if factor <= 0 {
        return 0;
    }
    let f: u128 = factor as u128;
    let sides: u128 = (width as u128) + (height as u128);
    proof {
        assert(sides * 2_000_000 <= 0x10_0000_0000_0000_0000_0000_0000) by (nonlinear_arith)
            requires sides <= 0x2_0000_0000_0000_0000;
    }
    let scaled: u128 = sides * 2_000_000;
    let num: u128 = scaled + 100 * f;
    proof {
        assert(num == 2 * (width + height) * UNIT + 100 * factor);
    }
    num / (200 * f)
}

/// The lowest land candidate is one of the candidates, and it is land.
pub proof fn lemma_lowest_land_member(ts: Seq<Tile>, nb: Seq<usize>, k: int, sea_level: int)
    requires
        0 <= k <= nb.len(),
    ensures
        lowest_land(ts, nb, k, sea_level) matches Some(b) ==> (exists|i: int|
            0 <= i < k && nb[i] == b) && ts[b as int].altitude >= sea_level,
    decreases k,
{
    if k > 0 {
        lemma_lowest_land_member(ts, nb, k - 1, sea_level);
    }
}

/// A river that starts on a tile whose every neighbour is strictly higher
/// ends where it starts: it is that one tile.
pub proof fn lemma_river_local_minimum(ts: Seq<Tile>, width: int, sea_level: int, src: int)
    requires
        forall|k: int|
            0 <= k < neighbors(src, width, ts.len() as int).len() ==> ts[#[trigger] neighbors(
                src,
                width,
                ts.len() as int,
            )[k] as int].altitude > ts[src].altitude,
    ensures
        river_path(ts, width, sea_level, src) == seq![src as usize],
{
    let nb = neighbors(src, width, ts.len() as int);
    lemma_lowest_land_member(ts, nb, nb.len() as int, sea_level);
    assert(next_step(ts, width, sea_level, src) is None);
}

/// One step of the descent in `lemma_river_descends_to_edge`: from row `r`
/// the river moves one row up, unless that row is the boundary row 0.
proof fn lemma_descent_step(ts: Seq<Tile>, width: int, sea_level: int, c: int, r: int)
    requires
        width > 0,
        ts.len() as int % width == 0,
        0 < c < width - 1,
        1 <= r,
        r * width + c < ts.len(),
        ts.len() <= usize::MAX,
        ts[r * width + c].biome != Biome::Coast,
        ts[r * width + c - 1].altitude >= sea_level,
        ts[r * width + c + 1].altitude >= sea_level,
        ts[r * width + c - width].altitude >= sea_level,
        ts[r * width + c - 1].altitude == ts[r * width + c + 1].altitude,
        ts[r * width + c - width].altitude < ts[r * width + c - 1].altitude,
        ts[r * width + c - width].altitude < ts[r * width + c].altitude,
        r * width + c + width < ts.len() ==> ts[r * width + c + width].altitude >= sea_level
            && ts[r * width + c - width].altitude < ts[r * width + c + width].altitude,
    ensures
        r == 1 ==> next_step(ts, width, sea_level, r * width + c) is None,
        r > 1 ==> next_step(ts, width, sea_level, r * width + c) == Some(
            (r * width + c - width) as usize,
        ),
{
    let n = ts.len() as int;
    let cur = r * width + c;
    assert(cur - width == (r - 1) * width + c) by (nonlinear_arith)
        requires cur == r * width + c;
    vstd::arithmetic::div_mod::lemma_fundamental_div_mod_converse(cur, width, r, c);
    vstd::arithmetic::div_mod::lemma_fundamental_div_mod_converse(cur - width, width, r - 1, c);
    assert(cur >= width) by (nonlinear_arith)
        requires cur == r * width + c, r >= 1, c >= 0, width > 0;
    let nb = neighbors(cur, width, n);
    let north = (cur - width) as usize;
    if cur + width < n {
        assert(nb =~= seq![(cur - 1) as usize, (cur + 1) as usize, north, (cur + width) as usize]);
    } else {
        assert(nb =~= seq![(cur - 1) as usize, (cur + 1) as usize, north]);
    }
    reveal_with_fuel(lowest_land, 5);
    assert(lowest_land(ts, nb, 1, sea_level) == Some((cur - 1) as usize));
    assert(lowest_land(ts, nb, 2, sea_level) == Some((cur - 1) as usize));
    assert(lowest_land(ts, nb, 3, sea_level) == Some(north));
    assert(lowest_land(ts, nb, nb.len() as int, sea_level) == Some(north));
    if r == 1 {
        assert(cur - width == c) by (nonlinear_arith)
            requires cur - width == (r - 1) * width + c, r == 1;
        assert(on_boundary(north as int, width, n));
    } else {
        assert(cur - width >= width) by (nonlinear_arith)
            requires cur - width == (r - 1) * width + c, r >= 2, c >= 0, width > 0;
        assert(!on_boundary(north as int, width, n));
    }
}

/// On a grid of land without Coast whose altitude is constant along each
/// row and strictly lower on every row nearer row 0, a river that starts in
/// row `r >= 1`, away from the side columns, runs straight towards row 0: it
/// holds `r` tiles, the Manhattan distance to that edge, visits rows `r`,
/// `r - 1`, ..., 1 of its column in turn and ends on row 1, next to the
/// boundary. Traced as the only source, it is the whole river list.
pub proof fn lemma_river_descends_to_edge(ts: Seq<Tile>, width: int, sea_level: int, c: int, r: int)
    requires
        width > 0,
        ts.len() as int % width == 0,
        0 < c < width - 1,
        1 <= r,
        r * width + c < ts.len(),
        ts.len() <= usize::MAX,
        forall|j: int| 0 <= j < ts.len() ==> #[trigger] ts[j].altitude >= sea_level,
        forall|j: int| 0 <= j < ts.len() ==> #[trigger] ts[j].biome != Biome::Coast,
        forall|i: int, j: int|
            0 <= i < ts.len() && 0 <= j < ts.len() && i / width < j / width ==> #[trigger] ts[i].altitude
                < #[trigger] ts[j].altitude,
        forall|i: int, j: int|
            0 <= i < ts.len() && 0 <= j < ts.len() && i / width == j / width ==> #[trigger] ts[i].altitude
                == #[trigger] ts[j].altitude,
    ensures
        river_path(ts, width, sea_level, r * width + c).len() == r,
        river_path(ts, width, sea_level, r * width + c).last() == (width + c) as usize,
        forall|k: int|
            0 <= k < r ==> #[trigger] river_path(ts, width, sea_level, r * width + c)[k] == ((r - k) * width
                + c) as usize,
        rivers_of(ts, width, sea_level, seq![(r * width + c) as usize]) == river_path(
            ts,
            width,
            sea_level,
            r * width + c,
        ),
    decreases r,
{
    let n = ts.len() as int;
    let cur = r * width + c;
    assert(cur - width == (r - 1) * width + c) by (nonlinear_arith)
        requires cur == r * width + c;
    assert(cur + width == (r + 1) * width + c) by (nonlinear_arith)
        requires cur == r * width + c;
    vstd::arithmetic::div_mod::lemma_fundamental_div_mod_converse(cur, width, r, c);
    vstd::arithmetic::div_mod::lemma_fundamental_div_mod_converse(cur - 1, width, r, c - 1);
    vstd::arithmetic::div_mod::lemma_fundamental_div_mod_converse(cur + 1, width, r, c + 1);
    vstd::arithmetic::div_mod::lemma_fundamental_div_mod_converse(cur - width, width, r - 1, c);
    vstd::arithmetic::div_mod::lemma_fundamental_div_mod_converse(cur + width, width, r + 1, c);
    assert(cur >= width) by (nonlinear_arith)
        requires cur == r * width + c, r >= 1, c >= 0, width > 0;
    assert(ts[cur - 1].altitude >= sea_level);
    assert(ts[cur + 1].altitude >= sea_level);
    assert(ts[cur - width].altitude >= sea_level);
    assert(ts[cur].biome != Biome::Coast);
    assert(ts[cur - 1].altitude == ts[cur + 1].altitude);
    assert(ts[cur - width].altitude < ts[cur - 1].altitude);
    assert(ts[cur - width].altitude < ts[cur].altitude);
    if cur + width < n {
        assert(ts[cur + width].altitude >= sea_level);
        assert(ts[cur - width].altitude < ts[cur + width].altitude);
    }
    lemma_descent_step(ts, width, sea_level, c, r);
    let path = river_path(ts, width, sea_level, cur);
    if r > 1 {
        lemma_river_descends_to_edge(ts, width, sea_level, c, r - 1);
        assert((r - 1) * width + c == cur - width) by (nonlinear_arith)
            requires cur == r * width + c;
        let rest = river_path(ts, width, sea_level, cur - width);
        assert(path == seq![cur as usize] + rest);
        assert forall|k: int| 0 <= k < r implies #[trigger] path[k] == ((r - k) * width + c) as usize by {
            if k > 0 {
                assert(path[k] == rest[k - 1]);
                assert(rest[k - 1] == ((r - 1 - (k - 1)) * width + c) as usize);
                assert(r - 1 - (k - 1) == r - k);
            } else {
                assert((r - 0) * width + c == cur);
            }
        }
    } else {
        assert((r - 0) * width + c == cur);
    }
    let single = seq![cur as usize];
    assert(single.drop_last() =~= Seq::<usize>::empty());
    assert(rivers_of(ts, width, sea_level, Seq::<usize>::empty()) == Seq::<usize>::empty());
    assert(rivers_of(ts, width, sea_level, single) =~= path);
}

impl World {
    /// The land neighbour among `nb` of strictly lowest altitude, the
    /// earliest on a tie; `None` when no candidate is land.
    pub fn lowest_land_neighbor(&self, nb: &Vec<usize>, sea_level: i64) -> (r: Option<usize>)
        requires
            self.well_formed(),
            forall|k: int| 0 <= k < nb@.len() ==> #[trigger] nb@[k] < self.size,
        ensures
            r == lowest_land(self.tiles@, nb@, nb@.len() as int, sea_level as int),
    {
        let mut best: Option<usize> = None;
        let mut m: usize = 0;
        while m < nb.len()
            invariant
                self.well_formed(),
                forall|k: int| 0 <= k < nb@.len() ==> #[trigger] nb@[k] < self.size,
                m <= nb@.len(),
                best == lowest_land(self.tiles@, nb@, m as int, sea_level as int),
            decreases nb.len() - m,
        {
            proof {
                lemma_lowest_land_member(self.tiles@, nb@, m as int, sea_level as int);
            }
            let c = nb[m];
            if self.tiles[c].altitude >= sea_level {
                match best {
                    None => {
                        best = Some(c);
                    },
                    Some(b) => {
                        if self.tiles[c].altitude < self.tiles[b].altitude {
                            best = Some(c);
                        }
                    },
                }
            }
            m = m + 1;
        }
        best
    }

    /// The tile a river at `cur` flows to next, if any (see `next_step`).
    pub fn next_river_step(&self, cur: usize, sea_level: i64) -> (r: Option<usize>)
        requires
            self.well_formed(),
            cur < self.size,
        ensures
            r == next_step(self.tiles@, self.width as int, sea_level as int, cur as int),
            r matches Some(n) ==> n < self.size && self.tiles@[n as int].altitude < self.tiles@[cur as int].altitude,
    {
        if self.tiles[cur].biome == Biome::Coast {
            return None;
        }
        proof {
            vstd::arithmetic::div_mod::lemma_mod_multiples_basic(self.height as int, self.width as int);
            assert(self.size == self.height * self.width) by (nonlinear_arith)
                requires self.size == self.width * self.height;
            assert(self.width <= self.size) by (nonlinear_arith)
                requires self.size == self.width * self.height, self.height > 0;
        }
        let nb = adjacent(cur, self.width, self.size);
        proof {
            lemma_lowest_land_member(self.tiles@, nb@, nb@.len() as int, sea_level as int);
        }
        match self.lowest_land_neighbor(&nb, sea_level) {
            None => None,
            Some(n) => {
                if self.tiles[n].altitude < self.tiles[cur].altitude && !is_boundary(n, self.width, self.size) {
                    Some(n)
                } else {
                    None
                }
            },
        }
    }

    /// The river that starts at `source` (see `river_path`): it follows
    /// `next_river_step` until there is none.
    pub fn trace_river(&self, source: usize, sea_level: i64) -> (r: Vec<usize>)
        requires
            self.well_formed(),
            source < self.size,
        ensures
            r@ == river_path(self.tiles@, self.width as int, sea_level as int, source as int),
    {
        let mut path: Vec<usize> = Vec::new();
        path.push(source);
        let mut cur = source;
        loop
            invariant
                self.well_formed(),
                cur < self.size,
                path@.len() >= 1,
                path@.last() == cur,
                path@.drop_last() + river_path(self.tiles@, self.width as int, sea_level as int, cur as int)
                    == river_path(self.tiles@, self.width as int, sea_level as int, source as int),
            decreases self.tiles@[cur as int].altitude - i64::MIN,
        {
            match self.next_river_step(cur, sea_level) {
                None => {
                    proof {
                        assert(path@ =~= path@.drop_last().push(cur));
                        assert(path@.drop_last() + seq![cur] =~= path@);
                    }
                    return path;
                },
                Some(n) => {
                    let ghost old_path = path@;
                    path.push(n);
                    proof {
                        assert(path@.drop_last() =~= old_path);
                        assert(old_path =~= old_path.drop_last() + seq![cur]);
                        assert(old_path + river_path(self.tiles@, self.width as int, sea_level as int, n as int)
                            =~= old_path.drop_last() + (seq![cur] + river_path(self.tiles@, self.width as int, sea_level as int, n as int)));
                    }
                    cur = n;
                },
            }
        }
    }

    /// The ids, ascending, of the tiles whose altitude is at least `cutoff`:
    /// the candidate river sources.
    pub fn river_sources(&self, cutoff: i64) -> (r: Vec<usize>)
        requires
            self.well_formed(),
        ensures
            is_source_list(self.tiles@, cutoff as int, r@),
    {
        let mut r: Vec<usize> = Vec::new();
        let mut j: usize = 0;
        while j < self.tiles.len()
            invariant
                self.well_formed(),
                j <= self.tiles@.len(),
                forall|a: int, b: int| 0 <= a < b < r@.len() ==> r@[a] < r@[b],
                forall|k: int| 0 <= k < r@.len() ==> #[trigger] r@[k] < j && self.tiles@[r@[k] as int].altitude >= cutoff,
                forall|q: int| 0 <= q < j && self.tiles@[q].altitude >= cutoff ==> #[trigger] r@.contains(q as usize),
            decreases self.tiles.len() - j,
        {
            if self.tiles[j].altitude >= cutoff {
                let ghost before = r@;
                r.push(j);
                proof {
                    assert forall|q: int| 0 <= q < j + 1 && self.tiles@[q].altitude >= cutoff implies #[trigger] r@.contains(q as usize) by {
                        if q < j {
                            assert(before.contains(q as usize));
                            let k = choose|k: int| 0 <= k < before.len() && before[k] == q as usize;
                            assert(r@[k] == q as usize);
                        } else {
                            assert(r@[before.len() as int] == q as usize);
                        }
                    }
                }
            }
            j = j + 1;
        }
        r
    }

    /// Traces a river from each of `sources` and stores them, concatenated,
    /// as the world's river tiles.
    pub fn trace_rivers(&mut self, sources: &Vec<usize>, sea_level: i64)
        requires
            old(self).well_formed(),
            forall|k: int| 0 <= k < sources@.len() ==> #[trigger] sources@[k] < old(self).size,
        ensures
            final(self).rivers@ == rivers_of(old(self).tiles@, old(self).width as int, sea_level as int, sources@),
            final(self).tiles == old(self).tiles,
            final(self).seeds == old(self).seeds,
            final(self).width == old(self).width,
            final(self).height == old(self).height,
            final(self).size == old(self).size,
            final(self).equator == old(self).equator,
    {
        let mut all: Vec<usize> = Vec::new();
        let mut i: usize = 0;
        while i < sources.len()
            invariant
                self.well_formed(),
                forall|k: int| 0 <= k < sources@.len() ==> #[trigger] sources@[k] < self.size,
                i <= sources@.len(),
                all@ == rivers_of(self.tiles@, self.width as int, sea_level as int, sources@.subrange(0, i as int)),
            decreases sources.len() - i,
        {
            let path = self.trace_river(sources[i], sea_level);
            let ghost start = all@;
            let mut m: usize = 0;
            while m < path.len()
                invariant
                    m <= path@.len(),
                    all@ == start + path@.subrange(0, m as int),
                decreases path.len() - m,
            {
                all.push(path[m]);
                proof {
                    assert(path@.subrange(0, m as int + 1) =~= path@.subrange(0, m as int).push(path@[m as int]));
                    assert(all@ =~= start + path@.subrange(0, m as int + 1));
                }
                m = m + 1;
            }
            proof {
                assert(path@.subrange(0, path@.len() as int) =~= path@);
                let pre = sources@.subrange(0, i as int + 1);
                assert(pre.drop_last() =~= sources@.subrange(0, i as int));
                assert(pre.last() == sources@[i as int]);
            }
            i = i + 1;
        }
        proof {
            assert(sources@.subrange(0, sources@.len() as int) =~= sources@);
        }
        self.rivers = all;
    }
}

} // verus!
