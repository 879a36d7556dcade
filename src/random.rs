//! Seed filling and river-source sampling, drawn from an explicitly seeded
//! generator that the caller owns.

use vstd::prelude::*;
use rand::Rng;
use rand::seq::SliceRandom;
use crate::params::WorldParameters;
use crate::river::{is_source_list, river_count_spec, rivers_of};
use crate::world::World;

verus! {

/// `rand::rngs::StdRng`, the seeded generator, carried through opaquely.
#[verifier::external_type_specification]
#[verifier::external_body]
pub struct ExStdRng(rand::rngs::StdRng);

/// Relies on `rand::Rng::gen::<u32>` on a `StdRng`: any `u32` may come out.
#[verifier::external_body]
fn draw_u32(rng: &mut rand::rngs::StdRng) -> (r: u32) {
    rng.gen::<u32>()
}

/// Relies on `rand::seq::SliceRandom::choose_multiple`: it picks
/// `min(amount, len)` distinct positions of the slice and yields the items
/// there, so the result is a sub-multiset of `candidates`.
#[verifier::external_body]
fn choose_sample(rng: &mut rand::rngs::StdRng, candidates: &Vec<usize>, amount: usize) -> (r: Vec<usize>)
    ensures
        r@.len() == if amount <= candidates@.len() {
            amount as int
        } else {
            candidates@.len() as int
        },
        r@.to_multiset().subset_of(candidates@.to_multiset()),
        forall|k: int| 0 <= k < r@.len() ==> candidates@.contains(#[trigger] r@[k]),
{
    candidates.choose_multiple(rng, amount).cloned().collect()
}

/// The seed at position `i` of a filled set: the supplied one where there
/// is one, else the drawn one.
pub open spec fn filled_seed(supplied: Seq<u32>, drawn: Seq<u32>, i: int) -> u32 {
    if i < supplied.len() {
        supplied[i]
    } else {
        drawn[i]
    }
}

/// The three seeds (altitude, temperature, rainfall): the supplied ones in
/// order, then drawn ones for the positions not supplied. Supplied seeds
/// beyond the third are ignored.
pub fn complete_seeds(supplied: &Vec<u32>, drawn: [u32; 3]) -> (r: [u32; 3])
    ensures
        forall|i: int| 0 <= i < 3 ==> #[trigger] r@[i] == filled_seed(supplied@, drawn@, i),
{
    let a = if supplied.len() > 0 { supplied[0] } else { drawn[0] };
    let b = if supplied.len() > 1 { supplied[1] } else { drawn[1] };
    let c = if supplied.len() > 2 { supplied[2] } else { drawn[2] };
    [a, b, c]
}

/// The supplied seeds, in order, with each missing one of the three drawn
/// from `rng`.
pub fn fill_seeds(supplied: &Vec<u32>, rng: &mut rand::rngs::StdRng) -> (r: [u32; 3])
    ensures
        forall|i: int| 0 <= i < 3 && i < supplied@.len() ==> #[trigger] r@[i] == supplied@[i],
{
    let mut drawn: [u32; 3] = [0, 0, 0];
    let mut i: usize = if supplied.len() < 3 {
        supplied.len()
    } else {
        3
    };
    while i < 3
        invariant
            i <= 3,
        decreases 3 - i,
    {
        drawn.set(i, draw_u32(rng));
        i = i + 1;
    }
    complete_seeds(supplied, drawn)
}

impl World {
    /// Picks, uniformly at random without replacement, the river sources
    /// among the tiles at or above the mountain altitude, as many as
    /// `river_count` asks for (or all of them if fewer), and traces a river
    /// from each.
    pub fn generate_rivers(&mut self, params: &WorldParameters, rng: &mut rand::rngs::StdRng)
        requires
            old(self).well_formed(),
        ensures
            final(self).tiles == old(self).tiles,
            final(self).seeds == old(self).seeds,
            final(self).width == old(self).width,
            final(self).height == old(self).height,
            final(self).size == old(self).size,
            final(self).equator == old(self).equator,
            exists|candidates: Seq<usize>, chosen: Seq<usize>|
                {
                    &&& is_source_list(old(self).tiles@, params.mountain_h as int, candidates)
                    &&& chosen.to_multiset().subset_of(candidates.to_multiset())
                    &&& chosen.len() == if river_count_spec(
                        old(self).width as int,
                        old(self).height as int,
                        params.river_factor as int,
                    ) <= candidates.len() {
                        river_count_spec(
                            old(self).width as int,
                            old(self).height as int,
                            params.river_factor as int,
                        )
                    } else {
                        candidates.len() as int
                    }
                    &&& final(self).rivers@ == rivers_of(
                        old(self).tiles@,
                        old(self).width as int,
                        params.sea_level as int,
                        chosen,
                    )
                },
    {
        let candidates = self.river_sources(params.mountain_h);
        let count = crate::river::river_count(self.width, self.height, params.river_factor);
        let amount: usize = if count <= candidates.len() as u128 {
            count as usize
        } else {
            candidates.len()
        };
        let chosen = choose_sample(rng, &candidates, amount);
        proof {
            assert forall|k: int| 0 <= k < chosen@.len() implies #[trigger] chosen@[k] < self.size by {
                assert(candidates@.contains(chosen@[k]));
            }
        }
        self.trace_rivers(&chosen, params.sea_level);
    }
}

} // verus!
