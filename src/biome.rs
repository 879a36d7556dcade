//! Biome labels and the ordered threshold rules that assign them.

use vstd::prelude::*;
use crate::params::WorldParameters;

verus! {

/// The closed set of terrain labels; `Debug` marks a sample that no rule
/// covers.
#[derive(Clone, Copy, Debug, PartialEq, Eq, Structural)]
pub enum Biome {
    Boreal,
    Coast,
    Desert,
    Frozen,
    Hill,
    Mountain,
    Peak,
    Plains,
    Sea,
    Rainforest,
    Temperate,
    Tundra,
    Wetland,
    Debug,
}

/// One threshold rule of the classifier; each is named after the biome it
/// assigns.
#[derive(Clone, Copy, Debug, PartialEq, Eq, Structural)]
pub enum Rule {
    Peak,
    Mountain,
    Hill,
    Sea,
    Frozen,
    Tundra,
    Boreal,
    Wetland,
    Rainforest,
    Temperate,
    Plains,
    Desert,
}

/// Whether rule `r` matches the sample `(a, t, w)` (altitude, temperature,
/// rainfall).
pub open spec fn rule_holds(r: Rule, a: int, t: int, w: int, p: WorldParameters) -> bool {
    match r {
        Rule::Peak => a >= p.peak_h,
        Rule::Mountain => a >= p.mountain_h,
        Rule::Hill => a >= p.hills_h,
        Rule::Sea => a <= p.sea_level,
        Rule::Frozen => t <= p.frozen_t,
        Rule::Tundra => t <= p.tundra_t,
        Rule::Boreal => t <= p.boreal_t && w >= p.boreal_r,
        Rule::Wetland => w >= p.wetlands_r,
        Rule::Rainforest => t >= p.rainforest_t && w >= p.rainforest_r,
        Rule::Temperate => t <= p.temperate_t && w >= p.temperate_r,
        Rule::Plains => t + w <= p.plains_cutoff,
        Rule::Desert => t + w <= p.desert_cutoff,
    }
}

/// The biome that rule `r` assigns.
pub open spec fn rule_biome(r: Rule) -> Biome {
    match r {
        Rule::Peak => Biome::Peak,
        Rule::Mountain => Biome::Mountain,
        Rule::Hill => Biome::Hill,
        Rule::Sea => Biome::Sea,
        Rule::Frozen => Biome::Frozen,
        Rule::Tundra => Biome::Tundra,
        Rule::Boreal => Biome::Boreal,
        Rule::Wetland => Biome::Wetland,
        Rule::Rainforest => Biome::Rainforest,
        Rule::Temperate => Biome::Temperate,
        Rule::Plains => Biome::Plains,
        Rule::Desert => Biome::Desert,
    }
}

/// The rules in precedence order: the first that matches decides.
pub open spec fn rule_seq() -> Seq<Rule> {
    seq![
        Rule::Peak,
        Rule::Mountain,
        Rule::Hill,
        Rule::Sea,
        Rule::Frozen,
        Rule::Tundra,
        Rule::Boreal,
        Rule::Wetland,
        Rule::Rainforest,
        Rule::Temperate,
        Rule::Plains,
        Rule::Desert,
    ]
}

/// The biome of the first rule from position `i` of `rules` on that matches,
/// or `Debug` when none does.
pub open spec fn first_match(rules: Seq<Rule>, i: int, a: int, t: int, w: int, p: WorldParameters) -> Biome
    decreases rules.len() - i,
{
    if i < 0 || i >= rules.len() {
        Biome::Debug
    } else if rule_holds(rules[i], a, t, w, p) {
        rule_biome(rules[i])
    } else {
        first_match(rules, i + 1, a, t, w, p)
    }
}

/// The biome of the sample `(a, t, w)` under `p`.
pub open spec fn biome_of(a: int, t: int, w: int, p: WorldParameters) -> Biome {
    if a >= p.peak_h {
        Biome::Peak
    } else if a >= p.mountain_h {
        Biome::Mountain
    } else if a >= p.hills_h {
        Biome::Hill
    } else if a <= p.sea_level {
        Biome::Sea
    } else if t <= p.frozen_t {
        Biome::Frozen
    } else if t <= p.tundra_t {
        Biome::Tundra
    } else if t <= p.boreal_t && w >= p.boreal_r {
        Biome::Boreal
    } else if w >= p.wetlands_r {
        Biome::Wetland
    } else if t >= p.rainforest_t && w >= p.rainforest_r {
        Biome::Rainforest
    } else if t <= p.temperate_t && w >= p.temperate_r {
        Biome::Temperate
    } else if t + w <= p.plains_cutoff {
        Biome::Plains
    } else if t + w <= p.desert_cutoff {
        Biome::Desert
    } else {
        Biome::Debug
    }
}

/// Walking the rule list in order assigns exactly `biome_of`.
pub proof fn lemma_rule_order(a: int, t: int, w: int, p: WorldParameters)
    ensures
        first_match(rule_seq(), 0, a, t, w, p) == biome_of(a, t, w, p),
{
    reveal_with_fuel(first_match, 13);
}

/// A sample at or above the peak altitude is a `Peak`, whatever its
/// temperature and rainfall, when the altitude thresholds are ordered.
pub proof fn lemma_peak_dominates(a: int, t: int, w: int, p: WorldParameters)
    requires
        p.sea_level < p.hills_h < p.mountain_h < p.peak_h,
        a >= p.peak_h,
    ensures
        biome_of(a, t, w, p) == Biome::Peak,
{
}

impl Biome {
    /// Whether this is `Sea`.
    pub fn is_sea(&self) -> (r: bool)
        ensures
            r == (*self == Biome::Sea),
    {
        match self {
            Biome::Sea => true,
            _ => false,
        }
    }
}

impl Rule {
    /// Whether this rule matches altitude `a`, temperature `t` and rainfall `w`.
    pub fn holds(&self, a: i64, t: i64, w: i64, p: &WorldParameters) -> (r: bool)
        ensures
            r == rule_holds(*self, a as int, t as int, w as int, *p),
    {
        match self {
            Rule::Peak => a >= p.peak_h,
            Rule::Mountain => a >= p.mountain_h,
            Rule::Hill => a >= p.hills_h,
            Rule::Sea => a <= p.sea_level,
            Rule::Frozen => t <= p.frozen_t,
            Rule::Tundra => t <= p.tundra_t,
            Rule::Boreal => t <= p.boreal_t && w >= p.boreal_r,
            Rule::Wetland => w >= p.wetlands_r,
            Rule::Rainforest => t >= p.rainforest_t && w >= p.rainforest_r,
            Rule::Temperate => t <= p.temperate_t && w >= p.temperate_r,
            Rule::Plains => (t as i128) + (w as i128) <= p.plains_cutoff as i128,
            Rule::Desert => (t as i128) + (w as i128) <= p.desert_cutoff as i128,
        }
    }

    /// The biome this rule assigns.
    pub fn biome(&self) -> (r: Biome)
        ensures
            r == rule_biome(*self),
    {
        match self {
            Rule::Peak => Biome::Peak,
            Rule::Mountain => Biome::Mountain,
            Rule::Hill => Biome::Hill,
            Rule::Sea => Biome::Sea,
            Rule::Frozen => Biome::Frozen,
            Rule::Tundra => Biome::Tundra,
            Rule::Boreal => Biome::Boreal,
            Rule::Wetland => Biome::Wetland,
            Rule::Rainforest => Biome::Rainforest,
            Rule::Temperate => Biome::Temperate,
            Rule::Plains => Biome::Plains,
            Rule::Desert => Biome::Desert,
        }
    }
}

/// The classifier's rules in precedence order.
pub fn rule_order() -> (r: Vec<Rule>)
    ensures
        r@ == rule_seq(),
{
    let r = vec![
        Rule::Peak,
        Rule::Mountain,
        Rule::Hill,
        Rule::Sea,
        Rule::Frozen,
        Rule::Tundra,
        Rule::Boreal,
        Rule::Wetland,
        Rule::Rainforest,
        Rule::Temperate,
        Rule::Plains,
        Rule::Desert,
    ];
    assert(r@ =~= rule_seq());
    r
}

/// Classifies the sample `(a, t, w)`: the first rule of `rule_order` that
/// matches decides, and `Debug` comes out when none does.
pub fn classify(a: i64, t: i64, w: i64, p: &WorldParameters) -> (r: Biome)
    ensures
        r == biome_of(a as int, t as int, w as int, *p),
{
    let rules = rule_order();
    proof {
        lemma_rule_order(a as int, t as int, w as int, *p);
    }
    let mut i: usize = 0;
    while i < rules.len()
        invariant
            rules@ == rule_seq(),
            i <= rules.len(),
            first_match(rule_seq(), i as int, a as int, t as int, w as int, *p) == biome_of(
                a as int,
                t as int,
                w as int,
                *p,
            ),
        decreases rules.len() - i,
    {
        if rules[i].holds(a, t, w, p) {
            return rules[i].biome();
        }
        i = i + 1;
    }
    Biome::Debug
}

} // verus!
