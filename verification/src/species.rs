//! Species: clusters of organisms represented by one organism, with
//! adjusted (shared) fitness.
//!
//! A species holds the indices of its members in the population's organism
//! list. Its adjusted fitness is the configured aggregate (mean or best) of
//! the members' fitness values divided by the member count — explicit
//! fitness sharing, which penalises large species.

use crate::config_util::ConfigError;
use crate::genome::{distance_spec, genome_congruent, DistanceConfig};
use crate::organism::Organism;
use vstd::prelude::*;

verus! {

/// How the representative of a species is chosen each generation.
#[derive(Clone, Copy, Debug, PartialEq, Eq, Structural)]
pub enum ReprentativeSelection {
    /// The first member.
    First,
    /// A uniformly random member.
    Random,
}

/// How a species aggregates its members' fitness before sharing.
#[derive(Clone, Copy, Debug, PartialEq, Eq, Structural)]
pub enum FitnessStrategy {
    Mean,
    Best,
}

/// Speciation settings.
#[derive(Clone, Copy, Debug, PartialEq, Eq, Structural)]
pub struct SpeciesConfig {
    pub representative: ReprentativeSelection,
    pub fitness: FitnessStrategy,
    /// Largest compatibility distance at which an organism joins a species.
    pub species_distance_tolerance: i64,
}

impl SpeciesConfig {
    /// The tolerance is non-negative.
    pub open spec fn valid(self) -> bool {
        self.species_distance_tolerance >= 0
    }

    /// Reject a negative tolerance.
    pub fn validate(&self) -> (r: Result<(), ConfigError>)
        ensures
            r is Ok <==> self.valid(),
    {
        if self.species_distance_tolerance < 0 {
            Err(ConfigError::Negative)
        } else {
            Ok(())
        }
    }
}

/// The sum of the first `k` fitness values.
pub open spec fn sum_prefix(fits: Seq<u64>, k: int) -> int
    decreases k,
{
    if k <= 0 {
        0
    } else {
        sum_prefix(fits, k - 1) + fits[k - 1]
    }
}

/// The largest of the first `k` fitness values (0 when `k` is 0).
pub open spec fn max_prefix(fits: Seq<u64>, k: int) -> int
    decreases k,
{
    if k <= 0 {
        0
    } else {
        let rest = max_prefix(fits, k - 1);
        if fits[k - 1] > rest {
            fits[k - 1] as int
        } else {
            rest
        }
    }
}

/// The configured aggregate of a non-empty fitness list.
pub open spec fn aggregate_spec(strategy: FitnessStrategy, fits: Seq<u64>) -> int {
    match strategy {
        FitnessStrategy::Mean => sum_prefix(fits, fits.len() as int) / fits.len() as int,
        FitnessStrategy::Best => max_prefix(fits, fits.len() as int),
    }
}

/// Adjusted fitness: the aggregate divided by the member count.
pub open spec fn adjusted_spec(strategy: FitnessStrategy, fits: Seq<u64>) -> int {
    aggregate_spec(strategy, fits) / fits.len() as int
}

/// A cluster of organisms: a stable id, the representative organism, and
/// the member indices into the population's organism list.
#[derive(Debug)]
pub struct Species {
    pub id: usize,
    pub representative: Organism,
    pub organisms: Vec<usize>,
}

/// Every member index points into a population of the given size.
pub open spec fn members_in_range(members: Seq<usize>, count: int) -> bool {
    forall|k: int| 0 <= k < members.len() ==> (#[trigger] members[k]) < count
}

/// The fitness values of a species' members, in member order.
pub open spec fn member_fitnesses(members: Seq<usize>, orgs: Seq<Organism>) -> Seq<u64> {
    Seq::new(members.len(), |k: int| orgs[members[k] as int].fitness->0)
}

/// Every member carries a fitness.
pub open spec fn members_evaluated(members: Seq<usize>, orgs: Seq<Organism>) -> bool {
    forall|k: int|
        0 <= k < members.len() ==> orgs[(#[trigger] members[k]) as int].fitness is Some
}

impl Species {
    /// A fresh species around a representative, with no members yet.
    pub fn new(representative: Organism, id: usize) -> (r: Species)
        ensures
            r.id == id,
            r.representative == representative,
            r.organisms@.len() == 0,
    {
        Species { id, representative, organisms: Vec::new() }
    }

    /// Add a member.
    pub fn add_organism(&mut self, index: usize)
        ensures
            final(self).organisms@ == old(self).organisms@.push(index),
            final(self).id == old(self).id,
            final(self).representative == old(self).representative,
    {
        self.organisms.push(index);
    }

    /// Whether an organism is within the species tolerance of the
    /// representative.
    pub fn matches(
        &self,
        organism: &Organism,
        distance_config: &DistanceConfig,
        species_config: &SpeciesConfig,
    ) -> (r: bool)
        requires
            self.representative.genome.wf(),
            organism.genome.wf(),
            distance_config.valid(),
            species_config.valid(),
        ensures
            r == (distance_spec(self.representative.genome, organism.genome, *distance_config)
                <= species_config.species_distance_tolerance),
    {
        let d = self.representative.genome.distance(&organism.genome, distance_config);
        d <= species_config.species_distance_tolerance as u128
    }

    /// The adjusted (shared) fitness of the species: the configured
    /// aggregate of the members' fitness divided by the member count.
    pub fn adjusted_fitness(&self, organisms: &Vec<Organism>, config: &SpeciesConfig) -> (r: u64)
        requires
            self.organisms@.len() > 0,
            members_in_range(self.organisms@, organisms@.len() as int),
            members_evaluated(self.organisms@, organisms@),
        ensures
            r == adjusted_spec(config.fitness, member_fitnesses(self.organisms@, organisms@)),
    {
        let ghost fits = member_fitnesses(self.organisms@, organisms@);
        let n = self.organisms.len();
        let aggregate: u128 = match config.fitness {
            FitnessStrategy::Mean => {
                let mut sum: u128 = 0;
                let mut k: usize = 0;
                while k < n
                    invariant
                        n == self.organisms@.len(),
                        k <= n,
                        members_in_range(self.organisms@, organisms@.len() as int),
                        members_evaluated(self.organisms@, organisms@),
                        fits == member_fitnesses(self.organisms@, organisms@),
                        sum == sum_prefix(fits, k as int),
                        sum <= k * 0xffff_ffff_ffff_ffffu64,
                    decreases n - k,
                {
                    let idx = self.organisms[k];
                    let f = match organisms[idx].fitness {
                        Some(f) => f,
                        None => {
                            proof {
                                assert(false);
                            }
                            0
                        },
                    };
                    proof {
                        assert(fits[k as int] == f);
                        assert((k + 1) * 0xffff_ffff_ffff_ffffu64 == k * 0xffff_ffff_ffff_ffffu64
                            + 0xffff_ffff_ffff_ffffu64) by (nonlinear_arith);
                    }
                    sum = sum + f as u128;
                    k = k + 1;
                }
                proof {
                    let s = sum as int;
                    let ni = n as int;
                    assert(s / ni <= 0xffff_ffff_ffff_ffffu64) by (nonlinear_arith)
                        requires
                            0 <= s <= ni * 0xffff_ffff_ffff_ffffu64,
                            1 <= ni,
                    ;
                }
                sum / (n as u128)
            },
            FitnessStrategy::Best => {
                let mut best: u64 = 0;
                let mut k: usize = 0;
                while k < n
                    invariant
                        n == self.organisms@.len(),
                        k <= n,
                        members_in_range(self.organisms@, organisms@.len() as int),
                        members_evaluated(self.organisms@, organisms@),
                        fits == member_fitnesses(self.organisms@, organisms@),
                        best == max_prefix(fits, k as int),
                    decreases n - k,
                {
                    let idx = self.organisms[k];
                    let f = match organisms[idx].fitness {
                        Some(f) => f,
                        None => {
                            proof {
                                assert(false);
                            }
                            0
                        },
                    };
                    proof {
                        assert(fits[k as int] == f);
                    }
                    if f > best {
                        best = f;
                    }
                    k = k + 1;
                }
                best as u128
            },
        };
        proof {
            assert(aggregate as int == aggregate_spec(config.fitness, fits));
            let a = aggregate as int;
            let ni = n as int;
            assert(a / ni <= a) by (nonlinear_arith)
                requires
                    0 <= a,
                    1 <= ni,
            ;
        }
        (aggregate / (n as u128)) as u64
    }

    /// Choose the representative for the next generation: the first member,
    /// or a uniformly random one.
    pub fn select_new_representative(
        &self,
        organisms: &Vec<Organism>,
        config: &SpeciesConfig,
    ) -> (r: Organism)
        requires
            self.organisms@.len() > 0,
            members_in_range(self.organisms@, organisms@.len() as int),
        ensures
            exists|k: int|
                0 <= k < self.organisms@.len() && genome_congruent(
                    r.genome,
                    organisms@[#[trigger] self.organisms@[k] as int].genome,
                ) && r.fitness == organisms@[self.organisms@[k] as int].fitness
                    && r.evaluation_config == organisms@[self.organisms@[k] as int].evaluation_config,
            config.representative == ReprentativeSelection::First ==> genome_congruent(
                r.genome,
                organisms@[self.organisms@[0] as int].genome,
            ),
    {
        let pick: usize = match config.representative {
            ReprentativeSelection::First => 0,
            ReprentativeSelection::Random => crate::rng::random_below(self.organisms.len()),
        };
        let idx = self.organisms[pick];
        let r = organisms[idx].clone();
        proof {
            assert(genome_congruent(r.genome, organisms@[self.organisms@[pick as int] as int].genome));
        }
        r
    }
}

/// A species with a single member of fitness `f` has adjusted fitness `f`:
/// no sharing happens.
pub proof fn lemma_adjusted_fitness_single(strategy: FitnessStrategy, fits: Seq<u64>)
    requires
        fits.len() == 1,
    ensures
        adjusted_spec(strategy, fits) == fits[0],
{
    assert(sum_prefix(fits, 0) == 0);
    assert(max_prefix(fits, 0) == 0);
    assert(sum_prefix(fits, 1) == fits[0]);
    assert(max_prefix(fits, 1) == fits[0]);
    assert(fits[0] as int / 1int == fits[0]);
}

/// In a species of `n` members that all have fitness `f`, the adjusted
/// fitness is `f / n`: explicit sharing among equals.
pub proof fn lemma_adjusted_fitness_uniform(strategy: FitnessStrategy, fits: Seq<u64>, f: u64)
    requires
        fits.len() > 0,
        forall|k: int| 0 <= k < fits.len() ==> #[trigger] fits[k] == f,
    ensures
        adjusted_spec(strategy, fits) == f as int / fits.len() as int,
{
    let n = fits.len() as int;
    lemma_uniform_prefixes(fits, f, n);
    assert(aggregate_spec(strategy, fits) == f) by {
        match strategy {
            FitnessStrategy::Mean => {
                assert(sum_prefix(fits, n) == n * f);
                assert((n * f) / n == f) by (nonlinear_arith)
                    requires
                        n >= 1,
                ;
            },
            FitnessStrategy::Best => {},
        }
    }
}

/// Prefix sums and maxima of a constant list.
proof fn lemma_uniform_prefixes(fits: Seq<u64>, f: u64, k: int)
    requires
        0 <= k <= fits.len(),
        forall|i: int| 0 <= i < fits.len() ==> #[trigger] fits[i] == f,
    ensures
        sum_prefix(fits, k) == k * f,
        k > 0 ==> max_prefix(fits, k) == f,
    decreases k,
{
    if k <= 0 {
        assert(0int * f == 0) by (nonlinear_arith);
    } else {
        lemma_uniform_prefixes(fits, f, k - 1);
        assert(fits[k - 1] == f);
        assert(k * f == (k - 1) * f + f) by (nonlinear_arith);
        if k == 1 {
            assert(max_prefix(fits, 0) == 0);
        }
    }
}

} // verus!
