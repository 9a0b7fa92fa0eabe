//! The population: the generational loop over one shared gene pool.
//!
//! Each generation the population reproduces (elitism, mutation,
//! crossover), the caller's fitness function scores the new organisms, and
//! the population re-speciates: existing species persist through a freshly
//! chosen representative, every organism joins the first species whose
//! representative is within tolerance (or founds a new one), and species
//! that end up empty are dropped.

use crate::config_util::ConfigError;
use crate::gene_pool::GenePool;
use crate::genome::{
    distance_spec, genome_congruent, lemma_congruent_distance, lemma_congruent_genome,
    lemma_distance_self_zero, DistanceConfig, EvaluationConfig, NewConnectionWeight,
};
use crate::organism::{organism_ready, population_evaluated, population_ready, Organism};
use crate::reproduction::{lemma_population_ready_extends, reproduce, ReproductionConfig};
use crate::species::{members_evaluated, members_in_range, Species, SpeciesConfig};
use vstd::prelude::*;

verus! {

/// The configuration of a whole run.
#[derive(Clone, Copy, Debug)]
pub struct PopulationConfig {
    /// Stop once the best fitness reaches this value.
    pub target_fitness: u64,
    /// Stop after this many generations; 0 means unbounded.
    pub max_generations: u32,
    /// How the weights of the initial genomes are drawn.
    pub initial_organism_weight: NewConnectionWeight,
    pub distance: DistanceConfig,
    pub species: SpeciesConfig,
    pub evaluation: EvaluationConfig,
    pub reproduction: ReproductionConfig,
}

impl PopulationConfig {
    pub open spec fn valid(self) -> bool {
        &&& self.initial_organism_weight.valid()
        &&& self.distance.valid()
        &&& self.species.valid()
        &&& self.evaluation.valid()
        &&& self.reproduction.valid()
    }

    /// Reject any invalid component configuration.
    pub fn validate(&self) -> (r: Result<(), ConfigError>)
        ensures
            r is Ok <==> self.valid(),
    {
        let a = match self.initial_organism_weight {
            NewConnectionWeight::Random { mean, std_dev } => {
                let x = crate::config_util::assert_weight(mean);
                if x.is_err() {
                    x
                } else {
                    crate::config_util::assert_not_negative(std_dev)
                }
            },
            NewConnectionWeight::Fixed(w) => crate::config_util::assert_weight(w),
        };
        if a.is_err() {
            return a;
        }
        let b = self.distance.validate();
        if b.is_err() {
            return b;
        }
        let c = self.species.validate();
        if c.is_err() {
            return c;
        }
        let d = crate::config_util::assert_weight(self.evaluation.bias);
        if d.is_err() {
            return d;
        }
        self.reproduction.validate()
    }
}

/// Organism `i` belongs to some species.
pub open spec fn species_cover(species: Seq<Species>, i: int) -> bool {
    exists|s: int, k: int|
        0 <= s < species.len() && 0 <= k < species[s].organisms@.len()
            && #[trigger] species[s].organisms@[k] == i
}

/// Every member of every species lies within the species tolerance of its
/// own species' representative.
pub open spec fn members_within_tolerance(
    species: Seq<Species>,
    orgs: Seq<Organism>,
    dcfg: DistanceConfig,
    tol: int,
) -> bool {
    forall|s: int, k: int|
        #![trigger species[s].organisms@[k]]
        0 <= s < species.len() && 0 <= k < species[s].organisms@.len() ==> distance_spec(
            species[s].representative.genome,
            orgs[species[s].organisms@[k] as int].genome,
            dcfg,
        ) <= tol
}

/// Every member of a species lies beyond the tolerance of every earlier
/// species' representative: an organism joins the first species that
/// matches it.
pub open spec fn first_match_placement(
    species: Seq<Species>,
    orgs: Seq<Organism>,
    dcfg: DistanceConfig,
    tol: int,
) -> bool {
    forall|s1: int, s2: int, k: int|
        #![trigger species[s1], species[s2].organisms@[k]]
        0 <= s1 < s2 < species.len() && 0 <= k < species[s2].organisms@.len() ==> distance_spec(
            species[s1].representative.genome,
            orgs[species[s2].organisms@[k] as int].genome,
            dcfg,
        ) > tol
}

/// The population: the shared pool, the organisms of the current
/// generation, their partition into species, and the id counters.
#[derive(Debug)]
pub struct Population {
    pub config: PopulationConfig,
    pub pool: GenePool,
    pub organisms: Vec<Organism>,
    pub species: Vec<Species>,
    pub next_species_id: usize,
    pub genome_id_generator: u64,
}

impl Population {
    /// The basic state soundness: valid configuration, well-formed pool,
    /// and organisms ready to evaluate and mutate.
    pub open spec fn ok(self) -> bool {
        &&& self.config.valid()
        &&& self.pool.wf()
        &&& population_ready(self.organisms@, self.pool)
    }

    /// Every species is non-empty, indexes into the organism list, and has
    /// a well-formed representative.
    pub open spec fn species_ok(self) -> bool {
        forall|s: int|
            0 <= s < self.species@.len() ==> (#[trigger] self.species@[s]).organisms@.len() > 0
                && members_in_range(self.species@[s].organisms@, self.organisms@.len() as int)
                && self.species@[s].representative.genome.wf()
    }

    /// The species partition the organisms: every organism is in some
    /// species, and no index occurs twice.
    pub open spec fn partitioned(self) -> bool {
        &&& forall|i: int| 0 <= i < self.organisms@.len() ==> species_cover(self.species@, i)
        &&& forall|s1: int, k1: int, s2: int, k2: int|
            #![trigger self.species@[s1].organisms@[k1], self.species@[s2].organisms@[k2]]
            0 <= s1 < self.species@.len() && 0 <= k1 < self.species@[s1].organisms@.len() && 0
                <= s2 < self.species@.len() && 0 <= k2 < self.species@[s2].organisms@.len() && !(s1
                == s2 && k1 == k2) ==> self.species@[s1].organisms@[k1]
                != self.species@[s2].organisms@[k2]
    }

    /// Validate the configuration and wrap the pool into an empty
    /// population; an invalid configuration is rejected with its error.
    pub fn new(pool: GenePool, config: PopulationConfig) -> (r: Result<Population, ConfigError>)
        requires
            pool.wf(),
        ensures
            r is Ok <==> config.valid(),
            r matches Ok(p) ==> p.ok() && p.config == config && p.organisms@.len() == 0
                && p.species@.len() == 0 && p.pool == pool,
    {
        let checked = config.validate();
        match checked {
            Ok(_) => Ok(
                Population {
                    config,
                    pool,
                    organisms: Vec::new(),
                    species: Vec::new(),
                    next_species_id: 0,
                    genome_id_generator: 0,
                },
            ),
            Err(e) => Err(e),
        }
    }

    /// Partition the current organisms into species: carry every existing
    /// species forward as an empty shell around a freshly chosen
    /// representative, place each organism into the first shell whose
    /// representative is within tolerance (founding a new species when none
    /// matches), and drop the shells that stayed empty.
    pub fn speciate(&mut self)
        requires
            old(self).ok(),
            old(self).species_ok(),
        ensures
            final(self).ok(),
            final(self).species_ok(),
            final(self).partitioned(),
            final(self).organisms@ == old(self).organisms@,
            final(self).pool == old(self).pool,
            final(self).config == old(self).config,
            members_within_tolerance(
                final(self).species@,
                final(self).organisms@,
                old(self).config.distance,
                old(self).config.species.species_distance_tolerance as int,
            ),
            first_match_placement(
                final(self).species@,
                final(self).organisms@,
                old(self).config.distance,
                old(self).config.species.species_distance_tolerance as int,
            ),
            forall|s: int|
                0 <= s < final(self).species@.len() ==> exists|i: int|
                    0 <= i < final(self).organisms@.len() && genome_congruent(
                        (#[trigger] final(self).species@[s]).representative.genome,
                        final(self).organisms@[i].genome,
                    ),
    {
        let scount = self.species.len();
        let mut shells: Vec<Species> = Vec::new();
        let mut s: usize = 0;
        while s < scount
            invariant
                scount == self.species@.len(),
                self.ok(),
                self.species_ok(),
                s <= scount,
                shells@.len() == s,
                forall|t: int|
                    0 <= t < s ==> (#[trigger] shells@[t]).organisms@.len() == 0
                        && shells@[t].representative.genome.wf(),
                forall|t: int|
                    0 <= t < s ==> exists|i: int|
                        0 <= i < self.organisms@.len() && genome_congruent(
                            (#[trigger] shells@[t]).representative.genome,
                            self.organisms@[i].genome,
                        ),
            decreases scount - s,
        {
            let sp = &self.species[s];
            let rep = sp.select_new_representative(&self.organisms, &self.config.species);
            proof {
                let k = choose|k: int|
                    0 <= k < sp.organisms@.len() && genome_congruent(
                        rep.genome,
                        self.organisms@[#[trigger] sp.organisms@[k] as int].genome,
                    ) && rep.fitness == self.organisms@[sp.organisms@[k] as int].fitness
                        && rep.evaluation_config == self.organisms@[sp.organisms@[k] as int].evaluation_config;
                lemma_congruent_genome(
                    self.organisms@[sp.organisms@[k] as int].genome,
                    rep.genome,
                    self.pool,
                );
            }
            shells.push(Species::new(rep, sp.id));
            s = s + 1;
        }
        let ghost shell_seq = shells@;
        let ghost orgs0 = self.organisms@;
        self.species = shells;
        let ghost pre = *self;
        self.assign_to_species();
        proof {
            assert forall|t: int| 0 <= t < self.species@.len() implies exists|i: int|
                0 <= i < self.organisms@.len() && genome_congruent(
                    (#[trigger] self.species@[t]).representative.genome,
                    self.organisms@[i].genome,
                ) by {
                if exists|t2: int|
                    0 <= t2 < pre.species@.len() && (#[trigger] self.species@[t]).representative
                        == pre.species@[t2].representative {
                    let t2 = choose|t2: int|
                        0 <= t2 < pre.species@.len() && (
                        #[trigger] self.species@[t]).representative
                            == pre.species@[t2].representative;
                    assert(shell_seq[t2].representative == self.species@[t].representative);
                }
            }
        }
    }

    /// Place every organism into the first species whose representative
    /// matches, founding new species as needed, then drop empty species.
    fn assign_to_species(&mut self)
        requires
            old(self).ok(),
            forall|t: int|
                0 <= t < old(self).species@.len() ==> (#[trigger] old(self).species@[t]).organisms@.len() == 0 && old(self).species@[t].representative.genome.wf(),
        ensures
            final(self).ok(),
            final(self).species_ok(),
            final(self).partitioned(),
            final(self).organisms@ == old(self).organisms@,
            final(self).pool == old(self).pool,
            final(self).config == old(self).config,
            members_within_tolerance(
                final(self).species@,
                final(self).organisms@,
                final(self).config.distance,
                final(self).config.species.species_distance_tolerance as int,
            ),
            first_match_placement(
                final(self).species@,
                final(self).organisms@,
                final(self).config.distance,
                final(self).config.species.species_distance_tolerance as int,
            ),
            forall|s: int|
                0 <= s < final(self).species@.len() ==> (exists|t: int|
                    0 <= t < old(self).species@.len() && (
                    #[trigger] final(self).species@[s]).representative == old(self).species@[t].representative)
                    || (exists|i: int|
                    0 <= i < final(self).organisms@.len() && genome_congruent(
                        final(self).species@[s].representative.genome,
                        final(self).organisms@[i].genome,
                    )),
    {
        let n = self.organisms.len();
        let mut i: usize = 0;
        while i < n
            invariant
                n == self.organisms@.len(),
                self.ok(),
                i <= n,
                self.organisms@ == old(self).organisms@,
                self.pool == old(self).pool,
                self.config == old(self).config,
                forall|t: int|
                    0 <= t < self.species@.len() ==> members_in_range(
                        (#[trigger] self.species@[t]).organisms@,
                        n as int,
                    ) && self.species@[t].representative.genome.wf(),
                forall|t: int, k: int|
                    #![trigger self.species@[t].organisms@[k]]
                    0 <= t < self.species@.len() && 0 <= k < self.species@[t].organisms@.len()
                        ==> self.species@[t].organisms@[k] < i,
                forall|j: int| 0 <= j < i ==> species_cover(self.species@, j),
                forall|s1: int, k1: int, s2: int, k2: int|
                    #![trigger self.species@[s1].organisms@[k1], self.species@[s2].organisms@[k2]]
                    0 <= s1 < self.species@.len() && 0 <= k1 < self.species@[s1].organisms@.len()
                        && 0 <= s2 < self.species@.len() && 0 <= k2
                        < self.species@[s2].organisms@.len() && !(s1 == s2 && k1 == k2)
                        ==> self.species@[s1].organisms@[k1] != self.species@[s2].organisms@[k2],
                members_within_tolerance(
                    self.species@,
                    self.organisms@,
                    self.config.distance,
                    self.config.species.species_distance_tolerance as int,
                ),
                first_match_placement(
                    self.species@,
                    self.organisms@,
                    self.config.distance,
                    self.config.species.species_distance_tolerance as int,
                ),
                forall|t: int|
                    0 <= t < self.species@.len() ==> (exists|t2: int|
                        0 <= t2 < old(self).species@.len() && (
                        #[trigger] self.species@[t]).representative == old(self).species@[t2].representative)
                        || (exists|i2: int|
                        0 <= i2 < self.organisms@.len() && genome_congruent(
                            self.species@[t].representative.genome,
                            self.organisms@[i2].genome,
                        )),
            decreases n - i,
        {
            let scount = self.species.len();
            let mut placed = false;
            let mut s: usize = 0;
            while s < scount && !placed
                invariant
                    scount == self.species@.len(),
                    self.ok(),
                    n == self.organisms@.len(),
                    i < n,
                    s <= scount,
                    self.organisms@ == old(self).organisms@,
                    self.pool == old(self).pool,
                    self.config == old(self).config,
                    forall|t: int|
                        0 <= t < self.species@.len() ==> members_in_range(
                            (#[trigger] self.species@[t]).organisms@,
                            n as int,
                        ) && self.species@[t].representative.genome.wf(),
                    forall|t: int, k: int|
                        #![trigger self.species@[t].organisms@[k]]
                        0 <= t < self.species@.len() && 0 <= k < self.species@[t].organisms@.len()
                            ==> self.species@[t].organisms@[k] < i + 1,
                    forall|j: int| 0 <= j < i ==> species_cover(self.species@, j),
                    placed ==> species_cover(self.species@, i as int),
                    !placed ==> forall|t: int, k: int|
                        #![trigger self.species@[t].organisms@[k]]
                        0 <= t < self.species@.len() && 0 <= k < self.species@[t].organisms@.len()
                            ==> self.species@[t].organisms@[k] < i,
                    forall|s1: int, k1: int, s2: int, k2: int|
                        #![trigger self.species@[s1].organisms@[k1], self.species@[s2].organisms@[k2]]
                        0 <= s1 < self.species@.len() && 0 <= k1
                            < self.species@[s1].organisms@.len() && 0 <= s2 < self.species@.len()
                            && 0 <= k2 < self.species@[s2].organisms@.len() && !(s1 == s2 && k1
                            == k2) ==> self.species@[s1].organisms@[k1]
                            != self.species@[s2].organisms@[k2],
                    members_within_tolerance(
                        self.species@,
                        self.organisms@,
                        self.config.distance,
                        self.config.species.species_distance_tolerance as int,
                    ),
                    first_match_placement(
                        self.species@,
                        self.organisms@,
                        self.config.distance,
                        self.config.species.species_distance_tolerance as int,
                    ),
                    forall|t: int|
                        0 <= t < self.species@.len() ==> (exists|t2: int|
                            0 <= t2 < old(self).species@.len() && (
                            #[trigger] self.species@[t]).representative == old(self).species@[t2].representative)
                            || (exists|i2: int|
                            0 <= i2 < self.organisms@.len() && genome_congruent(
                                self.species@[t].representative.genome,
                                self.organisms@[i2].genome,
                            )),
                    forall|t: int|
                        0 <= t < s ==> distance_spec(
                            (#[trigger] self.species@[t]).representative.genome,
                            self.organisms@[i as int].genome,
                            self.config.distance,
                        ) > self.config.species.species_distance_tolerance as int,
                decreases scount - s, (if placed { 0int } else { 1int }),
            {
                let is_match = self.species[s].matches(
                    &self.organisms[i],
                    &self.config.distance,
                    &self.config.species,
                );
                if is_match {
                    let ghost before = self.species@;
                    let mut sp = self.species.remove(s);
                    sp.add_organism(i);
                    self.species.insert(s, sp);
                    proof {
                        assert forall|t: int|
                            0 <= t < self.species@.len() && t != s implies self.species@[t]
                            == before[t] by {
                            if t < s {
                                assert(self.species@[t] == before.remove(s as int)[t]);
                            } else {
                                assert(self.species@[t] == before.remove(s as int)[t - 1]);
                            }
                        }
                        assert(self.species@[s as int].organisms@ == before[s as int].organisms@.push(
                            i,
                        ));
                        assert(self.species@.len() == before.len());
                        assert(species_cover(self.species@, i as int)) by {
                            assert(self.species@[s as int].organisms@[before[s as int].organisms@.len() as int]
                                == i);
                        }
                        assert forall|j: int|
                            0 <= j < i implies species_cover(self.species@, j) by {
                            assert(species_cover(before, j));
                            let (s2, k2) = choose|s2: int, k2: int|
                                0 <= s2 < before.len() && 0 <= k2 < before[s2].organisms@.len()
                                    && #[trigger] before[s2].organisms@[k2] == j;
                            if s2 == s as int {
                                assert(self.species@[s2].organisms@[k2] == before[s2].organisms@[k2]);
                            } else {
                                assert(self.species@[s2] == before[s2]);
                            }
                            assert(self.species@[s2].organisms@[k2] == j);
                        }
                        let dcfg = self.config.distance;
                        let tol = self.config.species.species_distance_tolerance as int;
                        assert(self.species@[s as int].representative == before[s as int].representative);
                        assert forall|t: int, k: int|
                            #![trigger self.species@[t].organisms@[k]]
                            0 <= t < self.species@.len() && 0 <= k
                                < self.species@[t].organisms@.len() implies distance_spec(
                            self.species@[t].representative.genome,
                            self.organisms@[self.species@[t].organisms@[k] as int].genome,
                            dcfg,
                        ) <= tol by {
                            if t == s as int {
                                if k < before[t].organisms@.len() {
                                    assert(self.species@[t].organisms@[k] == before[t].organisms@[k]);
                                    assert(distance_spec(
                                        before[t].representative.genome,
                                        self.organisms@[before[t].organisms@[k] as int].genome,
                                        dcfg,
                                    ) <= tol);
                                } else {
                                    assert(self.species@[t].organisms@[k] == i);
                                }
                            } else {
                                assert(self.species@[t] == before[t]);
                                assert(distance_spec(
                                    before[t].representative.genome,
                                    self.organisms@[before[t].organisms@[k] as int].genome,
                                    dcfg,
                                ) <= tol);
                            }
                        }
                        assert forall|s1: int, s2: int, k: int|
                            #![trigger self.species@[s1], self.species@[s2].organisms@[k]]
                            0 <= s1 < s2 < self.species@.len() && 0 <= k
                                < self.species@[s2].organisms@.len() implies distance_spec(
                            self.species@[s1].representative.genome,
                            self.organisms@[self.species@[s2].organisms@[k] as int].genome,
                            dcfg,
                        ) > tol by {
                            assert(self.species@[s1].representative == before[s1].representative);
                            if s2 == s as int {
                                if k < before[s2].organisms@.len() {
                                    assert(self.species@[s2].organisms@[k] == before[s2].organisms@[k]);
                                    assert(distance_spec(
                                        before[s1].representative.genome,
                                        self.organisms@[before[s2].organisms@[k] as int].genome,
                                        dcfg,
                                    ) > tol);
                                } else {
                                    assert(self.species@[s2].organisms@[k] == i);
                                    assert(distance_spec(
                                        before[s1].representative.genome,
                                        self.organisms@[i as int].genome,
                                        dcfg,
                                    ) > tol);
                                }
                            } else {
                                assert(self.species@[s2] == before[s2]);
                                assert(distance_spec(
                                    before[s1].representative.genome,
                                    self.organisms@[before[s2].organisms@[k] as int].genome,
                                    dcfg,
                                ) > tol);
                            }
                        }
                        assert forall|t: int|
                            0 <= t < self.species@.len() implies (exists|t2: int|
                            0 <= t2 < old(self).species@.len() && (
                            #[trigger] self.species@[t]).representative == old(self).species@[t2].representative)
                            || (exists|i2: int|
                            0 <= i2 < self.organisms@.len() && genome_congruent(
                                self.species@[t].representative.genome,
                                self.organisms@[i2].genome,
                            )) by {
                            assert(self.species@[t].representative == before[t].representative);
                            if exists|t2: int|
                                0 <= t2 < old(self).species@.len() && (
                                #[trigger] before[t]).representative == old(self).species@[t2].representative {
                                let t2 = choose|t2: int|
                                    0 <= t2 < old(self).species@.len() && (
                                    #[trigger] before[t]).representative == old(self).species@[t2].representative;
                                assert(self.species@[t].representative == old(self).species@[t2].representative);
                            } else {
                                let i2 = choose|i2: int|
                                    0 <= i2 < self.organisms@.len() && genome_congruent(
                                        before[t].representative.genome,
                                        self.organisms@[i2].genome,
                                    );
                                assert(genome_congruent(
                                    self.species@[t].representative.genome,
                                    self.organisms@[i2].genome,
                                ));
                            }
                        }
                    }
                    placed = true;
                } else {
                    s = s + 1;
                }
            }
            if !placed {
                let rep = self.organisms[i].clone();
                proof {
                    lemma_congruent_genome(self.organisms@[i as int].genome, rep.genome, self.pool);
                }
                let id = self.next_species_id;
                self.next_species_id = id.wrapping_add(1);
                let mut fresh = Species::new(rep, id);
                fresh.add_organism(i);
                let ghost before = self.species@;
                self.species.push(fresh);
                proof {
                    assert(self.species@[before.len() as int].organisms@[0] == i);
                    assert(species_cover(self.species@, i as int));
                    assert forall|j: int| 0 <= j < i implies species_cover(self.species@, j) by {
                        assert(species_cover(before, j));
                        let (s2, k2) = choose|s2: int, k2: int|
                            0 <= s2 < before.len() && 0 <= k2 < before[s2].organisms@.len()
                                && #[trigger] before[s2].organisms@[k2] == j;
                        assert(self.species@[s2] == before[s2]);
                        assert(self.species@[s2].organisms@[k2] == j);
                    }
                    let dcfg = self.config.distance;
                    let tol = self.config.species.species_distance_tolerance as int;
                    let last = before.len() as int;
                    assert(distance_spec(
                        self.species@[last].representative.genome,
                        self.organisms@[i as int].genome,
                        dcfg,
                    ) == 0) by {
                        lemma_congruent_distance(
                            self.species@[last].representative.genome,
                            self.organisms@[i as int].genome,
                            self.organisms@[i as int].genome,
                            dcfg,
                        );
                        lemma_distance_self_zero(self.organisms@[i as int].genome, dcfg);
                    }
                    assert forall|t: int, k: int|
                        #![trigger self.species@[t].organisms@[k]]
                        0 <= t < self.species@.len() && 0 <= k
                            < self.species@[t].organisms@.len() implies distance_spec(
                        self.species@[t].representative.genome,
                        self.organisms@[self.species@[t].organisms@[k] as int].genome,
                        dcfg,
                    ) <= tol by {
                        if t == last {
                            assert(self.species@[t].organisms@[k] == i);
                        } else {
                            assert(self.species@[t] == before[t]);
                        }
                    }
                    assert forall|s1: int, s2: int, k: int|
                        #![trigger self.species@[s1], self.species@[s2].organisms@[k]]
                        0 <= s1 < s2 < self.species@.len() && 0 <= k
                            < self.species@[s2].organisms@.len() implies distance_spec(
                        self.species@[s1].representative.genome,
                        self.organisms@[self.species@[s2].organisms@[k] as int].genome,
                        dcfg,
                    ) > tol by {
                        assert(self.species@[s1] == before[s1]);
                        if s2 == last {
                            assert(self.species@[s2].organisms@[k] == i);
                        } else {
                            assert(self.species@[s2] == before[s2]);
                        }
                    }
                }
            }
            i = i + 1;
        }
        // drop the species that stayed empty
        let ghost orig = self.species@;
        let mut kept: Vec<Species> = Vec::new();
        let ghost mut picks: Seq<int> = Seq::empty();
        let mut done: usize = 0;
        let scount = self.species.len();
        while done < scount
            invariant
                scount == orig.len(),
                done <= scount,
                n == self.organisms@.len(),
                self.ok(),
                self.organisms@ == old(self).organisms@,
                self.pool == old(self).pool,
                self.config == old(self).config,
                self.species@.len() == scount - done,
                forall|u: int| 0 <= u < scount - done ==> self.species@[u] == orig[done + u],
                forall|t: int|
                    0 <= t < orig.len() ==> members_in_range(
                        (#[trigger] orig[t]).organisms@,
                        n as int,
                    ) && orig[t].representative.genome.wf(),
                forall|j: int| 0 <= j < n ==> species_cover(orig, j),
                forall|s1: int, k1: int, s2: int, k2: int|
                    #![trigger orig[s1].organisms@[k1], orig[s2].organisms@[k2]]
                    0 <= s1 < orig.len() && 0 <= k1 < orig[s1].organisms@.len() && 0 <= s2
                        < orig.len() && 0 <= k2 < orig[s2].organisms@.len() && !(s1 == s2 && k1
                        == k2) ==> orig[s1].organisms@[k1] != orig[s2].organisms@[k2],
                picks.len() == kept@.len(),
                forall|t: int| 0 <= t < picks.len() ==> 0 <= #[trigger] picks[t] < done,
                forall|t1: int, t2: int| 0 <= t1 < t2 < picks.len() ==> picks[t1] < picks[t2],
                forall|t: int| 0 <= t < kept@.len() ==> #[trigger] kept@[t] == orig[picks[t]],
                forall|t: int|
                    0 <= t < kept@.len() ==> (#[trigger] kept@[t]).organisms@.len() > 0,
                forall|u: int|
                    0 <= u < done && (#[trigger] orig[u]).organisms@.len() > 0 ==> exists|t: int|
                        0 <= t < picks.len() && #[trigger] picks[t] == u,
                members_within_tolerance(
                    orig,
                    self.organisms@,
                    self.config.distance,
                    self.config.species.species_distance_tolerance as int,
                ),
                first_match_placement(
                    orig,
                    self.organisms@,
                    self.config.distance,
                    self.config.species.species_distance_tolerance as int,
                ),
                forall|t: int|
                    0 <= t < orig.len() ==> (exists|t2: int|
                        0 <= t2 < old(self).species@.len() && (#[trigger] orig[t]).representative
                            == old(self).species@[t2].representative) || (exists|i2: int|
                        0 <= i2 < self.organisms@.len() && genome_congruent(
                            orig[t].representative.genome,
                            self.organisms@[i2].genome,
                        )),
            decreases scount - done,
        {
            let sp = self.species.remove(0);
            proof {
                assert(sp == orig[done as int]);
                assert forall|u: int|
                    0 <= u < scount - done - 1 implies self.species@[u] == orig[done + 1 + u] by {}
            }
            let ghost old_picks = picks;
            if sp.organisms.len() > 0 {
                kept.push(sp);
                proof {
                    picks = picks.push(done as int);
                }
            }
            proof {
                assert forall|u: int|
                    0 <= u < done + 1 && (#[trigger] orig[u]).organisms@.len() > 0
                        implies exists|t: int|
                    0 <= t < picks.len() && #[trigger] picks[t] == u by {
                    if u < done {
                        let t = choose|t: int|
                            0 <= t < old_picks.len() && #[trigger] old_picks[t] == u;
                        assert(picks[t] == u);
                    } else {
                        assert(orig[done as int].organisms@.len() > 0);
                        assert(picks[picks.len() - 1] == done as int);
                    }
                }
            }
            done = done + 1;
        }
        proof {
            assert forall|j: int| 0 <= j < n implies species_cover(kept@, j) by {
                assert(species_cover(orig, j));
                let (s2, k2) = choose|s2: int, k2: int|
                    0 <= s2 < orig.len() && 0 <= k2 < orig[s2].organisms@.len()
                        && #[trigger] orig[s2].organisms@[k2] == j;
                assert(orig[s2].organisms@.len() > 0);
                let t = choose|t: int| 0 <= t < picks.len() && #[trigger] picks[t] == s2;
                assert(kept@[t] == orig[s2]);
                assert(kept@[t].organisms@[k2] == j);
            }
            assert forall|s1: int, k1: int, s2: int, k2: int|
                #![trigger kept@[s1].organisms@[k1], kept@[s2].organisms@[k2]]
                0 <= s1 < kept@.len() && 0 <= k1 < kept@[s1].organisms@.len() && 0 <= s2
                    < kept@.len() && 0 <= k2 < kept@[s2].organisms@.len() && !(s1 == s2 && k1
                    == k2) implies kept@[s1].organisms@[k1] != kept@[s2].organisms@[k2] by {
                assert(kept@[s1] == orig[picks[s1]]);
                assert(kept@[s2] == orig[picks[s2]]);
                if s1 < s2 {
                    assert(picks[s1] < picks[s2]);
                }
                if s2 < s1 {
                    assert(picks[s2] < picks[s1]);
                }
                assert(orig[picks[s1]].organisms@[k1] != orig[picks[s2]].organisms@[k2]);
            }
            let dcfg = self.config.distance;
            let tol = self.config.species.species_distance_tolerance as int;
            assert forall|t: int, k: int|
                #![trigger kept@[t].organisms@[k]]
                0 <= t < kept@.len() && 0 <= k < kept@[t].organisms@.len() implies distance_spec(
                kept@[t].representative.genome,
                self.organisms@[kept@[t].organisms@[k] as int].genome,
                dcfg,
            ) <= tol by {
                assert(kept@[t] == orig[picks[t]]);
                assert(distance_spec(
                    orig[picks[t]].representative.genome,
                    self.organisms@[orig[picks[t]].organisms@[k] as int].genome,
                    dcfg,
                ) <= tol);
            }
            assert forall|s1: int, s2: int, k: int|
                #![trigger kept@[s1], kept@[s2].organisms@[k]]
                0 <= s1 < s2 < kept@.len() && 0 <= k
                    < kept@[s2].organisms@.len() implies distance_spec(
                kept@[s1].representative.genome,
                self.organisms@[kept@[s2].organisms@[k] as int].genome,
                dcfg,
            ) > tol by {
                assert(kept@[s1] == orig[picks[s1]]);
                assert(kept@[s2] == orig[picks[s2]]);
                assert(picks[s1] < picks[s2]);
                assert(distance_spec(
                    orig[picks[s1]].representative.genome,
                    self.organisms@[orig[picks[s2]].organisms@[k] as int].genome,
                    dcfg,
                ) > tol);
            }
            assert forall|t: int|
                0 <= t < kept@.len() implies (exists|t2: int|
                0 <= t2 < old(self).species@.len() && (#[trigger] kept@[t]).representative == old(
                    self,
                ).species@[t2].representative) || (exists|i2: int|
                0 <= i2 < self.organisms@.len() && genome_congruent(
                    kept@[t].representative.genome,
                    self.organisms@[i2].genome,
                )) by {
                assert(kept@[t] == orig[picks[t]]);
                let pt = picks[t];
                if exists|t2: int|
                    0 <= t2 < old(self).species@.len() && (#[trigger] orig[pt]).representative
                        == old(self).species@[t2].representative {
                    let t2 = choose|t2: int|
                        0 <= t2 < old(self).species@.len() && (#[trigger] orig[pt]).representative
                            == old(self).species@[t2].representative;
                    assert(kept@[t].representative == old(self).species@[t2].representative);
                } else {
                    let i2 = choose|i2: int|
                        0 <= i2 < self.organisms@.len() && genome_congruent(
                            orig[pt].representative.genome,
                            self.organisms@[i2].genome,
                        );
                    assert(genome_congruent(
                        kept@[t].representative.genome,
                        self.organisms@[i2].genome,
                    ));
                }
            }
        }
        self.species = kept;
    }
}

/// The population size lies within the bounds that one round of
/// reproduction guarantees, for some positive number of species.
pub open spec fn within_reproduction_bounds(len: int, count: int, min: int) -> bool {
    exists|s: int| 1 <= s && #[trigger] (s * min) <= len && len <= s * (count + min + 1)
}

/// What the engine demands of a fitness function: it hands back the same
/// organisms (genome and settings untouched), each with a fitness assigned.
pub open spec fn fitness_assigned(input: Seq<Organism>, output: Seq<Organism>) -> bool {
    &&& output.len() == input.len()
    &&& forall|i: int|
        0 <= i < output.len() ==> (#[trigger] output[i]).fitness is Some && output[i].genome
            == input[i].genome && output[i].evaluation_config == input[i].evaluation_config
}

impl Population {
    /// Materialise the initial generation: `organism_count` fresh genomes
    /// holding every pool gene, with weights drawn by the configured
    /// strategy.
    fn spawn_initial(&mut self) -> (r: Vec<Organism>)
        requires
            old(self).ok(),
            old(self).pool.nodes@.len() + old(self).pool.input_count + old(self).pool.output_count + 2 <= usize::MAX,
            old(self).pool.connections@.len() < usize::MAX,
        ensures
            final(self).ok(),
            final(self).pool == old(self).pool,
            final(self).config == old(self).config,
            final(self).organisms@ == old(self).organisms@,
            final(self).species@ == old(self).species@,
            population_ready(r@, final(self).pool),
            r@.len() == final(self).config.reproduction.organism_count,
    {
        let count = self.config.reproduction.organism_count;
        let mut organisms: Vec<Organism> = Vec::new();
        let mut k: usize = 0;
        while k < count
            invariant
                self.ok(),
                self == old(self),
                self.pool.nodes@.len() + self.pool.input_count + self.pool.output_count + 2
                    <= usize::MAX,
                self.pool.connections@.len() < usize::MAX,
                k <= count,
                organisms@.len() == k,
                population_ready(organisms@, self.pool),
            decreases count - k,
        {
            let id = self.genome_id_generator;
            let genome = self.pool.new_genome(&self.config.initial_organism_weight, id, 0);
            organisms.push(Organism::new(genome, self.config.evaluation));
            k = k + 1;
        }
        self.genome_id_generator = self.genome_id_generator.wrapping_add(count as u64);
        organisms
    }

    /// The organism with the highest fitness of the current generation.
    fn best_organism(&self) -> (r: Organism)
        requires
            self.organisms@.len() > 0,
            population_evaluated(self.organisms@),
        ensures
            r.fitness is Some,
            exists|i: int|
                0 <= i < self.organisms@.len() && r.fitness == (
                #[trigger] self.organisms@[i]).fitness && genome_congruent(
                    r.genome,
                    self.organisms@[i].genome,
                ) && r.evaluation_config == self.organisms@[i].evaluation_config,
            forall|i: int|
                0 <= i < self.organisms@.len() ==> (#[trigger] self.organisms@[i]).fitness->0
                    <= r.fitness->0,
    {
        let n = self.organisms.len();
        let mut best: usize = 0;
        let mut best_fit: u64 = match self.organisms[0].fitness {
            Some(f) => f,
            None => {
                proof {
                    assert(false);
                }
                0
            },
        };
        let mut i: usize = 1;
        while i < n
            invariant
                n == self.organisms@.len(),
                population_evaluated(self.organisms@),
                best < n,
                i <= n,
                self.organisms@[best as int].fitness == Some(best_fit),
                forall|j: int|
                    0 <= j < i ==> (#[trigger] self.organisms@[j]).fitness->0 <= best_fit,
            decreases n - i,
        {
            let f = match self.organisms[i].fitness {
                Some(f) => f,
                None => {
                    proof {
                        assert(false);
                    }
                    0
                },
            };
            if f > best_fit {
                best = i;
                best_fit = f;
            }
            i = i + 1;
        }
        let r = self.organisms[best].clone();
        proof {
            assert(genome_congruent(r.genome, self.organisms@[best as int].genome));
        }
        r
    }

    /// Run the generational loop: create and score the initial generation,
    /// then reproduce, score and re-speciate until the best organism
    /// reaches the target fitness or the generation bound runs out
    /// (a bound of 0 is treated as unbounded). Returns the best organism of
    /// the last generation.
    pub fn evolve<F: Fn(Vec<Organism>) -> Vec<Organism>>(&mut self, fitness_function: F) -> (r:
        Organism)
        requires
            old(self).ok(),
            old(self).config.reproduction.organism_count > 0,
            old(self).pool.nodes@.len() + old(self).pool.input_count + old(self).pool.output_count + 2 <= usize::MAX,
            old(self).pool.connections@.len() < usize::MAX,
            forall|v: Vec<Organism>| #[trigger] call_requires(fitness_function, (v,)),
            forall|v: Vec<Organism>, out: Vec<Organism>|
                #[trigger] call_ensures(fitness_function, (v,), out) ==> fitness_assigned(
                    v@,
                    out@,
                ),
        ensures
            final(self).ok(),
            final(self).organisms@.len() > 0,
            population_evaluated(final(self).organisms@),
            final(self).config == old(self).config,
            final(self).organisms@.len() == old(self).config.reproduction.organism_count
                || within_reproduction_bounds(
                final(self).organisms@.len() as int,
                old(self).config.reproduction.organism_count as int,
                old(self).config.reproduction.min_species_size as int,
            ),
            r.fitness is Some,
            exists|i: int|
                0 <= i < final(self).organisms@.len() && r.fitness == (#[trigger] final(self).organisms@[i]).fitness && genome_congruent(
                    r.genome,
                    final(self).organisms@[i].genome,
                ),
            forall|i: int|
                0 <= i < final(self).organisms@.len() ==> (#[trigger] final(self).organisms@[i]).fitness->0 <= r.fitness->0,
    {
        let fresh = self.spawn_initial();
        let scored = fitness_function(fresh);
        proof {
            assert(population_ready(self.organisms@, self.pool));
        }
        self.organisms = scored;
        proof {
            assert forall|i: int|
                0 <= i < self.organisms@.len() implies organism_ready(
                #[trigger] self.organisms@[i],
                self.pool,
            ) by {}
        }
        self.species = Vec::new();
        self.speciate();
        let mut best = self.best_organism();
        let mut best_fit: u64 = match best.fitness {
            Some(f) => f,
            None => {
                proof {
                    assert(false);
                }
                0
            },
        };
        let bound: u32 = if self.config.max_generations == 0 {
            u32::MAX
        } else {
            self.config.max_generations
        };
        let mut generation: u32 = 1;
        while generation <= bound && best_fit < self.config.target_fitness
            invariant
                self.ok(),
                self.species_ok(),
                self.partitioned(),
                self.organisms@.len() > 0,
                population_evaluated(self.organisms@),
                self.config == old(self).config,
                self.organisms@.len() == old(self).config.reproduction.organism_count
                    || within_reproduction_bounds(
                    self.organisms@.len() as int,
                    old(self).config.reproduction.organism_count as int,
                    old(self).config.reproduction.min_species_size as int,
                ),
                generation <= bound + 1,
                best.fitness == Some(best_fit),
                exists|i: int|
                    0 <= i < self.organisms@.len() && best.fitness == (
                    #[trigger] self.organisms@[i]).fitness && genome_congruent(
                        best.genome,
                        self.organisms@[i].genome,
                    ),
                forall|i: int|
                    0 <= i < self.organisms@.len() ==> (#[trigger] self.organisms@[i]).fitness->0
                        <= best_fit,
                forall|v: Vec<Organism>| #[trigger] call_requires(fitness_function, (v,)),
                forall|v: Vec<Organism>, out: Vec<Organism>|
                    #[trigger] call_ensures(fitness_function, (v,), out) ==> fitness_assigned(
                        v@,
                        out@,
                    ),
            decreases bound - generation + 1,
        {
            let mut can_reproduce = false;
            let mut per: usize = 1;
            if self.config.reproduction.organism_count < usize::MAX {
                if self.config.reproduction.min_species_size <= usize::MAX - 1
                    - self.config.reproduction.organism_count {
                    per = self.config.reproduction.organism_count
                        + self.config.reproduction.min_species_size + 1;
                    if self.species.len() <= usize::MAX / per {
                        can_reproduce = true;
                    }
                }
            }
            if !can_reproduce {
                break ;
            }
            proof {
                let sl = self.species@.len() as int;
                let p = per as int;
                assert(sl * p <= (usize::MAX as int / p) * p <= usize::MAX) by (nonlinear_arith)
                    requires
                        0 <= sl <= usize::MAX as int / p,
                        1 <= p,
                ;
                assert forall|t: int|
                    0 <= t < self.species@.len() implies (
                #[trigger] self.species@[t]).organisms@.len() > 0 && members_in_range(
                    self.species@[t].organisms@,
                    self.organisms@.len() as int,
                ) && members_evaluated(self.species@[t].organisms@, self.organisms@) by {}
            }
            proof {
                assert(species_cover(self.species@, 0));
                let (si, ki) = choose|si: int, ki: int|
                    0 <= si < self.species@.len() && 0 <= ki < self.species@[si].organisms@.len()
                        && #[trigger] self.species@[si].organisms@[ki] == 0;
                assert(self.species@.len() >= 1);
            }
            let ghost s0 = self.species@.len() as int;
            let ghost pre_pool = self.pool;
            let offspring = reproduce(
                &self.species,
                &self.organisms,
                &mut self.pool,
                &self.config.reproduction,
                &self.config.species,
                &self.config.evaluation,
                &mut self.genome_id_generator,
                generation,
            );
            if offspring.len() == 0 {
                break ;
            }
            let scored = fitness_function(offspring);
            if scored.len() == 0 {
                break ;
            }
            // representatives for the next generation come from the old one
            let scount = self.species.len();
            let mut shells: Vec<Species> = Vec::new();
            let mut s: usize = 0;
            while s < scount
                invariant
                    scount == self.species@.len(),
                    self.ok(),
                    self.species_ok(),
                    s <= scount,
                    shells@.len() == s,
                    forall|t: int|
                        0 <= t < s ==> (#[trigger] shells@[t]).organisms@.len() == 0
                            && shells@[t].representative.genome.wf(),
                decreases scount - s,
            {
                let sp = &self.species[s];
                let rep = sp.select_new_representative(&self.organisms, &self.config.species);
                proof {
                    let k = choose|k: int|
                        0 <= k < sp.organisms@.len() && genome_congruent(
                            rep.genome,
                            self.organisms@[#[trigger] sp.organisms@[k] as int].genome,
                        ) && rep.fitness == self.organisms@[sp.organisms@[k] as int].fitness
                            && rep.evaluation_config == self.organisms@[sp.organisms@[k] as int].evaluation_config;
                    lemma_congruent_genome(
                        self.organisms@[sp.organisms@[k] as int].genome,
                        rep.genome,
                        self.pool,
                    );
                }
                shells.push(Species::new(rep, sp.id));
                s = s + 1;
            }
            self.organisms = scored;
            self.species = shells;
            proof {
                assert forall|i: int|
                    0 <= i < self.organisms@.len() implies organism_ready(
                    #[trigger] self.organisms@[i],
                    self.pool,
                ) by {}
                let c = old(self).config.reproduction.organism_count as int;
                let mn = old(self).config.reproduction.min_species_size as int;
                assert(within_reproduction_bounds(self.organisms@.len() as int, c, mn)) by {
                    assert(scored@.len() == offspring@.len());
                    assert(1 <= s0 && s0 * mn <= self.organisms@.len() as int
                        && self.organisms@.len() as int <= s0 * (c + mn + 1));
                }
            }
            self.assign_to_species();
            best = self.best_organism();
            best_fit = match best.fitness {
                Some(f) => f,
                None => {
                    proof {
                        assert(false);
                    }
                    0
                },
            };
            if generation == u32::MAX {
                break ;
            }
            generation = generation + 1;
        }
        best
    }
}

} // verus!
