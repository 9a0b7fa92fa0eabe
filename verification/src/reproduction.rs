//! Reproduction: allocate offspring quotas across species by share of total
//! adjusted fitness, then per species perform elitism, pure mutation, and
//! crossover-plus-mutation.

use crate::config_util::{assert_ratio, ConfigError};
use crate::fixed::SCALE;
use crate::gene_pool::GenePool;
use crate::genome::{
    genome_congruent, lemma_congruent_genome, lemma_consistency_extends, CrossoverConfig,
    EvaluationConfig, MutationConfig,
};
use crate::organism::{organism_ready, population_ready, Organism};
use crate::rng::random_below;
use crate::species::{
    adjusted_spec, member_fitnesses, members_evaluated, members_in_range, sum_prefix, Species,
    SpeciesConfig,
};
use vstd::prelude::*;

verus! {

/// How parents are chosen within a species.
#[derive(Clone, Copy, Debug, PartialEq, Eq, Structural)]
pub enum SpeciesReproductionStrategy {
    /// Uniformly from the eligible (surviving) members.
    Random,
}

/// Reproduction settings.
#[derive(Clone, Copy, Debug)]
pub struct ReproductionConfig {
    /// Number of organisms in each generation.
    pub organism_count: usize,
    /// Smallest offspring quota a species receives.
    pub min_species_size: usize,
    /// Share of the worst members excluded from parent selection.
    pub kill_ratio: i64,
    /// Share of the non-elite offspring produced by pure mutation.
    pub mutation_ratio: i64,
    /// Whether the best members are copied over unchanged.
    pub allow_elitism: bool,
    /// Smallest species size at which elitism applies.
    pub elitism_limit: usize,
    /// How many members are copied over unchanged.
    pub elitism_count: usize,
    pub species_strategy: SpeciesReproductionStrategy,
    /// Species at least this large mutate with the intense settings.
    pub large_species_size: usize,
    pub crossover: CrossoverConfig,
    pub small_intensity_config: MutationConfig,
    pub large_intensity_config: MutationConfig,
}

impl ReproductionConfig {
    pub open spec fn valid(self) -> bool {
        &&& self.organism_count > 0
        &&& 0 <= self.kill_ratio <= SCALE
        &&& 0 <= self.mutation_ratio <= SCALE
        &&& self.crossover.valid()
        &&& self.small_intensity_config.valid()
        &&& self.large_intensity_config.valid()
    }

    /// Reject an empty population, out-of-range ratios, and invalid
    /// crossover or mutation settings.
    pub fn validate(&self) -> (r: Result<(), ConfigError>)
        ensures
            r is Ok <==> self.valid(),
    {
        if self.organism_count == 0 {
            return Err(ConfigError::ZeroOrganismCount);
        }
        let a = assert_ratio(self.kill_ratio);
        if a.is_err() {
            return a;
        }
        let b = assert_ratio(self.mutation_ratio);
        if b.is_err() {
            return b;
        }
        let c = self.small_intensity_config.validate();
        if c.is_err() {
            return c;
        }
        let d = self.crossover.validate();
        if d.is_err() {
            return d;
        }
        self.large_intensity_config.validate()
    }
}

/// The fitness of the organism a member index points at.
pub open spec fn fitness_at(orgs: Seq<Organism>, idx: usize) -> int {
    orgs[idx as int].fitness->0 as int
}

/// Whether `x` occurs in the member list.
pub open spec fn comes_from(x: usize, members: Seq<usize>) -> bool {
    exists|m: int| 0 <= m < members.len() && #[trigger] members[m] == x
}

/// Copy a member list and sort it ascending by fitness.
fn sorted_members(members: &Vec<usize>, organisms: &Vec<Organism>) -> (r: Vec<usize>)
    requires
        members_in_range(members@, organisms@.len() as int),
        members_evaluated(members@, organisms@),
    ensures
        r@.len() == members@.len(),
        members_in_range(r@, organisms@.len() as int),
        members_evaluated(r@, organisms@),
        r@.to_multiset() == members@.to_multiset(),
        forall|k: int| 0 <= k < r@.len() ==> #[trigger] comes_from(r@[k], members@),
        forall|k1: int, k2: int|
            0 <= k1 < k2 < r@.len() ==> fitness_at(organisms@, #[trigger] r@[k1]) <= fitness_at(
                organisms@,
                #[trigger] r@[k2],
            ),
{
    let n = members.len();
    let mut v: Vec<usize> = Vec::new();
    let mut k: usize = 0;
    while k < n
        invariant
            n == members@.len(),
            k <= n,
            v@.len() == k,
            forall|i: int| 0 <= i < k ==> v@[i] == members@[i],
        decreases n - k,
    {
        v.push(members[k]);
        k = k + 1;
    }
    proof {
        assert forall|k2: int| 0 <= k2 < n implies #[trigger] comes_from(v@[k2], members@) by {
            assert(members@[k2] == v@[k2]);
        }
        assert(v@ =~= members@);
    }
    let mut i: usize = 0;
    while i < n
        invariant
            n == members@.len(),
            i <= n,
            v@.len() == n,
            members_in_range(v@, organisms@.len() as int),
            members_evaluated(v@, organisms@),
            v@.to_multiset() == members@.to_multiset(),
            forall|k2: int| 0 <= k2 < n ==> #[trigger] comes_from(v@[k2], members@),
            forall|p: int, q: int|
                0 <= p < q < i ==> fitness_at(organisms@, #[trigger] v@[p]) <= fitness_at(
                    organisms@,
                    #[trigger] v@[q],
                ),
            forall|p: int, q: int|
                0 <= p < i <= q < n ==> fitness_at(organisms@, #[trigger] v@[p]) <= fitness_at(
                    organisms@,
                    #[trigger] v@[q],
                ),
        decreases n - i,
    {
        let mut best: usize = i;
        let mut j: usize = i + 1;
        while j < n
            invariant
                n == v@.len(),
                i <= best < n,
                i < j <= n,
                members_in_range(v@, organisms@.len() as int),
                members_evaluated(v@, organisms@),
                forall|t: int|
                    i <= t < j ==> fitness_at(organisms@, v@[best as int]) <= fitness_at(
                        organisms@,
                        #[trigger] v@[t],
                    ),
            decreases n - j,
        {
            let fj = match organisms[v[j]].fitness {
                Some(f) => f,
                None => {
                    proof {
                        assert(false);
                    }
                    0
                },
            };
            let fb = match organisms[v[best]].fitness {
                Some(f) => f,
                None => {
                    proof {
                        assert(false);
                    }
                    0
                },
            };
            if fj < fb {
                best = j;
            }
            j = j + 1;
        }
        let a = v[i];
        let b = v[best];
        let ghost before = v@;
        v.set(i, b);
        let ghost mid = v@;
        v.set(best, a);
        proof {
            assert(v@.len() == n);
            // a swap of two entries leaves the multiset unchanged
            broadcast use vstd::seq_lib::group_to_multiset_ensures;
            broadcast use vstd::multiset::group_multiset_axioms;

            if best == i {
                assert(v@ =~= before);
            } else {
                assert(mid == before.update(i as int, b));
                assert(v@ == mid.update(best as int, a));
                assert(mid[best as int] == b);
                assert(mid.to_multiset() == before.to_multiset().insert(b).remove(a));
                assert(v@.to_multiset() == mid.to_multiset().insert(a).remove(b));
                assert(v@.to_multiset() =~= before.to_multiset()) by {
                    assert(before.to_multiset().contains(a)) by {
                        assert(before[i as int] == a);
                    }
                    assert(forall|x: usize|
                        #[trigger] v@.to_multiset().count(x) == before.to_multiset().count(x));
                }
            }
            assert forall|k2: int| 0 <= k2 < n implies #[trigger] comes_from(v@[k2], members@) by {
                if k2 == i as int {
                    assert(before[best as int] == v@[k2]);
                    assert(comes_from(before[best as int], members@));
                } else if k2 == best as int {
                    assert(before[i as int] == v@[k2]);
                    assert(comes_from(before[i as int], members@));
                } else {
                    assert(before[k2] == v@[k2]);
                    assert(comes_from(before[k2], members@));
                }
            }
        }
        i = i + 1;
    }
    v
}

/// Choose a parent: a uniformly random member among the eligible tail
/// `[limit..]` of the fitness-sorted member list.
fn select_parent(
    sorted: &Vec<usize>,
    strategy: &SpeciesReproductionStrategy,
    limit: usize,
) -> (r: usize)
    requires
        limit < sorted@.len(),
    ensures
        exists|k: int| limit <= k < sorted@.len() && r == #[trigger] sorted@[k],
{
    match strategy {
        SpeciesReproductionStrategy::Random => {
            let span = sorted.len() - limit;
            let pick = limit + random_below(span);
            sorted[pick]
        },
    }
}

/// Mutate an offspring with the intensity chosen by its species size; at
/// the edge of the address space the mutation degrades to a no-op rather
/// than overflow.
fn mutate_organism(
    organism: &mut Organism,
    pool: &mut GenePool,
    species_size: usize,
    config: &ReproductionConfig,
    new_id: u64,
    generation: u32,
)
    requires
        old(organism).genome.wf(),
        old(pool).wf(),
        old(organism).genome.consistent_with(*old(pool)),
        old(organism).evaluation_config.valid(),
        config.valid(),
    ensures
        final(organism).genome.wf(),
        final(pool).wf(),
        final(organism).genome.consistent_with(*final(pool)),
        final(pool).extends(*old(pool)),
        final(organism).evaluation_config == old(organism).evaluation_config,
        final(organism).fitness == old(organism).fitness,
{
    let intensity = if species_size >= config.large_species_size {
        &config.large_intensity_config
    } else {
        &config.small_intensity_config
    };
    if pool.nodes.len() < usize::MAX && pool.connections.len() <= usize::MAX - 3
        && organism.genome.connection_count() <= usize::MAX - 3 && organism.genome.node_count()
        <= usize::MAX - 3 {
        organism.genome.mutate(pool, intensity, new_id, generation);
    } else {
        organism.genome.id = new_id;
        organism.genome.generation = generation;
    }
}

/// Readiness of the organisms survives pool growth.
pub proof fn lemma_population_ready_extends(
    orgs: Seq<Organism>,
    older: GenePool,
    newer: GenePool,
)
    requires
        population_ready(orgs, older),
        newer.extends(older),
    ensures
        population_ready(orgs, newer),
{
    assert forall|i: int| 0 <= i < orgs.len() implies organism_ready(
        #[trigger] orgs[i],
        newer,
    ) by {
        lemma_consistency_extends(orgs[i].genome, older, newer);
    }
}

/// The clamped quota.
pub open spec fn clamped_quota(target: int, min: int) -> int {
    if target >= min {
        target
    } else {
        min
    }
}

/// How many members a species copies over unchanged: the configured count,
/// capped by the offspring quota and by the species size, and 0 when
/// elitism is off or the species is smaller than the elitism limit.
pub open spec fn elite_count(config: ReproductionConfig, len: int, target: int) -> int {
    let ecap = if config.elitism_count as int <= target {
        config.elitism_count as int
    } else {
        target
    };
    if config.allow_elitism && len >= config.elitism_limit as int {
        if ecap <= len {
            ecap
        } else {
            len
        }
    } else {
        0
    }
}

/// `high` lists members whose fitness dominates the species: together with
/// some remainder it makes up exactly the member list (as a multiset), and
/// no remainder member's fitness exceeds any listed member's.
pub open spec fn top_members(orgs: Seq<Organism>, all: Seq<usize>, high: Seq<usize>) -> bool {
    exists|rest: Seq<usize>|
        #![trigger rest.to_multiset()]
        rest.to_multiset().add(high.to_multiset()) == all.to_multiset() && (forall|p: int, q: int|
            0 <= p < rest.len() && 0 <= q < high.len() ==> fitness_at(orgs, #[trigger] rest[p])
                <= fitness_at(orgs, #[trigger] high[q]))
}

/// The tail of a fitness-sorted permutation of the member list is a
/// top-fitness block.
proof fn lemma_sorted_top_block(orgs: Seq<Organism>, all: Seq<usize>, sorted: Seq<usize>, e: int)
    requires
        sorted.len() == all.len(),
        0 <= e <= sorted.len(),
        sorted.to_multiset() == all.to_multiset(),
        forall|k1: int, k2: int|
            0 <= k1 < k2 < sorted.len() ==> fitness_at(orgs, #[trigger] sorted[k1]) <= fitness_at(
                orgs,
                #[trigger] sorted[k2],
            ),
    ensures
        sorted.skip(sorted.len() - e).len() == e,
        top_members(orgs, all, sorted.skip(sorted.len() - e)),
{
    let high = sorted.skip(sorted.len() - e);
    let rest = sorted.take(sorted.len() - e);
    assert(sorted =~= rest + high);
    vstd::seq_lib::lemma_multiset_commutative(rest, high);
    assert(rest.to_multiset().add(high.to_multiset()) == all.to_multiset());
    assert forall|p: int, q: int|
        0 <= p < rest.len() && 0 <= q < high.len() implies fitness_at(orgs, #[trigger] rest[p])
        <= fitness_at(orgs, #[trigger] high[q]) by {
        assert(rest[p] == sorted[p]);
        assert(high[q] == sorted[sorted.len() - e + q]);
    }
}

/// Produce one species' share of the next generation into
/// `new_population`: the best members verbatim (elitism), then pure
/// mutants, then crossover offspring, in total exactly the clamped quota.
#[verifier::rlimit(100)]
#[verifier::spinoff_prover]
pub fn reproduce_species(
    species: &Species,
    organisms: &Vec<Organism>,
    target_count: usize,
    pool: &mut GenePool,
    config: &ReproductionConfig,
    evaluation_config: &EvaluationConfig,
    new_population: &mut Vec<Organism>,
    genome_id_generator: &mut u64,
    generation: u32,
)
    requires
        old(pool).wf(),
        population_ready(organisms@, *old(pool)),
        species.organisms@.len() > 0,
        members_in_range(species.organisms@, organisms@.len() as int),
        members_evaluated(species.organisms@, organisms@),
        config.valid(),
        evaluation_config.valid(),
        target_count <= usize::MAX - config.min_species_size,
        old(new_population)@.len() + target_count + config.min_species_size <= usize::MAX,
        population_ready(old(new_population)@, *old(pool)),
    ensures
        final(pool).wf(),
        final(pool).extends(*old(pool)),
        final(new_population)@.len() == old(new_population)@.len() + clamped_quota(
            target_count as int,
            config.min_species_size as int,
        ),
        forall|j: int|
            0 <= j < old(new_population)@.len() ==> final(new_population)@[j] == old(
                new_population,
            )@[j],
        population_ready(final(new_population)@, *final(pool)),
        ({
            let e = elite_count(
                *config,
                species.organisms@.len() as int,
                clamped_quota(target_count as int, config.min_species_size as int),
            );
            let base = old(new_population)@.len() as int;
            &&& (forall|t: int|
                base + e <= t < final(new_population)@.len()
                    ==> (#[trigger] final(new_population)@[t]).fitness is None)
            &&& (forall|t: int|
                base <= t < base + e ==> (#[trigger] final(new_population)@[t]).fitness is Some)
            &&& exists|high: Seq<usize>|
                #![trigger high.to_multiset()]
                high.len() == e && top_members(organisms@, species.organisms@, high) && (forall|
                    k: int,
                |
                    0 <= k < e ==> ({
                        let o = organisms@[(#[trigger] high[k]) as int];
                        let c = final(new_population)@[base + k];
                        genome_congruent(c.genome, o.genome) && c.fitness == o.fitness
                            && c.evaluation_config == o.evaluation_config
                    }))
        }),
{
    let members = sorted_members(&species.organisms, organisms);
    let len = members.len();
    proof {
        let l = len as int;
        let kr = config.kill_ratio as int;
        assert(0 <= l * kr <= l * SCALE && (l * kr) / (SCALE as int) <= l) by (nonlinear_arith)
            requires
                0 <= kr <= SCALE,
                0 <= l,
        ;
    }
    let raw_limit = (((len as u128) * (config.kill_ratio as u128)) / (SCALE as u128)) as usize;
    let limit = if raw_limit <= len - 1 {
        raw_limit
    } else {
        len - 1
    };
    let target = if target_count >= config.min_species_size {
        target_count
    } else {
        config.min_species_size
    };
    let elitism_count = if config.elitism_count <= target {
        config.elitism_count
    } else {
        target
    };
    let e: usize = if config.allow_elitism && len >= config.elitism_limit {
        if elitism_count <= len {
            elitism_count
        } else {
            len
        }
    } else {
        0
    };
    let ghost base = new_population@;
    proof {
        assert(target == clamped_quota(target_count as int, config.min_species_size as int));
        assert(e as int == elite_count(*config, len as int, target as int));
    }
    let mut k: usize = 0;
    while k < e
        invariant
            pool.wf(),
            pool == old(pool),
            e <= len,
            e <= target,
            len == members@.len(),
            members_in_range(members@, organisms@.len() as int),
            members_evaluated(members@, organisms@),
            population_ready(organisms@, *pool),
            k <= e,
            new_population@.len() == base.len() + k,
            forall|j: int| 0 <= j < base.len() ==> new_population@[j] == base[j],
            population_ready(new_population@, *pool),
            base.len() + target <= usize::MAX,
            forall|t: int|
                base.len() <= t < base.len() + k ==> ({
                    let o = organisms@[members@[len - e + (t - base.len())] as int];
                    let c = #[trigger] new_population@[t];
                    genome_congruent(c.genome, o.genome) && c.fitness == o.fitness
                        && c.evaluation_config == o.evaluation_config && c.fitness is Some
                }),
        decreases e - k,
    {
        let idx = members[len - e + k];
        let elite = organisms[idx].clone();
        proof {
            lemma_congruent_genome(organisms@[idx as int].genome, elite.genome, *pool);
        }
        new_population.push(elite);
        k = k + 1;
    }
    let remainder = target - e;
    proof {
        let mr = config.mutation_ratio as int;
        let rem = remainder as int;
        assert(0 <= mr * rem <= SCALE * rem && (mr * rem) / (SCALE as int) <= rem)
            by (nonlinear_arith)
            requires
                0 <= mr <= SCALE,
                0 <= rem,
        ;
    }
    let mutation_count = (((config.mutation_ratio as u128) * (remainder as u128)) / (
    SCALE as u128)) as usize;
    let ghost after_elite = new_population@;
    let mut k: usize = 0;
    while k < mutation_count
        invariant
            pool.wf(),
            pool.extends(*old(pool)),
            mutation_count <= remainder,
            remainder == target - e,
            e <= target,
            len == members@.len(),
            len > 0,
            limit < len,
            members_in_range(members@, organisms@.len() as int),
            members_evaluated(members@, organisms@),
            population_ready(organisms@, *pool),
            config.valid(),
            evaluation_config.valid(),
            k <= mutation_count,
            new_population@.len() == after_elite.len() + k,
            after_elite.len() == base.len() + e,
            forall|j: int| 0 <= j < after_elite.len() ==> new_population@[j] == after_elite[j],
            population_ready(new_population@, *pool),
            base.len() + target <= usize::MAX,
            forall|t: int|
                base.len() <= t < base.len() + e ==> ({
                    let o = organisms@[members@[len - e + (t - base.len())] as int];
                    let c = #[trigger] new_population@[t];
                    genome_congruent(c.genome, o.genome) && c.fitness == o.fitness
                        && c.evaluation_config == o.evaluation_config && c.fitness is Some
                }),
            forall|t: int|
                base.len() + e <= t < new_population@.len() ==> (#[trigger] new_population@[t]).fitness is None,
        decreases mutation_count - k,
    {
        let parent_idx = select_parent(&members, &config.species_strategy, limit);
        let mut offspring = organisms[parent_idx].clone();
        proof {
            lemma_congruent_genome(organisms@[parent_idx as int].genome, offspring.genome, *pool);
        }
        let id = *genome_id_generator;
        *genome_id_generator = id.wrapping_add(1);
        let ghost pre_pool = *pool;
        mutate_organism(&mut offspring, pool, len, config, id, generation);
        offspring.fitness = None;
        proof {
            lemma_population_ready_extends(organisms@, pre_pool, *pool);
            lemma_population_ready_extends(new_population@, pre_pool, *pool);
            crate::genome::lemma_extends_transitive(*pool, pre_pool, *old(pool));
        }
        new_population.push(offspring);
        k = k + 1;
    }
    let crossover_count = remainder - mutation_count;
    let ghost after_mutation = new_population@;
    let mut k: usize = 0;
    while k < crossover_count
        invariant
            pool.wf(),
            pool.extends(*old(pool)),
            crossover_count == remainder - mutation_count,
            mutation_count <= remainder,
            remainder == target - e,
            e <= target,
            len == members@.len(),
            len > 0,
            limit < len,
            members_in_range(members@, organisms@.len() as int),
            members_evaluated(members@, organisms@),
            population_ready(organisms@, *pool),
            config.valid(),
            evaluation_config.valid(),
            k <= crossover_count,
            new_population@.len() == after_mutation.len() + k,
            after_mutation.len() == base.len() + e + mutation_count,
            forall|j: int| 0 <= j < after_mutation.len() ==> new_population@[j] == after_mutation[j],
            population_ready(new_population@, *pool),
            base.len() + target <= usize::MAX,
            forall|t: int|
                base.len() <= t < base.len() + e ==> ({
                    let o = organisms@[members@[len - e + (t - base.len())] as int];
                    let c = #[trigger] new_population@[t];
                    genome_congruent(c.genome, o.genome) && c.fitness == o.fitness
                        && c.evaluation_config == o.evaluation_config && c.fitness is Some
                }),
            forall|t: int|
                base.len() + e <= t < new_population@.len() ==> (#[trigger] new_population@[t]).fitness is None,
        decreases crossover_count - k,
    {
        let p1 = select_parent(&members, &config.species_strategy, limit);
        let p2 = select_parent(&members, &config.species_strategy, limit);
        let f1 = match organisms[p1].fitness {
            Some(f) => f,
            None => {
                proof {
                    assert(false);
                }
                0
            },
        };
        let f2 = match organisms[p2].fitness {
            Some(f) => f,
            None => {
                proof {
                    assert(false);
                }
                0
            },
        };
        let (first, second) = if f1 >= f2 {
            (p1, p2)
        } else {
            (p2, p1)
        };
        let id = *genome_id_generator;
        *genome_id_generator = id.wrapping_add(1);
        let mut can_cross = false;
        if pool.input_count <= usize::MAX - pool.output_count {
            let io = pool.input_count + pool.output_count;
            if io <= usize::MAX - 2 {
                let cap = (usize::MAX - 2 - io) / 2;
                can_cross = organisms[first].genome.connection_count() <= cap;
            }
        }
        let child_genome = if can_cross {
            proof {
                let cc = organisms@[first as int].genome.connections@.len() as int;
                let io = pool.input_count as int + pool.output_count as int;
                assert(io + 2 * cc + 2 <= usize::MAX) by (nonlinear_arith)
                    requires
                        0 <= cc <= (usize::MAX - 2 - io) / 2,
                        0 <= io <= usize::MAX - 2,
                ;
            }
            organisms[first].genome.crossover(
                &organisms[second].genome,
                pool,
                &config.crossover,
                id,
                generation,
            )
        } else {
            organisms[first].genome.clone()
        };
        proof {
            if !can_cross {
                lemma_congruent_genome(organisms@[first as int].genome, child_genome, *pool);
            }
        }
        let mut offspring = Organism::new(child_genome, *evaluation_config);
        let id2 = *genome_id_generator;
        *genome_id_generator = id2.wrapping_add(1);
        let ghost pre_pool = *pool;
        mutate_organism(&mut offspring, pool, len, config, id2, generation);
        proof {
            lemma_population_ready_extends(organisms@, pre_pool, *pool);
            lemma_population_ready_extends(new_population@, pre_pool, *pool);
            crate::genome::lemma_extends_transitive(*pool, pre_pool, *old(pool));
        }
        new_population.push(offspring);
        k = k + 1;
    }
    proof {
        let base_i = base.len() as int;
        let espec = elite_count(
            *config,
            species.organisms@.len() as int,
            clamped_quota(target_count as int, config.min_species_size as int),
        );
        assert(espec == e as int);
        let high = members@.skip(len as int - e as int);
        lemma_sorted_top_block(organisms@, species.organisms@, members@, e as int);
        assert(high.len() == espec);
        assert forall|k2: int|
            0 <= k2 < espec implies ({
                let o = organisms@[(#[trigger] high[k2]) as int];
                let c = new_population@[base_i + k2];
                genome_congruent(c.genome, o.genome) && c.fitness == o.fitness
                    && c.evaluation_config == o.evaluation_config
            }) by {
            assert(high[k2] == members@[len - e + k2]);
        }
    }
}

/// Every element of a non-negative list is at most the whole sum.
proof fn lemma_sum_prefix_dominates(fits: Seq<u64>, i: int, k: int)
    requires
        0 <= i < k <= fits.len(),
    ensures
        fits[i] <= sum_prefix(fits, k),
        0 <= sum_prefix(fits, k),
    decreases k,
{
    if k == i + 1 {
        lemma_sum_prefix_nonneg(fits, i);
    } else {
        lemma_sum_prefix_dominates(fits, i, k - 1);
    }
}

/// Prefix sums of fitness values are non-negative.
proof fn lemma_sum_prefix_nonneg(fits: Seq<u64>, k: int)
    requires
        k <= fits.len(),
    ensures
        0 <= sum_prefix(fits, k),
    decreases k,
{
    if k > 0 {
        lemma_sum_prefix_nonneg(fits, k - 1);
    }
}

/// The offspring quota of a species with adjusted fitness `adj`, out of
/// `count` organisms under total adjusted fitness `total`: its proportional
/// share rounded half-up, clamped up to `min`.
pub open spec fn species_quota(adj: int, total: int, count: int, min: int) -> int {
    let x = adj * count;
    let q = x / total;
    let rem = x % total;
    let rounded = if total - rem <= rem {
        q + 1
    } else {
        q
    };
    clamped_quota(rounded, min)
}

/// The sum of the offspring quotas of the first `k` species.
pub open spec fn quota_sum(adjusted: Seq<u64>, total: int, count: int, min: int, k: int) -> int
    decreases k,
{
    if k <= 0 {
        0
    } else {
        quota_sum(adjusted, total, count, min, k - 1) + species_quota(
            adjusted[k - 1] as int,
            total,
            count,
            min,
        )
    }
}

/// The adjusted fitness of every species, in species order.
pub open spec fn adjusted_values(
    species: Seq<Species>,
    orgs: Seq<Organism>,
    cfg: SpeciesConfig,
) -> Seq<u64> {
    Seq::new(
        species.len(),
        |t: int| adjusted_spec(cfg.fitness, member_fitnesses(species[t].organisms@, orgs)) as u64,
    )
}

/// Produce the next generation: each species receives its share of the
/// population in proportion to its adjusted fitness (rounded half-up and
/// clamped up to the minimum species size) and reproduces by elitism, pure
/// mutation and crossover. A population whose total adjusted fitness is 0
/// still progresses: every quota is then the minimum size.
///
/// The new population holds exactly the sum of the species' quotas: at
/// least `min_species_size` organisms per species, and at most
/// `organism_count + min_species_size + 1` per species.
pub fn reproduce(
    species: &Vec<Species>,
    organisms: &Vec<Organism>,
    pool: &mut GenePool,
    config: &ReproductionConfig,
    species_config: &SpeciesConfig,
    evaluation_config: &EvaluationConfig,
    genome_id_generator: &mut u64,
    generation: u32,
) -> (r: Vec<Organism>)
    requires
        old(pool).wf(),
        population_ready(organisms@, *old(pool)),
        config.valid(),
        evaluation_config.valid(),
        config.organism_count < usize::MAX,
        forall|s: int|
            0 <= s < species@.len() ==> (#[trigger] species@[s]).organisms@.len() > 0
                && members_in_range(species@[s].organisms@, organisms@.len() as int)
                && members_evaluated(species@[s].organisms@, organisms@),
        species@.len() * (config.organism_count + config.min_species_size + 1) <= usize::MAX,
    ensures
        final(pool).wf(),
        final(pool).extends(*old(pool)),
        population_ready(r@, *final(pool)),
        r@.len() >= species@.len() * config.min_species_size,
        r@.len() <= species@.len() * (config.organism_count + config.min_species_size + 1),
        r@.len() == ({
            let adj = adjusted_values(species@, organisms@, *species_config);
            let t0 = sum_prefix(adj, species@.len() as int);
            let tot = if t0 == 0 {
                1int
            } else {
                t0
            };
            quota_sum(
                adj,
                tot,
                config.organism_count as int,
                config.min_species_size as int,
                species@.len() as int,
            )
        }),
{
    let s = species.len();
    let mut adjusted: Vec<u64> = Vec::new();
    let mut i: usize = 0;
    while i < s
        invariant
            s == species@.len(),
            i <= s,
            adjusted@.len() == i,
            forall|t: int|
                0 <= t < s ==> (#[trigger] species@[t]).organisms@.len() > 0 && members_in_range(
                    species@[t].organisms@,
                    organisms@.len() as int,
                ) && members_evaluated(species@[t].organisms@, organisms@),
            forall|t: int|
                0 <= t < i ==> #[trigger] adjusted@[t] == adjusted_spec(
                    species_config.fitness,
                    member_fitnesses(species@[t].organisms@, organisms@),
                ) as u64,
        decreases s - i,
    {
        let a = species[i].adjusted_fitness(organisms, species_config);
        adjusted.push(a);
        i = i + 1;
    }
    let ghost adjv = adjusted_values(species@, organisms@, *species_config);
    proof {
        assert(adjv =~= adjusted@);
    }
    let mut total: u128 = 0;
    let mut i: usize = 0;
    while i < s
        invariant
            s == adjusted@.len(),
            i <= s,
            total == sum_prefix(adjusted@, i as int),
            total <= i * 0xffff_ffff_ffff_ffffu64,
        decreases s - i,
    {
        proof {
            assert((i + 1) * 0xffff_ffff_ffff_ffffu64 == i * 0xffff_ffff_ffff_ffffu64
                + 0xffff_ffff_ffff_ffffu64) by (nonlinear_arith);
        }
        total = total + adjusted[i] as u128;
        i = i + 1;
    }
    if total == 0 {
        total = 1;
    }
    let ghost tot = total as int;
    proof {
        assert forall|t: int| 0 <= t < s implies #[trigger] adjusted@[t] as int <= total by {
            lemma_sum_prefix_dominates(adjusted@, t, s as int);
        }
        assert(sum_prefix(adjv, s as int) == sum_prefix(adjusted@, s as int));
    }
    let mut new_population: Vec<Organism> = Vec::new();
    let mut i: usize = 0;
    while i < s
        invariant
            s == species@.len(),
            s == adjusted@.len(),
            adjv == adjusted_values(species@, organisms@, *species_config),
            adjv == adjusted@,
            tot == total as int,
            tot == (if sum_prefix(adjv, s as int) == 0 {
                1int
            } else {
                sum_prefix(adjv, s as int)
            }),
            new_population@.len() == quota_sum(
                adjv,
                tot,
                config.organism_count as int,
                config.min_species_size as int,
                i as int,
            ),
            pool.wf(),
            pool.extends(*old(pool)),
            population_ready(organisms@, *pool),
            config.valid(),
            evaluation_config.valid(),
            config.organism_count < usize::MAX,
            total >= 1,
            forall|t: int| 0 <= t < s ==> #[trigger] adjusted@[t] as int <= total,
            forall|t: int|
                0 <= t < s ==> (#[trigger] species@[t]).organisms@.len() > 0 && members_in_range(
                    species@[t].organisms@,
                    organisms@.len() as int,
                ) && members_evaluated(species@[t].organisms@, organisms@),
            s * (config.organism_count + config.min_species_size + 1) <= usize::MAX,
            i <= s,
            population_ready(new_population@, *pool),
            new_population@.len() >= i * config.min_species_size,
            new_population@.len() <= i * (config.organism_count + config.min_species_size + 1),
        decreases s - i,
    {
        let adj = adjusted[i];
        proof {
            let a = adj as int;
            let c = config.organism_count as int;
            assert(0 <= a * c && a * c < 0x100000000000000000000000000000000int)
                by (nonlinear_arith)
                requires
                    0 <= a < 0x10000000000000000int,
                    0 <= c < 0x10000000000000000int,
            ;
        }
        let x: u128 = (adj as u128) * (config.organism_count as u128);
        let q = x / total;
        let rem = x % total;
        let carry: u128 = if total - rem <= rem {
            1
        } else {
            0
        };
        proof {
            let a = adj as int;
            let t = total as int;
            let c = config.organism_count as int;
            assert((a * c) / t <= c && 0 <= (a * c) / t) by (nonlinear_arith)
                requires
                    0 <= a <= t,
                    1 <= t,
                    0 <= c,
            ;
        }
        let target = (q + carry) as usize;
        proof {
            assert(i * (config.organism_count + config.min_species_size + 1) + (
            config.organism_count + config.min_species_size + 1) == (i + 1) * (
            config.organism_count + config.min_species_size + 1)) by (nonlinear_arith);
            assert((i + 1) * (config.organism_count + config.min_species_size + 1) <= s * (
            config.organism_count + config.min_species_size + 1)) by (nonlinear_arith)
                requires
                    i + 1 <= s,
                    0 <= config.organism_count + config.min_species_size + 1,
            ;
            assert(i * config.min_species_size + config.min_species_size == (i + 1)
                * config.min_species_size) by (nonlinear_arith);
            let a = adjv[i as int] as int;
            let c = config.organism_count as int;
            let mn = config.min_species_size as int;
            assert(x as int == a * c);
            assert(q as int == (a * c) / tot && rem as int == (a * c) % tot);
            assert(target as int == (if tot - ((a * c) % tot) <= (a * c) % tot {
                (a * c) / tot + 1
            } else {
                (a * c) / tot
            }));
            assert(clamped_quota(target as int, mn) == species_quota(a, tot, c, mn));
        }
        let sp = &species[i];
        let ghost pre_pool = *pool;
        reproduce_species(
            sp,
            organisms,
            target,
            pool,
            config,
            evaluation_config,
            &mut new_population,
            genome_id_generator,
            generation,
        );
        proof {
            lemma_population_ready_extends(organisms@, pre_pool, *pool);
            crate::genome::lemma_extends_transitive(*pool, pre_pool, *old(pool));
            assert(new_population@.len() == quota_sum(
                adjv,
                tot,
                config.organism_count as int,
                config.min_species_size as int,
                i as int + 1,
            ));
        }
        i = i + 1;
    }
    proof {
        assert(new_population@.len() >= s * config.min_species_size);
    }
    new_population
}

} // verus!
