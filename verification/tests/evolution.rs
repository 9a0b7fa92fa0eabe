use rusty_neat::activation::Activation;
use rusty_neat::config_util::ConfigError;
use rusty_neat::fixed::SCALE;
use rusty_neat::gene_pool::GenePool;
use rusty_neat::genome::{
    CrossoverConfig, CrossoverWeightStrategy, DistanceConfig, EvaluationConfig, MutationConfig,
    NewConnectionWeight, NormalDistribution,
};
use rusty_neat::interchange::FileType;
use rusty_neat::organism::Organism;
use rusty_neat::population::{Population, PopulationConfig};
use rusty_neat::reproduction::{reproduce, ReproductionConfig, SpeciesReproductionStrategy};
use rusty_neat::species::{FitnessStrategy, ReprentativeSelection, Species, SpeciesConfig};

fn mutation_config(add_connection_prob: i64) -> MutationConfig {
    MutationConfig {
        change_weight_prob: 800_000,
        random_weight_dist: NormalDistribution { mean: 0, std_dev: SCALE },
        shift_weight_prob: 900_000,
        shift_weight_dist: NormalDistribution { mean: 0, std_dev: SCALE / 2 },
        add_node_prob: 30_000,
        add_connection_prob,
        add_connection_retry_count: 5,
        new_connection_weight: NewConnectionWeight::Random { mean: 0, std_dev: SCALE },
        toggle_connection_prob: 10_000,
    }
}

fn reproduction_config(organism_count: usize) -> ReproductionConfig {
    ReproductionConfig {
        organism_count,
        min_species_size: 1,
        kill_ratio: 400_000,
        mutation_ratio: 250_000,
        allow_elitism: true,
        elitism_limit: 5,
        elitism_count: 2,
        species_strategy: SpeciesReproductionStrategy::Random,
        large_species_size: 30,
        crossover: CrossoverConfig {
            disable_connection_prob: 250_000,
            weight_strategy: CrossoverWeightStrategy::Better,
        },
        small_intensity_config: mutation_config(50_000),
        large_intensity_config: mutation_config(300_000),
    }
}

fn population_config(organism_count: usize, tolerance: i64) -> PopulationConfig {
    PopulationConfig {
        target_fitness: u64::MAX,
        max_generations: 3,
        initial_organism_weight: NewConnectionWeight::Random { mean: 0, std_dev: SCALE },
        distance: DistanceConfig { c1: SCALE, c2: SCALE, c3: 400_000 },
        species: SpeciesConfig {
            representative: ReprentativeSelection::First,
            fitness: FitnessStrategy::Mean,
            species_distance_tolerance: tolerance,
        },
        evaluation: EvaluationConfig { bias: 0, activation: Activation::Sigmoid },
        reproduction: reproduction_config(organism_count),
    }
}

fn eval_config() -> EvaluationConfig {
    EvaluationConfig { bias: 0, activation: Activation::Identity }
}

#[test]
fn speciation_tolerance_extremes() {
    // with a huge tolerance every organism lands in one species; with
    // tolerance 0 structurally distinct organisms split apart
    let mut pool = GenePool::new_dense(1, 1);
    let a = pool.new_genome(&NewConnectionWeight::Fixed(SCALE), 0, 0);
    let mut bg = pool.new_genome(&NewConnectionWeight::Fixed(SCALE), 1, 0);
    bg.add_node_at(&mut pool, 0, &NewConnectionWeight::Fixed(SCALE));
    let mut config = population_config(2, i64::MAX);
    config.evaluation = eval_config();
    let mut population = Population::new(pool, config).unwrap();
    let mut o1 = Organism::new(a, eval_config());
    o1.fitness = Some(1);
    let mut o2 = Organism::new(bg, eval_config());
    o2.fitness = Some(2);
    population.organisms = vec![o1, o2];
    population.speciate();
    assert_eq!(population.species.len(), 1);
    assert_eq!(population.species[0].organisms.len(), 2);

    // re-speciate the same organisms with tolerance 0
    population.config.species.species_distance_tolerance = 0;
    population.species = Vec::new();
    population.speciate();
    assert_eq!(population.species.len(), 2);
    for sp in population.species.iter() {
        assert_eq!(sp.organisms.len(), 1);
    }
}

#[test]
fn mutate_add_node_noop_without_genes() {
    // a genome without connection genes cannot take an interposed node:
    // genome and pool stay exactly as they were
    let mut pool = GenePool::new_dense(2, 1);
    let mut genome = rusty_neat::genome::Genome::new(&pool, 0, 0);
    let pool_nodes = pool.nodes.len();
    let pool_conns = pool.connections.len();
    let config = mutation_config(0);
    for _ in 0..20 {
        genome.mutate_add_node(&mut pool, &config);
    }
    assert_eq!(genome.connection_count(), 0);
    assert_eq!(genome.node_count(), 3);
    assert_eq!(pool.nodes.len(), pool_nodes);
    assert_eq!(pool.connections.len(), pool_conns);
}

#[test]
fn mutate_add_connection_noop_single_node() {
    // a genome with at most one node has nothing to connect: the mutation
    // is silently skipped
    let mut pool = GenePool::new_dense(1, 0);
    let mut genome = rusty_neat::genome::Genome::new(&pool, 0, 0);
    assert_eq!(genome.node_count(), 1);
    let pool_conns = pool.connections.len();
    let config = mutation_config(SCALE);
    for _ in 0..20 {
        genome.mutate_add_connection(&mut pool, &config);
    }
    assert_eq!(genome.connection_count(), 0);
    assert_eq!(genome.node_count(), 1);
    assert_eq!(pool.connections.len(), pool_conns);
}

#[test]
fn speciation_partitions_population() {
    // after speciate, every organism belongs to exactly one species
    let pool = GenePool::new_dense(2, 1);
    let mut config = population_config(6, 2 * SCALE);
    config.evaluation = eval_config();
    let mut organisms = Vec::new();
    for i in 0..6u64 {
        let genome = pool.new_genome(
            &NewConnectionWeight::Random { mean: 0, std_dev: SCALE },
            i,
            0,
        );
        let mut o = Organism::new(genome, eval_config());
        o.fitness = Some(i + 1);
        organisms.push(o);
    }
    let mut population = Population::new(pool, config).unwrap();
    population.organisms = organisms;
    population.speciate();
    let mut seen = vec![0usize; population.organisms.len()];
    for sp in population.species.iter() {
        assert!(!sp.organisms.is_empty());
        for &idx in sp.organisms.iter() {
            seen[idx] += 1;
        }
    }
    for count in seen {
        assert_eq!(count, 1);
    }
}

fn one_species_population(fitnesses: &[u64]) -> (Population, u64) {
    let pool = GenePool::new_dense(1, 1);
    let mut config = population_config(fitnesses.len(), i64::MAX);
    config.evaluation = eval_config();
    let mut organisms = Vec::new();
    for (i, &f) in fitnesses.iter().enumerate() {
        let genome = pool.new_genome(&NewConnectionWeight::Fixed(SCALE), i as u64, 0);
        let mut o = Organism::new(genome, eval_config());
        o.fitness = Some(f);
        organisms.push(o);
    }
    let mut population = Population::new(pool, config).unwrap();
    population.organisms = organisms;
    population.speciate();
    (population, fitnesses.len() as u64)
}

#[test]
fn elitism_preserves_top_two() {
    // with elitism of 2 enabled the two best fitness values reappear
    // unchanged in the next generation
    let (mut population, _) = one_species_population(&[10, 40, 20, 30, 25]);
    let mut config = reproduction_config(5);
    config.min_species_size = 5;
    let mut idgen = 100u64;
    let offspring = reproduce(
        &population.species,
        &population.organisms,
        &mut population.pool,
        &config,
        &population.config.species,
        &population.config.evaluation,
        &mut idgen,
        1,
    );
    let kept: Vec<u64> = offspring.iter().filter_map(|o| o.fitness).collect();
    assert!(kept.contains(&40));
    assert!(kept.contains(&30));
    assert_eq!(kept.len(), 2);
}

#[test]
fn reproduce_population_size() {
    // a single species receiving the whole quota produces exactly
    // organism_count offspring
    let (mut population, n) = one_species_population(&[5, 6, 7, 8]);
    let config = reproduction_config(n as usize);
    let mut idgen = 100u64;
    let offspring = reproduce(
        &population.species,
        &population.organisms,
        &mut population.pool,
        &config,
        &population.config.species,
        &population.config.evaluation,
        &mut idgen,
        1,
    );
    assert_eq!(offspring.len(), n as usize);
}

#[test]
fn reproduce_quota_split() {
    // two single-member species with adjusted fitness 10 and 30 share a
    // population of 4 in proportion: 1 and 3 offspring
    let mut pool = GenePool::new_dense(1, 1);
    let a = pool.new_genome(&NewConnectionWeight::Fixed(SCALE), 0, 0);
    let mut bg = pool.new_genome(&NewConnectionWeight::Fixed(SCALE), 1, 0);
    bg.add_node_at(&mut pool, 0, &NewConnectionWeight::Fixed(SCALE));
    let mut config = population_config(4, 0);
    config.evaluation = eval_config();
    let mut o1 = Organism::new(a, eval_config());
    o1.fitness = Some(10);
    let mut o2 = Organism::new(bg, eval_config());
    o2.fitness = Some(30);
    let mut population = Population::new(pool, config).unwrap();
    population.organisms = vec![o1, o2];
    population.speciate();
    assert_eq!(population.species.len(), 2);
    let rconfig = reproduction_config(4);
    let mut idgen = 100u64;
    let offspring = reproduce(
        &population.species,
        &population.organisms,
        &mut population.pool,
        &rconfig,
        &population.config.species,
        &population.config.evaluation,
        &mut idgen,
        1,
    );
    assert_eq!(offspring.len(), 4);
}

#[test]
fn evolve_smoke() {
    // a short run returns an evaluated best organism and leaves the
    // population speciated into non-empty species
    let pool = GenePool::new_dense(2, 1);
    let config = population_config(24, 3 * SCALE);
    let mut population = Population::new(pool, config).unwrap();
    let best = population.evolve(|mut organisms: Vec<Organism>| {
        for o in organisms.iter_mut() {
            let out = o.evaluate(&vec![SCALE, SCALE / 2]);
            let d = (out[0] - SCALE / 3).unsigned_abs();
            o.fitness = Some(4 * SCALE as u64 - d.min(4 * SCALE as u64));
        }
        organisms
    });
    assert!(best.fitness.is_some());
    assert!(!population.organisms.is_empty());
    for o in population.organisms.iter() {
        assert!(o.fitness.is_some());
        assert!(o.fitness.unwrap() <= best.fitness.unwrap());
    }
    for sp in population.species.iter() {
        assert!(!sp.organisms.is_empty());
    }
}

#[test]
fn xor_learns() {
    // the classic XOR benchmark: two inputs plus a constant bias channel;
    // the best organism separates the truth table
    let rows: [(i64, i64, u64); 4] = [(0, 0, 0), (SCALE, 0, 1), (0, SCALE, 1), (SCALE, SCALE, 0)];
    let mut reached: u64 = 0;
    for _attempt in 0..3 {
        let pool = GenePool::new_dense(3, 1);
        let mut config = population_config(300, 2 * SCALE);
        config.max_generations = 120;
        config.target_fitness = 3_600_000;
        config.evaluation = EvaluationConfig { bias: 0, activation: Activation::Sigmoid };
        let mut population = Population::new(pool, config).unwrap();
        let best = population.evolve(|mut organisms: Vec<Organism>| {
            for o in organisms.iter_mut() {
                let mut score: u64 = 0;
                for &(x, y, want) in rows.iter() {
                    let out = o.evaluate(&vec![x, y, SCALE])[0];
                    let diff = (out - (want as i64) * SCALE).unsigned_abs().min(SCALE as u64);
                    score += diff * diff / SCALE as u64;
                }
                o.fitness = Some(4 * SCALE as u64 - score);
            }
            organisms
        });
        reached = reached.max(best.fitness.unwrap());
        if reached >= 3_000_000 {
            break;
        }
    }
    assert!(reached >= 3_000_000, "best XOR fitness only {reached}");
}

#[test]
fn config_validation_errors() {
    let good = reproduction_config(10);
    assert!(good.validate().is_ok());
    let mut zero = good;
    zero.organism_count = 0;
    assert_eq!(zero.validate(), Err(ConfigError::ZeroOrganismCount));
    let mut ratio = good;
    ratio.kill_ratio = -1;
    assert_eq!(ratio.validate(), Err(ConfigError::NotARatio));
    let mut prob = good;
    prob.small_intensity_config.change_weight_prob = 2 * SCALE;
    assert_eq!(prob.validate(), Err(ConfigError::NotAProbability));
    let negative = DistanceConfig { c1: -1, c2: 0, c3: 0 };
    assert_eq!(negative.validate(), Err(ConfigError::Negative));
    let oversized = DistanceConfig { c1: i64::MAX, c2: 0, c3: 0 };
    assert_eq!(oversized.validate(), Err(ConfigError::OutOfRange));
    let tolerance = SpeciesConfig {
        representative: ReprentativeSelection::First,
        fitness: FitnessStrategy::Best,
        species_distance_tolerance: -5,
    };
    assert_eq!(tolerance.validate(), Err(ConfigError::Negative));
    assert_eq!(ConfigError::Negative.message(), "value must not be negative");
}

#[test]
fn random_representative_is_a_member() {
    let (population, _) = one_species_population(&[1, 2, 3]);
    let species = &population.species[0];
    let cfg = SpeciesConfig {
        representative: ReprentativeSelection::Random,
        fitness: FitnessStrategy::Mean,
        species_distance_tolerance: 0,
    };
    for _ in 0..20 {
        let rep = species.select_new_representative(&population.organisms, &cfg);
        assert!(population.organisms.iter().any(|o| o.fitness == rep.fitness));
    }
}

#[test]
fn file_type_extensions() {
    assert_eq!(FileType::PrettyJSON.to_ext(), ".json");
    assert_eq!(FileType::CompactJSON.to_ext(), ".cjson");
    assert_eq!(FileType::Bincode.to_ext(), ".bin");
    assert!(matches!(FileType::from_ext("json"), Ok(FileType::PrettyJSON)));
    assert!(matches!(FileType::from_ext("cjson"), Ok(FileType::CompactJSON)));
    assert!(matches!(FileType::from_ext("bin"), Ok(FileType::Bincode)));
    assert!(FileType::from_ext("toml").is_err());
}

#[test]
fn population_rejects_invalid_config() {
    let pool = GenePool::new_dense(1, 1);
    let mut config = population_config(4, SCALE);
    config.reproduction.organism_count = 0;
    let made = Population::new(pool, config);
    assert!(matches!(made, Err(ConfigError::ZeroOrganismCount)));
}
