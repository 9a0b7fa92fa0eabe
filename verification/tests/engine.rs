use rusty_neat::activation::Activation;
use rusty_neat::fixed::SCALE;
use rusty_neat::gene_pool::{GenePool, NodeType};
use rusty_neat::genome::{
    CrossoverConfig, CrossoverWeightStrategy, DistanceConfig, EvaluationConfig, MutationConfig,
    NewConnectionWeight, NormalDistribution,
};
use rusty_neat::organism::Organism;
use rusty_neat::species::{FitnessStrategy, ReprentativeSelection, Species, SpeciesConfig};

fn eval_config() -> EvaluationConfig {
    EvaluationConfig { bias: 0, activation: Activation::Identity }
}

#[test]
fn monotone_pool() {
    // create_connection(a, b) succeeds once, the reverse direction is
    // refused, and the connection count grows by exactly one
    let mut pool = GenePool::new();
    let a = pool.create_input_node(0);
    let b = pool.create_output_node(0);
    let before = pool.connections.len();
    let first = pool.create_connection(a, b);
    assert!(first.is_some());
    let c1 = first.unwrap();
    assert_eq!(c1.from, a);
    assert_eq!(c1.to, b);
    let second = pool.create_connection(b, a);
    assert!(second.is_none());
    assert_eq!(pool.connections.len(), before + 1);
    // asking for the same pair again returns the existing entry
    let again = pool.create_connection(a, b).unwrap();
    assert_eq!(again.innovation, c1.innovation);
    assert_eq!(pool.connections.len(), before + 1);
}

#[test]
fn dense_pool_layout() {
    let pool = GenePool::new_dense(2, 2);
    assert_eq!(pool.input_count, 2);
    assert_eq!(pool.output_count, 2);
    assert_eq!(pool.nodes.len(), 4);
    assert_eq!(pool.connections.len(), 4);
    // innovation numbers are dense and monotone
    for (j, c) in pool.connections.iter().enumerate() {
        assert_eq!(c.innovation, j);
    }
    // every connection runs strictly downward in depth
    for c in pool.connections.iter() {
        assert!(pool.nodes[c.from].depth < pool.nodes[c.to].depth);
    }
    assert!(matches!(pool.nodes[0].node_type, NodeType::Input(0)));
    assert!(matches!(pool.nodes[1].node_type, NodeType::Input(1)));
    assert!(matches!(pool.nodes[2].node_type, NodeType::Output(0)));
    assert!(matches!(pool.nodes[3].node_type, NodeType::Output(1)));
}

#[test]
fn hidden_node_depth_between() {
    let mut pool = GenePool::new_dense(1, 1);
    let a = 0;
    let b = 1;
    let id = pool.create_hidden_node_between(a, b);
    let d = pool.nodes[id].depth;
    assert!(pool.nodes[a].depth < d);
    assert!(d < pool.nodes[b].depth);
    // interposing again between the input and the new node still nests
    let id2 = pool.create_hidden_node_between(a, id);
    assert!(pool.nodes[a].depth < pool.nodes[id2].depth);
    assert!(pool.nodes[id2].depth < d);
}

#[test]
fn minimal_dense_evaluation() {
    // one input, one output, weight 2.0, identity activation, bias 0:
    // the output is twice the input
    let pool = GenePool::new_dense(1, 1);
    let genome = pool.new_genome(&NewConnectionWeight::Fixed(2 * SCALE), 0, 0);
    let organism = Organism::new(genome, eval_config());
    for x in [-SCALE, 0, SCALE, 3 * SCALE + SCALE / 2] {
        let out = organism.evaluate(&vec![x]);
        assert_eq!(out.len(), 1);
        assert_eq!(out[0], 2 * x);
    }
}

#[test]
fn add_node_preserves_function() {
    // in the minimal genome in -> out with weight w, the add-node mutation
    // with a fixed new weight of 1.0 leaves the network function unchanged
    let mut pool = GenePool::new_dense(1, 1);
    let w = 3 * SCALE / 2;
    let mut genome = pool.new_genome(&NewConnectionWeight::Fixed(w), 0, 0);
    let before = Organism::new(genome.clone(), eval_config());
    let did = genome.add_node_at(&mut pool, 0, &NewConnectionWeight::Fixed(SCALE));
    assert!(did);
    let after = Organism::new(genome, eval_config());
    for x in [-2 * SCALE, -1, 0, 7, SCALE, 5 * SCALE] {
        assert_eq!(before.evaluate(&vec![x])[0], after.evaluate(&vec![x])[0]);
    }
}

#[test]
fn add_node_structure() {
    // the old gene is disabled and kept; two new connections appear in the
    // pool and in the genome; the genome still evaluates
    let mut pool = GenePool::new_dense(1, 1);
    let w = SCALE / 4;
    let mut genome = pool.new_genome(&NewConnectionWeight::Fixed(w), 0, 0);
    let pool_before = pool.connections.len();
    let genes_before = genome.connection_count();
    let nodes_before = genome.node_count();
    let did = genome.add_node_at(&mut pool, 0, &NewConnectionWeight::Fixed(SCALE));
    assert!(did);
    assert_eq!(pool.connections.len(), pool_before + 2);
    assert_eq!(genome.connection_count(), genes_before + 2);
    assert_eq!(genome.node_count(), nodes_before + 1);
    let (old_weight, old_enabled) = genome.get_status_of_connection(0);
    assert_eq!(old_weight, w);
    assert!(!old_enabled);
    let (left_weight, left_enabled) = genome.get_status_of_connection(pool_before);
    assert_eq!(left_weight, w);
    assert!(left_enabled);
    let (_, right_enabled) = genome.get_status_of_connection(pool_before + 1);
    assert!(right_enabled);
    let organism = Organism::new(genome, eval_config());
    let out = organism.evaluate(&vec![SCALE]);
    assert_eq!(out.len(), 1);
}

fn distance_config() -> DistanceConfig {
    DistanceConfig { c1: SCALE, c2: SCALE, c3: SCALE }
}

#[test]
fn distance_identity_and_symmetry() {
    let mut pool = GenePool::new_dense(2, 1);
    let a = pool.new_genome(&NewConnectionWeight::Fixed(SCALE), 0, 0);
    let mut b = pool.new_genome(&NewConnectionWeight::Fixed(SCALE / 2), 1, 0);
    b.add_node_at(&mut pool, 0, &NewConnectionWeight::Fixed(SCALE));
    let cfg = distance_config();
    assert_eq!(a.distance(&a, &cfg), 0);
    assert_eq!(b.distance(&b, &cfg), 0);
    assert_eq!(a.distance(&b, &cfg), b.distance(&a, &cfg));
    assert!(a.distance(&b, &cfg) > 0);
}

#[test]
fn distance_exact_value() {
    // two genomes over a dense 1x1 pool grown by one interposition:
    // a holds genes {0} with weight 1.0, b holds genes {0, 1, 2} where
    // gene 0 has weight 0.25; the walk sees 1 similar gene, 2 excess
    // genes, n = 3 and a weight difference of 0.75
    let mut pool = GenePool::new_dense(1, 1);
    let a = pool.new_genome(&NewConnectionWeight::Fixed(SCALE), 0, 0);
    let mut b = pool.new_genome(&NewConnectionWeight::Fixed(SCALE / 4), 1, 0);
    b.add_node_at(&mut pool, 0, &NewConnectionWeight::Fixed(SCALE));
    let cfg = DistanceConfig { c1: 2 * SCALE, c2: 3 * SCALE, c3: 4 * SCALE };
    // structural: (0 * c1 + 2 * c2) / 3; weights: (750000 / 1) * c3 / SCALE
    let expected = ((2u128 * (3 * SCALE) as u128) / 3) + ((750_000u128 * (4 * SCALE) as u128)
        / SCALE as u128);
    assert_eq!(a.distance(&b, &cfg), expected);
}

#[test]
fn crossover_innovation_closure() {
    // the offspring of crossover(better, worse) holds exactly the better
    // parent's innovations, and with the Better strategy its weights
    let mut pool = GenePool::new_dense(2, 1);
    let mut better = pool.new_genome(&NewConnectionWeight::Fixed(SCALE), 0, 0);
    better.add_node_at(&mut pool, 0, &NewConnectionWeight::Fixed(SCALE));
    let worse = pool.new_genome(&NewConnectionWeight::Fixed(SCALE / 2), 1, 0);
    let cfg = CrossoverConfig {
        disable_connection_prob: 0,
        weight_strategy: CrossoverWeightStrategy::Better,
    };
    let child = better.crossover(&worse, &pool, &cfg, 7, 3);
    assert_eq!(child.id, 7);
    assert_eq!(child.generation, 3);
    assert_eq!(child.connection_count(), better.connection_count());
    for j in 0..pool.connections.len() {
        let in_better = better.order.get(j).is_some();
        let in_child = child.order.get(j).is_some();
        assert_eq!(in_better, in_child);
        if in_child {
            // every innovation of the child belongs to a parent
            assert!(better.order.get(j).is_some() || worse.order.get(j).is_some());
            let (cw, _) = child.get_status_of_connection(j);
            let (bw, _) = better.get_status_of_connection(j);
            assert_eq!(cw, bw);
        }
    }
}

#[test]
fn crossover_mean_weights() {
    let pool = GenePool::new_dense(1, 1);
    let a = pool.new_genome(&NewConnectionWeight::Fixed(SCALE), 0, 0);
    let b = pool.new_genome(&NewConnectionWeight::Fixed(SCALE / 2), 1, 0);
    let cfg = CrossoverConfig {
        disable_connection_prob: 0,
        weight_strategy: CrossoverWeightStrategy::Mean,
    };
    let child = a.crossover(&b, &pool, &cfg, 2, 1);
    let (w, enabled) = child.get_status_of_connection(0);
    assert_eq!(w, (SCALE + SCALE / 2) / 2);
    assert!(enabled);
}

#[test]
fn reenable_existing_connection() {
    // the add-connection mutation re-enables a disabled gene instead of
    // duplicating it
    let mut pool = GenePool::new_dense(1, 1);
    let mut genome = pool.new_genome(&NewConnectionWeight::Fixed(SCALE), 0, 0);
    genome.add_node_at(&mut pool, 0, &NewConnectionWeight::Fixed(SCALE));
    let (_, enabled) = genome.get_status_of_connection(0);
    assert!(!enabled);
    let genes = genome.connection_count();
    let config = MutationConfig {
        change_weight_prob: 0,
        random_weight_dist: NormalDistribution { mean: 0, std_dev: SCALE },
        shift_weight_prob: 0,
        shift_weight_dist: NormalDistribution { mean: 0, std_dev: SCALE },
        add_node_prob: 0,
        add_connection_prob: SCALE,
        add_connection_retry_count: 200,
        new_connection_weight: NewConnectionWeight::Fixed(SCALE),
        toggle_connection_prob: 0,
    };
    for _ in 0..50 {
        genome.mutate_add_connection(&mut pool, &config);
    }
    // no duplicate genes were created for already-registered pairs
    assert!(genome.connection_count() <= pool.connections.len());
    assert!(genome.connection_count() >= genes);
}

#[test]
fn random_decision_endpoints() {
    // probability 0 never fires, probability SCALE always does
    for _ in 0..100 {
        assert!(!rusty_neat::rng::random_decision(0));
        assert!(rusty_neat::rng::random_decision(SCALE));
    }
}

#[test]
fn new_genome_fixed_weights() {
    // a Fixed(w) strategy gives every gene exactly weight w, enabled
    let pool = GenePool::new_dense(3, 2);
    let w = 3 * SCALE / 7;
    let genome = pool.new_genome(&NewConnectionWeight::Fixed(w), 0, 0);
    assert_eq!(genome.connection_count(), 6);
    for j in 0..6 {
        let (weight, enabled) = genome.get_status_of_connection(j);
        assert_eq!(weight, w);
        assert!(enabled);
    }
}

#[test]
fn crossover_disable_endpoints() {
    // a gene the parents disagree on stays enabled at disable probability 0
    // and ends disabled at probability SCALE
    let mut pool = GenePool::new_dense(1, 1);
    let a = pool.new_genome(&NewConnectionWeight::Fixed(SCALE), 0, 0);
    let mut b = pool.new_genome(&NewConnectionWeight::Fixed(SCALE), 1, 0);
    // interposing disables gene 0 in b, so the parents disagree on it
    b.add_node_at(&mut pool, 0, &NewConnectionWeight::Fixed(SCALE));
    assert!(a.get_status_of_connection(0).1);
    assert!(!b.get_status_of_connection(0).1);
    let keep = CrossoverConfig {
        disable_connection_prob: 0,
        weight_strategy: CrossoverWeightStrategy::Better,
    };
    let drop = CrossoverConfig {
        disable_connection_prob: SCALE,
        weight_strategy: CrossoverWeightStrategy::Better,
    };
    for _ in 0..20 {
        assert!(a.crossover(&b, &pool, &keep, 2, 1).get_status_of_connection(0).1);
        assert!(!a.crossover(&b, &pool, &drop, 3, 1).get_status_of_connection(0).1);
    }
}

#[test]
fn add_node_skips_exhausted_depth_gap() {
    // once a gene's endpoints sit at adjacent depths, interposing on it is
    // refused and nothing changes
    let mut pool = GenePool::new_dense(1, 1);
    let mut genome = pool.new_genome(&NewConnectionWeight::Fixed(SCALE), 0, 0);
    let mut index = 0;
    loop {
        let before_pool = pool.connections.len();
        let before_genes = genome.connection_count();
        if !genome.add_node_at(&mut pool, index, &NewConnectionWeight::Fixed(SCALE)) {
            assert_eq!(pool.connections.len(), before_pool);
            assert_eq!(genome.connection_count(), before_genes);
            break;
        }
        assert_eq!(pool.connections.len(), before_pool + 2);
        assert_eq!(genome.connection_count(), before_genes + 2);
        // keep splitting the left half of the chain
        index = before_genes;
        if index > 200 {
            panic!("depth gap never exhausted");
        }
    }
}

fn species_config(tolerance: i64) -> SpeciesConfig {
    SpeciesConfig {
        representative: ReprentativeSelection::First,
        fitness: FitnessStrategy::Mean,
        species_distance_tolerance: tolerance,
    }
}

#[test]
fn adjusted_fitness_single_member() {
    // a species with one organism of fitness f has adjusted fitness f
    let pool = GenePool::new_dense(1, 1);
    let genome = pool.new_genome(&NewConnectionWeight::Fixed(SCALE), 0, 0);
    let mut organism = Organism::new(genome, eval_config());
    organism.fitness = Some(42 * SCALE as u64);
    let organisms = vec![organism];
    let rep = organisms[0].clone();
    let mut species = Species::new(rep, 0);
    species.add_organism(0);
    let cfg = species_config(SCALE);
    assert_eq!(species.adjusted_fitness(&organisms, &cfg), 42 * SCALE as u64);
    let best_cfg = SpeciesConfig { fitness: FitnessStrategy::Best, ..cfg };
    assert_eq!(species.adjusted_fitness(&organisms, &best_cfg), 42 * SCALE as u64);
}

#[test]
fn adjusted_fitness_uniform_members() {
    // n organisms all with fitness f share down to f / n
    let pool = GenePool::new_dense(1, 1);
    let mut organisms = Vec::new();
    for i in 0..4u64 {
        let genome = pool.new_genome(&NewConnectionWeight::Fixed(SCALE), i, 0);
        let mut organism = Organism::new(genome, eval_config());
        organism.fitness = Some(8 * SCALE as u64);
        organisms.push(organism);
    }
    let rep = organisms[0].clone();
    let mut species = Species::new(rep, 0);
    for i in 0..4 {
        species.add_organism(i);
    }
    let cfg = species_config(SCALE);
    assert_eq!(species.adjusted_fitness(&organisms, &cfg), 2 * SCALE as u64);
    let best_cfg = SpeciesConfig { fitness: FitnessStrategy::Best, ..cfg };
    assert_eq!(species.adjusted_fitness(&organisms, &best_cfg), 2 * SCALE as u64);
}

#[test]
fn species_matching_tolerance() {
    let mut pool = GenePool::new_dense(1, 1);
    let a = pool.new_genome(&NewConnectionWeight::Fixed(SCALE), 0, 0);
    let mut b = pool.new_genome(&NewConnectionWeight::Fixed(SCALE), 1, 0);
    b.add_node_at(&mut pool, 0, &NewConnectionWeight::Fixed(SCALE));
    let rep = Organism::new(a, eval_config());
    let species = Species::new(rep, 0);
    let other = Organism::new(b, eval_config());
    let dcfg = distance_config();
    assert!(species.matches(&other, &dcfg, &species_config(i64::MAX)));
    assert!(!species.matches(&other, &dcfg, &species_config(0)));
}

#[test]
fn activation_values() {
    let identity = Activation::Identity;
    let sigmoid = Activation::Sigmoid;
    let relu = Activation::Relu;
    assert_eq!(identity.function(-3 * SCALE), -3 * SCALE);
    assert_eq!(relu.function(-3 * SCALE), 0);
    assert_eq!(relu.function(2 * SCALE), 2 * SCALE);
    // the piecewise-linear logistic: 1/2 at 0, saturating at +-2
    assert_eq!(sigmoid.function(0), SCALE / 2);
    assert_eq!(sigmoid.function(SCALE), 3 * SCALE / 4);
    assert_eq!(sigmoid.function(2 * SCALE), SCALE);
    assert_eq!(sigmoid.function(5 * SCALE), SCALE);
    assert_eq!(sigmoid.function(-2 * SCALE), 0);
}
