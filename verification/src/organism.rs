//! Organisms: a genome together with its cached fitness and the evaluation
//! settings it is scored under.

use crate::gene_pool::GenePool;
use crate::genome::{
    genome_congruent, input_ok, node_value, EvaluationConfig, Genome,
};
use crate::fixed::VALUE_LIMIT;
use vstd::prelude::*;

verus! {

/// A genome with an optional fitness (set by the caller's fitness function)
/// and the shared evaluation settings.
#[derive(Debug)]
pub struct Organism {
    pub genome: Genome,
    pub fitness: Option<u64>,
    pub evaluation_config: EvaluationConfig,
}

/// An organism whose genome is well formed and consistent with the pool,
/// under valid evaluation settings.
pub open spec fn organism_ready(o: Organism, pool: GenePool) -> bool {
    o.genome.wf() && o.genome.consistent_with(pool) && o.evaluation_config.valid()
}

/// Every organism of the population is ready.
pub open spec fn population_ready(orgs: Seq<Organism>, pool: GenePool) -> bool {
    forall|i: int| 0 <= i < orgs.len() ==> organism_ready(#[trigger] orgs[i], pool)
}

/// Every organism of the population carries a fitness.
pub open spec fn population_evaluated(orgs: Seq<Organism>) -> bool {
    forall|i: int| 0 <= i < orgs.len() ==> (#[trigger] orgs[i]).fitness is Some
}

impl Organism {
    /// Wrap a genome with unset fitness.
    pub fn new(genome: Genome, evaluation_config: EvaluationConfig) -> (r: Organism)
        ensures
            r.genome == genome,
            r.fitness is None,
            r.evaluation_config == evaluation_config,
    {
        Organism { genome, fitness: None, evaluation_config }
    }

    /// Evaluate the organism's network on an input vector.
    pub fn evaluate(&self, input: &Vec<i64>) -> (r: Vec<i64>)
        requires
            self.genome.wf(),
            self.evaluation_config.valid(),
            input_ok(self.genome, input@),
        ensures
            r@.len() == self.genome.output_count,
            forall|k: int|
                0 <= k < self.genome.output_count ==> #[trigger] r@[k] == node_value(
                    self.genome,
                    input@,
                    self.evaluation_config,
                    self.genome.input_count + k,
                ),
            forall|k: int| 0 <= k < r@.len() ==> -VALUE_LIMIT <= #[trigger] r@[k] <= VALUE_LIMIT,
    {
        self.genome.evaluate(input, &self.evaluation_config)
    }
}

impl Clone for Organism {
    /// A copy with the same fitness and settings and a congruent genome.
    fn clone(&self) -> (res: Self)
        ensures
            genome_congruent(res.genome, self.genome),
            res.fitness == self.fitness,
            res.evaluation_config == self.evaluation_config,
    {
        Organism {
            genome: self.genome.clone(),
            fitness: self.fitness,
            evaluation_config: self.evaluation_config,
        }
    }
}

} // verus!
