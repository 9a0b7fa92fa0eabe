//! Genomes: per-organism network descriptions built from pool genes.
//!
//! A genome holds connection genes (a pool innovation plus a weight and an
//! enabled bit) in insertion order, together with an innovation-sorted index
//! that drives gene alignment during distance and crossover, and node genes
//! that cache the pool node's kind and depth. Input nodes occupy the first
//! `input_count` local slots and output nodes the next `output_count`, so
//! evaluation can write inputs and read outputs by position.

use crate::activation::{activation_spec, Activation};
use crate::config_util::{assert_not_negative, ConfigError};
use crate::fixed::{
    clamp_acc, clamp_spec, clamp_value, clamp_weight, div_trunc, tdiv, ACC_LIMIT, SCALE,
    VALUE_LIMIT, WEIGHT_LIMIT,
};
use crate::gene_pool::{
    has_input_ordinal, has_output_ordinal, Connection, GenePool, NodeType, DEPTH_ONE,
};
use crate::key_index::{lemma_entry_lookup, lemma_same_entries_lookup, KeyIndex};
use crate::config_util::{assert_probability, assert_weight};
use crate::rng::{random_below, random_decision, sample_normal};
use vstd::prelude::*;

verus! {

/// A connection gene: a pool connection adopted by this genome, with the
/// genome's own weight and enabled bit. `from` and `to` are local node
/// indices.
#[derive(Clone, Copy, Debug, PartialEq, Eq, Structural)]
pub struct ConnectionGene {
    pub innovation: usize,
    pub from: usize,
    pub to: usize,
    pub weight: i64,
    pub enabled: bool,
}

/// A node gene: a pool node adopted by this genome, carrying the node's
/// kind and depth and the local indices of the connection genes that end
/// here.
#[derive(Debug)]
#[verifier::ext_equal]
pub struct NodeGene {
    pub node_id: usize,
    pub node_type: NodeType,
    pub depth: u64,
    pub incoming: Vec<usize>,
}

/// Whether a list of local gene indices mentions index `j`.
pub open spec fn incoming_lists(s: Seq<usize>, j: int) -> bool {
    exists|k: int| 0 <= k < s.len() && s[k] == j
}

/// A genome: connection genes in insertion order, their innovation-sorted
/// index, node genes, and the id/generation stamp of its creation.
#[derive(Debug)]
#[verifier::ext_equal]
pub struct Genome {
    pub id: u64,
    pub generation: u32,
    pub connections: Vec<ConnectionGene>,
    pub order: KeyIndex,
    pub nodes: Vec<NodeGene>,
    pub node_index: KeyIndex,
    pub input_count: usize,
    pub output_count: usize,
}

impl Genome {
    /// Input slots come first, then output slots, then hidden nodes.
    pub open spec fn slots_ok(self) -> bool {
        let nodes = self.nodes@;
        &&& self.input_count + self.output_count <= nodes.len()
        &&& forall|i: int|
            0 <= i < self.input_count ==> (#[trigger] nodes[i]).node_type == NodeType::Input(
                i as usize,
            ) && nodes[i].depth == 0
        &&& forall|i: int|
            self.input_count <= i < self.input_count + self.output_count ==> (
            #[trigger] nodes[i]).node_type == NodeType::Output((i - self.input_count) as usize)
                && nodes[i].depth == DEPTH_ONE
        &&& forall|i: int|
            self.input_count + self.output_count <= i < nodes.len() ==> (
            #[trigger] nodes[i]).node_type is Hidden && 0 < nodes[i].depth < DEPTH_ONE
    }

    /// The innovation-sorted index and the gene list describe each other.
    pub open spec fn order_ok(self) -> bool {
        let conns = self.connections@;
        &&& self.order.wf()
        &&& self.order.entries@.len() == conns.len()
        &&& forall|i: usize|
            self.order.spec_contains(i) ==> #[trigger] self.order.value_of(i) < conns.len()
                && conns[self.order.value_of(i) as int].innovation == i
        &&& forall|j: int|
            0 <= j < conns.len() ==> self.order.spec_contains(
                (#[trigger] conns[j]).innovation,
            ) && self.order.value_of(conns[j].innovation) == j
    }

    /// The node index and the node list describe each other.
    pub open spec fn node_index_ok(self) -> bool {
        let nodes = self.nodes@;
        &&& self.node_index.wf()
        &&& self.node_index.entries@.len() == nodes.len()
        &&& forall|d: usize|
            self.node_index.spec_contains(d) ==> #[trigger] self.node_index.value_of(d)
                < nodes.len() && nodes[self.node_index.value_of(d) as int].node_id == d
        &&& forall|i: int|
            0 <= i < nodes.len() ==> self.node_index.spec_contains(
                (#[trigger] nodes[i]).node_id,
            ) && self.node_index.value_of(nodes[i].node_id) == i
    }

    /// Genes reference valid local nodes, run strictly downward in depth,
    /// stay within the weight range, and are indexed by the incoming list of
    /// their end node, exactly once.
    pub open spec fn genes_ok(self) -> bool {
        let nodes = self.nodes@;
        let conns = self.connections@;
        &&& forall|j: int|
            0 <= j < conns.len() ==> (#[trigger] conns[j]).from < nodes.len() && conns[j].to
                < nodes.len()
        &&& forall|j: int|
            0 <= j < conns.len() ==> nodes[(#[trigger] conns[j]).from as int].depth < nodes[conns[j].to as int].depth
        &&& forall|j: int|
            0 <= j < conns.len() ==> -WEIGHT_LIMIT <= (#[trigger] conns[j]).weight <= WEIGHT_LIMIT
        &&& forall|i: int, k: int|
            #![trigger nodes[i].incoming@[k]]
            0 <= i < nodes.len() && 0 <= k < nodes[i].incoming@.len() ==> nodes[i].incoming@[k]
                < conns.len() && conns[nodes[i].incoming@[k] as int].to == i
        &&& forall|i: int, k1: int, k2: int|
            #![trigger nodes[i].incoming@[k1], nodes[i].incoming@[k2]]
            0 <= i < nodes.len() && 0 <= k1 < k2 < nodes[i].incoming@.len() ==> nodes[i].incoming@[k1]
                != nodes[i].incoming@[k2]
        &&& forall|j: int|
            0 <= j < conns.len() ==> incoming_lists(
                nodes[(#[trigger] conns[j]).to as int].incoming@,
                j,
            )
    }

    /// Well-formedness of the whole genome, without reference to any pool.
    pub open spec fn wf(self) -> bool {
        self.slots_ok() && self.order_ok() && self.node_index_ok() && self.genes_ok()
    }

    /// The genome's references into a pool are sound: each node gene names a
    /// pool node of the same kind and depth, and each connection gene names
    /// a pool connection whose endpoints are this genome's endpoint nodes.
    pub open spec fn consistent_with(self, pool: GenePool) -> bool {
        let nodes = self.nodes@;
        let conns = self.connections@;
        &&& forall|i: int|
            0 <= i < nodes.len() ==> (#[trigger] nodes[i]).node_id < pool.nodes@.len()
                && pool.nodes@[nodes[i].node_id as int].node_type == nodes[i].node_type
                && pool.nodes@[nodes[i].node_id as int].depth == nodes[i].depth
        &&& forall|j: int|
            0 <= j < conns.len() ==> (#[trigger] conns[j]).innovation < pool.connections@.len()
                && pool.connections@[conns[j].innovation as int].from == nodes[conns[j].from as int].node_id
                && pool.connections@[conns[j].innovation as int].to == nodes[conns[j].to as int].node_id
    }

    /// Whether the genome holds a gene for this innovation.
    pub open spec fn spec_has_gene(self, innovation: usize) -> bool {
        self.order.spec_contains(innovation)
    }

    /// The weight and enabled bit of the gene with this innovation.
    pub open spec fn gene_entry(self, innovation: usize) -> (i64, bool) {
        let j = self.order.value_of(innovation) as int;
        (self.connections@[j].weight, self.connections@[j].enabled)
    }

    /// Whether the genome holds a node gene for this pool node.
    pub open spec fn spec_has_node(self, node_id: usize) -> bool {
        self.node_index.spec_contains(node_id)
    }

    /// A pool node may be adopted if it is already present or hidden: input
    /// and output nodes live in their fixed slots from construction.
    pub open spec fn addable(self, pool: GenePool, node_id: usize) -> bool {
        node_id < pool.nodes@.len() && (self.spec_has_node(node_id) || pool.nodes@[node_id as int].node_type is Hidden)
    }

    /// An empty genome over the pool's input and output nodes: input slots
    /// first, in ordinal order, then output slots; no connection genes yet.
    pub fn new(pool: &GenePool, id: u64, generation: u32) -> (r: Genome)
        requires
            pool.wf(),
            pool.input_count + pool.output_count <= usize::MAX,
        ensures
            r.wf(),
            r.consistent_with(*pool),
            r.id == id,
            r.generation == generation,
            r.input_count == pool.input_count,
            r.output_count == pool.output_count,
            r.connections@.len() == 0,
            r.nodes@.len() == pool.input_count + pool.output_count,
            forall|i: int| 0 <= i < r.nodes@.len() ==> (#[trigger] r.nodes@[i]).incoming@.len() == 0,
    {
        let mut genome = Genome {
            id,
            generation,
            connections: Vec::new(),
            order: KeyIndex::new(),
            nodes: Vec::new(),
            node_index: KeyIndex::new(),
            input_count: pool.input_count,
            output_count: pool.output_count,
        };
        let mut k: usize = 0;
        while k < pool.input_count
            invariant
                pool.wf(),
                pool.input_count + pool.output_count <= usize::MAX,
                k <= pool.input_count,
                genome.input_count == pool.input_count,
                genome.output_count == pool.output_count,
                genome.id == id,
                genome.generation == generation,
                genome.connections@.len() == 0,
                genome.order.wf(),
                genome.order.entries@.len() == 0,
                genome.nodes@.len() == k,
                genome.node_index.wf(),
                genome.node_index.entries@.len() == k,
                forall|i: int|
                    0 <= i < k ==> (#[trigger] genome.nodes@[i]).node_type == NodeType::Input(
                        i as usize,
                    ) && genome.nodes@[i].depth == 0 && genome.nodes@[i].incoming@.len() == 0,
                forall|i: int|
                    0 <= i < k ==> (#[trigger] genome.nodes@[i]).node_id < pool.nodes@.len()
                        && pool.nodes@[genome.nodes@[i].node_id as int].node_type
                        == genome.nodes@[i].node_type && pool.nodes@[genome.nodes@[i].node_id as int].depth
                        == genome.nodes@[i].depth,
                forall|d: usize|
                    genome.node_index.spec_contains(d)
                        ==> #[trigger] genome.node_index.value_of(d) < genome.nodes@.len()
                        && genome.nodes@[genome.node_index.value_of(d) as int].node_id == d,
                forall|i: int|
                    0 <= i < genome.nodes@.len() ==> genome.node_index.spec_contains(
                        (#[trigger] genome.nodes@[i]).node_id,
                    ) && genome.node_index.value_of(genome.nodes@[i].node_id) == i,
            decreases pool.input_count - k,
        {
            let node_id = find_input_node(pool, k);
            proof {
                if genome.node_index.spec_contains(node_id) {
                    let s = genome.node_index.value_of(node_id) as int;
                    assert(genome.nodes@[s].node_type == NodeType::Input(s as usize));
                    assert(pool.nodes@[node_id as int].node_type == NodeType::Input(s as usize));
                }
            }
            genome.nodes.push(
                NodeGene {
                    node_id,
                    node_type: NodeType::Input(k),
                    depth: 0,
                    incoming: Vec::new(),
                },
            );
            genome.node_index.insert_new(node_id, k);
            k = k + 1;
        }
        let ghost after_inputs = genome;
        let mut k: usize = 0;
        while k < pool.output_count
            invariant
                pool.wf(),
                pool.input_count + pool.output_count <= usize::MAX,
                k <= pool.output_count,
                genome.input_count == pool.input_count,
                genome.output_count == pool.output_count,
                genome.id == id,
                genome.generation == generation,
                genome.connections@.len() == 0,
                genome.order.wf(),
                genome.order.entries@.len() == 0,
                genome.nodes@.len() == pool.input_count + k,
                genome.node_index.wf(),
                genome.node_index.entries@.len() == pool.input_count + k,
                forall|i: int|
                    0 <= i < pool.input_count ==> (#[trigger] genome.nodes@[i]).node_type
                        == NodeType::Input(i as usize) && genome.nodes@[i].depth == 0
                        && genome.nodes@[i].incoming@.len() == 0,
                forall|i: int|
                    pool.input_count <= i < pool.input_count + k ==> (
                    #[trigger] genome.nodes@[i]).node_type == NodeType::Output(
                        (i - pool.input_count) as usize,
                    ) && genome.nodes@[i].depth == DEPTH_ONE && genome.nodes@[i].incoming@.len()
                        == 0,
                forall|i: int|
                    0 <= i < genome.nodes@.len() ==> (#[trigger] genome.nodes@[i]).node_id
                        < pool.nodes@.len() && pool.nodes@[genome.nodes@[i].node_id as int].node_type
                        == genome.nodes@[i].node_type && pool.nodes@[genome.nodes@[i].node_id as int].depth
                        == genome.nodes@[i].depth,
                forall|d: usize|
                    genome.node_index.spec_contains(d)
                        ==> #[trigger] genome.node_index.value_of(d) < genome.nodes@.len()
                        && genome.nodes@[genome.node_index.value_of(d) as int].node_id == d,
                forall|i: int|
                    0 <= i < genome.nodes@.len() ==> genome.node_index.spec_contains(
                        (#[trigger] genome.nodes@[i]).node_id,
                    ) && genome.node_index.value_of(genome.nodes@[i].node_id) == i,
            decreases pool.output_count - k,
        {
            let node_id = find_output_node(pool, k);
            proof {
                if genome.node_index.spec_contains(node_id) {
                    let s = genome.node_index.value_of(node_id) as int;
                    assert(pool.nodes@[node_id as int].node_type == genome.nodes@[s].node_type);
                }
            }
            let slot = genome.nodes.len();
            genome.nodes.push(
                NodeGene {
                    node_id,
                    node_type: NodeType::Output(k),
                    depth: DEPTH_ONE,
                    incoming: Vec::new(),
                },
            );
            genome.node_index.insert_new(node_id, slot);
            k = k + 1;
        }
        genome
    }

    /// The number of node genes.
    pub fn node_count(&self) -> (r: usize)
        ensures
            r == self.nodes@.len(),
    {
        self.nodes.len()
    }

    /// The number of connection genes.
    pub fn connection_count(&self) -> (r: usize)
        ensures
            r == self.connections@.len(),
    {
        self.connections.len()
    }

    /// The weight and enabled bit of the gene with this innovation.
    pub fn get_status_of_connection(&self, innovation: usize) -> (r: (i64, bool))
        requires
            self.wf(),
            self.spec_has_gene(innovation),
        ensures
            r == self.gene_entry(innovation),
    {
        let idx = match self.order.get(innovation) {
            Some(idx) => idx,
            None => {
                proof {
                    assert(false);
                }
                0
            },
        };
        let gene = self.connections[idx];
        (gene.weight, gene.enabled)
    }

    /// Adopt a pool node: append a node gene for it unless one is already
    /// present.
    pub fn add_node(&mut self, pool: &GenePool, node_id: usize)
        requires
            old(self).wf(),
            pool.wf(),
            old(self).consistent_with(*pool),
            old(self).addable(*pool, node_id),
            old(self).nodes@.len() < usize::MAX,
        ensures
            final(self).wf(),
            final(self).consistent_with(*pool),
            final(self).spec_has_node(node_id),
            old(self).spec_has_node(node_id) ==> *final(self) == *old(self),
            !old(self).spec_has_node(node_id) ==> {
                &&& final(self).nodes@.len() == old(self).nodes@.len() + 1
                &&& final(self).nodes@[old(self).nodes@.len() as int].node_id == node_id
                &&& final(self).nodes@[old(self).nodes@.len() as int].incoming@.len() == 0
                &&& final(self).spec_has_node(node_id)
                &&& final(self).node_index.value_of(node_id) == old(self).nodes@.len()
            },
            final(self).connections@ == old(self).connections@,
            final(self).order == old(self).order,
            final(self).id == old(self).id,
            final(self).generation == old(self).generation,
            final(self).input_count == old(self).input_count,
            final(self).output_count == old(self).output_count,
            old(self).nodes@.len() <= final(self).nodes@.len(),
            forall|i: int| 0 <= i < old(self).nodes@.len() ==> final(self).nodes@[i] == old(self).nodes@[i],
            forall|d: usize|
                old(self).spec_has_node(d) ==> #[trigger] final(self).spec_has_node(d) && final(self).node_index.value_of(d) == old(self).node_index.value_of(d),
    {
        if self.node_index.contains(node_id) {
            return ;
        }
        let slot = self.nodes.len();
        self.nodes.push(
            NodeGene {
                node_id,
                node_type: pool.nodes[node_id].node_type,
                depth: pool.nodes[node_id].depth,
                incoming: Vec::new(),
            },
        );
        self.node_index.insert_new(node_id, slot);
        proof {
            let nodes = self.nodes@;
            assert(pool.nodes@[node_id as int].node_type is Hidden);
            assert(nodes[slot as int].node_type is Hidden);
            assert(0 < nodes[slot as int].depth < DEPTH_ONE);
            assert forall|j: int| 0 <= j < self.connections@.len() implies incoming_lists(
                nodes[(#[trigger] self.connections@[j]).to as int].incoming@,
                j,
            ) by {
                assert(self.connections@[j].to < old(self).nodes@.len());
                assert(nodes[self.connections@[j].to as int] == old(self).nodes@[self.connections@[j].to as int]);
            }
        }
    }
}

/// Find the pool node that carries input ordinal `k`.
fn find_input_node(pool: &GenePool, k: usize) -> (r: usize)
    requires
        pool.wf(),
        k < pool.input_count,
    ensures
        r < pool.nodes@.len(),
        pool.nodes@[r as int].node_type == NodeType::Input(k),
{
    let n = pool.nodes.len();
    let mut i: usize = 0;
    while i < n
        invariant
            pool.wf(),
            k < pool.input_count,
            n == pool.nodes@.len(),
            i <= n,
            forall|j: int| 0 <= j < i ==> (#[trigger] pool.nodes@[j]).node_type != NodeType::Input(k),
        decreases n - i,
    {
        match pool.nodes[i].node_type {
            NodeType::Input(ord) => {
                if ord == k {
                    return i;
                }
            },
            _ => {},
        }
        i = i + 1;
    }
    proof {
        assert(has_input_ordinal(pool.nodes@, k));
        let w = choose|j: int|
            0 <= j < pool.nodes@.len() && (#[trigger] pool.nodes@[j]).node_type == NodeType::Input(
                k,
            );
        assert(false);
    }
    0
}

/// Find the pool node that carries output ordinal `k`.
fn find_output_node(pool: &GenePool, k: usize) -> (r: usize)
    requires
        pool.wf(),
        k < pool.output_count,
    ensures
        r < pool.nodes@.len(),
        pool.nodes@[r as int].node_type == NodeType::Output(k),
{
    let n = pool.nodes.len();
    let mut i: usize = 0;
    while i < n
        invariant
            pool.wf(),
            k < pool.output_count,
            n == pool.nodes@.len(),
            i <= n,
            forall|j: int| 0 <= j < i ==> (#[trigger] pool.nodes@[j]).node_type != NodeType::Output(k),
        decreases n - i,
    {
        match pool.nodes[i].node_type {
            NodeType::Output(ord) => {
                if ord == k {
                    return i;
                }
            },
            _ => {},
        }
        i = i + 1;
    }
    proof {
        assert(has_output_ordinal(pool.nodes@, k));
        let w = choose|j: int|
            0 <= j < pool.nodes@.len() && (#[trigger] pool.nodes@[j]).node_type == NodeType::Output(
                k,
            );
        assert(false);
    }
    0
}

impl Genome {
    /// Append a gene for a pool connection that the genome does not yet
    /// hold, adopting its endpoints if they are absent, and index it by its
    /// end node's incoming list and by innovation.
    #[verifier::rlimit(100)]
    pub(crate) fn add_connection(
        &mut self,
        pool: &GenePool,
        connection: Connection,
        weight: i64,
        enabled: bool,
    )
        requires
            old(self).wf(),
            pool.wf(),
            old(self).consistent_with(*pool),
            connection.innovation < pool.connections@.len(),
            pool.connections@[connection.innovation as int] == connection,
            !old(self).spec_has_gene(connection.innovation),
            -WEIGHT_LIMIT <= weight <= WEIGHT_LIMIT,
            old(self).addable(*pool, connection.from),
            old(self).addable(*pool, connection.to),
            old(self).nodes@.len() + 2 <= usize::MAX,
            old(self).connections@.len() < usize::MAX,
        ensures
            final(self).wf(),
            final(self).consistent_with(*pool),
            final(self).id == old(self).id,
            final(self).generation == old(self).generation,
            final(self).input_count == old(self).input_count,
            final(self).output_count == old(self).output_count,
            final(self).connections@.len() == old(self).connections@.len() + 1,
            forall|j: int|
                0 <= j < old(self).connections@.len() ==> final(self).connections@[j] == old(self).connections@[j],
            ({
                let g = final(self).connections@[old(self).connections@.len() as int];
                &&& g.innovation == connection.innovation
                &&& g.weight == weight
                &&& g.enabled == enabled
                &&& g.from == final(self).node_index.value_of(connection.from)
                &&& g.to == final(self).node_index.value_of(connection.to)
                &&& final(self).nodes@[g.from as int].node_id == connection.from
                &&& final(self).nodes@[g.to as int].node_id == connection.to
            }),
            forall|i: usize|
                #[trigger] final(self).spec_has_gene(i) <==> (old(self).spec_has_gene(i) || i
                    == connection.innovation),
            (forall|j: int|
                0 <= j < old(self).order.entries@.len() ==> (#[trigger] old(
                    self,
                ).order.entries@[j]).0 < connection.innovation) ==> final(self).order.entries@
                == old(self).order.entries@.push(
                (connection.innovation, old(self).connections@.len() as usize),
            ),
            final(self).gene_entry(connection.innovation) == (weight, enabled),
            forall|i: usize|
                i != connection.innovation && old(self).spec_has_gene(i) ==> #[trigger] final(self).gene_entry(i) == old(self).gene_entry(i),
            old(self).nodes@.len() <= final(self).nodes@.len(),
            final(self).nodes@.len() <= old(self).nodes@.len() + 2,
            forall|i: int|
                0 <= i < old(self).nodes@.len() ==> (#[trigger] final(self).nodes@[i]).node_id
                    == old(self).nodes@[i].node_id && final(self).nodes@[i].node_type == old(self).nodes@[i].node_type && final(self).nodes@[i].depth == old(self).nodes@[i].depth,
            final(self).spec_has_node(connection.from),
            final(self).spec_has_node(connection.to),
            forall|d: usize| old(self).spec_has_node(d) ==> #[trigger] final(self).spec_has_node(d),
            old(self).spec_has_node(connection.from) && old(self).spec_has_node(connection.to)
                ==> final(self).nodes@.len() == old(self).nodes@.len(),
            old(self).spec_has_node(connection.from) && !old(self).spec_has_node(connection.to)
                ==> final(self).nodes@.len() == old(self).nodes@.len() + 1,
            ({
                let ti = final(self).node_index.value_of(connection.to) as int;
                let j = old(self).connections@.len() as usize;
                &&& ti < final(self).nodes@.len()
                &&& (old(self).spec_has_node(connection.to) ==> ti < old(self).nodes@.len()
                    && final(self).nodes@[ti].incoming@ == old(self).nodes@[ti].incoming@.push(j))
                &&& (!old(self).spec_has_node(connection.to) ==> final(self).nodes@[ti].incoming@
                    =~= seq![j])
            }),
            forall|i: int|
                0 <= i < old(self).nodes@.len() && i != final(self).node_index.value_of(
                    connection.to,
                ) ==> (#[trigger] final(self).nodes@[i]).incoming@ == old(self).nodes@[i].incoming@,
            forall|i: int|
                old(self).nodes@.len() <= i < final(self).nodes@.len() && i != final(self).node_index.value_of(connection.to) ==> (
                #[trigger] final(self).nodes@[i]).incoming@.len() == 0,
    {
        self.add_node(pool, connection.from);
        let ghost g1 = *self;
        self.add_node(pool, connection.to);
        let ghost base = *self;
        let from_idx = match self.node_index.get(connection.from) {
            Some(i) => i,
            None => {
                proof {
                    assert(false);
                }
                0
            },
        };
        let to_idx = match self.node_index.get(connection.to) {
            Some(i) => i,
            None => {
                proof {
                    assert(false);
                }
                0
            },
        };
        let j = self.connections.len();
        let gene = ConnectionGene {
            innovation: connection.innovation,
            from: from_idx,
            to: to_idx,
            weight,
            enabled,
        };
        self.connections.push(gene);
        self.order.insert_new(connection.innovation, j);
        let ghost mid_nodes = self.nodes@;
        let mut node = self.nodes.remove(to_idx);
        node.incoming.push(j);
        self.nodes.insert(to_idx, node);
        proof {
            let ti = to_idx as int;
            let nodes = self.nodes@;
            let conns = self.connections@;
            let bnodes = base.nodes@;
            let bconns = base.connections@;
            assert(nodes.len() == bnodes.len());
            assert forall|i: int| 0 <= i < nodes.len() && i != ti implies nodes[i] == bnodes[i] by {
                if i < ti {
                    assert(nodes[i] == mid_nodes.remove(ti)[i]);
                } else {
                    assert(nodes[i] == mid_nodes.remove(ti)[i - 1]);
                    assert(mid_nodes.remove(ti)[i - 1] == mid_nodes[i]);
                }
            }
            assert(nodes[ti].node_id == bnodes[ti].node_id);
            assert(nodes[ti].node_type == bnodes[ti].node_type);
            assert(nodes[ti].depth == bnodes[ti].depth);
            assert(nodes[ti].incoming@ == bnodes[ti].incoming@.push(j as usize));
            // the gene list grew by exactly the new gene
            assert(conns.len() == bconns.len() + 1);
            assert(forall|jj: int| 0 <= jj < bconns.len() ==> conns[jj] == bconns[jj]);
            assert(conns[j as int] == gene);
            // the new gene's endpoints are the looked-up slots
            assert(bnodes[from_idx as int].node_id == connection.from);
            assert(bnodes[ti].node_id == connection.to);
            // depth ordering of the new gene comes from the pool
            assert(pool.nodes@[connection.from as int].depth < pool.nodes@[connection.to as int].depth);
            assert(nodes[from_idx as int].depth < nodes[ti].depth);
            lemma_gene_appended(
                base,
                *self,
                *pool,
                connection,
                gene,
                from_idx,
                to_idx,
                j,
            );
            assert forall|d: usize| old(self).spec_has_node(d) implies #[trigger] self.spec_has_node(
                d,
            ) by {
                assert(g1.spec_has_node(d));
                assert(base.spec_has_node(d));
                assert(self.node_index == base.node_index);
            }
            // the reported incoming change
            assert(self.node_index.value_of(connection.to) == to_idx);
            if !old(self).spec_has_node(connection.to) {
                assert(bnodes[ti].incoming@.len() == 0);
                assert(nodes[ti].incoming@ =~= seq![j as usize]);
            }
        }
    }
}


/// A genome that extends a well-formed one by exactly one gene — appended to
/// the gene list, bound in the order index, and recorded in its end node's
/// incoming list — is well formed and consistent again.
#[verifier::rlimit(100)]
proof fn lemma_gene_appended(
    base: Genome,
    cur: Genome,
    pool: GenePool,
    connection: Connection,
    gene: ConnectionGene,
    from_idx: usize,
    to_idx: usize,
    jv: usize,
)
    requires
        base.wf(),
        pool.wf(),
        base.consistent_with(pool),
        connection.innovation < pool.connections@.len(),
        pool.connections@[connection.innovation as int] == connection,
        !base.spec_has_gene(connection.innovation),
        base.spec_has_node(connection.from),
        base.spec_has_node(connection.to),
        from_idx == base.node_index.value_of(connection.from),
        to_idx == base.node_index.value_of(connection.to),
        jv == base.connections@.len(),
        gene == (ConnectionGene {
            innovation: connection.innovation,
            from: from_idx,
            to: to_idx,
            weight: gene.weight,
            enabled: gene.enabled,
        }),
        -WEIGHT_LIMIT <= gene.weight <= WEIGHT_LIMIT,
        cur.input_count == base.input_count,
        cur.output_count == base.output_count,
        cur.node_index == base.node_index,
        cur.connections@ == base.connections@.push(gene),
        cur.order.wf(),
        cur.order.entries@.len() == base.order.entries@.len() + 1,
        cur.order.spec_contains(connection.innovation),
        cur.order.value_of(connection.innovation) == jv,
        forall|k: usize|
            k != connection.innovation ==> #[trigger] cur.order.spec_contains(k)
                == base.order.spec_contains(k),
        forall|k: usize|
            k != connection.innovation && base.order.spec_contains(k)
                ==> #[trigger] cur.order.value_of(k) == base.order.value_of(k),
        cur.nodes@.len() == base.nodes@.len(),
        forall|i: int| 0 <= i < cur.nodes@.len() && i != to_idx ==> cur.nodes@[i] == base.nodes@[i],
        cur.nodes@[to_idx as int].node_id == base.nodes@[to_idx as int].node_id,
        cur.nodes@[to_idx as int].node_type == base.nodes@[to_idx as int].node_type,
        cur.nodes@[to_idx as int].depth == base.nodes@[to_idx as int].depth,
        cur.nodes@[to_idx as int].incoming@ == base.nodes@[to_idx as int].incoming@.push(jv),
    ensures
        cur.wf(),
        cur.consistent_with(pool),
{
    let ti = to_idx as int;
    let nodes = cur.nodes@;
    let conns = cur.connections@;
    let bnodes = base.nodes@;
    let bconns = base.connections@;
    assert(bnodes[from_idx as int].node_id == connection.from);
    assert(bnodes[ti].node_id == connection.to);
    assert(pool.nodes@[connection.from as int].depth < pool.nodes@[connection.to as int].depth);
    assert(nodes[from_idx as int].depth < nodes[ti].depth);
            // slots: kinds and depths are untouched
            assert forall|i: int|
                0 <= i < cur.input_count implies (#[trigger] nodes[i]).node_type
                    == NodeType::Input(i as usize) && nodes[i].depth == 0 by {
                assert(bnodes[i].node_type == NodeType::Input(i as usize) && bnodes[i].depth == 0);
            }
            assert forall|i: int|
                cur.input_count <= i < cur.input_count + cur.output_count implies (
                #[trigger] nodes[i]).node_type == NodeType::Output((i - cur.input_count) as usize)
                    && nodes[i].depth == DEPTH_ONE by {
                assert(bnodes[i].node_type == NodeType::Output((i - cur.input_count) as usize)
                    && bnodes[i].depth == DEPTH_ONE);
            }
            assert forall|i: int|
                cur.input_count + cur.output_count <= i < nodes.len() implies (
                #[trigger] nodes[i]).node_type is Hidden && 0 < nodes[i].depth < DEPTH_ONE by {
                assert(bnodes[i].node_type is Hidden && 0 < bnodes[i].depth < DEPTH_ONE);
            }
            assert(cur.slots_ok());
            // the order index: the new binding plus every old one
            assert forall|i: usize|
                cur.order.spec_contains(i) implies #[trigger] cur.order.value_of(i) < conns.len()
                    && conns[cur.order.value_of(i) as int].innovation == i by {
                if i == connection.innovation {
                    assert(cur.order.value_of(i) == jv);
                } else {
                    assert(base.order.spec_contains(i));
                    assert(cur.order.value_of(i) == base.order.value_of(i));
                    assert(conns[base.order.value_of(i) as int] == bconns[base.order.value_of(
                        i,
                    ) as int]);
                }
            }
            assert forall|jj: int|
                0 <= jj < conns.len() implies cur.order.spec_contains(
                (#[trigger] conns[jj]).innovation) && cur.order.value_of(conns[jj].innovation)
                    == jj by {
                if jj < jv as int {
                    assert(base.order.spec_contains(bconns[jj].innovation));
                    assert(bconns[jj].innovation != connection.innovation);
                } else {
                    assert(conns[jj].innovation == connection.innovation);
                }
            }
            assert(cur.order_ok());
            // the node index is untouched and node ids are unchanged
            assert forall|d: usize|
                cur.node_index.spec_contains(d) implies #[trigger] cur.node_index.value_of(d)
                    < nodes.len() && nodes[cur.node_index.value_of(d) as int].node_id == d by {
                assert(bnodes[base.node_index.value_of(d) as int].node_id == d);
            }
            assert forall|i: int|
                0 <= i < nodes.len() implies cur.node_index.spec_contains(
                (#[trigger] nodes[i]).node_id) && cur.node_index.value_of(nodes[i].node_id)
                    == i by {
                assert(nodes[i].node_id == bnodes[i].node_id);
            }
            assert(cur.node_index_ok());
            // genes: endpoints, depth order, weights, incoming lists
            assert forall|i: int, k: int|
                #![trigger nodes[i].incoming@[k]]
                0 <= i < nodes.len() && 0 <= k < nodes[i].incoming@.len() implies nodes[i].incoming@[k]
                    < conns.len() && conns[nodes[i].incoming@[k] as int].to == i by {
                if i == ti {
                    if k < bnodes[ti].incoming@.len() {
                        assert(nodes[i].incoming@[k] == bnodes[ti].incoming@[k]);
                        assert(bnodes[ti].incoming@[k] < bconns.len());
                    } else {
                        assert(nodes[i].incoming@[k] == jv);
                    }
                } else {
                    assert(nodes[i] == bnodes[i]);
                    assert(bnodes[i].incoming@[k] < bconns.len());
                }
            }
            assert forall|i: int, k1: int, k2: int|
                #![trigger nodes[i].incoming@[k1], nodes[i].incoming@[k2]]
                0 <= i < nodes.len() && 0 <= k1 < k2 < nodes[i].incoming@.len() implies nodes[i].incoming@[k1]
                    != nodes[i].incoming@[k2] by {
                if i == ti {
                    if k2 < bnodes[ti].incoming@.len() {
                    } else {
                        assert(nodes[i].incoming@[k2] == jv);
                        assert(nodes[i].incoming@[k1] == bnodes[ti].incoming@[k1]);
                        assert(bnodes[ti].incoming@[k1] < bconns.len());
                    }
                } else {
                    assert(nodes[i] == bnodes[i]);
                }
            }
            assert forall|jj: int| 0 <= jj < conns.len() implies incoming_lists(
                nodes[(#[trigger] conns[jj]).to as int].incoming@,
                jj,
            ) by {
                if jj < jv as int {
                    assert(incoming_lists(bnodes[bconns[jj].to as int].incoming@, jj));
                    let k = choose|k: int|
                        0 <= k < bnodes[bconns[jj].to as int].incoming@.len()
                            && bnodes[bconns[jj].to as int].incoming@[k] == jj;
                    if bconns[jj].to as int == ti {
                        assert(nodes[ti].incoming@[k] == jj);
                    } else {
                        assert(nodes[bconns[jj].to as int].incoming@[k] == jj);
                    }
                } else {
                    assert(nodes[ti].incoming@[bnodes[ti].incoming@.len() as int] == jv);
                }
            }
            assert(cur.genes_ok());
            // pool consistency carries over; the new gene matches the pool entry
            assert forall|i: int|
                0 <= i < nodes.len() implies (#[trigger] nodes[i]).node_id < pool.nodes@.len()
                    && pool.nodes@[nodes[i].node_id as int].node_type == nodes[i].node_type
                    && pool.nodes@[nodes[i].node_id as int].depth == nodes[i].depth by {
                assert(bnodes[i].node_id < pool.nodes@.len());
            }
            assert forall|jj: int|
                0 <= jj < conns.len() implies (#[trigger] conns[jj]).innovation
                    < pool.connections@.len() && pool.connections@[conns[jj].innovation as int].from
                    == nodes[conns[jj].from as int].node_id
                    && pool.connections@[conns[jj].innovation as int].to == nodes[conns[jj].to as int].node_id by {
                if jj < jv as int {
                    assert(conns[jj] == bconns[jj]);
                    assert(pool.connections@[bconns[jj].innovation as int].from == bnodes[bconns[jj].from as int].node_id);
                }
            }
            assert(cur.consistent_with(pool));
}

/// Shared evaluation settings: the bias added at every non-input node and
/// the activation applied to its sum.
#[derive(Clone, Copy, Debug, PartialEq, Eq, Structural)]
pub struct EvaluationConfig {
    pub bias: i64,
    pub activation: Activation,
}

impl EvaluationConfig {
    /// The bias stays within the weight range, so sums stay in bounds.
    pub open spec fn valid(self) -> bool {
        -WEIGHT_LIMIT <= self.bias <= WEIGHT_LIMIT
    }
}

/// How the weight of a newly adopted connection gene is chosen.
#[derive(Clone, Copy, Debug)]
pub enum NewConnectionWeight {
    /// An approximately normal draw with the given mean and standard
    /// deviation (fixed-point).
    Random { mean: i64, std_dev: i64 },
    /// Always this weight.
    Fixed(i64),
}

impl NewConnectionWeight {
    /// Parameters stay within the admitted weight range.
    pub open spec fn valid(self) -> bool {
        match self {
            NewConnectionWeight::Random { mean, std_dev } => -WEIGHT_LIMIT <= mean <= WEIGHT_LIMIT
                && 0 <= std_dev <= WEIGHT_LIMIT,
            NewConnectionWeight::Fixed(w) => -WEIGHT_LIMIT <= w <= WEIGHT_LIMIT,
        }
    }

    /// Draw a weight according to the strategy.
    pub fn sample_weight(strategy: &NewConnectionWeight) -> (r: i64)
        requires
            strategy.valid(),
        ensures
            -WEIGHT_LIMIT <= r <= WEIGHT_LIMIT,
            strategy matches NewConnectionWeight::Fixed(w) ==> r == w,
    {
        match strategy {
            NewConnectionWeight::Random { mean, std_dev } => sample_normal(*mean, *std_dev),
            NewConnectionWeight::Fixed(w) => *w,
        }
    }
}

/// The running sum (in scale-squared units, saturating at `ACC_LIMIT`) of
/// the first `k` incoming contributions of node `idx`: for each enabled
/// incoming gene, its weight times the value of its source node.
pub open spec fn incoming_acc(g: Genome, input: Seq<i64>, cfg: EvaluationConfig, idx: int, k: int) -> int
    decreases g.nodes@[idx].depth, 0nat, k,
    when g.wf() && 0 <= idx < g.nodes@.len() && k <= g.nodes@[idx].incoming@.len()
{
    if k <= 0 {
        0
    } else {
        let ci = g.nodes@[idx].incoming@[k - 1] as int;
        let c = g.connections@[ci];
        let prev = incoming_acc(g, input, cfg, idx, k - 1);
        if c.enabled {
            clamp_spec(
                prev + c.weight * node_value(g, input, cfg, c.from as int),
                -(ACC_LIMIT as int),
                ACC_LIMIT as int,
            )
        } else {
            prev
        }
    }
}

/// The value a node takes on the given input vector: inputs return their
/// input entry; every other node sums its enabled incoming contributions,
/// adds the bias, rescales, clamps into the node range and applies the
/// activation.
pub open spec fn node_value(g: Genome, input: Seq<i64>, cfg: EvaluationConfig, idx: int) -> int
    decreases g.nodes@[idx].depth, 1nat, 0nat,
    when g.wf() && 0 <= idx < g.nodes@.len()
{
    if idx < g.input_count {
        input[idx] as int
    } else {
        let acc = incoming_acc(g, input, cfg, idx, g.nodes@[idx].incoming@.len() as int);
        activation_spec(
            cfg.activation,
            clamp_spec(
                tdiv(acc + cfg.bias * SCALE, SCALE as int),
                -(VALUE_LIMIT as int),
                VALUE_LIMIT as int,
            ),
        )
    }
}

/// An input vector is admissible when it has one entry per input slot, each
/// within the node-value range.
pub open spec fn input_ok(g: Genome, input: Seq<i64>) -> bool {
    input.len() == g.input_count && forall|i: int|
        0 <= i < input.len() ==> -VALUE_LIMIT <= #[trigger] input[i] <= VALUE_LIMIT
}

/// Every memoised entry holds exactly the node's value.
pub open spec fn memo_ok(g: Genome, memo: Seq<Option<i64>>, input: Seq<i64>, cfg: EvaluationConfig) -> bool {
    &&& memo.len() == g.nodes@.len()
    &&& forall|i: int|
        0 <= i < memo.len() && (#[trigger] memo[i]) is Some ==> memo[i]->0 == node_value(
            g,
            input,
            cfg,
            i,
        ) && -VALUE_LIMIT <= memo[i]->0 <= VALUE_LIMIT
}

impl Genome {
    /// Compute (and memoise) the value of the node in slot `idx`.
    fn eval_node(
        &self,
        cfg: &EvaluationConfig,
        memo: &mut Vec<Option<i64>>,
        idx: usize,
        Ghost(input): Ghost<Seq<i64>>,
    ) -> (r: i64)
        requires
            self.wf(),
            cfg.valid(),
            idx < self.nodes@.len(),
            input_ok(*self, input),
            memo_ok(*self, old(memo)@, input, *cfg),
            forall|i: int| 0 <= i < self.input_count ==> old(memo)@[i] == Some(input[i]),
        ensures
            memo_ok(*self, final(memo)@, input, *cfg),
            forall|i: int|
                0 <= i < final(memo)@.len() && (#[trigger] old(memo)@[i]) is Some ==> final(memo)@[i] == old(memo)@[i],
            final(memo)@.len() == old(memo)@.len(),
            final(memo)@[idx as int] == Some(r),
            r == node_value(*self, input, *cfg, idx as int),
            -VALUE_LIMIT <= r <= VALUE_LIMIT,
        decreases self.nodes@[idx as int].depth,
    {
        match memo[idx] {
            Some(v) => {
                return v;
            },
            None => {},
        }
        proof {
            if (idx as int) < self.input_count as int {
                assert(old(memo)@[idx as int] == Some(input[idx as int]));
            }
        }
        let count = self.nodes[idx].incoming.len();
        let mut acc: i128 = 0;
        let mut k: usize = 0;
        while k < count
            invariant
                self.wf(),
                cfg.valid(),
                idx < self.nodes@.len(),
                self.input_count <= idx,
                input_ok(*self, input),
                count == self.nodes@[idx as int].incoming@.len(),
                k <= count,
                memo_ok(*self, memo@, input, *cfg),
                memo@.len() == old(memo)@.len(),
                forall|i: int|
                    0 <= i < memo@.len() && (#[trigger] old(memo)@[i]) is Some ==> memo@[i] == old(memo)@[i],
                forall|i: int| 0 <= i < self.input_count ==> memo@[i] == Some(input[i]),
                acc == incoming_acc(*self, input, *cfg, idx as int, k as int),
                -ACC_LIMIT <= acc <= ACC_LIMIT,
            decreases count - k,
        {
            let ci = self.nodes[idx].incoming[k];
            let c = self.connections[ci];
            if c.enabled {
                proof {
                    assert(self.nodes@[c.from as int].depth < self.nodes@[c.to as int].depth);
                    assert(c.to == idx);
                }
                let ghost pre_memo = memo@;
                let v = self.eval_node(cfg, memo, c.from, Ghost(input));
                proof {
                    assert forall|i: int| 0 <= i < self.input_count implies memo@[i] == Some(
                        input[i],
                    ) by {
                        assert(pre_memo[i] == Some(input[i]));
                        assert(pre_memo[i] is Some);
                    }
                    let wi = c.weight as int;
                    let vi = v as int;
                    assert(-1000000000000000000000000int <= wi * vi <= 1000000000000000000000000int)
                        by (nonlinear_arith)
                        requires
                            -1000000000000int <= wi <= 1000000000000int,
                            -1000000000000int <= vi <= 1000000000000int,
                    ;
                }
                acc = clamp_acc(acc + (c.weight as i128) * (v as i128));
            }
            k = k + 1;
        }
        let total: i128 = acc + (cfg.bias as i128) * (SCALE as i128);
        let rescaled = div_trunc(total, SCALE as i128);
        let value = clamp_value(rescaled);
        let result = cfg.activation.function(value);
        memo.set(idx, Some(result));
        proof {
            assert(result == node_value(*self, input, *cfg, idx as int));
        }
        result
    }

    /// Evaluate the genome as a feed-forward network: write each input into
    /// its input slot and return the output-slot values in ordinal order.
    pub fn evaluate(&self, input: &Vec<i64>, config: &EvaluationConfig) -> (r: Vec<i64>)
        requires
            self.wf(),
            config.valid(),
            input_ok(*self, input@),
        ensures
            r@.len() == self.output_count,
            forall|k: int|
                0 <= k < self.output_count ==> #[trigger] r@[k] == node_value(
                    *self,
                    input@,
                    *config,
                    self.input_count + k,
                ),
            forall|k: int| 0 <= k < r@.len() ==> -VALUE_LIMIT <= #[trigger] r@[k] <= VALUE_LIMIT,
    {
        let n = self.nodes.len();
        let mut memo: Vec<Option<i64>> = Vec::new();
        let mut i: usize = 0;
        while i < n
            invariant
                self.wf(),
                input_ok(*self, input@),
                n == self.nodes@.len(),
                i <= n,
                memo@.len() == i,
                forall|j: int|
                    0 <= j < i && j < self.input_count ==> #[trigger] memo@[j] == Some(input@[j]),
                forall|j: int|
                    0 <= j < i && j >= self.input_count ==> #[trigger] memo@[j] is None,
            decreases n - i,
        {
            if i < input.len() {
                memo.push(Some(input[i]));
            } else {
                memo.push(None);
            }
            i = i + 1;
        }
        proof {
            assert forall|j: int|
                0 <= j < memo@.len() && (#[trigger] memo@[j]) is Some implies memo@[j]->0
                    == node_value(*self, input@, *config, j) && -VALUE_LIMIT <= memo@[j]->0
                    <= VALUE_LIMIT by {
                assert(j < self.input_count);
                assert(memo@[j] == Some(input@[j]));
            }
        }
        let mut out: Vec<i64> = Vec::new();
        let mut k: usize = 0;
        while k < self.output_count
            invariant
                self.wf(),
                config.valid(),
                input_ok(*self, input@),
                k <= self.output_count,
                n == self.nodes@.len(),
                out@.len() == k,
                memo_ok(*self, memo@, input@, *config),
                forall|i2: int| 0 <= i2 < self.input_count ==> memo@[i2] == Some(input@[i2]),
                forall|j: int|
                    0 <= j < k ==> #[trigger] out@[j] == node_value(
                        *self,
                        input@,
                        *config,
                        self.input_count + j,
                    ) && -VALUE_LIMIT <= out@[j] <= VALUE_LIMIT,
            decreases self.output_count - k,
        {
            let slot = self.input_count + k;
            let ghost pre_memo = memo@;
            let v = self.eval_node(config, &mut memo, slot, Ghost(input@));
            proof {
                assert forall|i2: int| 0 <= i2 < self.input_count implies memo@[i2] == Some(
                    input@[i2],
                ) by {
                    assert(pre_memo[i2] == Some(input@[i2]));
                    assert(pre_memo[i2] is Some);
                }
            }
            out.push(v);
            k = k + 1;
        }
        out
    }
}

impl GenePool {
    /// Materialise a genome holding every pool node and a gene for every
    /// pool connection, enabled, with weights drawn by the strategy.
    pub fn new_genome(
        &self,
        weight_strategy: &NewConnectionWeight,
        id: u64,
        generation: u32,
    ) -> (r: Genome)
        requires
            self.wf(),
            weight_strategy.valid(),
            self.nodes@.len() + self.input_count + self.output_count + 2 <= usize::MAX,
            self.connections@.len() < usize::MAX,
        ensures
            r.wf(),
            r.consistent_with(*self),
            r.id == id,
            r.generation == generation,
            r.input_count == self.input_count,
            r.output_count == self.output_count,
            forall|d: usize| d < self.nodes@.len() ==> #[trigger] r.spec_has_node(d),
            r.connections@.len() == self.connections@.len(),
            forall|j: int|
                0 <= j < r.connections@.len() ==> (#[trigger] r.connections@[j]).innovation == j
                    && r.connections@[j].enabled,
            forall|j: int|
                0 <= j < r.connections@.len() ==> (weight_strategy matches NewConnectionWeight::Fixed(
                    w,
                ) ==> (#[trigger] r.connections@[j]).weight == w),
            forall|i: usize| #[trigger] r.spec_has_gene(i) <==> i < self.connections@.len(),
    {
        let mut genome = Genome::new(self, id, generation);
        let n = self.nodes.len();
        let mut i: usize = 0;
        while i < n
            invariant
                self.wf(),
                self.nodes@.len() + self.input_count + self.output_count + 2 <= usize::MAX,
                n == self.nodes@.len(),
                i <= n,
                genome.wf(),
                genome.consistent_with(*self),
                genome.id == id,
                genome.generation == generation,
                genome.input_count == self.input_count,
                genome.output_count == self.output_count,
                genome.connections@.len() == 0,
                genome.order.entries@.len() == 0,
                genome.nodes@.len() <= i + self.input_count + self.output_count,
                forall|d: usize| d < i ==> #[trigger] genome.spec_has_node(d),
            decreases n - i,
        {
            proof {
                let nt = self.nodes@[i as int].node_type;
                match nt {
                    NodeType::Input(ord) => {
                        assert(ord < self.input_count);
                        let d = genome.nodes@[ord as int].node_id;
                        assert(genome.nodes@[ord as int].node_type == NodeType::Input(
                            ord as usize,
                        ));
                        assert(self.nodes@[d as int].node_type == NodeType::Input(ord as usize));
                        assert(d == i) by {
                            if d < i as usize {
                                assert(self.nodes@[d as int].node_type == NodeType::Input(ord));
                                assert(self.nodes@[i as int].node_type == NodeType::Input(ord));
                            } else if d > i as usize {
                                assert(self.nodes@[i as int].node_type == NodeType::Input(ord));
                                assert(self.nodes@[d as int].node_type == NodeType::Input(ord));
                            }
                        }
                        assert(genome.spec_has_node(i));
                    },
                    NodeType::Output(ord) => {
                        assert(ord < self.output_count);
                        let slot = self.input_count + ord;
                        let d = genome.nodes@[slot as int].node_id;
                        assert(genome.nodes@[slot as int].node_type == NodeType::Output(
                            ord as usize,
                        ));
                        assert(self.nodes@[d as int].node_type == NodeType::Output(ord as usize));
                        assert(d == i) by {
                            if d < i as usize {
                                assert(self.nodes@[d as int].node_type == NodeType::Output(ord));
                            } else if d > i as usize {
                                assert(self.nodes@[i as int].node_type == NodeType::Output(ord));
                            }
                        }
                        assert(genome.spec_has_node(i));
                    },
                    NodeType::Hidden => {},
                }
                assert(genome.addable(*self, i));
            }
            genome.add_node(self, i);
            i = i + 1;
        }
        let m = self.connections.len();
        let mut j: usize = 0;
        while j < m
            invariant
                self.wf(),
                weight_strategy.valid(),
                self.nodes@.len() + self.input_count + self.output_count + 2 <= usize::MAX,
                self.connections@.len() < usize::MAX,
                m == self.connections@.len(),
                j <= m,
                genome.wf(),
                genome.consistent_with(*self),
                genome.id == id,
                genome.generation == generation,
                genome.input_count == self.input_count,
                genome.output_count == self.output_count,
                genome.nodes@.len() + 2 <= usize::MAX,
                forall|d: usize| d < self.nodes@.len() ==> #[trigger] genome.spec_has_node(d),
                genome.connections@.len() == j,
                forall|jj: int|
                    0 <= jj < j ==> (#[trigger] genome.connections@[jj]).innovation == jj
                        && genome.connections@[jj].enabled,
                forall|jj: int|
                    0 <= jj < j ==> (weight_strategy matches NewConnectionWeight::Fixed(w) ==> (
                    #[trigger] genome.connections@[jj]).weight == w),
                forall|i2: usize| #[trigger] genome.spec_has_gene(i2) <==> i2 < j,
            decreases m - j,
        {
            let connection = self.connections[j];
            proof {
                assert(connection.innovation == j);
                assert(!genome.spec_has_gene(connection.innovation));
                assert(genome.addable(*self, connection.from));
                assert(genome.addable(*self, connection.to));
            }
            genome.add_new_connection(self, connection, weight_strategy);
            j = j + 1;
        }
        genome
    }
}

impl Genome {
    /// Adopt a pool connection as a new enabled gene with a weight drawn by
    /// the strategy.
    pub fn add_new_connection(
        &mut self,
        pool: &GenePool,
        connection: Connection,
        weight_strategy: &NewConnectionWeight,
    )
        requires
            old(self).wf(),
            pool.wf(),
            old(self).consistent_with(*pool),
            connection.innovation < pool.connections@.len(),
            pool.connections@[connection.innovation as int] == connection,
            !old(self).spec_has_gene(connection.innovation),
            weight_strategy.valid(),
            old(self).addable(*pool, connection.from),
            old(self).addable(*pool, connection.to),
            old(self).nodes@.len() + 2 <= usize::MAX,
            old(self).connections@.len() < usize::MAX,
        ensures
            final(self).wf(),
            final(self).consistent_with(*pool),
            final(self).id == old(self).id,
            final(self).generation == old(self).generation,
            final(self).input_count == old(self).input_count,
            final(self).output_count == old(self).output_count,
            final(self).connections@.len() == old(self).connections@.len() + 1,
            forall|j: int|
                0 <= j < old(self).connections@.len() ==> final(self).connections@[j] == old(self).connections@[j],
            ({
                let g = final(self).connections@[old(self).connections@.len() as int];
                &&& g.innovation == connection.innovation
                &&& g.enabled
                &&& (weight_strategy matches NewConnectionWeight::Fixed(w) ==> g.weight == w)
            }),
            forall|i: usize|
                #[trigger] final(self).spec_has_gene(i) <==> (old(self).spec_has_gene(i) || i
                    == connection.innovation),
            forall|i: usize|
                i != connection.innovation && old(self).spec_has_gene(i) ==> #[trigger] final(self).gene_entry(i) == old(self).gene_entry(i),
            old(self).nodes@.len() <= final(self).nodes@.len() <= old(self).nodes@.len() + 2,
            forall|i: int|
                0 <= i < old(self).nodes@.len() ==> (#[trigger] final(self).nodes@[i]).node_id
                    == old(self).nodes@[i].node_id && final(self).nodes@[i].node_type == old(self).nodes@[i].node_type && final(self).nodes@[i].depth == old(self).nodes@[i].depth,
            forall|d: usize| old(self).spec_has_node(d) ==> #[trigger] final(self).spec_has_node(d),
            final(self).spec_has_node(connection.from),
            final(self).spec_has_node(connection.to),
            old(self).spec_has_node(connection.from) && old(self).spec_has_node(connection.to)
                ==> final(self).nodes@.len() == old(self).nodes@.len(),
    {
        let weight = NewConnectionWeight::sample_weight(weight_strategy);
        self.add_connection(pool, connection, weight, true);
    }
}

/// The coefficients of the compatibility distance: disjoint, excess and
/// weight-difference terms.
#[derive(Clone, Copy, Debug, PartialEq, Eq, Structural)]
pub struct DistanceConfig {
    pub c1: i64,
    pub c2: i64,
    pub c3: i64,
}

impl DistanceConfig {
    /// Coefficients are non-negative and within the fixed-point range.
    pub open spec fn valid(self) -> bool {
        &&& 0 <= self.c1 <= WEIGHT_LIMIT
        &&& 0 <= self.c2 <= WEIGHT_LIMIT
        &&& 0 <= self.c3 <= WEIGHT_LIMIT
    }

    /// Reject negative or oversized coefficients.
    pub fn validate(&self) -> (r: Result<(), ConfigError>)
        ensures
            r is Ok <==> self.valid(),
    {
        let a = assert_not_negative(self.c1);
        if a.is_err() {
            return a;
        }
        let b = assert_not_negative(self.c2);
        if b.is_err() {
            return b;
        }
        assert_not_negative(self.c3)
    }
}

/// The absolute difference of two values.
pub open spec fn abs_diff_spec(a: int, b: int) -> int {
    if a >= b {
        a - b
    } else {
        b - a
    }
}

/// The gene-alignment counts of two innovation-sorted gene lists, each entry
/// an `(innovation, weight)` pair: `similar` genes appear in both, `disjoint`
/// genes are skipped over while both lists still run, `excess` genes are the
/// leftover tail of the longer list, and `weight_diff` sums the absolute
/// weight differences of similar genes.
pub struct DistanceStats {
    pub similar: int,
    pub disjoint: int,
    pub excess: int,
    pub weight_diff: int,
}

/// Walk two innovation-sorted gene lists in step, classifying genes.
pub open spec fn dstats(a: Seq<(usize, i64)>, b: Seq<(usize, i64)>) -> DistanceStats
    decreases a.len() + b.len(),
{
    if a.len() == 0 || b.len() == 0 {
        DistanceStats {
            similar: 0,
            disjoint: 0,
            excess: if a.len() >= b.len() {
                a.len() as int
            } else {
                b.len() as int
            },
            weight_diff: 0,
        }
    } else if a[0].0 == b[0].0 {
        let rest = dstats(a.skip(1), b.skip(1));
        DistanceStats {
            similar: rest.similar + 1,
            disjoint: rest.disjoint,
            excess: rest.excess,
            weight_diff: rest.weight_diff + abs_diff_spec(a[0].1 as int, b[0].1 as int),
        }
    } else if a[0].0 < b[0].0 {
        let rest = dstats(a.skip(1), b);
        DistanceStats {
            similar: rest.similar,
            disjoint: rest.disjoint + 1,
            excess: rest.excess,
            weight_diff: rest.weight_diff,
        }
    } else {
        let rest = dstats(a, b.skip(1));
        DistanceStats {
            similar: rest.similar,
            disjoint: rest.disjoint + 1,
            excess: rest.excess,
            weight_diff: rest.weight_diff,
        }
    }
}

/// A genome's genes in ascending innovation order, as
/// `(innovation, weight)` pairs.
pub open spec fn gene_align_seq(g: Genome) -> Seq<(usize, i64)> {
    g.order.entries@.map(|k: int, e: (usize, usize)| (e.0, g.connections@[e.1 as int].weight))
}

/// The compatibility distance of two genomes:
/// `(disjoint * c1 + excess * c2) / n + ((weight_diff / similar) * c3) / SCALE`
/// with `n` the larger gene count; two empty genomes are at distance 0, and
/// the weight term is 0 when no gene is shared.
pub open spec fn distance_spec(a: Genome, b: Genome, cfg: DistanceConfig) -> int {
    let s = dstats(gene_align_seq(a), gene_align_seq(b));
    let n = if a.connections@.len() >= b.connections@.len() {
        a.connections@.len() as int
    } else {
        b.connections@.len() as int
    };
    if n == 0 {
        0
    } else {
        let structural = (s.disjoint * cfg.c1 + s.excess * cfg.c2) / n;
        let weights = if s.similar == 0 {
            0
        } else {
            ((s.weight_diff / s.similar) * cfg.c3) / (SCALE as int)
        };
        structural + weights
    }
}

/// Aligning a gene list with itself finds every gene similar, none disjoint
/// or excess, and no weight difference.
pub proof fn lemma_dstats_self(a: Seq<(usize, i64)>)
    ensures
        dstats(a, a) == (DistanceStats {
            similar: a.len() as int,
            disjoint: 0,
            excess: 0,
            weight_diff: 0,
        }),
    decreases a.len(),
{
    if a.len() == 0 {
    } else {
        lemma_dstats_self(a.skip(1));
    }
}

/// Gene alignment is symmetric in every count.
pub proof fn lemma_dstats_symmetric(a: Seq<(usize, i64)>, b: Seq<(usize, i64)>)
    ensures
        dstats(a, b) == dstats(b, a),
    decreases a.len() + b.len(),
{
    if a.len() == 0 || b.len() == 0 {
    } else if a[0].0 == b[0].0 {
        lemma_dstats_symmetric(a.skip(1), b.skip(1));
    } else if a[0].0 < b[0].0 {
        lemma_dstats_symmetric(a.skip(1), b);
    } else {
        lemma_dstats_symmetric(a, b.skip(1));
    }
}

/// Every genome is at distance 0 from itself.
pub proof fn lemma_distance_self_zero(g: Genome, cfg: DistanceConfig)
    requires
        g.wf(),
        cfg.valid(),
    ensures
        distance_spec(g, g, cfg) == 0,
{
    lemma_dstats_self(gene_align_seq(g));
    let s = dstats(gene_align_seq(g), gene_align_seq(g));
    assert(gene_align_seq(g).len() == g.connections@.len());
    let n = g.connections@.len() as int;
    if n != 0 {
        assert(s.disjoint * cfg.c1 == 0) by (nonlinear_arith)
            requires
                s.disjoint == 0,
        ;
        assert(s.excess * cfg.c2 == 0) by (nonlinear_arith)
            requires
                s.excess == 0,
        ;
        assert((0int) / n == 0);
        assert(s.similar == n);
        assert(s.weight_diff / s.similar == 0) by (nonlinear_arith)
            requires
                s.weight_diff == 0,
                s.similar >= 1,
        ;
        assert((0int) * cfg.c3 == 0) by (nonlinear_arith);
        assert((0int) / (SCALE as int) == 0);
    }
}

/// The compatibility distance is symmetric.
pub proof fn lemma_distance_symmetric(a: Genome, b: Genome, cfg: DistanceConfig)
    ensures
        distance_spec(a, b, cfg) == distance_spec(b, a, cfg),
{
    lemma_dstats_symmetric(gene_align_seq(a), gene_align_seq(b));
}

/// Congruent genomes are at the same distance from every genome: the
/// distance depends only on the gene lists, which congruence preserves.
pub proof fn lemma_congruent_distance(a: Genome, b: Genome, c: Genome, cfg: DistanceConfig)
    requires
        genome_congruent(a, b),
    ensures
        distance_spec(a, c, cfg) == distance_spec(b, c, cfg),
        distance_spec(c, a, cfg) == distance_spec(c, b, cfg),
{
    assert(gene_align_seq(a) =~= gene_align_seq(b));
}

impl Genome {
    /// The compatibility distance to another genome, by a simultaneous walk
    /// of both gene lists in ascending innovation order.
    pub fn distance(&self, other: &Genome, config: &DistanceConfig) -> (r: u128)
        requires
            self.wf(),
            other.wf(),
            config.valid(),
        ensures
            r as int == distance_spec(*self, *other, *config),
    {
        let ghost ga = gene_align_seq(*self);
        let ghost gb = gene_align_seq(*other);
        proof {
            lemma_align_bounded(*self);
            lemma_align_bounded(*other);
            assert(ga.skip(0) =~= ga);
            assert(gb.skip(0) =~= gb);
        }
        let an = self.order.len();
        let bn = other.order.len();
        let mut ia: usize = 0;
        let mut ib: usize = 0;
        let mut similar: u128 = 0;
        let mut disjoint: u128 = 0;
        let mut weight_diff: u128 = 0;
        while ia < an && ib < bn
            invariant
                self.wf(),
                other.wf(),
                config.valid(),
                ga == gene_align_seq(*self),
                gb == gene_align_seq(*other),
                an == ga.len(),
                bn == gb.len(),
                ia <= an,
                ib <= bn,
                similar <= ia && similar <= ib,
                disjoint <= ia + ib,
                weight_diff <= similar * (2 * WEIGHT_LIMIT as int),
                dstats(ga, gb).similar == similar + dstats(
                    ga.skip(ia as int),
                    gb.skip(ib as int),
                ).similar,
                dstats(ga, gb).disjoint == disjoint + dstats(
                    ga.skip(ia as int),
                    gb.skip(ib as int),
                ).disjoint,
                dstats(ga, gb).excess == dstats(ga.skip(ia as int), gb.skip(ib as int)).excess,
                dstats(ga, gb).weight_diff == weight_diff + dstats(
                    ga.skip(ia as int),
                    gb.skip(ib as int),
                ).weight_diff,
            decreases an + bn - ia - ib,
        {
            let ea = self.order.entries[ia];
            let eb = other.order.entries[ib];
            proof {
                lemma_entry_lookup(self.order, ia as int);
                lemma_entry_lookup(other.order, ib as int);
                assert(ga[ia as int] == (ea.0, self.connections@[ea.1 as int].weight));
                assert(gb[ib as int] == (eb.0, other.connections@[eb.1 as int].weight));
                assert(ga.skip(ia as int)[0] == ga[ia as int]);
                assert(gb.skip(ib as int)[0] == gb[ib as int]);
            }
            if ea.0 == eb.0 {
                let wa = self.connections[ea.1].weight;
                let wb = other.connections[eb.1].weight;
                let d: u128 = if wa >= wb {
                    (wa - wb) as u128
                } else {
                    (wb - wa) as u128
                };
                proof {
                    assert(ga.skip(ia as int).skip(1) =~= ga.skip(ia + 1));
                    assert(gb.skip(ib as int).skip(1) =~= gb.skip(ib + 1));
                    assert(-WEIGHT_LIMIT <= self.connections@[ea.1 as int].weight <= WEIGHT_LIMIT);
                    assert(-WEIGHT_LIMIT <= other.connections@[eb.1 as int].weight <= WEIGHT_LIMIT);
                    assert((similar + 1) * (2 * WEIGHT_LIMIT as int) == similar * (2
                        * WEIGHT_LIMIT as int) + 2 * WEIGHT_LIMIT as int) by (nonlinear_arith);
                }
                proof {
                    assert(similar * (2 * WEIGHT_LIMIT as int)
                        <= 80000000000000000000000000000000int) by (nonlinear_arith)
                        requires
                            0 <= similar <= 20000000000000000000int,
                    ;
                }
                similar = similar + 1;
                weight_diff = weight_diff + d;
                ia = ia + 1;
                ib = ib + 1;
            } else if ea.0 < eb.0 {
                proof {
                    assert(ga.skip(ia as int).skip(1) =~= ga.skip(ia + 1));
                }
                disjoint = disjoint + 1;
                ia = ia + 1;
            } else {
                proof {
                    assert(gb.skip(ib as int).skip(1) =~= gb.skip(ib + 1));
                }
                disjoint = disjoint + 1;
                ib = ib + 1;
            }
        }
        let excess: u128 = if an - ia >= bn - ib {
            (an - ia) as u128
        } else {
            (bn - ib) as u128
        };
        proof {
            let resta = ga.skip(ia as int);
            let restb = gb.skip(ib as int);
            assert(resta.len() == 0 || restb.len() == 0);
            assert(dstats(resta, restb).similar == 0);
            assert(dstats(resta, restb).disjoint == 0);
            assert(dstats(resta, restb).weight_diff == 0);
            assert(dstats(resta, restb).excess == excess as int);
        }
        let n: u128 = if an >= bn {
            an as u128
        } else {
            bn as u128
        };
        proof {
            assert(self.order.entries@.len() == self.connections@.len());
            assert(other.order.entries@.len() == other.connections@.len());
        }
        if n == 0 {
            return 0;
        }
        proof {
            let di = disjoint as int;
            let ei = excess as int;
            let c1 = config.c1 as int;
            let c2 = config.c2 as int;
            assert(di * c1 <= (an + bn) * (WEIGHT_LIMIT as int) && 0 <= di * c1)
                by (nonlinear_arith)
                requires
                    0 <= di <= an + bn,
                    0 <= c1 <= WEIGHT_LIMIT as int,
            ;
            assert(ei * c2 <= (an + bn) * (WEIGHT_LIMIT as int) && 0 <= ei * c2)
                by (nonlinear_arith)
                requires
                    0 <= ei <= an + bn,
                    0 <= c2 <= WEIGHT_LIMIT as int,
            ;
            assert((an + bn) * (WEIGHT_LIMIT as int) <= 37000000000000000000000000000000int)
                by (nonlinear_arith)
                requires
                    an + bn <= 37000000000000000000int,
            ;
        }
        let structural: u128 = (disjoint * (config.c1 as u128) + excess * (config.c2 as u128)) / n;
        let weights: u128 = if similar == 0 {
            0
        } else {
            proof {
                let wdi = weight_diff as int;
                let si = similar as int;
                let c3 = config.c3 as int;
                assert(0 <= wdi / si <= 2 * WEIGHT_LIMIT as int) by (nonlinear_arith)
                    requires
                        0 <= wdi <= si * (2 * WEIGHT_LIMIT as int),
                        1 <= si,
                ;
                assert(0 <= (wdi / si) * c3 <= (2 * WEIGHT_LIMIT as int) * (WEIGHT_LIMIT as int))
                    by (nonlinear_arith)
                    requires
                        0 <= wdi / si <= 2 * WEIGHT_LIMIT as int,
                        0 <= c3 <= WEIGHT_LIMIT as int,
                ;
            }
            ((weight_diff / similar) * (config.c3 as u128)) / (SCALE as u128)
        };
        structural + weights
    }
}

/// Every weight in a well-formed genome's alignment sequence is within the
/// weight range.
pub proof fn lemma_align_bounded(g: Genome)
    requires
        g.wf(),
    ensures
        forall|i: int|
            0 <= i < gene_align_seq(g).len() ==> -WEIGHT_LIMIT <= (
            #[trigger] gene_align_seq(g)[i]).1 <= WEIGHT_LIMIT,
        gene_align_seq(g).len() == g.connections@.len(),
{
    assert forall|i: int|
        0 <= i < gene_align_seq(g).len() implies -WEIGHT_LIMIT <= (
    #[trigger] gene_align_seq(g)[i]).1 <= WEIGHT_LIMIT by {
        lemma_entry_lookup(g.order, i);
        assert(g.order.entries@[i].1 < g.connections@.len());
    }
}

/// How a gene present in both parents chooses its weight.
#[derive(Clone, Copy, Debug, PartialEq, Eq, Structural)]
pub enum CrossoverWeightStrategy {
    /// The weight of a uniformly chosen parent.
    Random,
    /// The weight of the fitter parent (the receiver of `crossover`).
    Better,
    /// The arithmetic mean of both weights.
    Mean,
}

/// How crossover combines two parents.
#[derive(Clone, Copy, Debug, PartialEq, Eq, Structural)]
pub struct CrossoverConfig {
    /// Probability that a gene on which the parents disagree ends disabled.
    pub disable_connection_prob: i64,
    pub weight_strategy: CrossoverWeightStrategy,
}

impl CrossoverConfig {
    /// The disable probability is a probability.
    pub open spec fn valid(self) -> bool {
        0 <= self.disable_connection_prob <= SCALE
    }

    /// Reject an out-of-range disable probability.
    pub fn validate(&self) -> (r: Result<(), ConfigError>)
        ensures
            r is Ok <==> self.valid(),
    {
        assert_probability(self.disable_connection_prob)
    }
}

/// The truncating mean of two weights.
pub open spec fn mean_weight_spec(a: int, b: int) -> int {
    tdiv(a + b, 2)
}

/// What may come out of crossing one gene present in both parents: `a` is
/// the fitter parent's `(weight, enabled)` entry, `b` the other parent's,
/// `c` the offspring's. An enabled bit the parents disagree on is drawn,
/// but its endpoints are fixed: a disable probability of 0 keeps the gene
/// enabled, one of `SCALE` always disables it.
pub open spec fn crossover_gene_ok(
    cfg: CrossoverConfig,
    a: (i64, bool),
    b: (i64, bool),
    c: (i64, bool),
) -> bool {
    &&& match cfg.weight_strategy {
        CrossoverWeightStrategy::Random => c.0 == a.0 || c.0 == b.0,
        CrossoverWeightStrategy::Better => c.0 == a.0,
        CrossoverWeightStrategy::Mean => c.0 as int == mean_weight_spec(a.0 as int, b.0 as int),
    }
    &&& (a.1 == b.1 ==> c.1 == a.1)
    &&& (a.1 != b.1 && cfg.disable_connection_prob == 0 ==> c.1)
    &&& (a.1 != b.1 && cfg.disable_connection_prob == SCALE ==> !c.1)
}

/// A genome stays consistent with every extension of its pool.
pub proof fn lemma_consistency_extends(g: Genome, older: GenePool, newer: GenePool)
    requires
        g.consistent_with(older),
        newer.extends(older),
    ensures
        g.consistent_with(newer),
{
    assert forall|i: int|
        0 <= i < g.nodes@.len() implies (#[trigger] g.nodes@[i]).node_id < newer.nodes@.len()
            && newer.nodes@[g.nodes@[i].node_id as int].node_type == g.nodes@[i].node_type
            && newer.nodes@[g.nodes@[i].node_id as int].depth == g.nodes@[i].depth by {
        assert(newer.nodes@[g.nodes@[i].node_id as int] == older.nodes@[g.nodes@[i].node_id as int]);
    }
    assert forall|j: int|
        0 <= j < g.connections@.len() implies (#[trigger] g.connections@[j]).innovation
            < newer.connections@.len() && newer.connections@[g.connections@[j].innovation as int].from
            == g.nodes@[g.connections@[j].from as int].node_id
            && newer.connections@[g.connections@[j].innovation as int].to == g.nodes@[g.connections@[j].to as int].node_id by {
        assert(newer.connections@[g.connections@[j].innovation as int]
            == older.connections@[g.connections@[j].innovation as int]);
    }
}

/// In a genome built over a pool with the same input and output counts,
/// every pool node may be adopted: hidden nodes always, and each input or
/// output node is already sitting in its slot.
pub proof fn lemma_io_nodes_present(g: Genome, pool: GenePool, d: usize)
    requires
        g.wf(),
        pool.wf(),
        g.consistent_with(pool),
        g.input_count == pool.input_count,
        g.output_count == pool.output_count,
        d < pool.nodes@.len(),
    ensures
        g.addable(pool, d),
{
    match pool.nodes@[d as int].node_type {
        NodeType::Input(k) => {
            assert(k < pool.input_count);
            let d2 = g.nodes@[k as int].node_id;
            assert(g.nodes@[k as int].node_type == NodeType::Input(k));
            assert(pool.nodes@[d2 as int].node_type == NodeType::Input(k));
            assert(d2 == d) by {
                if d2 < d {
                    assert(pool.nodes@[d2 as int].node_type == NodeType::Input(k));
                    assert(pool.nodes@[d as int].node_type == NodeType::Input(k));
                } else if d < d2 {
                    assert(pool.nodes@[d as int].node_type == NodeType::Input(k));
                    assert(pool.nodes@[d2 as int].node_type == NodeType::Input(k));
                }
            }
            assert(g.spec_has_node(d));
        },
        NodeType::Output(k) => {
            assert(k < pool.output_count);
            let slot = g.input_count + k;
            let d2 = g.nodes@[slot as int].node_id;
            assert(g.nodes@[slot as int].node_type == NodeType::Output(k));
            assert(pool.nodes@[d2 as int].node_type == NodeType::Output(k));
            assert(d2 == d) by {
                if d2 < d {
                    assert(pool.nodes@[d2 as int].node_type == NodeType::Output(k));
                } else if d < d2 {
                    assert(pool.nodes@[d as int].node_type == NodeType::Output(k));
                }
            }
            assert(g.spec_has_node(d));
        },
        NodeType::Hidden => {},
    }
}

impl Genome {
    /// Cross this genome (contractually the fitter parent) with another:
    /// the offspring carries exactly this genome's gene set; genes the other
    /// parent shares combine weights by the configured strategy and keep a
    /// shared enabled bit (an enabled bit the parents disagree on is drawn),
    /// and all other genes are copied from this genome verbatim.
    ///
    /// In particular every offspring innovation belongs to one of the two
    /// parents.
    #[verifier::rlimit(100)]
    pub fn crossover(
        &self,
        other: &Genome,
        pool: &GenePool,
        config: &CrossoverConfig,
        id: u64,
        generation: u32,
    ) -> (r: Genome)
        requires
            self.wf(),
            other.wf(),
            pool.wf(),
            self.consistent_with(*pool),
            other.consistent_with(*pool),
            config.valid(),
            pool.input_count + pool.output_count + 2 * self.connections@.len() + 2 <= usize::MAX,
        ensures
            r.wf(),
            r.consistent_with(*pool),
            r.id == id,
            r.generation == generation,
            r.input_count == pool.input_count,
            r.output_count == pool.output_count,
            forall|i: usize| #[trigger] r.spec_has_gene(i) == self.spec_has_gene(i),
            forall|i: usize|
                #[trigger] r.spec_has_gene(i) ==> self.spec_has_gene(i) || other.spec_has_gene(i),
            forall|i: usize|
                self.spec_has_gene(i) && other.spec_has_gene(i)
                    ==> crossover_gene_ok(
                    *config,
                    self.gene_entry(i),
                    other.gene_entry(i),
                    #[trigger] r.gene_entry(i),
                ),
            forall|i: usize|
                self.spec_has_gene(i) && !other.spec_has_gene(i) ==> #[trigger] r.gene_entry(i)
                    == self.gene_entry(i),
    {
        let mut offspring = Genome::new(pool, id, generation);
        let an = self.order.len();
        let mut k: usize = 0;
        while k < an
            invariant
                self.wf(),
                other.wf(),
                pool.wf(),
                self.consistent_with(*pool),
                other.consistent_with(*pool),
                config.valid(),
                pool.input_count + pool.output_count + 2 * self.connections@.len() + 2
                    <= usize::MAX,
                an == self.order.entries@.len(),
                k <= an,
                offspring.wf(),
                offspring.consistent_with(*pool),
                offspring.id == id,
                offspring.generation == generation,
                offspring.input_count == pool.input_count,
                offspring.output_count == pool.output_count,
                offspring.nodes@.len() <= pool.input_count + pool.output_count + 2 * k,
                offspring.connections@.len() == k,
                offspring.order.entries@.len() == k,
                forall|jj: int|
                    0 <= jj < k ==> #[trigger] offspring.order.entries@[jj] == (
                        self.order.entries@[jj].0,
                        jj as usize,
                    ),
                forall|jj: int|
                    0 <= jj < k ==> {
                        let i = (#[trigger] self.order.entries@[jj]).0;
                        if other.spec_has_gene(i) {
                            crossover_gene_ok(
                                *config,
                                self.gene_entry(i),
                                other.gene_entry(i),
                                offspring.gene_entry(i),
                            )
                        } else {
                            offspring.gene_entry(i) == self.gene_entry(i)
                        }
                    },
            decreases an - k,
        {
            let entry = self.order.entries[k];
            let innovation = entry.0;
            proof {
                lemma_entry_lookup(self.order, k as int);
                assert(entry.1 < self.connections@.len());
            }
            let ga = self.connections[entry.1];
            proof {
                assert(ga.innovation == innovation);
                assert(self.spec_has_gene(innovation));
                assert(self.gene_entry(innovation) == (ga.weight, ga.enabled));
                if offspring.spec_has_gene(innovation) {
                    let w = offspring.order.index_of(innovation);
                    assert(offspring.order.entries@[w] == (self.order.entries@[w].0, w as usize));
                    assert(self.order.entries@[w].0 < self.order.entries@[k as int].0);
                }
                assert(ga.innovation < pool.connections@.len());
                lemma_io_nodes_present(
                    offspring,
                    *pool,
                    pool.connections@[innovation as int].from,
                );
                lemma_io_nodes_present(offspring, *pool, pool.connections@[innovation as int].to);
            }
            let pc = pool.connections[innovation];
            let matched = other.order.get(innovation);
            let weight: i64;
            let enabled: bool;
            match matched {
                Some(ob_idx) => {
                    let gb = other.connections[ob_idx];
                    proof {
                        assert(other.gene_entry(innovation) == (gb.weight, gb.enabled));
                        assert(-WEIGHT_LIMIT <= ga.weight <= WEIGHT_LIMIT);
                        assert(-WEIGHT_LIMIT <= gb.weight <= WEIGHT_LIMIT);
                    }
                    weight = match config.weight_strategy {
                        CrossoverWeightStrategy::Random => {
                            if random_below(2) == 0 {
                                ga.weight
                            } else {
                                gb.weight
                            }
                        },
                        CrossoverWeightStrategy::Better => ga.weight,
                        CrossoverWeightStrategy::Mean => {
                            let m = div_trunc((ga.weight as i128) + (gb.weight as i128), 2);
                            m as i64
                        },
                    };
                    enabled = if ga.enabled == gb.enabled {
                        ga.enabled
                    } else {
                        !random_decision(config.disable_connection_prob)
                    };
                },
                None => {
                    weight = ga.weight;
                    enabled = ga.enabled;
                },
            }
            let ghost pre = offspring;
            offspring.add_connection(pool, pc, weight, enabled);
            proof {
                assert forall|jj: int|
                    0 <= jj < k + 1 implies #[trigger] offspring.order.entries@[jj] == (
                        self.order.entries@[jj].0,
                        jj as usize,
                    ) by {
                    if jj < k as int {
                        assert(pre.order.entries@[jj] == (self.order.entries@[jj].0, jj as usize));
                    }
                }
                assert forall|jj: int|
                    0 <= jj < k + 1 implies {
                        let i = (#[trigger] self.order.entries@[jj]).0;
                        if other.spec_has_gene(i) {
                            crossover_gene_ok(
                                *config,
                                self.gene_entry(i),
                                other.gene_entry(i),
                                offspring.gene_entry(i),
                            )
                        } else {
                            offspring.gene_entry(i) == self.gene_entry(i)
                        }
                    } by {
                    let i = self.order.entries@[jj].0;
                    if jj < k as int {
                        assert(i != innovation) by {
                            assert(self.order.entries@[jj].0 < self.order.entries@[k as int].0);
                        }
                        assert(pre.order.entries@[jj] == (self.order.entries@[jj].0, jj as usize));
                        assert(pre.order.entries@[jj].0 == i);
                        assert(pre.spec_has_gene(i));
                        assert(offspring.gene_entry(i) == pre.gene_entry(i));
                    } else {
                        assert(offspring.gene_entry(innovation) == (weight, enabled));
                    }
                }
            }
            k = k + 1;
        }
        proof {
            assert forall|i: usize| #[trigger] offspring.spec_has_gene(i) == self.spec_has_gene(
                i,
            ) by {
                if offspring.spec_has_gene(i) {
                    let w = offspring.order.index_of(i);
                    assert(offspring.order.entries@[w].0 == i);
                    assert(self.order.entries@[w].0 == i);
                    assert(self.spec_has_gene(i));
                }
                if self.spec_has_gene(i) {
                    let w = self.order.index_of(i);
                    assert(self.order.entries@[w].0 == i);
                    assert(offspring.order.entries@[w].0 == i);
                    assert(offspring.spec_has_gene(i));
                }
            }
            assert forall|i: usize|
                self.spec_has_gene(i) && other.spec_has_gene(i) implies crossover_gene_ok(
                *config,
                self.gene_entry(i),
                other.gene_entry(i),
                #[trigger] offspring.gene_entry(i),
            ) by {
                let w = self.order.index_of(i);
                assert(self.order.entries@[w].0 == i);
            }
            assert forall|i: usize|
                self.spec_has_gene(i) && !other.spec_has_gene(i)
                    implies #[trigger] offspring.gene_entry(i) == self.gene_entry(i) by {
                let w = self.order.index_of(i);
                assert(self.order.entries@[w].0 == i);
            }
        }
        offspring
    }
}

/// Parameters of an approximately normal draw, in fixed point.
#[derive(Clone, Copy, Debug, PartialEq, Eq, Structural)]
pub struct NormalDistribution {
    pub mean: i64,
    pub std_dev: i64,
}

impl NormalDistribution {
    /// Parameters stay within the admitted weight range.
    pub open spec fn valid(self) -> bool {
        -WEIGHT_LIMIT <= self.mean <= WEIGHT_LIMIT && 0 <= self.std_dev <= WEIGHT_LIMIT
    }

    /// Draw from the distribution, clamped into the weight range.
    pub fn sample(&self) -> (r: i64)
        requires
            self.valid(),
        ensures
            -WEIGHT_LIMIT <= r <= WEIGHT_LIMIT,
    {
        sample_normal(self.mean, self.std_dev)
    }
}

/// How a genome mutates: the weight pass, the add-node and add-connection
/// structural mutations, and their probabilities.
#[derive(Clone, Copy, Debug)]
pub struct MutationConfig {
    /// Probability that the per-gene weight pass runs at all.
    pub change_weight_prob: i64,
    /// Replacement weight distribution for a non-shifted weight change.
    pub random_weight_dist: NormalDistribution,
    /// Probability that a weight change shifts instead of replacing.
    pub shift_weight_prob: i64,
    /// Distribution of the additive shift.
    pub shift_weight_dist: NormalDistribution,
    /// Probability of the add-node mutation.
    pub add_node_prob: i64,
    /// Probability of the add-connection mutation.
    pub add_connection_prob: i64,
    /// How many node pairs the add-connection mutation may try.
    pub add_connection_retry_count: u32,
    /// Weight of a freshly added connection gene.
    pub new_connection_weight: NewConnectionWeight,
    /// Probability that the weight pass flips a gene's enabled bit instead.
    pub toggle_connection_prob: i64,
}

impl MutationConfig {
    /// Probabilities are probabilities and distributions stay in range.
    pub open spec fn valid(self) -> bool {
        &&& 0 <= self.change_weight_prob <= SCALE
        &&& 0 <= self.shift_weight_prob <= SCALE
        &&& 0 <= self.add_node_prob <= SCALE
        &&& 0 <= self.add_connection_prob <= SCALE
        &&& 0 <= self.toggle_connection_prob <= SCALE
        &&& self.random_weight_dist.valid()
        &&& self.shift_weight_dist.valid()
        &&& self.new_connection_weight.valid()
    }

    /// Reject out-of-range probabilities or distribution parameters.
    pub fn validate(&self) -> (r: Result<(), ConfigError>)
        ensures
            r is Ok <==> self.valid(),
    {
        let a = assert_probability(self.change_weight_prob);
        if a.is_err() {
            return a;
        }
        let b = assert_probability(self.shift_weight_prob);
        if b.is_err() {
            return b;
        }
        let c = assert_probability(self.add_node_prob);
        if c.is_err() {
            return c;
        }
        let d = assert_probability(self.add_connection_prob);
        if d.is_err() {
            return d;
        }
        let e = assert_probability(self.toggle_connection_prob);
        if e.is_err() {
            return e;
        }
        let f = assert_weight(self.random_weight_dist.mean);
        if f.is_err() {
            return f;
        }
        let g = assert_not_negative(self.random_weight_dist.std_dev);
        if g.is_err() {
            return g;
        }
        let h = assert_weight(self.shift_weight_dist.mean);
        if h.is_err() {
            return h;
        }
        let i = assert_not_negative(self.shift_weight_dist.std_dev);
        if i.is_err() {
            return i;
        }
        match self.new_connection_weight {
            NewConnectionWeight::Random { mean, std_dev } => {
                let j = assert_weight(mean);
                if j.is_err() {
                    return j;
                }
                assert_not_negative(std_dev)
            },
            NewConnectionWeight::Fixed(w) => assert_weight(w),
        }
    }
}

impl Genome {
    /// Overwrite the weight and enabled bit of the gene at a position; the
    /// structure (innovations, endpoints, nodes, order) is untouched.
    pub(crate) fn set_gene(&mut self, index: usize, weight: i64, enabled: bool)
        requires
            old(self).wf(),
            index < old(self).connections@.len(),
            -WEIGHT_LIMIT <= weight <= WEIGHT_LIMIT,
        ensures
            final(self).wf(),
            final(self).nodes@ == old(self).nodes@,
            final(self).order == old(self).order,
            final(self).node_index == old(self).node_index,
            final(self).id == old(self).id,
            final(self).generation == old(self).generation,
            final(self).input_count == old(self).input_count,
            final(self).output_count == old(self).output_count,
            final(self).connections@.len() == old(self).connections@.len(),
            forall|j: int|
                0 <= j < old(self).connections@.len() && j != index ==> final(self).connections@[j]
                    == old(self).connections@[j],
            ({
                let g = final(self).connections@[index as int];
                let o = old(self).connections@[index as int];
                g.innovation == o.innovation && g.from == o.from && g.to == o.to && g.weight
                    == weight && g.enabled == enabled
            }),
            forall|i: usize| #[trigger] final(self).spec_has_gene(i) == old(self).spec_has_gene(i),
            final(self).gene_entry(old(self).connections@[index as int].innovation) == (
                weight,
                enabled,
            ),
            forall|i: usize|
                i != old(self).connections@[index as int].innovation && old(self).spec_has_gene(i)
                    ==> #[trigger] final(self).gene_entry(i) == old(self).gene_entry(i),
            forall|p: GenePool|
                old(self).consistent_with(p) ==> #[trigger] final(self).consistent_with(p),
    {
        let mut g = self.connections[index];
        g.weight = weight;
        g.enabled = enabled;
        self.connections.set(index, g);
        proof {
            let conns = self.connections@;
            let bconns = old(self).connections@;
            let nodes = self.nodes@;
            assert(conns.len() == bconns.len());
            assert(forall|j: int| 0 <= j < conns.len() && j != index ==> conns[j] == bconns[j]);
            assert(conns[index as int].innovation == bconns[index as int].innovation);
            assert forall|i: usize|
                self.order.spec_contains(i) implies #[trigger] self.order.value_of(i) < conns.len()
                    && conns[self.order.value_of(i) as int].innovation == i by {
                assert(bconns[old(self).order.value_of(i) as int].innovation == i);
            }
            assert forall|jj: int|
                0 <= jj < conns.len() implies self.order.spec_contains(
                (#[trigger] conns[jj]).innovation) && self.order.value_of(conns[jj].innovation)
                    == jj by {
                assert(conns[jj].innovation == bconns[jj].innovation);
            }
            assert(self.order_ok());
            assert forall|jj: int| 0 <= jj < conns.len() implies incoming_lists(
                nodes[(#[trigger] conns[jj]).to as int].incoming@,
                jj,
            ) by {
                assert(conns[jj].to == bconns[jj].to);
                assert(incoming_lists(nodes[bconns[jj].to as int].incoming@, jj));
            }
            assert(self.genes_ok());
            assert forall|p: GenePool|
                old(self).consistent_with(p) implies #[trigger] self.consistent_with(p) by {
                assert forall|jj: int|
                    0 <= jj < conns.len() implies (#[trigger] conns[jj]).innovation
                        < p.connections@.len() && p.connections@[conns[jj].innovation as int].from
                        == nodes[conns[jj].from as int].node_id
                        && p.connections@[conns[jj].innovation as int].to == nodes[conns[jj].to as int].node_id by {
                    assert(conns[jj].innovation == bconns[jj].innovation);
                    assert(conns[jj].from == bconns[jj].from && conns[jj].to == bconns[jj].to);
                }
            }
        }
    }

    /// The weight-mutation pass: with the configured gate probability, walk
    /// every gene and either flip its enabled bit, shift its weight, or
    /// replace its weight, each with its configured probability. Structure
    /// is untouched.
    pub fn mutate_connections(&mut self, config: &MutationConfig)
        requires
            old(self).wf(),
            config.valid(),
        ensures
            final(self).wf(),
            final(self).nodes@ == old(self).nodes@,
            final(self).order == old(self).order,
            final(self).node_index == old(self).node_index,
            final(self).id == old(self).id,
            final(self).generation == old(self).generation,
            final(self).input_count == old(self).input_count,
            final(self).output_count == old(self).output_count,
            final(self).connections@.len() == old(self).connections@.len(),
            forall|j: int|
                0 <= j < old(self).connections@.len() ==> (#[trigger] final(self).connections@[j]).innovation
                    == old(self).connections@[j].innovation && final(self).connections@[j].from
                    == old(self).connections@[j].from && final(self).connections@[j].to == old(self).connections@[j].to,
            forall|i: usize| #[trigger] final(self).spec_has_gene(i) == old(self).spec_has_gene(i),
            forall|p: GenePool|
                old(self).consistent_with(p) ==> #[trigger] final(self).consistent_with(p),
    {
        let ghost orig = *self;
        if !random_decision(config.change_weight_prob) {
            return ;
        }
        let n = self.connections.len();
        let mut j: usize = 0;
        while j < n
            invariant
                config.valid(),
                self.wf(),
                n == self.connections@.len(),
                j <= n,
                self.nodes@ == orig.nodes@,
                self.order == orig.order,
                self.node_index == orig.node_index,
                self.id == orig.id,
                self.generation == orig.generation,
                self.input_count == orig.input_count,
                self.output_count == orig.output_count,
                self.connections@.len() == orig.connections@.len(),
                forall|jj: int|
                    0 <= jj < orig.connections@.len() ==> (#[trigger] self.connections@[jj]).innovation
                        == orig.connections@[jj].innovation && self.connections@[jj].from
                        == orig.connections@[jj].from && self.connections@[jj].to
                        == orig.connections@[jj].to,
                forall|i: usize| #[trigger] self.spec_has_gene(i) == orig.spec_has_gene(i),
                forall|p: GenePool|
                    orig.consistent_with(p) ==> #[trigger] self.consistent_with(p),
            decreases n - j,
        {
            let gene = self.connections[j];
            let ghost pre = *self;
            if random_decision(config.toggle_connection_prob) {
                self.set_gene(j, gene.weight, !gene.enabled);
            } else if gene.enabled {
                if random_decision(config.shift_weight_prob) {
                    let shift = config.shift_weight_dist.sample();
                    let shifted = clamp_weight((gene.weight as i128) + (shift as i128));
                    self.set_gene(j, shifted, true);
                } else {
                    let fresh = config.random_weight_dist.sample();
                    self.set_gene(j, fresh, true);
                }
            }
            proof {
                assert forall|p: GenePool|
                    orig.consistent_with(p) implies #[trigger] self.consistent_with(p) by {
                    assert(pre.consistent_with(p));
                }
            }
            j = j + 1;
        }
    }
}

/// The exact shape of a successful add-node mutation on the gene at
/// `index`, from genome `g0` over pool `p0` to genome `g1` over pool `p1`:
/// the pool gains one hidden node and the two connections around it, the
/// old gene is disabled keeping its weight, the genome gains a gene
/// `from -> new` with the old gene's weight and enabled bit and an enabled
/// gene `new -> to` (of weight `w` under a `Fixed(w)` strategy).
pub open spec fn add_node_shape(
    g0: Genome,
    p0: GenePool,
    g1: Genome,
    p1: GenePool,
    index: int,
    new_weight: NewConnectionWeight,
) -> bool {
    let g = g0.connections@[index];
    let new_node = p0.nodes@.len() as usize;
    let li = p0.connections@.len() as usize;
    let jl = g0.connections@.len() as usize;
    let new_local = g0.nodes@.len() as usize;
    &&& p1.nodes@.len() == p0.nodes@.len() + 1
    &&& p1.nodes@[new_node as int].node_type is Hidden
    &&& p1.connections@.len() == p0.connections@.len() + 2
    &&& p1.connections@[li as int] == (Connection {
        from: g0.nodes@[g.from as int].node_id,
        to: new_node,
        innovation: li,
    })
    &&& p1.connections@[li as int + 1] == (Connection {
        from: new_node,
        to: g0.nodes@[g.to as int].node_id,
        innovation: (li + 1) as usize,
    })
    &&& g1.connections@.len() == g0.connections@.len() + 2
    &&& (forall|j: int|
        0 <= j < g0.connections@.len() && j != index ==> g1.connections@[j] == g0.connections@[j])
    &&& ({
        let o = g0.connections@[index];
        let d = g1.connections@[index];
        d.innovation == o.innovation && d.from == o.from && d.to == o.to && d.weight == o.weight
            && !d.enabled
    })
    &&& g1.connections@[jl as int] == (ConnectionGene {
        innovation: li,
        from: g.from,
        to: new_local,
        weight: g.weight,
        enabled: g.enabled,
    })
    &&& ({
        let rg = g1.connections@[jl as int + 1];
        rg.innovation == (li + 1) as usize && rg.from == new_local && rg.to == g.to && rg.enabled
            && (new_weight matches NewConnectionWeight::Fixed(w) ==> rg.weight == w)
    })
    &&& g1.nodes@.len() == g0.nodes@.len() + 1
    &&& g1.nodes@[new_local as int].node_id == new_node
    &&& g1.nodes@[new_local as int].incoming@ =~= seq![jl]
    &&& g1.nodes@[g.to as int].incoming@ == g0.nodes@[g.to as int].incoming@.push(
        (jl + 1) as usize,
    )
    &&& (forall|i: int|
        0 <= i < g0.nodes@.len() && i != g.to ==> (#[trigger] g1.nodes@[i]).incoming@
            == g0.nodes@[i].incoming@)
    &&& (forall|i: int|
        0 <= i < g0.nodes@.len() ==> (#[trigger] g1.nodes@[i]).node_id == g0.nodes@[i].node_id)
    &&& g1.spec_has_gene(li) && g1.spec_has_gene((li + 1) as usize)
    &&& (forall|i: usize|
        #[trigger] g1.spec_has_gene(i) <==> (g0.spec_has_gene(i) || i == li || i == (li
            + 1) as usize))
}

/// The net effect of one successful add-connection attempt, from genome
/// `g0` over pool `p0` to genome `g1` over pool `p1`: either an existing
/// gene was re-enabled in place, keeping its weight, with the pool
/// untouched; or one fresh enabled gene was appended, the pool registering
/// the connection first if it was new. Existing genes are never removed or
/// re-weighted.
pub open spec fn add_connection_effect(g0: Genome, p0: GenePool, g1: Genome, p1: GenePool) -> bool {
    ||| ({
        &&& p1 == p0
        &&& g1.nodes@ == g0.nodes@
        &&& g1.connections@.len() == g0.connections@.len()
        &&& exists|j: int|
            #![trigger g0.connections@[j]]
            0 <= j < g0.connections@.len() && (forall|k: int|
                0 <= k < g0.connections@.len() && k != j ==> #[trigger] g1.connections@[k]
                    == g0.connections@[k]) && ({
                let o = g0.connections@[j];
                let d = g1.connections@[j];
                d.innovation == o.innovation && d.from == o.from && d.to == o.to && d.weight
                    == o.weight && d.enabled
            })
    })
    ||| ({
        &&& p1.extends(p0)
        &&& p1.connections@.len() <= p0.connections@.len() + 1
        &&& p1.nodes@ == p0.nodes@
        &&& g1.connections@.len() == g0.connections@.len() + 1
        &&& (forall|k: int|
            0 <= k < g0.connections@.len() ==> #[trigger] g1.connections@[k] == g0.connections@[k])
        &&& g1.connections@[g0.connections@.len() as int].enabled
        &&& g1.nodes@.len() == g0.nodes@.len()
    })
}

impl Genome {
    /// Interpose a fresh hidden pool node on the connection of the gene at
    /// `index`: register the node and the two pool connections around it,
    /// and adopt both as genes — `from -> new` with the old gene's weight
    /// and enabled bit, `new -> to` enabled with a drawn weight. The old
    /// gene itself is untouched here.
    #[verifier::rlimit(100)]
    #[verifier::spinoff_prover]
    fn add_interposed_genes(
        &mut self,
        pool: &mut GenePool,
        index: usize,
        new_weight: &NewConnectionWeight,
    )
        requires
            old(self).wf(),
            old(pool).wf(),
            old(self).consistent_with(*old(pool)),
            index < old(self).connections@.len(),
            new_weight.valid(),
            old(pool).nodes@.len() < usize::MAX,
            old(pool).connections@.len() + 2 <= usize::MAX,
            old(self).connections@.len() + 2 <= usize::MAX,
            old(self).nodes@.len() + 3 <= usize::MAX,
            ({
                let g = old(self).connections@[index as int];
                old(pool).nodes@[old(self).nodes@[g.from as int].node_id as int].depth + 2 <= old(
                    pool,
                ).nodes@[old(self).nodes@[g.to as int].node_id as int].depth
            }),
        ensures
            final(self).wf(),
            final(pool).wf(),
            final(self).consistent_with(*final(pool)),
            final(pool).extends(*old(pool)),
            final(self).id == old(self).id,
            final(self).generation == old(self).generation,
            final(self).input_count == old(self).input_count,
            final(self).output_count == old(self).output_count,
            ({
                let g = old(self).connections@[index as int];
                let new_node = old(pool).nodes@.len() as usize;
                let li = old(pool).connections@.len() as usize;
                let jl = old(self).connections@.len() as usize;
                let new_local = old(self).nodes@.len() as usize;
                &&& final(pool).nodes@.len() == old(pool).nodes@.len() + 1
                &&& final(pool).nodes@[new_node as int].node_type is Hidden
                &&& final(pool).connections@.len() == old(pool).connections@.len() + 2
                &&& final(pool).connections@[li as int] == (Connection {
                    from: old(self).nodes@[g.from as int].node_id,
                    to: new_node,
                    innovation: li,
                })
                &&& final(pool).connections@[li as int + 1] == (Connection {
                    from: new_node,
                    to: old(self).nodes@[g.to as int].node_id,
                    innovation: (li + 1) as usize,
                })
                &&& final(self).connections@.len() == old(self).connections@.len() + 2
                &&& (forall|j: int|
                    0 <= j < old(self).connections@.len() ==> final(self).connections@[j] == old(
                        self,
                    ).connections@[j])
                &&& final(self).connections@[jl as int] == (ConnectionGene {
                    innovation: li,
                    from: g.from,
                    to: new_local,
                    weight: g.weight,
                    enabled: g.enabled,
                })
                &&& ({
                    let rg = final(self).connections@[jl as int + 1];
                    rg.innovation == (li + 1) as usize && rg.from == new_local && rg.to == g.to
                        && rg.enabled && (new_weight matches NewConnectionWeight::Fixed(w)
                        ==> rg.weight == w)
                })
                &&& final(self).nodes@.len() == old(self).nodes@.len() + 1
                &&& final(self).nodes@[new_local as int].node_id == new_node
                &&& final(self).nodes@[new_local as int].incoming@ =~= seq![jl]
                &&& final(self).nodes@[g.to as int].incoming@ == old(self).nodes@[g.to as int].incoming@.push((jl + 1) as usize)
                &&& (forall|i: int|
                    0 <= i < old(self).nodes@.len() && i != g.to ==> (#[trigger] final(self).nodes@[i]).incoming@
                        == old(self).nodes@[i].incoming@)
                &&& (forall|i: int|
                    0 <= i < old(self).nodes@.len() ==> (#[trigger] final(self).nodes@[i]).node_id
                        == old(self).nodes@[i].node_id)
                &&& final(self).spec_has_gene(li) && final(self).spec_has_gene((li + 1) as usize)
                &&& (forall|i: usize|
                    #[trigger] final(self).spec_has_gene(i) <==> (old(self).spec_has_gene(i) || i
                        == li || i == (li + 1) as usize))
            }),
    {
        let gene = self.connections[index];
        let from_id = self.nodes[gene.from].node_id;
        let to_id = self.nodes[gene.to].node_id;
        let ghost pool0 = *pool;
        let (new_node, left, right) = pool.interpose(from_id, to_id);
        proof {
            lemma_consistency_extends(*self, pool0, *pool);
            assert(!self.spec_has_gene(left.innovation)) by {
                if self.spec_has_gene(left.innovation) {
                    assert(self.connections@[self.order.value_of(left.innovation) as int].innovation
                        < pool0.connections@.len());
                }
            }
            assert(self.addable(*pool, new_node));
            assert(self.addable(*pool, from_id));
            assert(self.spec_has_node(from_id));
            assert(!self.spec_has_node(new_node)) by {
                if self.spec_has_node(new_node) {
                    let w = self.node_index.value_of(new_node) as int;
                    assert(self.nodes@[w].node_id < pool0.nodes@.len());
                }
            }
        }
        let ghost g_before_left = *self;
        self.add_connection(pool, left, gene.weight, gene.enabled);
        let ghost g_after_left = *self;
        proof {
            assert(!self.spec_has_gene(right.innovation)) by {
                if self.spec_has_gene(right.innovation) {
                    if g_before_left.spec_has_gene(right.innovation) {
                        assert(g_before_left.connections@[g_before_left.order.value_of(
                            right.innovation,
                        ) as int].innovation < pool0.connections@.len());
                    }
                }
            }
            assert(self.spec_has_node(new_node));
            assert(self.spec_has_node(to_id));
        }
        let w = NewConnectionWeight::sample_weight(new_weight);
        self.add_connection(pool, right, w, true);
        proof {
            assert(g_after_left.node_index.value_of(new_node) == old(self).nodes@.len());
            assert(self.nodes@[old(self).nodes@.len() as int].incoming@ =~= seq![
                old(self).connections@.len() as usize,
            ]);
        }
    }

    /// The add-node mutation on the gene at a chosen position: interpose a
    /// fresh hidden pool node on that gene's connection. The old gene is
    /// disabled (never removed), a gene `from -> new` is added with the old
    /// gene's weight and enabled bit, and a gene `new -> to` is added
    /// enabled with a weight drawn from `new_weight`. When the depth gap of
    /// the endpoints is exhausted the mutation is a silent no-op.
    #[verifier::rlimit(100)]
    #[verifier::spinoff_prover]
    pub fn add_node_at(
        &mut self,
        pool: &mut GenePool,
        index: usize,
        new_weight: &NewConnectionWeight,
    ) -> (did: bool)
        requires
            old(self).wf(),
            old(pool).wf(),
            old(self).consistent_with(*old(pool)),
            index < old(self).connections@.len(),
            new_weight.valid(),
            old(pool).nodes@.len() < usize::MAX,
            old(pool).connections@.len() + 2 <= usize::MAX,
            old(self).connections@.len() + 2 <= usize::MAX,
            old(self).nodes@.len() + 3 <= usize::MAX,
        ensures
            final(self).wf(),
            final(pool).wf(),
            final(self).consistent_with(*final(pool)),
            final(pool).extends(*old(pool)),
            final(self).id == old(self).id,
            final(self).generation == old(self).generation,
            final(self).input_count == old(self).input_count,
            final(self).output_count == old(self).output_count,
            final(pool).connections@.len() <= old(pool).connections@.len() + 2,
            final(pool).nodes@.len() <= old(pool).nodes@.len() + 1,
            final(self).connections@.len() <= old(self).connections@.len() + 2,
            final(self).nodes@.len() <= old(self).nodes@.len() + 1,
            did == (old(self).nodes@[old(self).connections@[index as int].from as int].depth + 2
                <= old(self).nodes@[old(self).connections@[index as int].to as int].depth),
            !did ==> *final(self) == *old(self) && *final(pool) == *old(pool),
            did ==> add_node_shape(
                *old(self),
                *old(pool),
                *final(self),
                *final(pool),
                index as int,
                *new_weight,
            ),
    {
        let gene = self.connections[index];
        let from_id = self.nodes[gene.from].node_id;
        let to_id = self.nodes[gene.to].node_id;
        proof {
            assert(pool.nodes@[from_id as int].depth == self.nodes@[gene.from as int].depth);
            assert(pool.nodes@[to_id as int].depth == self.nodes@[gene.to as int].depth);
            assert(pool.nodes@[from_id as int].depth <= DEPTH_ONE);
        }
        let dl = pool.nodes[from_id].depth;
        let dr = pool.nodes[to_id].depth;
        if dl + 2 > dr {
            return false;
        }
        self.add_interposed_genes(pool, index, new_weight);
        proof {
            assert(self.connections@[index as int] == old(self).connections@[index as int]);
        }
        self.set_gene(index, gene.weight, false);
        true
    }

    /// The add-node mutation: pick a uniformly random gene and interpose a
    /// hidden node on it; a genome without genes is left unchanged.
    pub fn mutate_add_node(&mut self, pool: &mut GenePool, config: &MutationConfig)
        requires
            old(self).wf(),
            old(pool).wf(),
            old(self).consistent_with(*old(pool)),
            config.valid(),
            old(pool).nodes@.len() < usize::MAX,
            old(pool).connections@.len() + 2 <= usize::MAX,
            old(self).connections@.len() + 2 <= usize::MAX,
            old(self).nodes@.len() + 3 <= usize::MAX,
        ensures
            final(self).wf(),
            final(pool).wf(),
            final(self).consistent_with(*final(pool)),
            final(pool).extends(*old(pool)),
            final(self).id == old(self).id,
            final(self).generation == old(self).generation,
            final(self).input_count == old(self).input_count,
            final(self).output_count == old(self).output_count,
            final(pool).connections@.len() <= old(pool).connections@.len() + 2,
            final(pool).nodes@.len() <= old(pool).nodes@.len() + 1,
            final(self).connections@.len() <= old(self).connections@.len() + 2,
            final(self).nodes@.len() <= old(self).nodes@.len() + 1,
            final(self).connections@.len() >= old(self).connections@.len(),
            forall|j: int|
                0 <= j < old(self).connections@.len() ==> ({
                    let o = old(self).connections@[j];
                    let d = #[trigger] final(self).connections@[j];
                    d.innovation == o.innovation && d.from == o.from && d.to == o.to && d.weight
                        == o.weight
                }),
            old(self).connections@.len() == 0 ==> *final(self) == *old(self) && *final(pool)
                == *old(pool),
            old(self).connections@.len() > 0 ==> exists|k: int|
                #![trigger old(self).connections@[k]]
                0 <= k < old(self).connections@.len() && ({
                    let g = old(self).connections@[k];
                    if old(self).nodes@[g.from as int].depth + 2 <= old(self).nodes@[g.to as int].depth {
                        add_node_shape(
                            *old(self),
                            *old(pool),
                            *final(self),
                            *final(pool),
                            k,
                            config.new_connection_weight,
                        )
                    } else {
                        *final(self) == *old(self) && *final(pool) == *old(pool)
                    }
                }),
    {
        let n = self.connections.len();
        if n == 0 {
            return ;
        }
        let index = random_below(n);
        let did = self.add_node_at(pool, index, &config.new_connection_weight);
        proof {
            let k = index as int;
            let g = old(self).connections@[k];
            if old(self).nodes@[g.from as int].depth + 2 <= old(self).nodes@[g.to as int].depth {
                assert(did);
                assert(add_node_shape(
                    *old(self),
                    *old(pool),
                    *self,
                    *pool,
                    k,
                    config.new_connection_weight,
                ));
            } else {
                assert(!did);
            }
        }
    }

    /// Try to connect two of this genome's nodes: register (or find) the
    /// pool connection in whichever direction runs downward in depth, then
    /// re-enable the gene if the genome already holds it, or adopt it with a
    /// drawn weight. Returns whether a connection was enabled or added.
    #[verifier::rlimit(100)]
    #[verifier::spinoff_prover]
    fn connect_nodes(
        &mut self,
        pool: &mut GenePool,
        a: usize,
        b: usize,
        weight_strategy: &NewConnectionWeight,
    ) -> (did: bool)
        requires
            old(self).wf(),
            old(pool).wf(),
            old(self).consistent_with(*old(pool)),
            a < old(self).nodes@.len(),
            b < old(self).nodes@.len(),
            weight_strategy.valid(),
            old(pool).connections@.len() < usize::MAX,
            old(self).connections@.len() < usize::MAX,
            old(self).nodes@.len() + 2 <= usize::MAX,
        ensures
            final(self).wf(),
            final(pool).wf(),
            final(self).consistent_with(*final(pool)),
            final(pool).extends(*old(pool)),
            final(self).id == old(self).id,
            final(self).generation == old(self).generation,
            final(self).input_count == old(self).input_count,
            final(self).output_count == old(self).output_count,
            final(self).nodes@.len() == old(self).nodes@.len(),
            old(self).connections@.len() <= final(self).connections@.len() <= old(self).connections@.len() + 1,
            final(pool).connections@.len() <= old(pool).connections@.len() + 1,
            !did ==> *final(self) == *old(self) && *final(pool) == *old(pool),
            did ==> add_connection_effect(*old(self), *old(pool), *final(self), *final(pool)),
    {
        let a_id = self.nodes[a].node_id;
        let b_id = self.nodes[b].node_id;
        let ghost pool0 = *pool;
        let first = pool.create_connection(a_id, b_id);
        let ghost pool1 = *pool;
        proof {
            lemma_consistency_extends(*self, pool0, pool1);
        }
        match first {
            Some(connection) => {
                proof {
                    assert(self.spec_has_node(a_id));
                    assert(self.spec_has_node(b_id));
                    if !pool0.spec_has_pair(a_id, b_id) {
                        assert(connection.innovation == pool0.connections@.len());
                        assert(!self.spec_has_gene(connection.innovation)) by {
                            if self.spec_has_gene(connection.innovation) {
                                assert(self.connections@[self.order.value_of(
                                    connection.innovation,
                                ) as int].innovation < pool0.connections@.len());
                            }
                        }
                    }
                }
                let ghost g0 = *self;
                self.adopt_or_enable(pool, connection, weight_strategy);
                proof {
                    if g0.spec_has_gene(connection.innovation) {
                        assert(*pool == pool0);
                        let j = g0.order.value_of(connection.innovation) as int;
                        assert(g0.connections@[j].innovation == connection.innovation);
                        assert(add_connection_effect(g0, pool0, *self, *pool));
                    } else {
                        assert(pool.extends(pool0));
                        assert(add_connection_effect(g0, pool0, *self, *pool));
                    }
                }
                return true;
            },
            None => {},
        }
        let second = pool.create_connection(b_id, a_id);
        let ghost pool2 = *pool;
        proof {
            lemma_consistency_extends(*self, pool1, pool2);
        }
        match second {
            Some(connection) => {
                proof {
                    assert(self.spec_has_node(a_id));
                    assert(self.spec_has_node(b_id));
                    if !pool1.spec_has_pair(b_id, a_id) {
                        assert(connection.innovation == pool1.connections@.len());
                        assert(!self.spec_has_gene(connection.innovation)) by {
                            if self.spec_has_gene(connection.innovation) {
                                assert(self.connections@[self.order.value_of(
                                    connection.innovation,
                                ) as int].innovation < pool1.connections@.len());
                            }
                        }
                    }
                }
                let ghost g0 = *self;
                self.adopt_or_enable(pool, connection, weight_strategy);
                proof {
                    if g0.spec_has_gene(connection.innovation) {
                        assert(*pool == pool1);
                        assert(pool1 == pool0);
                        let j = g0.order.value_of(connection.innovation) as int;
                        assert(g0.connections@[j].innovation == connection.innovation);
                        assert(add_connection_effect(g0, pool0, *self, *pool));
                    } else {
                        assert(pool.extends(pool0));
                        assert(add_connection_effect(g0, pool0, *self, *pool));
                    }
                }
                true
            },
            None => false,
        }
    }

    /// Re-enable the gene for a pool connection the genome already holds, or
    /// adopt the connection as a new enabled gene.
    fn adopt_or_enable(
        &mut self,
        pool: &GenePool,
        connection: Connection,
        weight_strategy: &NewConnectionWeight,
    )
        requires
            old(self).wf(),
            pool.wf(),
            old(self).consistent_with(*pool),
            connection.innovation < pool.connections@.len(),
            pool.connections@[connection.innovation as int] == connection,
            weight_strategy.valid(),
            old(self).spec_has_node(connection.from) || pool.nodes@[connection.from as int].node_type is Hidden,
            old(self).spec_has_node(connection.to) || pool.nodes@[connection.to as int].node_type is Hidden,
            old(self).connections@.len() < usize::MAX,
            old(self).nodes@.len() + 2 <= usize::MAX,
        ensures
            final(self).wf(),
            final(self).consistent_with(*pool),
            final(self).id == old(self).id,
            final(self).generation == old(self).generation,
            final(self).input_count == old(self).input_count,
            final(self).output_count == old(self).output_count,
            old(self).spec_has_gene(connection.innovation) ==> ({
                let j = old(self).order.value_of(connection.innovation) as int;
                &&& final(self).nodes@ == old(self).nodes@
                &&& final(self).connections@.len() == old(self).connections@.len()
                &&& 0 <= j < old(self).connections@.len()
                &&& (forall|k: int|
                    0 <= k < old(self).connections@.len() && k != j
                        ==> #[trigger] final(self).connections@[k] == old(self).connections@[k])
                &&& ({
                    let o = old(self).connections@[j];
                    let d = final(self).connections@[j];
                    d.innovation == o.innovation && d.from == o.from && d.to == o.to && d.weight
                        == o.weight && d.enabled
                })
            }),
            !old(self).spec_has_gene(connection.innovation) ==> ({
                &&& final(self).connections@.len() == old(self).connections@.len() + 1
                &&& (forall|k: int|
                    0 <= k < old(self).connections@.len() ==> #[trigger] final(self).connections@[k]
                        == old(self).connections@[k])
                &&& final(self).connections@[old(self).connections@.len() as int].enabled
            }),
            old(self).nodes@.len() <= final(self).nodes@.len() <= old(self).nodes@.len() + 2,
            old(self).spec_has_node(connection.from) && old(self).spec_has_node(connection.to)
                ==> final(self).nodes@.len() == old(self).nodes@.len(),
    {
        let existing = self.order.get(connection.innovation);
        match existing {
            Some(idx) => {
                proof {
                    assert(self.connections@[idx as int].innovation == connection.innovation);
                    assert(-WEIGHT_LIMIT <= self.connections@[idx as int].weight <= WEIGHT_LIMIT);
                }
                let current = self.connections[idx];
                self.set_gene(idx, current.weight, true);
                proof {
                    assert(self.nodes@ == old(self).nodes@);
                    assert(self.nodes@.len() == old(self).nodes@.len());
                }
            },
            None => {
                self.add_new_connection(pool, connection, weight_strategy);
            },
        }
    }

    /// The add-connection mutation: up to the configured number of retries,
    /// draw two node genes and try to connect them in either direction; a
    /// genome with at most one node is left unchanged.
    pub fn mutate_add_connection(&mut self, pool: &mut GenePool, config: &MutationConfig)
        requires
            old(self).wf(),
            old(pool).wf(),
            old(self).consistent_with(*old(pool)),
            config.valid(),
            old(pool).connections@.len() < usize::MAX,
            old(self).connections@.len() < usize::MAX,
            old(self).nodes@.len() + 2 <= usize::MAX,
        ensures
            final(self).wf(),
            final(pool).wf(),
            final(self).consistent_with(*final(pool)),
            final(pool).extends(*old(pool)),
            final(self).id == old(self).id,
            final(self).generation == old(self).generation,
            final(self).input_count == old(self).input_count,
            final(self).output_count == old(self).output_count,
            final(pool).connections@.len() <= old(pool).connections@.len() + 1,
            final(self).connections@.len() <= old(self).connections@.len() + 1,
            final(self).nodes@.len() == old(self).nodes@.len(),
            old(self).nodes@.len() <= 1 ==> *final(self) == *old(self) && *final(pool) == *old(
                pool,
            ),
            (*final(self) == *old(self) && *final(pool) == *old(pool)) || add_connection_effect(
                *old(self),
                *old(pool),
                *final(self),
                *final(pool),
            ),
            forall|j: int|
                0 <= j < old(self).connections@.len() ==> ({
                    let o = old(self).connections@[j];
                    let d = #[trigger] final(self).connections@[j];
                    d.innovation == o.innovation && d.from == o.from && d.to == o.to && d.weight
                        == o.weight
                }),
    {
        let n = self.nodes.len();
        if n <= 1 {
            return ;
        }
        let ghost pool0 = *pool;
        let mut attempt: u32 = 0;
        while attempt < config.add_connection_retry_count
            invariant
                config.valid(),
                n == self.nodes@.len(),
                n > 1,
                *self == *old(self),
                *pool == *old(pool),
                pool0 == *old(pool),
                self.wf(),
                pool.wf(),
                self.consistent_with(*pool),
                old(pool).connections@.len() < usize::MAX,
                old(self).connections@.len() < usize::MAX,
                self.nodes@.len() + 2 <= usize::MAX,
            decreases config.add_connection_retry_count - attempt,
        {
            let a = random_below(n);
            let b = random_below(n);
            let ghost pool_pre = *pool;
            let done = self.connect_nodes(pool, a, b, &config.new_connection_weight);
            proof {
                lemma_extends_transitive(*pool, pool_pre, pool0);
            }
            if done {
                return ;
            }
            attempt = attempt + 1;
        }
    }

    /// Mutate the genome in place and restamp it with a fresh id and its
    /// generation: the weight pass, then with their configured
    /// probabilities the add-node and add-connection mutations.
    pub fn mutate(
        &mut self,
        pool: &mut GenePool,
        config: &MutationConfig,
        new_id: u64,
        generation: u32,
    )
        requires
            old(self).wf(),
            old(pool).wf(),
            old(self).consistent_with(*old(pool)),
            config.valid(),
            old(pool).nodes@.len() < usize::MAX,
            old(pool).connections@.len() + 3 <= usize::MAX,
            old(self).connections@.len() + 3 <= usize::MAX,
            old(self).nodes@.len() + 3 <= usize::MAX,
        ensures
            final(self).wf(),
            final(pool).wf(),
            final(self).consistent_with(*final(pool)),
            final(pool).extends(*old(pool)),
            final(self).id == new_id,
            final(self).generation == generation,
            final(self).input_count == old(self).input_count,
            final(self).output_count == old(self).output_count,
            final(self).connections@.len() >= old(self).connections@.len(),
            forall|j: int|
                0 <= j < old(self).connections@.len() ==> ({
                    let o = old(self).connections@[j];
                    let d = #[trigger] final(self).connections@[j];
                    d.innovation == o.innovation && d.from == o.from && d.to == o.to
                }),
    {
        self.id = new_id;
        self.generation = generation;
        self.mutate_connections(config);
        let ghost g1 = *self;
        let ghost pool0 = *pool;
        if random_decision(config.add_node_prob) {
            self.mutate_add_node(pool, config);
        }
        let ghost g2 = *self;
        let ghost pool1 = *pool;
        proof {
            assert(pool.connections@.len() <= old(pool).connections@.len() + 2);
            assert(self.connections@.len() <= old(self).connections@.len() + 2);
            assert forall|j: int| 0 <= j < old(self).connections@.len() implies ({
                let o = old(self).connections@[j];
                let d = #[trigger] g2.connections@[j];
                d.innovation == o.innovation && d.from == o.from && d.to == o.to
            }) by {
                assert(g1.connections@[j].innovation == old(self).connections@[j].innovation);
            }
        }
        if random_decision(config.add_connection_prob) {
            self.mutate_add_connection(pool, config);
            proof {
                lemma_extends_transitive(*pool, pool1, pool0);
                assert forall|j: int| 0 <= j < old(self).connections@.len() implies ({
                    let o = old(self).connections@[j];
                    let d = #[trigger] self.connections@[j];
                    d.innovation == o.innovation && d.from == o.from && d.to == o.to
                }) by {
                    assert(self.connections@[j].innovation == g2.connections@[j].innovation);
                }
            }
        }
    }
}

/// Pool extension is transitive.
pub proof fn lemma_extends_transitive(c: GenePool, b: GenePool, a: GenePool)
    requires
        c.extends(b),
        b.extends(a),
    ensures
        c.extends(a),
{
}

/// Two node genes that describe the same node: equal fields, with the
/// incoming lists compared entry for entry.
pub open spec fn node_gene_congruent(a: NodeGene, b: NodeGene) -> bool {
    a.node_id == b.node_id && a.node_type == b.node_type && a.depth == b.depth && a.incoming@
        == b.incoming@
}

/// Two genomes that describe the same network: equal identity and gene
/// lists, with vectors compared entry for entry.
pub open spec fn genome_congruent(a: Genome, b: Genome) -> bool {
    &&& a.id == b.id
    &&& a.generation == b.generation
    &&& a.input_count == b.input_count
    &&& a.output_count == b.output_count
    &&& a.connections@ == b.connections@
    &&& a.order.entries@ == b.order.entries@
    &&& a.node_index.entries@ == b.node_index.entries@
    &&& a.nodes@.len() == b.nodes@.len()
    &&& forall|i: int|
        0 <= i < a.nodes@.len() ==> node_gene_congruent(#[trigger] a.nodes@[i], b.nodes@[i])
}

/// Congruent genomes are equally well formed and are consistent with the
/// same pools.
pub proof fn lemma_congruent_genome(a: Genome, b: Genome, pool: GenePool)
    requires
        genome_congruent(a, b),
        a.wf(),
    ensures
        b.wf(),
        a.consistent_with(pool) ==> b.consistent_with(pool),
{
    assert forall|i: usize| a.order.spec_contains(i) implies #[trigger] b.order.spec_contains(i)
        && b.order.value_of(i) == a.order.value_of(i) by {
        lemma_same_entries_lookup(a.order, b.order, i);
    }
    assert forall|i: usize| b.order.spec_contains(i) implies a.order.spec_contains(i) by {
        lemma_same_entries_lookup(a.order, b.order, i);
    }
    assert forall|d: usize|
        a.node_index.spec_contains(d) implies #[trigger] b.node_index.spec_contains(d)
        && b.node_index.value_of(d) == a.node_index.value_of(d) by {
        lemma_same_entries_lookup(a.node_index, b.node_index, d);
    }
    assert forall|d: usize| b.node_index.spec_contains(d) implies a.node_index.spec_contains(
        d,
    ) by {
        lemma_same_entries_lookup(a.node_index, b.node_index, d);
    }
    assert(b.slots_ok()) by {
        assert forall|i: int| 0 <= i < b.nodes@.len() implies node_gene_congruent(
            a.nodes@[i],
            #[trigger] b.nodes@[i],
        ) by {}
    }
    assert(b.order_ok());
    assert(b.node_index_ok()) by {
        assert forall|i: int|
            0 <= i < b.nodes@.len() implies b.node_index.spec_contains(
            (#[trigger] b.nodes@[i]).node_id) && b.node_index.value_of(b.nodes@[i].node_id)
            == i by {
            assert(node_gene_congruent(a.nodes@[i], b.nodes@[i]));
            assert(a.node_index.spec_contains(a.nodes@[i].node_id));
        }
    }
    assert(b.genes_ok()) by {
        assert forall|i: int, k: int|
            #![trigger b.nodes@[i].incoming@[k]]
            0 <= i < b.nodes@.len() && 0 <= k < b.nodes@[i].incoming@.len() implies b.nodes@[i].incoming@[k]
            < b.connections@.len() && b.connections@[b.nodes@[i].incoming@[k] as int].to == i by {
            assert(node_gene_congruent(a.nodes@[i], b.nodes@[i]));
            assert(a.nodes@[i].incoming@[k] < a.connections@.len());
        }
        assert forall|i: int, k1: int, k2: int|
            #![trigger b.nodes@[i].incoming@[k1], b.nodes@[i].incoming@[k2]]
            0 <= i < b.nodes@.len() && 0 <= k1 < k2 < b.nodes@[i].incoming@.len() implies b.nodes@[i].incoming@[k1]
            != b.nodes@[i].incoming@[k2] by {
            assert(node_gene_congruent(a.nodes@[i], b.nodes@[i]));
            assert(a.nodes@[i].incoming@[k1] != a.nodes@[i].incoming@[k2]);
        }
        assert forall|j: int| 0 <= j < b.connections@.len() implies incoming_lists(
            b.nodes@[(#[trigger] b.connections@[j]).to as int].incoming@,
            j,
        ) by {
            assert(node_gene_congruent(
                a.nodes@[a.connections@[j].to as int],
                b.nodes@[b.connections@[j].to as int],
            ));
            assert(incoming_lists(a.nodes@[a.connections@[j].to as int].incoming@, j));
        }
    }
    if a.consistent_with(pool) {
        assert forall|i: int|
            0 <= i < b.nodes@.len() implies (#[trigger] b.nodes@[i]).node_id < pool.nodes@.len()
            && pool.nodes@[b.nodes@[i].node_id as int].node_type == b.nodes@[i].node_type
            && pool.nodes@[b.nodes@[i].node_id as int].depth == b.nodes@[i].depth by {
            assert(node_gene_congruent(a.nodes@[i], b.nodes@[i]));
        }
        assert(b.consistent_with(pool));
    }
}

impl Clone for NodeGene {
    /// A field-for-field copy.
    fn clone(&self) -> (res: Self)
        ensures
            node_gene_congruent(res, *self),
    {
        let n = self.incoming.len();
        let mut incoming: Vec<usize> = Vec::new();
        let mut k: usize = 0;
        while k < n
            invariant
                n == self.incoming@.len(),
                k <= n,
                incoming@.len() == k,
                forall|i: int| 0 <= i < k ==> incoming@[i] == self.incoming@[i],
            decreases n - k,
        {
            incoming.push(self.incoming[k]);
            k = k + 1;
        }
        let res = NodeGene {
            node_id: self.node_id,
            node_type: self.node_type,
            depth: self.depth,
            incoming,
        };
        proof {
            assert(res.incoming@ =~= self.incoming@);
        }
        res
    }
}

impl Clone for Genome {
    /// A gene-for-gene copy: the clone describes the same network.
    fn clone(&self) -> (res: Self)
        ensures
            genome_congruent(res, *self),
    {
        let cn = self.connections.len();
        let mut connections: Vec<ConnectionGene> = Vec::new();
        let mut k: usize = 0;
        while k < cn
            invariant
                cn == self.connections@.len(),
                k <= cn,
                connections@.len() == k,
                forall|i: int| 0 <= i < k ==> connections@[i] == self.connections@[i],
            decreases cn - k,
        {
            connections.push(self.connections[k]);
            k = k + 1;
        }
        let nn = self.nodes.len();
        let mut nodes: Vec<NodeGene> = Vec::new();
        let mut k2: usize = 0;
        while k2 < nn
            invariant
                nn == self.nodes@.len(),
                k2 <= nn,
                nodes@.len() == k2,
                forall|i: int|
                    0 <= i < k2 ==> node_gene_congruent(#[trigger] nodes@[i], self.nodes@[i]),
            decreases nn - k2,
        {
            nodes.push(self.nodes[k2].clone());
            k2 = k2 + 1;
        }
        let res = Genome {
            id: self.id,
            generation: self.generation,
            connections,
            order: self.order.clone(),
            nodes,
            node_index: self.node_index.clone(),
            input_count: self.input_count,
            output_count: self.output_count,
        };
        proof {
            assert(res.connections@ =~= self.connections@);
        }
        res
    }
}

} // verus!
