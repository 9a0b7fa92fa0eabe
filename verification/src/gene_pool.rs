//! The global gene pool: the monotone registry of structural innovations
//! shared by every genome of one run.
//!
//! Node depths are exact fractions of [`DEPTH_ONE`]: inputs sit at depth 0,
//! outputs at `DEPTH_ONE`, and a hidden node interposed on a connection gets
//! the integer midpoint of its endpoints' depths. Every registered
//! connection runs from a strictly shallower node to a strictly deeper one,
//! so the pool's graph is acyclic by construction.

use crate::fixed::SCALE;
use crate::pair_map::{pair_map_view, PairMap};
use vstd::prelude::*;

verus! {

/// The depth assigned to output nodes; input nodes sit at depth 0.
pub const DEPTH_ONE: u64 = 0x4000_0000_0000_0000;

#[derive(Clone, Copy, Debug, PartialEq, Eq, Structural)]
pub enum NodeType {
    /// An input node and its ordinal among the inputs.
    Input(usize),
    Hidden,
    /// An output node and its ordinal among the outputs.
    Output(usize),
}

/// A node registered in the pool. `id` always equals the node's index in
/// the pool's node list.
#[derive(Clone, Copy, Debug, PartialEq, Eq, Structural)]
pub struct Node {
    pub id: usize,
    pub node_type: NodeType,
    pub depth: u64,
    /// Presentation-only placement; never affects semantics.
    pub vertical_placement: i64,
}

/// A connection registered in the pool. `innovation` always equals the
/// connection's index in the pool's connection list.
#[derive(Clone, Copy, Debug, Hash, PartialEq, Eq, Structural)]
pub struct Connection {
    pub from: usize,
    pub to: usize,
    pub innovation: usize,
}

/// Some node of the list carries the input ordinal `k`.
pub open spec fn has_input_ordinal(nodes: Seq<Node>, k: usize) -> bool {
    exists|i: int| 0 <= i < nodes.len() && (#[trigger] nodes[i]).node_type == NodeType::Input(k)
}

/// Some node of the list carries the output ordinal `k`.
pub open spec fn has_output_ordinal(nodes: Seq<Node>, k: usize) -> bool {
    exists|i: int| 0 <= i < nodes.len() && (#[trigger] nodes[i]).node_type == NodeType::Output(k)
}

/// Some connection of the list runs from `from` to `to`.
pub open spec fn has_pair(conns: Seq<Connection>, from: usize, to: usize) -> bool {
    exists|j: int|
        0 <= j < conns.len() && (#[trigger] conns[j]).from == from && conns[j].to == to
}

/// The registry of nodes and connections, with a deduplication index from
/// `(from, to)` pairs to innovation numbers.
#[derive(Debug)]
pub struct GenePool {
    pub nodes: Vec<Node>,
    pub connections: Vec<Connection>,
    pub connection_mappings: PairMap,
    pub input_count: usize,
    pub output_count: usize,
}

impl GenePool {
    /// Structural soundness of nodes and connections, without the
    /// deduplication index.
    pub open spec fn wf_core(self) -> bool {
        let nodes = self.nodes@;
        let conns = self.connections@;
        &&& forall|i: int| 0 <= i < nodes.len() ==> (#[trigger] nodes[i]).id == i
        &&& forall|i: int| 0 <= i < nodes.len() ==> (#[trigger] nodes[i]).depth <= DEPTH_ONE
        &&& forall|i: int|
            0 <= i < nodes.len() ==> match (#[trigger] nodes[i]).node_type {
                NodeType::Input(k) => nodes[i].depth == 0 && k < self.input_count,
                NodeType::Output(k) => nodes[i].depth == DEPTH_ONE && k < self.output_count,
                NodeType::Hidden => 0 < nodes[i].depth < DEPTH_ONE,
            }
        &&& forall|i: int, j: int|
            #![trigger nodes[i], nodes[j]]
            0 <= i < j < nodes.len() ==> match (nodes[i].node_type, nodes[j].node_type) {
                (NodeType::Input(a), NodeType::Input(b)) => a < b,
                (NodeType::Output(a), NodeType::Output(b)) => a < b,
                _ => true,
            }
        &&& forall|k: usize| k < self.input_count ==> #[trigger] has_input_ordinal(nodes, k)
        &&& forall|k: usize| k < self.output_count ==> #[trigger] has_output_ordinal(nodes, k)
        &&& forall|j: int| 0 <= j < conns.len() ==> (#[trigger] conns[j]).innovation == j
        &&& forall|j: int|
            0 <= j < conns.len() ==> (#[trigger] conns[j]).from < nodes.len() && conns[j].to
                < nodes.len()
        &&& forall|j: int|
            0 <= j < conns.len() ==> nodes[(#[trigger] conns[j]).from as int].depth < nodes[conns[j].to as int].depth
        &&& forall|j: int, k: int|
            0 <= j < k < conns.len() ==> !((#[trigger] conns[j]).from == (#[trigger] conns[k]).from
                && conns[j].to == conns[k].to)
    }

    /// The deduplication index holds exactly the registered `(from, to)`
    /// pairs, each mapped to its connection's innovation number.
    pub open spec fn mappings_ok(self) -> bool {
        let conns = self.connections@;
        let pm = pair_map_view(self.connection_mappings);
        &&& forall|j: int|
            0 <= j < conns.len() ==> pm.dom().contains(
                ((#[trigger] conns[j]).from, conns[j].to),
            ) && pm[(conns[j].from, conns[j].to)] == j
        &&& forall|p: (usize, usize)|
            pm.dom().contains(p) ==> #[trigger] pm[p] < conns.len() && conns[pm[p] as int].from
                == p.0 && conns[pm[p] as int].to == p.1
    }

    /// Well-formedness of the whole pool.
    pub open spec fn wf(self) -> bool {
        self.wf_core() && self.mappings_ok()
    }

    /// Whether some registered connection runs from `from` to `to`.
    pub open spec fn spec_has_pair(self, from: usize, to: usize) -> bool {
        has_pair(self.connections@, from, to)
    }

    /// The pool only ever grows: every node and connection of the older
    /// pool is unchanged in the newer one.
    pub open spec fn extends(self, older: Self) -> bool {
        &&& older.nodes@.len() <= self.nodes@.len()
        &&& forall|i: int| 0 <= i < older.nodes@.len() ==> self.nodes@[i] == older.nodes@[i]
        &&& older.connections@.len() <= self.connections@.len()
        &&& forall|j: int|
            0 <= j < older.connections@.len() ==> self.connections@[j] == older.connections@[j]
    }

    /// An empty pool.
    pub fn new() -> (r: GenePool)
        ensures
            r.wf(),
            r.nodes@.len() == 0,
            r.connections@.len() == 0,
            r.input_count == 0,
            r.output_count == 0,
    {
        GenePool {
            nodes: Vec::new(),
            connections: Vec::new(),
            connection_mappings: PairMap::new(),
            input_count: 0,
            output_count: 0,
        }
    }

    /// Register a new input node at depth 0 with the next input ordinal;
    /// returns its id.
    pub fn create_input_node(&mut self, vertical_placement: i64) -> (id: usize)
        requires
            old(self).wf(),
            old(self).nodes@.len() < usize::MAX,
            old(self).input_count < usize::MAX,
        ensures
            final(self).wf(),
            final(self).extends(*old(self)),
            id == old(self).nodes@.len(),
            final(self).nodes@.len() == old(self).nodes@.len() + 1,
            final(self).nodes@[id as int] == (Node {
                id,
                node_type: NodeType::Input(old(self).input_count),
                depth: 0,
                vertical_placement,
            }),
            final(self).input_count == old(self).input_count + 1,
            final(self).output_count == old(self).output_count,
            final(self).connections@ == old(self).connections@,
    {
        let id = self.nodes.len();
        let node = Node {
            id,
            node_type: NodeType::Input(self.input_count),
            depth: 0,
            vertical_placement,
        };
        self.nodes.push(node);
        self.input_count = self.input_count + 1;
        proof {
            lemma_ordinals_extend(old(self).nodes@, self.nodes@);
            assert(self.nodes@[id as int].node_type == NodeType::Input(old(self).input_count));
            assert(has_input_ordinal(self.nodes@, old(self).input_count));
        }
        id
    }

    /// Register a new output node at depth `DEPTH_ONE` with the next output
    /// ordinal; returns its id.
    pub fn create_output_node(&mut self, vertical_placement: i64) -> (id: usize)
        requires
            old(self).wf(),
            old(self).nodes@.len() < usize::MAX,
            old(self).output_count < usize::MAX,
        ensures
            final(self).wf(),
            final(self).extends(*old(self)),
            id == old(self).nodes@.len(),
            final(self).nodes@.len() == old(self).nodes@.len() + 1,
            final(self).nodes@[id as int] == (Node {
                id,
                node_type: NodeType::Output(old(self).output_count),
                depth: DEPTH_ONE,
                vertical_placement,
            }),
            final(self).output_count == old(self).output_count + 1,
            final(self).input_count == old(self).input_count,
            final(self).connections@ == old(self).connections@,
    {
        let id = self.nodes.len();
        let node = Node {
            id,
            node_type: NodeType::Output(self.output_count),
            depth: DEPTH_ONE,
            vertical_placement,
        };
        self.nodes.push(node);
        self.output_count = self.output_count + 1;
        proof {
            lemma_ordinals_extend(old(self).nodes@, self.nodes@);
            assert(self.nodes@[id as int].node_type == NodeType::Output(old(self).output_count));
            assert(has_output_ordinal(self.nodes@, old(self).output_count));
        }
        id
    }

    /// Register a hidden node at the given depth; returns its id.
    pub fn create_hidden_node(&mut self, depth: u64, vertical_placement: i64) -> (id: usize)
        requires
            old(self).wf(),
            old(self).nodes@.len() < usize::MAX,
            0 < depth < DEPTH_ONE,
        ensures
            final(self).wf(),
            final(self).extends(*old(self)),
            id == old(self).nodes@.len(),
            final(self).nodes@.len() == old(self).nodes@.len() + 1,
            final(self).nodes@[id as int] == (Node {
                id,
                node_type: NodeType::Hidden,
                depth,
                vertical_placement,
            }),
            final(self).connections@ == old(self).connections@,
            final(self).input_count == old(self).input_count,
            final(self).output_count == old(self).output_count,
    {
        let id = self.nodes.len();
        let node = Node { id, node_type: NodeType::Hidden, depth, vertical_placement };
        self.nodes.push(node);
        proof {
            lemma_ordinals_extend(old(self).nodes@, self.nodes@);
        }
        id
    }

    /// Register a hidden node halfway between two existing nodes; its depth
    /// lies strictly between theirs, so no connection ordering is ever
    /// violated by interposition.
    pub fn create_hidden_node_between(&mut self, left_node: usize, right_node: usize) -> (id:
        usize)
        requires
            old(self).wf(),
            old(self).nodes@.len() < usize::MAX,
            left_node < old(self).nodes@.len(),
            right_node < old(self).nodes@.len(),
            old(self).nodes@[left_node as int].depth + 2 <= old(self).nodes@[right_node as int].depth,
        ensures
            final(self).wf(),
            final(self).extends(*old(self)),
            id == old(self).nodes@.len(),
            final(self).nodes@.len() == old(self).nodes@.len() + 1,
            final(self).nodes@[id as int].node_type == NodeType::Hidden,
            old(self).nodes@[left_node as int].depth < final(self).nodes@[id as int].depth
                < old(self).nodes@[right_node as int].depth,
            final(self).connections@ == old(self).connections@,
            final(self).input_count == old(self).input_count,
            final(self).output_count == old(self).output_count,
    {
        proof {
            assert(old(self).nodes@[left_node as int].depth <= DEPTH_ONE);
            assert(old(self).nodes@[right_node as int].depth <= DEPTH_ONE);
        }
        let dl = self.nodes[left_node].depth;
        let dr = self.nodes[right_node].depth;
        let depth = (dl + dr) / 2;
        proof {
            assert(dl < depth < dr);
            assert(0 < depth < DEPTH_ONE);
        }
        self.create_hidden_node(depth, depth as i64)
    }

    /// Register the connection `from -> to`, or return the existing entry if
    /// the pair is already registered; refuse (returning `None`) a pair that
    /// does not run strictly downward in depth.
    pub fn create_connection(&mut self, from: usize, to: usize) -> (r: Option<Connection>)
        requires
            old(self).wf(),
            from < old(self).nodes@.len(),
            to < old(self).nodes@.len(),
            old(self).connections@.len() < usize::MAX,
        ensures
            final(self).wf(),
            final(self).extends(*old(self)),
            final(self).nodes@ == old(self).nodes@,
            final(self).input_count == old(self).input_count,
            final(self).output_count == old(self).output_count,
            old(self).spec_has_pair(from, to) ==> {
                &&& *final(self) == *old(self)
                &&& r is Some
                &&& r->Some_0.from == from && r->Some_0.to == to
                &&& r->Some_0.innovation < old(self).connections@.len()
                &&& old(self).connections@[r->Some_0.innovation as int] == r->Some_0
            },
            !old(self).spec_has_pair(from, to) && old(self).nodes@[from as int].depth >= old(
                self,
            ).nodes@[to as int].depth ==> {
                &&& final(self).connections@ == old(self).connections@
                &&& r is None
            },
            !old(self).spec_has_pair(from, to) && old(self).nodes@[from as int].depth < old(
                self,
            ).nodes@[to as int].depth ==> {
                &&& r == Some(
                    Connection { from, to, innovation: old(self).connections@.len() as usize },
                )
                &&& final(self).connections@ == old(self).connections@.push(
                    Connection { from, to, innovation: old(self).connections@.len() as usize },
                )
            },
            r is None ==> *final(self) == *old(self),
    {
        let existing = self.connection_mappings.get(from, to);
        match existing {
            Some(innovation) => {
                proof {
                    let pm = pair_map_view(self.connection_mappings);
                    assert(pm.dom().contains((from, to)));
                    assert(self.connections@[innovation as int].from == from);
                    assert(self.connections@[innovation as int].to == to);
                    assert(self.spec_has_pair(from, to));
                }
                Some(self.connections[innovation])
            },
            None => {
                proof {
                    if self.spec_has_pair(from, to) {
                        let j = choose|j: int|
                            0 <= j < self.connections@.len() && (
                            #[trigger] self.connections@[j]).from == from
                                && self.connections@[j].to == to;
                        assert(pair_map_view(self.connection_mappings).dom().contains(
                            (self.connections@[j].from, self.connections@[j].to),
                        ));
                        assert(false);
                    }
                }
                if self.nodes[from].depth >= self.nodes[to].depth {
                    return None;
                }
                let innovation = self.connections.len();
                let connection = Connection { from, to, innovation };
                self.connections.push(connection);
                self.connection_mappings.insert(from, to, innovation);
                proof {
                    let conns = self.connections@;
                    let prior = old(self).connections@;
                    assert forall|j: int, k: int| 0 <= j < k < conns.len() implies !((
                    #[trigger] conns[j]).from == (#[trigger] conns[k]).from && conns[j].to
                        == conns[k].to) by {
                        if k == conns.len() - 1 {
                            if conns[j].from == from && conns[j].to == to {
                                assert(prior[j].from == from && prior[j].to == to);
                                assert(old(self).spec_has_pair(from, to));
                            }
                        }
                    }
                    let pm = pair_map_view(self.connection_mappings);
                    assert forall|j: int| 0 <= j < conns.len() implies pm.dom().contains(
                        ((#[trigger] conns[j]).from, conns[j].to),
                    ) && pm[(conns[j].from, conns[j].to)] == j by {
                        if j < conns.len() - 1 {
                            assert(prior[j].from == conns[j].from && prior[j].to == conns[j].to);
                            if conns[j].from == from && conns[j].to == to {
                                assert(old(self).spec_has_pair(from, to));
                            }
                        }
                    }
                }
                Some(connection)
            },
        }
    }

    /// Rebuild the deduplication index from the connection list.
    pub fn regenerate_fields(&mut self)
        requires
            old(self).wf_core(),
        ensures
            final(self).wf(),
            final(self).nodes@ == old(self).nodes@,
            final(self).connections@ == old(self).connections@,
            final(self).input_count == old(self).input_count,
            final(self).output_count == old(self).output_count,
    {
        self.connection_mappings.clear();
        let n = self.connections.len();
        let mut i: usize = 0;
        while i < n
            invariant
                n == self.connections@.len(),
                i <= n,
                self.wf_core(),
                self.nodes@ == old(self).nodes@,
                self.connections@ == old(self).connections@,
                self.input_count == old(self).input_count,
                self.output_count == old(self).output_count,
                forall|j: int|
                    0 <= j < i ==> pair_map_view(self.connection_mappings).dom().contains(
                        ((#[trigger] self.connections@[j]).from, self.connections@[j].to),
                    ) && pair_map_view(self.connection_mappings)[(
                        self.connections@[j].from,
                        self.connections@[j].to,
                    )] == j,
                forall|p: (usize, usize)|
                    pair_map_view(self.connection_mappings).dom().contains(p)
                        ==> #[trigger] pair_map_view(self.connection_mappings)[p] < i
                        && self.connections@[pair_map_view(self.connection_mappings)[p] as int].from
                        == p.0 && self.connections@[pair_map_view(
                        self.connection_mappings,
                    )[p] as int].to == p.1,
            decreases n - i,
        {
            let c = self.connections[i];
            self.connection_mappings.insert(c.from, c.to, i);
            proof {
                assert forall|j: int|
                    0 <= j < i + 1 implies pair_map_view(self.connection_mappings).dom().contains(
                    ((#[trigger] self.connections@[j]).from, self.connections@[j].to),
                ) && pair_map_view(self.connection_mappings)[(
                    self.connections@[j].from,
                    self.connections@[j].to,
                )] == j by {
                    if j < i as int {
                        assert(!(self.connections@[j].from == c.from && self.connections@[j].to
                            == c.to));
                    }
                }
            }
            i = i + 1;
        }
    }
}

/// A node list that extends another, entry for entry, keeps every input and
/// output ordinal that the shorter list had.
proof fn lemma_ordinals_extend(older: Seq<Node>, newer: Seq<Node>)
    requires
        older.len() <= newer.len(),
        forall|i: int| 0 <= i < older.len() ==> newer[i] == older[i],
    ensures
        forall|k: usize| has_input_ordinal(older, k) ==> #[trigger] has_input_ordinal(newer, k),
        forall|k: usize| has_output_ordinal(older, k) ==> #[trigger] has_output_ordinal(newer, k),
{
    assert forall|k: usize| has_input_ordinal(older, k) implies #[trigger] has_input_ordinal(
        newer,
        k,
    ) by {
        let w = choose|i: int|
            0 <= i < older.len() && (#[trigger] older[i]).node_type == NodeType::Input(k);
        assert(newer[w].node_type == NodeType::Input(k));
    }
    assert forall|k: usize| has_output_ordinal(older, k) implies #[trigger] has_output_ordinal(
        newer,
        k,
    ) by {
        let w = choose|i: int|
            0 <= i < older.len() && (#[trigger] older[i]).node_type == NodeType::Output(k);
        assert(newer[w].node_type == NodeType::Output(k));
    }
}

/// Every connection of a well-formed pool runs from a strictly shallower
/// node to a strictly deeper one — the registered graph is acyclic — and
/// innovation numbers are dense: the connection at index `j` carries
/// innovation `j`.
pub proof fn lemma_pool_monotone_acyclic(pool: GenePool)
    requires
        pool.wf(),
    ensures
        forall|j: int|
            0 <= j < pool.connections@.len() ==> pool.nodes@[(
            #[trigger] pool.connections@[j]).from as int].depth < pool.nodes@[pool.connections@[j].to as int].depth,
        forall|j: int|
            0 <= j < pool.connections@.len() ==> (#[trigger] pool.connections@[j]).innovation == j,
{
}

impl GenePool {
    /// Register a hidden node halfway between the endpoints of an existing
    /// downward pair, together with the two fresh connections around it.
    pub(crate) fn interpose(&mut self, from_id: usize, to_id: usize) -> (r: (
        usize,
        Connection,
        Connection,
    ))
        requires
            old(self).wf(),
            from_id < old(self).nodes@.len(),
            to_id < old(self).nodes@.len(),
            old(self).nodes@[from_id as int].depth + 2 <= old(self).nodes@[to_id as int].depth,
            old(self).nodes@.len() < usize::MAX,
            old(self).connections@.len() + 2 <= usize::MAX,
        ensures
            final(self).wf(),
            final(self).extends(*old(self)),
            final(self).input_count == old(self).input_count,
            final(self).output_count == old(self).output_count,
            final(self).nodes@.len() == old(self).nodes@.len() + 1,
            r.0 == old(self).nodes@.len() as usize,
            final(self).nodes@[r.0 as int].node_type is Hidden,
            final(self).connections@.len() == old(self).connections@.len() + 2,
            r.1 == (Connection {
                from: from_id,
                to: r.0,
                innovation: old(self).connections@.len() as usize,
            }),
            r.2 == (Connection {
                from: r.0,
                to: to_id,
                innovation: (old(self).connections@.len() + 1) as usize,
            }),
            final(self).connections@[old(self).connections@.len() as int] == r.1,
            final(self).connections@[old(self).connections@.len() as int + 1] == r.2,
    {
        let ghost pool0 = *self;
        let new_node = self.create_hidden_node_between(from_id, to_id);
        proof {
            if self.spec_has_pair(from_id, new_node) {
                let w = choose|j: int|
                    0 <= j < self.connections@.len() && (#[trigger] self.connections@[j]).from
                        == from_id && self.connections@[j].to == new_node;
                assert(pool0.connections@[w].to < pool0.nodes@.len());
            }
        }
        let left = match self.create_connection(from_id, new_node) {
            Some(c) => c,
            None => {
                proof {
                    assert(false);
                }
                Connection { from: 0, to: 0, innovation: 0 }
            },
        };
        proof {
            if self.spec_has_pair(new_node, to_id) {
                let w = choose|j: int|
                    0 <= j < self.connections@.len() && (#[trigger] self.connections@[j]).from
                        == new_node && self.connections@[j].to == to_id;
                if w < pool0.connections@.len() {
                    assert(pool0.connections@[w].from < pool0.nodes@.len());
                } else {
                    assert(self.connections@[w].to == new_node);
                }
            }
        }
        let right = match self.create_connection(new_node, to_id) {
            Some(c) => c,
            None => {
                proof {
                    assert(false);
                }
                Connection { from: 0, to: 0, innovation: 0 }
            },
        };
        (new_node, left, right)
    }
}

impl GenePool {
    /// The standard starting topology: `input_nodes` inputs, `output_nodes`
    /// outputs, and a connection from every input to every output.
    pub fn new_dense(input_nodes: usize, output_nodes: usize) -> (r: GenePool)
        requires
            input_nodes + output_nodes <= usize::MAX,
            input_nodes * output_nodes <= usize::MAX,
        ensures
            r.wf(),
            r.input_count == input_nodes,
            r.output_count == output_nodes,
            r.nodes@.len() == input_nodes + output_nodes,
            r.connections@.len() == input_nodes * output_nodes,
            forall|i: int|
                0 <= i < input_nodes ==> (#[trigger] r.nodes@[i]).node_type == NodeType::Input(
                    i as usize,
                ),
            forall|i: int|
                input_nodes <= i < input_nodes + output_nodes ==> (
                #[trigger] r.nodes@[i]).node_type == NodeType::Output((i - input_nodes) as usize),
            forall|a: usize, b: usize|
                a < input_nodes && b < output_nodes ==> #[trigger] r.spec_has_pair(
                    a,
                    (input_nodes + b) as usize,
                ),
    {
        let mut pool = GenePool::new();
        let mut i: usize = 0;
        while i < input_nodes
            invariant
                input_nodes + output_nodes <= usize::MAX,
                i <= input_nodes,
                pool.wf(),
                pool.nodes@.len() == i,
                pool.connections@.len() == 0,
                pool.input_count == i,
                pool.output_count == 0,
                forall|t: int|
                    0 <= t < i ==> (#[trigger] pool.nodes@[t]).node_type == NodeType::Input(
                        t as usize,
                    ),
            decreases input_nodes - i,
        {
            let vp = if input_nodes > 0 {
                (((i as u128) * (SCALE as u128)) / (input_nodes as u128)) as i64
            } else {
                0
            };
            proof {
                let ii = i as int;
                let n = input_nodes as int;
                assert(0 <= (ii * SCALE) / n <= SCALE) by (nonlinear_arith)
                    requires
                        0 <= ii < n,
                ;
            }
            let ghost before = pool;
            pool.create_input_node(vp);
            proof {
                assert(forall|t: int|
                    0 <= t < i ==> pool.nodes@[t] == before.nodes@[t]);
            }
            i = i + 1;
        }
        let mut j: usize = 0;
        while j < output_nodes
            invariant
                input_nodes + output_nodes <= usize::MAX,
                j <= output_nodes,
                pool.wf(),
                pool.nodes@.len() == input_nodes + j,
                pool.connections@.len() == 0,
                pool.input_count == input_nodes,
                pool.output_count == j,
                forall|t: int|
                    0 <= t < input_nodes ==> (#[trigger] pool.nodes@[t]).node_type
                        == NodeType::Input(t as usize),
                forall|t: int|
                    input_nodes <= t < input_nodes + j ==> (#[trigger] pool.nodes@[t]).node_type
                        == NodeType::Output((t - input_nodes) as usize),
            decreases output_nodes - j,
        {
            let vp = if output_nodes > 0 {
                (((j as u128) * (SCALE as u128)) / (output_nodes as u128)) as i64
            } else {
                0
            };
            proof {
                let jj = j as int;
                let n = output_nodes as int;
                assert(0 <= (jj * SCALE) / n <= SCALE) by (nonlinear_arith)
                    requires
                        0 <= jj < n,
                ;
            }
            let ghost before = pool;
            pool.create_output_node(vp);
            proof {
                assert(forall|t: int|
                    0 <= t < input_nodes + j ==> pool.nodes@[t] == before.nodes@[t]);
            }
            j = j + 1;
        }
        let mut a: usize = 0;
        while a < input_nodes
            invariant
                input_nodes + output_nodes <= usize::MAX,
                input_nodes * output_nodes <= usize::MAX,
                a <= input_nodes,
                pool.wf(),
                pool.nodes@.len() == input_nodes + output_nodes,
                pool.input_count == input_nodes,
                pool.output_count == output_nodes,
                forall|t: int|
                    0 <= t < input_nodes ==> (#[trigger] pool.nodes@[t]).node_type
                        == NodeType::Input(t as usize),
                forall|t: int|
                    input_nodes <= t < input_nodes + output_nodes ==> (
                    #[trigger] pool.nodes@[t]).node_type == NodeType::Output(
                        (t - input_nodes) as usize,
                    ),
                pool.connections@.len() == a * output_nodes,
                forall|k: int|
                    0 <= k < pool.connections@.len() ==> (#[trigger] pool.connections@[k]).from
                        < a && input_nodes <= pool.connections@[k].to < input_nodes + output_nodes,
                forall|x: usize, y: usize|
                    x < a && y < output_nodes ==> #[trigger] pool.spec_has_pair(
                        x,
                        (input_nodes + y) as usize,
                    ),
            decreases input_nodes - a,
        {
            let mut b: usize = 0;
            while b < output_nodes
                invariant
                    input_nodes + output_nodes <= usize::MAX,
                    input_nodes * output_nodes <= usize::MAX,
                    a < input_nodes,
                    b <= output_nodes,
                    pool.wf(),
                    pool.nodes@.len() == input_nodes + output_nodes,
                    pool.input_count == input_nodes,
                    pool.output_count == output_nodes,
                    forall|t: int|
                        0 <= t < input_nodes ==> (#[trigger] pool.nodes@[t]).node_type
                            == NodeType::Input(t as usize),
                    forall|t: int|
                        input_nodes <= t < input_nodes + output_nodes ==> (
                        #[trigger] pool.nodes@[t]).node_type == NodeType::Output(
                            (t - input_nodes) as usize,
                        ),
                    pool.connections@.len() == a * output_nodes + b,
                    forall|k: int|
                        0 <= k < pool.connections@.len() ==> ((#[trigger] pool.connections@[k]).from
                            < a || (pool.connections@[k].from == a && pool.connections@[k].to
                            < input_nodes + b)) && pool.connections@[k].from < input_nodes
                            && input_nodes <= pool.connections@[k].to < input_nodes + output_nodes,
                    forall|x: usize, y: usize|
                        (x < a || (x == a && y < b)) && x < input_nodes && y < output_nodes
                            ==> #[trigger] pool.spec_has_pair(x, (input_nodes + y) as usize),
                decreases output_nodes - b,
            {
                proof {
                    let ai = a as int;
                    let bi = b as int;
                    let oi = output_nodes as int;
                    let ii = input_nodes as int;
                    assert(ai * oi + bi < ii * oi) by (nonlinear_arith)
                        requires
                            0 <= ai < ii,
                            0 <= bi < oi,
                    ;
                    if pool.spec_has_pair(a, (input_nodes + b) as usize) {
                        let w = choose|w: int|
                            0 <= w < pool.connections@.len() && (
                            #[trigger] pool.connections@[w]).from == a
                                && pool.connections@[w].to == (input_nodes + b) as usize;
                        assert(false);
                    }
                }
                let ghost before = pool;
                let made = pool.create_connection(a, input_nodes + b);
                proof {
                    assert(made is Some);
                    assert(pool.connections@.len() == before.connections@.len() + 1);
                    assert(a as int * output_nodes as int + b + 1 == a as int
                        * output_nodes as int + (b + 1));
                    assert forall|x: usize, y: usize|
                        (x < a || (x == a && y < b + 1)) && x < input_nodes && y < output_nodes
                            implies #[trigger] pool.spec_has_pair(
                        x,
                        (input_nodes + y) as usize,
                    ) by {
                        if x < a || y < b {
                            assert(before.spec_has_pair(x, (input_nodes + y) as usize));
                            let w = choose|w: int|
                                0 <= w < before.connections@.len() && (
                                #[trigger] before.connections@[w]).from == x
                                    && before.connections@[w].to == (input_nodes + y) as usize;
                            assert(pool.connections@[w].from == x);
                        } else {
                            assert(pool.connections@[before.connections@.len() as int].from == a);
                        }
                    }
                }
                b = b + 1;
            }
            proof {
                assert(a as int * output_nodes as int + output_nodes as int == (a as int + 1)
                    * output_nodes as int) by (nonlinear_arith);
            }
            a = a + 1;
        }
        pool
    }
}

} // verus!
