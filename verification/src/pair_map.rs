//! The gene pool's deduplication index: `(from, to)` pair of node ids to the
//! innovation number of the connection registered for that pair.
//!
//! The index is a hashbrown hash map. Verus sees the structure only through
//! the uninterpreted contents function `pair_map_view` and the trusted
//! methods below, whose contracts state what hashbrown's `HashMap` does.

use hashbrown::HashMap;
use vstd::prelude::*;

verus! {

/// A map from `(from, to)` node-id pairs to innovation numbers, backed by
/// `hashbrown::HashMap`.
#[verifier::external_body]
#[derive(Debug)]
pub struct PairMap {
    map: HashMap<(usize, usize), usize>,
}

/// What a `PairMap` holds: the association of `(from, to)` pairs with
/// innovation numbers.
pub uninterp spec fn pair_map_view(m: PairMap) -> Map<(usize, usize), usize>;

/// The empty association: what a freshly made or cleared `PairMap` holds.
pub open spec fn no_pairs() -> Map<(usize, usize), usize> {
    Map::empty()
}

impl PairMap {
    /// Relies on hashbrown::HashMap::new: the new map holds nothing.
    #[verifier::external_body]
    pub fn new() -> (r: PairMap)
        ensures
            pair_map_view(r) == no_pairs(),
    {
        PairMap { map: HashMap::new() }
    }

    /// Relies on hashbrown::HashMap::get: the value stored under the key,
    /// or None when the key is absent.
    #[verifier::external_body]
    pub fn get(&self, from: usize, to: usize) -> (r: Option<usize>)
        ensures
            r == if pair_map_view(*self).dom().contains((from, to)) {
                Some(pair_map_view(*self)[(from, to)])
            } else {
                None::<usize>
            },
    {
        self.map.get(&(from, to)).copied()
    }

    /// Relies on hashbrown::HashMap::insert: stores the value under the key,
    /// replacing any previous value.
    #[verifier::external_body]
    pub fn insert(&mut self, from: usize, to: usize, innovation: usize)
        ensures
            pair_map_view(*final(self)) == pair_map_view(*old(self)).insert(
                (from, to),
                innovation,
            ),
    {
        self.map.insert((from, to), innovation);
    }

    /// Relies on hashbrown::HashMap::clear: removes every entry.
    #[verifier::external_body]
    pub fn clear(&mut self)
        ensures
            pair_map_view(*final(self)) == no_pairs(),
    {
        self.map.clear();
    }
}

} // verus!
