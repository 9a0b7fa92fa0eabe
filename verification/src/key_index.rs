//! A small verified ordered index: `(key, value)` pairs held in a vector
//! sorted strictly by key. The genome keeps two of these — innovation
//! number to local gene index, and pool node id to local node index — and
//! walks the first in ascending innovation order during distance and
//! crossover.

use vstd::prelude::*;

verus! {

/// An ordered map from `usize` keys to `usize` values, kept as a vector of
/// pairs sorted strictly by key.
#[derive(Debug)]
#[verifier::ext_equal]
pub struct KeyIndex {
    pub entries: Vec<(usize, usize)>,
}

impl Clone for KeyIndex {
    /// An entry-for-entry copy.
    fn clone(&self) -> (res: Self)
        ensures
            res.entries@ == self.entries@,
    {
        let n = self.entries.len();
        let mut entries: Vec<(usize, usize)> = Vec::new();
        let mut k: usize = 0;
        while k < n
            invariant
                n == self.entries@.len(),
                k <= n,
                entries@.len() == k,
                forall|i: int| 0 <= i < k ==> entries@[i] == self.entries@[i],
            decreases n - k,
        {
            entries.push(self.entries[k]);
            k = k + 1;
        }
        let res = KeyIndex { entries };
        proof {
            assert(res.entries@ =~= self.entries@);
        }
        res
    }
}

/// Two indexes with the same entries agree on every lookup.
pub proof fn lemma_same_entries_lookup(a: KeyIndex, b: KeyIndex, key: usize)
    requires
        a.wf(),
        a.entries@ == b.entries@,
    ensures
        b.wf(),
        a.spec_contains(key) == b.spec_contains(key),
        a.spec_contains(key) ==> a.value_of(key) == b.value_of(key) && a.index_of(key)
            == b.index_of(key),
{
    if a.spec_contains(key) {
        let wa = a.index_of(key);
        assert(b.spec_contains(key));
        let wb = b.index_of(key);
        assert(a.entries@[wb].0 == key);
        lemma_unique_key(a, wa, wb);
    }
    if b.spec_contains(key) {
        let wb = b.index_of(key);
        assert(a.entries@[wb].0 == key);
        assert(a.spec_contains(key));
    }
}

impl KeyIndex {
    /// Keys are strictly increasing (so each key occurs once).
    pub open spec fn wf(self) -> bool {
        forall|i: int, j: int|
            0 <= i < j < self.entries@.len() ==> self.entries@[i].0 < self.entries@[j].0
    }

    /// The sequence of keys, in ascending order.
    pub open spec fn key_seq(self) -> Seq<usize> {
        self.entries@.map(|i: int, e: (usize, usize)| e.0)
    }

    /// Whether some entry has this key.
    pub open spec fn spec_contains(self, key: usize) -> bool {
        exists|i: int| 0 <= i < self.entries@.len() && self.entries@[i].0 == key
    }

    /// The position of the entry with this key.
    pub open spec fn index_of(self, key: usize) -> int {
        choose|i: int| 0 <= i < self.entries@.len() && self.entries@[i].0 == key
    }

    /// The value stored under this key.
    pub open spec fn value_of(self, key: usize) -> usize {
        self.entries@[self.index_of(key)].1
    }

    /// The contents as a mathematical map.
    pub open spec fn as_map(self) -> Map<usize, usize> {
        Map::new(|k: usize| self.spec_contains(k), |k: usize| self.value_of(k))
    }

    pub fn new() -> (r: KeyIndex)
        ensures
            r.wf(),
            r.entries@.len() == 0,
            r.as_map() == Map::<usize, usize>::empty(),
    {
        let r = KeyIndex { entries: Vec::new() };
        proof {
            assert(r.as_map() =~= Map::<usize, usize>::empty());
        }
        r
    }

    pub fn len(&self) -> (r: usize)
        ensures
            r == self.entries@.len(),
    {
        self.entries.len()
    }

    /// Look a key up; returns the stored value when the key is present.
    pub fn get(&self, key: usize) -> (r: Option<usize>)
        requires
            self.wf(),
        ensures
            r == if self.spec_contains(key) {
                Some(self.value_of(key))
            } else {
                None::<usize>
            },
    {
        let n = self.entries.len();
        let mut i: usize = 0;
        while i < n
            invariant
                n == self.entries@.len(),
                i <= n,
                self.wf(),
                forall|j: int| 0 <= j < i ==> self.entries@[j].0 != key,
            decreases n - i,
        {
            let e = self.entries[i];
            if e.0 == key {
                proof {
                    assert(self.spec_contains(key));
                    let w = self.index_of(key);
                    assert(0 <= w < self.entries@.len() && self.entries@[w].0 == key);
                    assert(w == i) by {
                        if w < i as int {
                            assert(self.entries@[w].0 != key);
                        } else if w > i as int {
                            assert(self.entries@[i as int].0 < self.entries@[w].0);
                        }
                    }
                }
                return Some(e.1);
            }
            i = i + 1;
        }
        proof {
            assert(!self.spec_contains(key));
        }
        None
    }

    pub fn contains(&self, key: usize) -> (r: bool)
        requires
            self.wf(),
        ensures
            r == self.spec_contains(key),
    {
        self.get(key).is_some()
    }

    /// Insert a key that is not yet present, keeping the entries sorted.
    pub fn insert_new(&mut self, key: usize, value: usize)
        requires
            old(self).wf(),
            !old(self).spec_contains(key),
        ensures
            final(self).wf(),
            final(self).as_map() == old(self).as_map().insert(key, value),
            final(self).entries@.len() == old(self).entries@.len() + 1,
            final(self).spec_contains(key),
            final(self).value_of(key) == value,
            forall|k: usize| k != key ==> #[trigger] final(self).spec_contains(k)
                == old(self).spec_contains(k),
            forall|k: usize| k != key && old(self).spec_contains(k)
                ==> #[trigger] final(self).value_of(k) == old(self).value_of(k),
            (forall|j: int|
                0 <= j < old(self).entries@.len() ==> (#[trigger] old(self).entries@[j]).0 < key)
                ==> final(self).entries@ == old(self).entries@.push((key, value)),
    {
        let ghost prior = *self;
        let n = self.entries.len();
        let mut pos: usize = 0;
        while pos < n && self.entries[pos].0 < key
            invariant
                n == self.entries@.len(),
                pos <= n,
                self.wf(),
                *self == prior,
                !self.spec_contains(key),
                forall|j: int| 0 <= j < pos ==> self.entries@[j].0 < key,
            decreases n - pos,
        {
            pos = pos + 1;
        }
        proof {
            assert(forall|j: int| 0 <= j < pos ==> prior.entries@[j].0 < key);
            assert forall|j: int| pos <= j < n implies prior.entries@[j].0 > key by {
                if prior.entries@[pos as int].0 == key {
                    assert(prior.spec_contains(key));
                }
                if j > pos as int {
                    assert(prior.entries@[pos as int].0 < prior.entries@[j].0);
                }
                if prior.entries@[j].0 == key {
                    assert(prior.spec_contains(key));
                }
            }
        }
        self.entries.insert(pos, (key, value));
        proof {
            lemma_insert_keeps_order(prior, *self, pos as int, key, value);
            if forall|j: int|
                0 <= j < prior.entries@.len() ==> (#[trigger] prior.entries@[j]).0 < key {
                assert(pos == n) by {
                    if (pos as int) < n as int {
                        assert(prior.entries@[pos as int].0 < key);
                    }
                }
                assert(self.entries@ =~= prior.entries@.push((key, value)));
            }
        }
    }
}

/// After inserting `(key, value)` at a position where everything before is
/// below `key` and everything at or after is above it, the index is still
/// sorted and its map gained exactly that binding.
proof fn lemma_insert_keeps_order(
    prior: KeyIndex,
    cur: KeyIndex,
    pos: int,
    key: usize,
    value: usize,
)
    requires
        prior.wf(),
        0 <= pos <= prior.entries@.len(),
        forall|j: int| 0 <= j < pos ==> prior.entries@[j].0 < key,
        forall|j: int| pos <= j < prior.entries@.len() ==> prior.entries@[j].0 > key,
        cur.entries@ == prior.entries@.insert(pos, (key, value)),
    ensures
        cur.wf(),
        cur.as_map() == prior.as_map().insert(key, value),
        cur.entries@.len() == prior.entries@.len() + 1,
        cur.spec_contains(key),
        cur.value_of(key) == value,
        forall|k: usize| k != key ==> #[trigger] cur.spec_contains(k) == prior.spec_contains(k),
        forall|k: usize| k != key && prior.spec_contains(k)
            ==> #[trigger] cur.value_of(k) == prior.value_of(k),
{
    let pe = prior.entries@;
    let ce = cur.entries@;
    assert(ce.len() == pe.len() + 1);
    assert(forall|j: int| 0 <= j < pos ==> ce[j] == pe[j]);
    assert(ce[pos] == (key, value));
    assert(forall|j: int| pos < j < ce.len() ==> ce[j] == pe[j - 1]);
    assert forall|i: int, j: int| 0 <= i < j < ce.len() implies ce[i].0 < ce[j].0 by {
        if i < pos && j < pos {
        } else if i < pos && j == pos {
        } else if i < pos && j > pos {
            assert(ce[j] == pe[j - 1]);
            if j - 1 == i {
            } else {
                assert(pe[i].0 < pe[j - 1].0);
            }
        } else if i == pos && j > pos {
            assert(ce[j] == pe[j - 1]);
        } else {
            assert(ce[i] == pe[i - 1] && ce[j] == pe[j - 1]);
            assert(pe[i - 1].0 < pe[j - 1].0);
        }
    }
    assert(cur.wf());
    assert(cur.spec_contains(key)) by {
        assert(ce[pos].0 == key);
    }
    assert(cur.value_of(key) == value) by {
        let w = cur.index_of(key);
        lemma_unique_key(cur, w, pos);
    }
    assert forall|k: usize| k != key implies #[trigger] cur.spec_contains(k)
        == prior.spec_contains(k) by {
        if prior.spec_contains(k) {
            let w = prior.index_of(k);
            if w < pos {
                assert(ce[w].0 == k);
            } else {
                assert(ce[w + 1].0 == k);
            }
            assert(cur.spec_contains(k));
        }
        if cur.spec_contains(k) {
            let w = cur.index_of(k);
            if w < pos {
                assert(pe[w].0 == k);
            } else {
                assert(w != pos);
                assert(pe[w - 1].0 == k);
            }
            assert(prior.spec_contains(k));
        }
    }
    assert forall|k: usize| k != key && prior.spec_contains(k)
        implies #[trigger] cur.value_of(k) == prior.value_of(k) by {
        let w = prior.index_of(k);
        assert(0 <= w < pe.len() && pe[w].0 == k);
        let c = cur.index_of(k);
        if w < pos {
            assert(ce[w].0 == k);
            assert(cur.spec_contains(k));
            lemma_unique_key(cur, c, w);
            assert(cur.value_of(k) == ce[w].1);
        } else {
            assert(ce[w + 1].0 == k);
            assert(cur.spec_contains(k));
            lemma_unique_key(cur, c, w + 1);
            assert(cur.value_of(k) == ce[w + 1].1);
        }
        lemma_unique_key(prior, prior.index_of(k), w);
    }
    assert(cur.as_map() =~= prior.as_map().insert(key, value));
}

/// The entry at a position is exactly what a lookup of its key returns.
pub proof fn lemma_entry_lookup(m: KeyIndex, k: int)
    requires
        m.wf(),
        0 <= k < m.entries@.len(),
    ensures
        m.spec_contains(m.entries@[k].0),
        m.value_of(m.entries@[k].0) == m.entries@[k].1,
        m.index_of(m.entries@[k].0) == k,
{
    assert(m.spec_contains(m.entries@[k].0));
    let w = m.index_of(m.entries@[k].0);
    lemma_unique_key(m, w, k);
}

/// In a sorted index two positions holding the same key are the same
/// position.
pub proof fn lemma_unique_key(m: KeyIndex, i: int, j: int)
    requires
        m.wf(),
        0 <= i < m.entries@.len(),
        0 <= j < m.entries@.len(),
        m.entries@[i].0 == m.entries@[j].0,
    ensures
        i == j,
{
    if i < j {
        assert(m.entries@[i].0 < m.entries@[j].0);
    }
    if j < i {
        assert(m.entries@[j].0 < m.entries@[i].0);
    }
}

} // verus!
