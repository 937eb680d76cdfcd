//! The lookup index behind stable-hash search: an insert-only binary search
//! tree kept in one dense array, whose child links are array positions.

use vstd::prelude::*;

verus! {

/// One node of the tree. `gt` and `lt` are the array positions of the
/// children that hold greater and smaller keys.
#[derive(Clone, Copy)]
pub(crate) struct Node {
    key: u64,
    val: u16,
    gt: Option<u16>,
    lt: Option<u16>,
}

/// An insert-only, densely packed map from 64-bit keys to 16-bit values.
///
/// Nodes are appended and never moved or removed, so the root is always the
/// node at position 0 and every link points forward in the array.
pub struct InsertMap {
    entries: Vec<Node>,
    /// For each node, the positions of the two nodes whose keys bound its
    /// subtree from below and from above; -1 where that side is unbounded.
    bounds: Ghost<Seq<(int, int)>>,
}

/// Where a descent towards a key ends.
enum Probe {
    /// The tree has no node.
    Empty,
    /// A node holds the key; this is its value.
    Found(u16),
    /// The key is absent; it belongs under `parent`, on the greater or the
    /// smaller side.
    Vacant { parent: usize, greater: bool },
}

/// What a map holds under a key, if anything.
pub open spec fn lookup(m: Map<u64, u16>, key: u64) -> Option<u16> {
    if m.contains_key(key) {
        Some(m[key])
    } else {
        None
    }
}

/// The map after an insertion attempt: a key that is already present keeps
/// its value, a new key is bound to `val`.
pub open spec fn inserted(m: Map<u64, u16>, key: u64, val: u16) -> Map<u64, u16> {
    if m.contains_key(key) {
        m
    } else {
        m.insert(key, val)
    }
}

/// The map that a run of insertion attempts, made in order on an empty
/// map, leaves behind.
pub open spec fn after_inserts(pairs: Seq<(u64, u16)>) -> Map<u64, u16>
    decreases pairs.len(),
{
    if pairs.len() == 0 {
        Map::empty()
    } else {
        inserted(after_inserts(pairs.drop_last()), pairs.last().0, pairs.last().1)
    }
}

/// An empty map holds nothing under any key, and an insertion into it finds
/// nothing in its way.
pub proof fn lemma_empty_holds_nothing(key: u64, val: u16)
    ensures
        lookup(Map::empty(), key) is None,
        inserted(Map::empty(), key, val) == Map::<u64, u16>::empty().insert(key, val),
{
}

/// After insertions under keys that all differ, none of them found a key in
/// its way, each key gives the value it was inserted with, and every other
/// key gives nothing.
pub proof fn lemma_distinct_inserts(pairs: Seq<(u64, u16)>)
    requires
        forall|i: int, j: int| 0 <= i < j < pairs.len() ==> pairs[i].0 != pairs[j].0,
    ensures
        forall|i: int|
            0 <= i < pairs.len() ==> lookup(after_inserts(pairs.take(i)), (#[trigger] pairs[i]).0) is None,
        forall|i: int|
            0 <= i < pairs.len() ==> lookup(after_inserts(pairs), (#[trigger] pairs[i]).0) == Some(
                pairs[i].1,
            ),
        forall|k: u64|
            (forall|i: int| 0 <= i < pairs.len() ==> (#[trigger] pairs[i]).0 != k) ==> #[trigger] lookup(
                after_inserts(pairs),
                k,
            ) is None,
    decreases pairs.len(),
{
    if pairs.len() > 0 {
        let n = pairs.len() - 1;
        let front = pairs.drop_last();
        lemma_distinct_inserts(front);
        assert forall|i: int| 0 <= i < n implies #[trigger] front[i] == pairs[i] by {}
        assert(forall|i: int| 0 <= i < n ==> (#[trigger] front[i]).0 != pairs[n].0);
        assert(lookup(after_inserts(front), pairs[n].0) is None);
        assert forall|i: int| 0 <= i < pairs.len() implies lookup(
            after_inserts(pairs.take(i)),
            (#[trigger] pairs[i]).0,
        ) is None by {
            if i < n {
                assert(front.take(i) =~= pairs.take(i));
                assert(front[i] == pairs[i]);
            } else {
                assert(pairs.take(i) =~= front);
            }
        }
        assert forall|i: int| 0 <= i < pairs.len() implies lookup(
            after_inserts(pairs),
            (#[trigger] pairs[i]).0,
        ) == Some(pairs[i].1) by {
            if i < n {
                assert(front[i] == pairs[i]);
            }
        }
        assert forall|k: u64|
            (forall|i: int| 0 <= i < pairs.len() ==> (#[trigger] pairs[i]).0 != k) implies #[trigger] lookup(
            after_inserts(pairs),
            k,
        ) is None by {
            assert(pairs[n].0 != k);
            assert forall|i: int| 0 <= i < front.len() implies (#[trigger] front[i]).0 != k by {
                assert(pairs[i].0 != k);
            }
            assert(lookup(after_inserts(front), k) is None);
        }
    }
}

impl InsertMap {
    /// Number of nodes stored.
    pub closed spec fn spec_len(&self) -> nat {
        self.entries@.len()
    }

    spec fn lo(&self, i: int) -> int {
        let b = self.bounds@[i].0;
        if b < 0 {
            -1
        } else {
            self.entries@[b].key as int
        }
    }

    spec fn hi(&self, i: int) -> int {
        let b = self.bounds@[i].1;
        if b < 0 {
            0x1_0000_0000_0000_0000
        } else {
            self.entries@[b].key as int
        }
    }

    /// `k` lies strictly between the bounds of node `i`'s subtree.
    spec fn inside(&self, i: int, k: int) -> bool {
        self.lo(i) < k < self.hi(i)
    }

    /// Node `i` lies within its bounds, and its links point forward to
    /// children whose bounds are narrowed by its key.
    spec fn node_ok(&self, i: int) -> bool {
        let n = self.entries@.len();
        let node = self.entries@[i];
        let b = self.bounds@[i];
        &&& -1 <= b.0 < i
        &&& -1 <= b.1 < i
        &&& self.inside(i, node.key as int)
        &&& match node.gt {
            Some(c) => i < c < n && self.bounds@[c as int] == (i, b.1),
            None => true,
        }
        &&& match node.lt {
            Some(c) => i < c < n && self.bounds@[c as int] == (b.0, i),
            None => true,
        }
    }

    /// Node `j` is reachable through node `i` if its key falls inside `i`'s
    /// subtree, and no two nodes share a key.
    spec fn pair_ok(&self, i: int, j: int) -> bool {
        let a = self.entries@[i];
        let k = self.entries@[j].key;
        &&& self.inside(i, k as int) && k > a.key ==> a.gt is Some
        &&& self.inside(i, k as int) && k < a.key ==> a.lt is Some
        &&& k == a.key ==> i == j
    }

    /// The array is a binary search tree rooted at position 0.
    pub closed spec fn wf(&self) -> bool {
        let n = self.entries@.len();
        &&& self.bounds@.len() == n
        &&& n > 0 ==> self.bounds@[0] == (-1int, -1int)
        &&& forall|i: int| 0 <= i < n ==> #[trigger] self.node_ok(i)
        &&& forall|i: int, j: int| 0 <= i < n && 0 <= j < n ==> #[trigger] self.pair_ok(i, j)
    }

    spec fn has(&self, key: u64) -> bool {
        exists|i: int| 0 <= i < self.entries@.len() && (#[trigger] self.entries@[i]).key == key
    }

    spec fn slot(&self, key: u64) -> int {
        choose|i: int| 0 <= i < self.entries@.len() && (#[trigger] self.entries@[i]).key == key
    }

    /// The keys stored, each with its value.
    pub closed spec fn view(&self) -> Map<u64, u16> {
        Map::new(|k: u64| self.has(k), |k: u64| self.entries@[self.slot(k)].val)
    }

    proof fn lemma_node_in_view(&self, i: int)
        requires
            self.wf(),
            0 <= i < self.entries@.len(),
        ensures
            self@.contains_key(self.entries@[i].key),
            self@[self.entries@[i].key] == self.entries@[i].val,
    {
        let k = self.entries@[i].key;
        assert(self.has(k));
        assert(self.pair_ok(i, self.slot(k)));
    }

    proof fn lemma_absent(&self, i: int, key: u64)
        requires
            self.wf(),
            0 <= i < self.entries@.len(),
            self.inside(i, key as int),
            key > self.entries@[i].key ==> self.entries@[i].gt is None,
            key < self.entries@[i].key ==> self.entries@[i].lt is None,
            key != self.entries@[i].key,
        ensures
            !self@.contains_key(key),
    {
        if self.has(key) {
            assert(self.pair_ok(i, self.slot(key)));
        }
    }

    /// An empty map.
    pub fn new() -> (m: Self)
        ensures
            m.wf(),
            m@ == Map::<u64, u16>::empty(),
            m.spec_len() == 0,
    {
        let m = InsertMap { entries: Vec::new(), bounds: Ghost(Seq::empty()) };
        assert(m@ =~= Map::<u64, u16>::empty());
        m
    }

    /// An empty map with room for `capacity` nodes.
    pub fn with_capacity(capacity: usize) -> (m: Self)
        ensures
            m.wf(),
            m@ == Map::<u64, u16>::empty(),
            m.spec_len() == 0,
    {
        let m = InsertMap { entries: Vec::with_capacity(capacity), bounds: Ghost(Seq::empty()) };
        assert(m@ =~= Map::<u64, u16>::empty());
        m
    }

    /// Number of nodes stored.
    pub fn len(&self) -> (n: usize)
        ensures
            n == self.spec_len(),
    {
        self.entries.len()
    }

    /// Descends from the root towards `key` and reports where the descent
    /// ends: at the node that holds `key`, or at the missing link under
    /// which `key` would be attached.
    fn locate(&self, key: u64) -> (p: Probe)
        requires
            self.wf(),
        ensures
            match p {
                Probe::Empty => self.entries@.len() == 0,
                Probe::Found(v) => self@.contains_key(key) && self@[key] == v,
                Probe::Vacant { parent, greater } => {
                    &&& parent < self.entries@.len()
                    &&& self.inside(parent as int, key as int)
                    &&& key != self.entries@[parent as int].key
                    &&& greater == (key > self.entries@[parent as int].key)
                    &&& greater ==> self.entries@[parent as int].gt is None
                    &&& !greater ==> self.entries@[parent as int].lt is None
                },
            },
    {
        let n = self.entries.len();
        if n == 0 {
            return Probe::Empty;
        }
        let mut i: usize = 0;
        loop
            invariant
                self.wf(),
                n == self.entries@.len(),
                i < n,
                self.inside(i as int, key as int),
            decreases n - i,
        {
            let node = self.entries[i];
            assert(self.node_ok(i as int));
            if key == node.key {
                proof {
                    self.lemma_node_in_view(i as int);
                }
                return Probe::Found(node.val);
            }
            let greater = key > node.key;
            let next = if greater {
                node.gt
            } else {
                node.lt
            };
            match next {
                Some(c) => {
                    i = c as usize;
                },
                None => {
                    return Probe::Vacant { parent: i, greater };
                },
            }
        }
    }

    /// Looks `key` up by descending from the root.
    pub fn get(&self, key: u64) -> (found: Option<u16>)
        requires
            self.wf(),
        ensures
            found == lookup(self@, key),
    {
        match self.locate(key) {
            Probe::Found(v) => Some(v),
            Probe::Empty => {
                assert(!self.has(key));
                None
            },
            Probe::Vacant { parent, greater } => {
                proof {
                    self.lemma_absent(parent as int, key);
                }
                None
            },
        }
    }

    /// Attaching a new leaf under a missing link keeps the tree well formed
    /// and adds exactly the new binding.
    proof fn lemma_attach(pre: &InsertMap, post: &InsertMap, p: int, greater: bool, key: u64, val: u16)
        requires
            pre.wf(),
            0 <= p < pre.entries@.len() <= u16::MAX,
            pre.inside(p, key as int),
            key != pre.entries@[p].key,
            greater == (key > pre.entries@[p].key),
            greater ==> pre.entries@[p].gt is None,
            !greater ==> pre.entries@[p].lt is None,
            post.entries@.len() == pre.entries@.len() + 1,
            forall|i: int| 0 <= i < pre.entries@.len() && i != p ==> post.entries@[i] == pre.entries@[i],
            post.entries@[p] == (if greater {
                Node { gt: Some(pre.entries@.len() as u16), ..pre.entries@[p] }
            } else {
                Node { lt: Some(pre.entries@.len() as u16), ..pre.entries@[p] }
            }),
            post.entries@[pre.entries@.len() as int] == (Node { key, val, gt: None, lt: None }),
            post.bounds@ == pre.bounds@.push(
                if greater {
                    (p, pre.bounds@[p].1)
                } else {
                    (pre.bounds@[p].0, p)
                },
            ),
        ensures
            post.wf(),
            !pre@.contains_key(key),
            post@ == pre@.insert(key, val),
    {
        let n = pre.entries@.len() as int;
        pre.lemma_absent(p, key);
        assert(!pre.has(key));
        assert forall|i: int| 0 <= i < n implies (#[trigger] pre.entries@[i]).key != key by {}
        assert forall|i: int| 0 <= i < n implies post.entries@[i].key == (#[trigger] pre.entries@[i]).key by {}
        assert forall|i: int| 0 <= i < n implies #[trigger] post.lo(i) == pre.lo(i) && post.hi(i)
            == pre.hi(i) by {
            assert(pre.node_ok(i));
        }
        assert(pre.node_ok(p));
        assert forall|i: int| 0 <= i < n + 1 implies #[trigger] post.node_ok(i) by {
            if i < n {
                assert(pre.node_ok(i));
            }
        }
        assert forall|i: int, j: int| 0 <= i < n + 1 && 0 <= j < n + 1 implies #[trigger] post.pair_ok(
            i,
            j,
        ) by {
            if i < n && j < n {
                assert(pre.pair_ok(i, j));
            } else if i == n && j < n {
                assert(pre.pair_ok(p, j));
            } else if i < n && j == n {
                let b = pre.bounds@[i];
                let bp = pre.bounds@[p];
                assert(pre.node_ok(i));
                assert(pre.pair_ok(i, p));
                assert(pre.pair_ok(p, i));
                if b.0 >= 0 {
                    assert(pre.pair_ok(p, b.0));
                }
                if b.1 >= 0 {
                    assert(pre.pair_ok(p, b.1));
                }
                if bp.0 >= 0 {
                    assert(pre.pair_ok(i, bp.0));
                }
                if bp.1 >= 0 {
                    assert(pre.pair_ok(i, bp.1));
                }
            }
        }
        assert(post.wf());
        assert forall|k: u64| post.has(k) <==> (pre.has(k) || k == key) by {
            if post.has(k) {
                let i = post.slot(k);
                if i < n {
                    assert(pre.entries@[i].key == k);
                }
            }
            if pre.has(k) {
                let i = pre.slot(k);
                assert(post.entries@[i].key == k);
            }
            if k == key {
                assert(post.entries@[n].key == k);
            }
        }
        assert forall|k: u64| post.has(k) implies post@[k] == pre@.insert(key, val)[k] by {
            if k == key {
                post.lemma_node_in_view(n);
            } else {
                let i = pre.slot(k);
                post.lemma_node_in_view(i);
            }
        }
        assert(post@ =~= pre@.insert(key, val));
    }

    /// Binds `key` to `val` unless `key` is already bound. A key that is
    /// already bound keeps its value, which is returned, and nothing
    /// changes. Otherwise a node is appended, linked from the node under
    /// which the descent ended, and nothing is returned.
    ///
    /// Links are 16-bit array positions, so the map must hold at most
    /// 65 535 nodes before the call.
    pub fn insert(&mut self, key: u64, val: u16) -> (existing: Option<u16>)
        requires
            old(self).wf(),
            old(self).spec_len() <= u16::MAX,
        ensures
            final(self).wf(),
            existing == lookup(old(self)@, key),
            final(self)@ == inserted(old(self)@, key, val),
            existing is Some ==> *final(self) == *old(self),
            final(self).spec_len() == old(self).spec_len() + (if existing is None {
                1nat
            } else {
                0nat
            }),
    {
        match self.locate(key) {
            Probe::Found(v) => Some(v),
            Probe::Empty => {
                assert(!self.has(key));
                self.entries.push(Node { key, val, gt: None, lt: None });
                self.bounds = Ghost(Seq::empty().push((-1int, -1int)));
                proof {
                    assert(self.node_ok(0));
                    assert(self.pair_ok(0, 0));
                    self.lemma_node_in_view(0);
                    assert forall|k: u64| self.has(k) implies k == key by {}
                    assert(self@ =~= old(self)@.insert(key, val));
                }
                None
            },
            Probe::Vacant { parent, greater } => {
                let index = self.entries.len();
                let mut node = self.entries[parent];
                if greater {
                    node.gt = Some(index as u16);
                } else {
                    node.lt = Some(index as u16);
                }
                self.entries[parent] = node;
                self.entries.push(Node { key, val, gt: None, lt: None });
                let ghost b = self.bounds@[parent as int];
                self.bounds = Ghost(
                    self.bounds@.push(
                        if greater {
                            (parent as int, b.1)
                        } else {
                            (b.0, parent as int)
                        },
                    ),
                );
                proof {
                    Self::lemma_attach(old(self), self, parent as int, greater, key, val);
                }
                None
            },
        }
    }
}

} // verus!
