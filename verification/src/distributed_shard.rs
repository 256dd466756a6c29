//! Shard assignment with consistent hashing.
//!
//! Each node places a number of virtual nodes on a hash ring; a key belongs
//! to the first virtual node at or after its hash, wrapping around, and its
//! replicas are the first distinct nodes met walking the ring from there.
//! Shards partition the hash space and are assigned to the replicas of a
//! key derived from the shard id.

use vstd::prelude::*;
use std::collections::hash_map::DefaultHasher;
use std::hash::{Hash, Hasher};
use crate::distributed_topology::NodeId;
use crate::table::{Table, TableKey, keys_unique, has_key, table_view, lemma_view_insert_at,
    lemma_view_update, lemma_view_remove, lemma_entry_in_view};
use crate::text::{decimal, usize_to_string, u64_to_string, concat2};

verus! {

/// Shard identifier.
pub type ShardId = u64;

/// Configuration for shard management.
#[derive(Debug, Clone, Copy)]
pub struct ShardConfig {
    /// Number of virtual nodes per physical node
    pub virtual_nodes_per_node: usize,
    /// Replication factor (how many copies of each shard)
    pub replication_factor: usize,
    /// Total number of shards in the system
    pub total_shards: usize,
}

impl Default for ShardConfig {
    fn default() -> (r: Self)
        ensures
            r.virtual_nodes_per_node == 150,
            r.replication_factor == 3,
            r.total_shards == 1024,
    {
        Self { virtual_nodes_per_node: 150, replication_factor: 3, total_shards: 1024 }
    }
}

/// The position on the ring that std's `DefaultHasher` gives a key.
pub uninterp spec fn default_hash_of_str(key: Seq<char>) -> u64;

/// The position on the ring that std's `DefaultHasher` gives virtual node
/// `vnode` of node `node`.
pub uninterp spec fn default_hash_of_vnode(node: u64, vnode: usize) -> u64;

/// Hashes a string key with std's `DefaultHasher` (`str::hash`, then
/// `finish`). Claimed: the result is a function of the key's characters.
#[verifier::external_body]
fn hash_key(key: &str) -> (h: u64)
    ensures
        h == default_hash_of_str(key@),
{
    let mut hasher = DefaultHasher::new();
    key.hash(&mut hasher);
    hasher.finish()
}

/// Hashes a node id and a virtual node index with std's `DefaultHasher`
/// (`u64::hash`, `usize::hash`, then `finish`). Claimed: the result is a
/// function of the two numbers.
#[verifier::external_body]
fn hash_vnode(node_id: NodeId, vnode_idx: usize) -> (h: u64)
    ensures
        h == default_hash_of_vnode(node_id, vnode_idx),
{
    let mut hasher = DefaultHasher::new();
    node_id.hash(&mut hasher);
    vnode_idx.hash(&mut hasher);
    hasher.finish()
}

/// A ring entry: position, then (node, virtual node index).
pub type RingEntry = (u64, (NodeId, usize));

/// Positions strictly increase along the ring.
pub open spec fn ring_sorted(s: Seq<RingEntry>) -> bool {
    forall|i: int, j: int| 0 <= i < j < s.len() ==> s[i].0 < s[j].0
}

/// `i` splits the sorted ring into positions below `h` and positions at or
/// above `h`.
pub open spec fn splits_at(s: Seq<RingEntry>, h: u64, i: int) -> bool {
    &&& 0 <= i <= s.len()
    &&& forall|j: int| 0 <= j < i ==> s[j].0 < h
    &&& forall|j: int| i <= j < s.len() ==> s[j].0 >= h
}

/// The index of the first entry at or after `h`, wrapping to 0.
pub open spec fn ring_start(s: Seq<RingEntry>, h: u64) -> int {
    let i = choose|i: int| splits_at(s, h, i);
    if i < s.len() { i } else { 0 }
}

/// The nodes of the ring, in ring order.
pub open spec fn ring_nodes(s: Seq<RingEntry>) -> Seq<NodeId> {
    s.map_values(|e: RingEntry| e.1.0)
}

/// The nodes met walking clockwise from `start`, then once more around the
/// whole ring.
pub open spec fn ring_walk(s: Seq<RingEntry>, start: int) -> Seq<NodeId> {
    ring_nodes(s).subrange(start, s.len() as int) + ring_nodes(s)
}

/// Whether collecting has stopped: something was collected and the
/// replication factor is reached.
pub open spec fn collect_stopped(r: Seq<NodeId>, rf: nat) -> bool {
    r.len() > 0 && r.len() >= rf
}

/// The distinct nodes of `s` in order of first appearance, stopping once
/// `rf` nodes (and at least one) are collected.
pub open spec fn collect_distinct(s: Seq<NodeId>, rf: nat) -> Seq<NodeId>
    decreases s.len(),
{
    if s.len() == 0 {
        Seq::empty()
    } else {
        let r = collect_distinct(s.drop_last(), rf);
        if collect_stopped(r, rf) || r.contains(s.last()) {
            r
        } else {
            r.push(s.last())
        }
    }
}

/// The replicas of hash `h`: the first `rf` distinct nodes clockwise from `h`.
pub open spec fn replicas_of(s: Seq<RingEntry>, h: u64, rf: nat) -> Seq<NodeId> {
    if s.len() == 0 {
        Seq::empty()
    } else {
        collect_distinct(ring_walk(s, ring_start(s, h)), rf)
    }
}

/// The ring after adding virtual nodes `0..k` of node `n`, one after another.
pub open spec fn add_vnodes(m: Map<u64, (NodeId, usize)>, n: NodeId, k: nat) -> Map<u64, (NodeId, usize)>
    decreases k,
{
    if k == 0 {
        m
    } else {
        let i = (k - 1) as nat;
        add_vnodes(m, n, i).insert(default_hash_of_vnode(n, i as usize), (n, i as usize))
    }
}

/// The positions of virtual nodes `0..k` of node `n`.
pub open spec fn vnode_positions(n: NodeId, k: nat) -> Seq<u64> {
    Seq::new(k, |i: int| default_hash_of_vnode(n, i as usize))
}

proof fn lemma_split_unique(s: Seq<RingEntry>, h: u64, i: int)
    requires
        ring_sorted(s),
        splits_at(s, h, i),
    ensures
        ring_start(s, h) == (if i < s.len() { i } else { 0 }),
{
    let c = choose|c: int| splits_at(s, h, c);
    assert(splits_at(s, h, c));
    if c < i {
        assert(s[c].0 >= h);
        assert(s[c].0 < h);
    } else if c > i {
        assert(s[i].0 >= h);
        assert(s[i].0 < h);
    }
}

proof fn lemma_collect_props(s: Seq<NodeId>, rf: nat)
    ensures
        collect_distinct(s, rf).no_duplicates(),
        forall|x: NodeId| collect_distinct(s, rf).contains(x) ==> s.contains(x),
        collect_distinct(s, rf).len() <= if rf > 1 { rf } else { 1 },
        !collect_stopped(collect_distinct(s, rf), rf) ==> forall|x: NodeId| s.contains(x) ==> collect_distinct(s, rf).contains(x),
        s.len() > 0 ==> collect_distinct(s, rf).len() > 0 && collect_distinct(s, rf)[0] == s[0],
    decreases s.len(),
{
    if s.len() > 0 {
        let t = s.drop_last();
        lemma_collect_props(t, rf);
        let r = collect_distinct(t, rf);
        assert forall|x: NodeId| collect_distinct(s, rf).contains(x) implies s.contains(x) by {
            if r.contains(x) {
                assert(t.contains(x));
                let j = choose|j: int| 0 <= j < t.len() && t[j] == x;
                assert(s[j] == x);
            } else {
                assert(s[s.len() - 1] == x);
            }
        }
        if !collect_stopped(collect_distinct(s, rf), rf) {
            assert forall|x: NodeId| s.contains(x) implies collect_distinct(s, rf).contains(x) by {
                let j = choose|j: int| 0 <= j < s.len() && s[j] == x;
                if j < s.len() - 1 {
                    assert(t[j] == x);
                    assert(t.contains(x));
                    assert(!collect_stopped(r, rf));
                    assert(r.contains(x));
                    let w = choose|w: int| 0 <= w < r.len() && r[w] == x;
                    assert(collect_distinct(s, rf)[w] == x);
                } else {
                    if r.contains(x) {
                        let w = choose|w: int| 0 <= w < r.len() && r[w] == x;
                        assert(collect_distinct(s, rf)[w] == x);
                    } else {
                        assert(collect_distinct(s, rf)[r.len() as int] == x);
                    }
                }
            }
        }
        if t.len() > 0 {
            assert(t[0] == s[0]);
        } else {
            assert(r.len() == 0);
        }
    }
}

proof fn lemma_collect_step(w: Seq<NodeId>, j: int, rf: nat)
    requires
        0 <= j < w.len(),
    ensures
        ({
            let c = collect_distinct(w.subrange(0, j), rf);
            collect_distinct(w.subrange(0, j + 1), rf) == if collect_stopped(c, rf) || c.contains(w[j]) { c } else { c.push(w[j]) }
        }),
{
    let t = w.subrange(0, j + 1);
    assert(t.drop_last() =~= w.subrange(0, j));
    assert(t.last() == w[j]);
}

proof fn lemma_collect_stopped_stable(s: Seq<NodeId>, rf: nat, j: int)
    requires
        0 <= j <= s.len(),
        collect_stopped(collect_distinct(s.subrange(0, j), rf), rf),
    ensures
        collect_distinct(s, rf) == collect_distinct(s.subrange(0, j), rf),
    decreases s.len() - j,
{
    if j < s.len() {
        let t = s.subrange(0, j + 1);
        assert(t.drop_last() =~= s.subrange(0, j));
        assert(collect_distinct(t, rf) == collect_distinct(s.subrange(0, j), rf));
        lemma_collect_stopped_stable(s, rf, j + 1);
    } else {
        assert(s.subrange(0, j) =~= s);
    }
}

/// Whether `v` contains `x`.
fn contains_node(v: &Vec<NodeId>, x: NodeId) -> (r: bool)
    ensures
        r == v@.contains(x),
{
    let mut i: usize = 0;
    while i < v.len()
        invariant
            i <= v.len(),
            forall|j: int| 0 <= j < i ==> v@[j] != x,
        decreases v.len() - i,
    {
        if v[i] == x {
            return true;
        }
        i = i + 1;
    }
    false
}

/// Consistent hash ring for shard assignment.
///
/// The ring is a vector sorted by position rather than an ordered map: the
/// owner of a hash is the entry at the first position at or after it, and
/// vstd specifies no `BTreeMap` operation that finds it (`range`).
pub struct ConsistentHash {
    config: ShardConfig,
    /// Hash ring, sorted by position: position -> (node_id, vnode_index)
    ring: Vec<RingEntry>,
    /// Reverse mapping: node_id -> the ring positions it placed
    node_positions: Table<NodeId, Vec<u64>>,
}

impl ConsistentHash {
    pub closed spec fn wf(&self) -> bool {
        &&& ring_sorted(self.ring@)
        &&& self.node_positions.wf()
    }

    pub closed spec fn config_spec(&self) -> ShardConfig { self.config }

    /// The ring entries in increasing position order.
    pub closed spec fn ring_spec(&self) -> Seq<RingEntry> { self.ring@ }

    /// The ring as a map from position to (node, virtual node index).
    pub open spec fn ring_map(&self) -> Map<u64, (NodeId, usize)> { table_view(self.ring_spec()) }

    /// The positions each node placed on the ring.
    pub closed spec fn positions(&self) -> Map<NodeId, Seq<u64>> {
        self.node_positions.view().map_values(|v: Vec<u64>| v@)
    }

    /// A well-formed ring is sorted by position and its nodes' position
    /// lists are finitely many.
    pub proof fn lemma_ring_sorted(&self)
        requires
            self.wf(),
        ensures
            ring_sorted(self.ring_spec()),
            self.positions().dom().finite(),
    {
        self.lemma_wf();
    }

    proof fn lemma_wf(&self)
        requires
            self.wf(),
        ensures
            keys_unique(self.ring_spec()),
            self.ring_map().dom().len() == self.ring_spec().len(),
            self.positions().dom().finite(),
            self.positions().dom() == self.node_positions.view().dom(),
            self.node_positions.view().dom().len() == self.node_positions.entries().len(),
    {
        Self::lemma_sorted_unique(self.ring@);
        crate::table::lemma_view_len(self.ring@);
        self.node_positions.lemma_wf();
        assert(self.positions().dom() =~= self.node_positions.view().dom());
    }

    proof fn lemma_sorted_unique(s: Seq<RingEntry>)
        requires
            ring_sorted(s),
        ensures
            keys_unique(s),
    {
        assert forall|i: int, j: int| 0 <= i < s.len() && 0 <= j < s.len() && s[i].0 == s[j].0 implies i == j by {
            if i < j {
                assert(s[i].0 < s[j].0);
            } else if j < i {
                assert(s[j].0 < s[i].0);
            }
        }
    }

    /// An empty ring.
    pub fn new(config: ShardConfig) -> (r: Self)
        ensures
            r.wf(),
            r.config_spec() == config,
            r.ring_spec() == Seq::<RingEntry>::empty(),
            r.positions() == Map::<NodeId, Seq<u64>>::empty(),
    {
        let r = Self { config, ring: Vec::new(), node_positions: Table::new() };
        assert(r.positions() =~= Map::<NodeId, Seq<u64>>::empty());
        r
    }

    /// The index where position `h` splits the ring.
    fn split_index(&self, h: u64) -> (r: usize)
        requires
            self.wf(),
        ensures
            splits_at(self.ring@, h, r as int),
    {
        let mut i: usize = 0;
        while i < self.ring.len() && self.ring[i].0 < h
            invariant
                ring_sorted(self.ring@),
                i <= self.ring@.len(),
                forall|j: int| 0 <= j < i ==> self.ring@[j].0 < h,
            decreases self.ring.len() - i,
        {
            i = i + 1;
        }
        proof {
            if i < self.ring@.len() {
                assert forall|j: int| i <= j < self.ring@.len() implies self.ring@[j].0 >= h by {
                    if j > i {
                        assert(self.ring@[i as int].0 < self.ring@[j].0);
                    }
                }
            }
        }
        i
    }

    /// Place (or replace) one ring entry, keeping positions sorted.
    fn ring_insert(&mut self, pos: u64, node_id: NodeId, vnode_idx: usize)
        requires
            old(self).wf(),
        ensures
            final(self).wf(),
            final(self).ring_map() == old(self).ring_map().insert(pos, (node_id, vnode_idx)),
            final(self).positions() == old(self).positions(),
            final(self).config_spec() == old(self).config_spec(),
    {
        proof { Self::lemma_sorted_unique(self.ring@); }
        let i = self.split_index(pos);
        let ghost s = self.ring@;
        if i < self.ring.len() && self.ring[i].0 == pos {
            proof { lemma_view_update(s, i as int, (node_id, vnode_idx)); }
            self.ring.set(i, (pos, (node_id, vnode_idx)));
            proof {
                assert(self.ring@ == s.update(i as int, (s[i as int].0, (node_id, vnode_idx))));
            }
        } else {
            proof {
                if has_key(s, pos) {
                    let j = choose|j: int| 0 <= j < s.len() && s[j].0 == pos;
                    if j < i {
                        assert(s[j].0 < pos);
                    } else if j > i {
                        assert(s[i as int].0 < s[j].0);
                        assert(s[i as int].0 >= pos);
                    }
                }
                lemma_view_insert_at(s, i as int, pos, (node_id, vnode_idx));
            }
            self.ring.insert(i, (pos, (node_id, vnode_idx)));
            proof {
                let s2 = self.ring@;
                assert(s2 == s.insert(i as int, (pos, (node_id, vnode_idx))));
                assert forall|a: int, b: int| 0 <= a < b < s2.len() implies s2[a].0 < s2[b].0 by {
                    if b < i {
                    } else if a < i && b == i {
                    } else if a < i && b > i {
                        assert(s2[b] == s[b - 1]);
                    } else if a == i {
                        assert(s2[b] == s[b - 1]);
                    } else {
                        assert(s2[a] == s[a - 1]);
                        assert(s2[b] == s[b - 1]);
                    }
                }
            }
        }
    }

    /// Add a node: its virtual nodes `0..virtual_nodes_per_node` are placed at
    /// their hashed positions (a position already taken is overwritten), and
    /// the node's position list is recorded.
    pub fn add_node(&mut self, node_id: NodeId)
        requires
            old(self).wf(),
        ensures
            final(self).wf(),
            final(self).ring_map() == add_vnodes(
                old(self).ring_map(), node_id, old(self).config_spec().virtual_nodes_per_node as nat),
            final(self).positions() == old(self).positions().insert(
                node_id, vnode_positions(node_id, old(self).config_spec().virtual_nodes_per_node as nat)),
            final(self).config_spec() == old(self).config_spec(),
    {
        let mut positions: Vec<u64> = Vec::new();
        let count = self.config.virtual_nodes_per_node;
        let mut vnode_idx: usize = 0;
        while vnode_idx < count
            invariant
                self.wf(),
                count == self.config.virtual_nodes_per_node,
                self.config == old(self).config,
                vnode_idx <= count,
                self.ring_map() == add_vnodes(old(self).ring_map(), node_id, vnode_idx as nat),
                self.positions() == old(self).positions(),
                positions@ == vnode_positions(node_id, vnode_idx as nat),
            decreases count - vnode_idx,
        {
            let position = hash_vnode(node_id, vnode_idx);
            self.ring_insert(position, node_id, vnode_idx);
            positions.push(position);
            proof {
                assert(positions@ =~= vnode_positions(node_id, (vnode_idx + 1) as nat));
            }
            vnode_idx = vnode_idx + 1;
        }
        let ghost old_np = self.node_positions.view();
        self.node_positions.insert(node_id, positions);
        proof {
            assert(self.positions() =~= old(self).positions().insert(node_id, vnode_positions(node_id, count as nat)));
        }
    }

    /// Remove a node: its recorded positions leave the ring and are handed
    /// back (none if the node is unknown).
    pub fn remove_node(&mut self, node_id: NodeId) -> (r: Vec<u64>)
        requires
            old(self).wf(),
        ensures
            final(self).wf(),
            old(self).positions().contains_key(node_id) ==> r@ == old(self).positions()[node_id],
            !old(self).positions().contains_key(node_id) ==> r@ == Seq::<u64>::empty(),
            final(self).ring_map() == old(self).ring_map().remove_keys(r@.to_set()),
            final(self).positions() == old(self).positions().remove(node_id),
            final(self).config_spec() == old(self).config_spec(),
    {
        let positions = match self.node_positions.remove(&node_id) {
            Some(p) => p,
            None => Vec::new(),
        };
        proof {
            assert(self.positions() =~= old(self).positions().remove(node_id));
        }
        let mut k: usize = 0;
        while k < positions.len()
            invariant
                self.wf(),
                k <= positions@.len(),
                self.ring_map() == old(self).ring_map().remove_keys(positions@.subrange(0, k as int).to_set()),
                self.positions() == old(self).positions().remove(node_id),
                self.config == old(self).config,
            decreases positions.len() - k,
        {
            let pos = positions[k];
            proof { Self::lemma_sorted_unique(self.ring@); }
            let i = self.split_index(pos);
            let ghost before = self.ring_map();
            if i < self.ring.len() && self.ring[i].0 == pos {
                let ghost s = self.ring@;
                proof { lemma_view_remove(s, i as int); }
                self.ring.remove(i);
                proof {
                    let s2 = self.ring@;
                    assert(s2 == s.remove(i as int));
                    assert forall|a: int, b: int| 0 <= a < b < s2.len() implies s2[a].0 < s2[b].0 by {
                        let aa = if a < i { a } else { a + 1 };
                        let bb = if b < i { b } else { b + 1 };
                        assert(s2[a] == s[aa]);
                        assert(s2[b] == s[bb]);
                    }
                }
            } else {
                proof {
                    let s = self.ring@;
                    if has_key(s, pos) {
                        let j = choose|j: int| 0 <= j < s.len() && s[j].0 == pos;
                        if j < i {
                            assert(s[j].0 < pos);
                        } else if j > i {
                            assert(s[i as int].0 < s[j].0);
                        }
                    }
                    assert(before.remove(pos) =~= before);
                }
            }
            proof {
                let sub1 = positions@.subrange(0, k as int);
                let sub2 = positions@.subrange(0, k + 1);
                let done = sub1.to_set();
                let done2 = sub2.to_set();
                assert(done2 =~= done.insert(pos)) by {
                    assert forall|x: u64| done2.contains(x) <==> done.contains(x) || x == pos by {
                        if done2.contains(x) {
                            let j = choose|j: int| 0 <= j < sub2.len() && sub2[j] == x;
                            if j < k {
                                assert(sub1[j] == x);
                            }
                        }
                        if done.contains(x) {
                            let j = choose|j: int| 0 <= j < sub1.len() && sub1[j] == x;
                            assert(sub2[j] == x);
                        }
                        if x == pos {
                            assert(sub2[k as int] == x);
                        }
                    }
                }
                assert(self.ring_map() =~= old(self).ring_map().remove_keys(done2));
            }
            k = k + 1;
        }
        proof {
            assert(positions@.subrange(0, positions@.len() as int) =~= positions@);
        }
        positions
    }

    /// The node of `key`: the node of the first ring entry at or after the
    /// key's hash, wrapping around; none on an empty ring.
    pub fn get_node(&self, key: &str) -> (r: Option<NodeId>)
        requires
            self.wf(),
        ensures
            self.ring_spec().len() == 0 ==> r is None,
            self.ring_spec().len() > 0 ==> r == Some(self.ring_spec()[
                ring_start(self.ring_spec(), default_hash_of_str(key@))].1.0),
    {
        if self.ring.len() == 0 {
            return None;
        }
        let hash = hash_key(key);
        let i = self.split_index(hash);
        proof { lemma_split_unique(self.ring@, hash, i as int); }
        let start = if i < self.ring.len() { i } else { 0 };
        Some(self.ring[start].1.0)
    }

    /// The replicas of `key`: walking clockwise from the key's hash (then once
    /// around the whole ring), the first `replication_factor` distinct nodes
    /// (at least one); none on an empty ring.
    pub fn get_replica_nodes(&self, key: &str) -> (r: Vec<NodeId>)
        requires
            self.wf(),
        ensures
            r@ == replicas_of(self.ring_spec(), default_hash_of_str(key@), self.config_spec().replication_factor as nat),
    {
        if self.ring.len() == 0 {
            return Vec::new();
        }
        let hash = hash_key(key);
        let i = self.split_index(hash);
        proof { lemma_split_unique(self.ring@, hash, i as int); }
        let start = if i < self.ring.len() { i } else { 0 };
        let n = self.ring.len();
        let rf = self.config.replication_factor;
        let ghost walk = ring_walk(self.ring@, start as int);
        let mut nodes: Vec<NodeId> = Vec::new();
        let ghost first = (n - start) as int;
        proof {
            assert(walk.len() == first + n);
        }
        // First pass: from `start` to the end of the ring.
        let mut j: usize = start;
        while j < n
            invariant
                n == self.ring@.len(),
                start < n,
                start <= j <= n,
                first == n - start,
                walk == ring_walk(self.ring@, start as int),
                walk.len() == first + n,
                hash == default_hash_of_str(key@),
                ring_start(self.ring@, hash) == start as int,
                rf == self.config.replication_factor,
                nodes@ == collect_distinct(walk.subrange(0, j - start), rf as nat),
                !collect_stopped(nodes@, rf as nat),
            decreases n - j,
        {
            let node = self.ring[j].1.0;
            proof {
                assert(walk[j - start] == node);
                lemma_collect_step(walk, j - start, rf as nat);
            }
            if !contains_node(&nodes, node) {
                nodes.push(node);
                if nodes.len() >= rf {
                    proof {
                        lemma_collect_stopped_stable(walk, rf as nat, j - start + 1);
                        assert(walk.subrange(0, walk.len() as int) =~= walk);
                    }
                    return nodes;
                }
            }
            j = j + 1;
        }
        // Second pass: once around the whole ring.
        let mut k: usize = 0;
        while k < n
            invariant
                n == self.ring@.len(),
                start < n,
                k <= n,
                first == n - start,
                walk == ring_walk(self.ring@, start as int),
                walk.len() == first + n,
                hash == default_hash_of_str(key@),
                ring_start(self.ring@, hash) == start as int,
                rf == self.config.replication_factor,
                nodes@ == collect_distinct(walk.subrange(0, first + k), rf as nat),
                !collect_stopped(nodes@, rf as nat),
            decreases n - k,
        {
            let node = self.ring[k].1.0;
            proof {
                assert(walk[first + k] == node);
                lemma_collect_step(walk, first + k, rf as nat);
            }
            if !contains_node(&nodes, node) {
                nodes.push(node);
                if nodes.len() >= rf {
                    proof {
                        lemma_collect_stopped_stable(walk, rf as nat, first + k + 1);
                        assert(walk.subrange(0, walk.len() as int) =~= walk);
                    }
                    return nodes;
                }
            }
            k = k + 1;
        }
        proof {
            assert(walk.subrange(0, walk.len() as int) =~= walk);
        }
        nodes
    }

    /// Distribution statistics.
    pub fn get_statistics(&self) -> (r: HashRingStats)
        requires
            self.wf(),
        ensures
            r.total_nodes == self.positions().dom().len(),
            r.total_vnodes == self.ring_spec().len(),
            r.vnodes_per_node == (if r.total_nodes > 0 { r.total_vnodes / r.total_nodes } else { 0 }),
    {
        proof { self.lemma_wf(); }
        let total_nodes = self.node_positions.len();
        let total_vnodes = self.ring.len();
        HashRingStats {
            total_nodes,
            total_vnodes,
            vnodes_per_node: if total_nodes > 0 { total_vnodes / total_nodes } else { 0 },
        }
    }
}

/// Statistics for the consistent hash ring.
#[derive(Debug, Clone, Copy)]
pub struct HashRingStats {
    pub total_nodes: usize,
    pub total_vnodes: usize,
    pub vnodes_per_node: usize,
}

/// Shard assignment tracking.
#[derive(Debug)]
pub struct ShardAssignment {
    pub shard_id: ShardId,
    pub primary_node: NodeId,
    pub replica_nodes: Vec<NodeId>,
    pub key_range_start: u64,
    pub key_range_end: u64,
    pub entity_count: usize,
}

impl ShardAssignment {
    /// A copy with the same fields.
    pub fn duplicate(&self) -> (r: Self)
        ensures
            r.shard_id == self.shard_id,
            r.primary_node == self.primary_node,
            r.replica_nodes@ == self.replica_nodes@,
            r.key_range_start == self.key_range_start,
            r.key_range_end == self.key_range_end,
            r.entity_count == self.entity_count,
    {
        ShardAssignment {
            shard_id: self.shard_id,
            primary_node: self.primary_node,
            replica_nodes: copy_nodes(&self.replica_nodes),
            key_range_start: self.key_range_start,
            key_range_end: self.key_range_end,
            entity_count: self.entity_count,
        }
    }
}

fn copy_nodes(v: &Vec<NodeId>) -> (r: Vec<NodeId>)
    ensures
        r@ == v@,
{
    let mut r: Vec<NodeId> = Vec::new();
    let mut i: usize = 0;
    while i < v.len()
        invariant
            i <= v.len(),
            r@ == v@.subrange(0, i as int),
        decreases v.len() - i,
    {
        r.push(v[i]);
        i = i + 1;
    }
    assert(r@ =~= v@);
    r
}

/// The key whose replicas own shard `id`.
pub open spec fn shard_key(id: nat) -> Seq<char> {
    "shard_"@ + decimal(id)
}

/// The width of each shard's slice of the hash space.
pub open spec fn shard_width(total: usize) -> nat {
    (u64::MAX as nat) / (total as nat)
}

/// Whether `a` is the assignment of shard `id` for the given replicas.
pub open spec fn assignment_matches(a: ShardAssignment, id: nat, total: usize, reps: Seq<NodeId>) -> bool {
    &&& a.shard_id == id
    &&& a.primary_node == reps[0]
    &&& a.replica_nodes@ == reps.drop_first()
    &&& a.key_range_start == range_start(id, total)
    &&& a.key_range_end == range_end(id, total)
    &&& a.entity_count == 0
}

/// The shard table rebuilt from the ring: shard `id < total` is assigned to
/// the replicas of its key when there are any.
pub open spec fn shards_rebuilt(shards: Map<ShardId, ShardAssignment>, ring: Seq<RingEntry>, rf: usize, total: usize) -> bool {
    &&& forall|id: ShardId| #[trigger] shards.contains_key(id) <==> (id < total
        && replicas_of(ring, default_hash_of_str(shard_key(id as nat)), rf as nat).len() > 0)
    &&& forall|id: ShardId| #[trigger] shards.contains_key(id) ==> assignment_matches(
        shards[id], id as nat, total, replicas_of(ring, default_hash_of_str(shard_key(id as nat)), rf as nat))
}

/// Whether node `n` holds shard assignment `a`, as primary or replica.
pub open spec fn holds_shard(a: ShardAssignment, n: NodeId) -> bool {
    a.primary_node == n || a.replica_nodes@.contains(n)
}

proof fn lemma_range_fits(id: nat, total: nat)
    requires
        id < total,
        total > 0,
    ensures
        id * ((u64::MAX as nat) / total) <= u64::MAX as nat,
        (u64::MAX as nat) / total >= 1 || total > u64::MAX as nat,
{
    let m = u64::MAX as nat;
    let q = m / total;
    assert(id * q <= total * q) by (nonlinear_arith)
        requires id < total, q >= 0;
    assert(total * q <= m) by (nonlinear_arith)
        requires total > 0, q == m / total;
    if total <= m {
        assert(q >= 1) by (nonlinear_arith)
            requires total <= m, total > 0, q == m / total;
    }
}

/// Shard manager: shard assignment and rebalancing.
pub struct ShardManager {
    config: ShardConfig,
    consistent_hash: ConsistentHash,
    /// Shard assignments, by shard id
    shards: Table<ShardId, ShardAssignment>,
}

impl ShardManager {
    pub closed spec fn wf(&self) -> bool {
        &&& self.consistent_hash.wf()
        &&& self.shards.wf()
        &&& self.consistent_hash.config_spec() == self.config
        &&& forall|id: ShardId| #[trigger] self.shards.view().contains_key(id) ==> self.shards.view()[id].shard_id == id
    }

    pub closed spec fn config_spec(&self) -> ShardConfig { self.config }
    /// The consistent hash ring.
    pub closed spec fn ring(&self) -> ConsistentHash { self.consistent_hash }
    /// The shard assignments, by shard id.
    pub closed spec fn shards_spec(&self) -> Map<ShardId, ShardAssignment> { self.shards.view() }

    /// The ring of a well-formed manager is well formed and has the
    /// manager's configuration.
    pub proof fn lemma_ring_wf(&self)
        requires
            self.wf(),
        ensures
            self.ring().wf(),
            self.ring().config_spec() == self.config_spec(),
    {
    }

    /// The assigned shards are finitely many.
    pub proof fn lemma_shards_finite(&self)
        requires
            self.wf(),
        ensures
            self.shards_spec().dom().finite(),
    {
        self.shards.lemma_wf();
    }

    /// A manager with an empty ring and no shards.
    pub fn new(config: ShardConfig) -> (r: Self)
        ensures
            r.wf(),
            r.config_spec() == config,
            r.ring().ring_spec() == Seq::<RingEntry>::empty(),
            r.ring().positions() == Map::<NodeId, Seq<u64>>::empty(),
            r.ring().config_spec() == config,
            r.shards_spec() == Map::<ShardId, ShardAssignment>::empty(),
    {
        Self { config, consistent_hash: ConsistentHash::new(config), shards: Table::new() }
    }

    /// Rebuild the shard assignments from the ring.
    fn rebuild_shard_assignments(&mut self)
        requires
            old(self).wf(),
            old(self).config_spec().total_shards > 0,
        ensures
            final(self).wf(),
            final(self).config_spec() == old(self).config_spec(),
            final(self).ring() == old(self).ring(),
            shards_rebuilt(final(self).shards_spec(), final(self).ring().ring_spec(),
                final(self).config_spec().replication_factor, final(self).config_spec().total_shards),
    {
        self.shards.clear();
        let total = self.config.total_shards;
        let shard_size: u64 = u64::MAX / (total as u64);
        let ghost ring = self.consistent_hash.ring_spec();
        let ghost rf = self.config.replication_factor;
        let mut shard_id: usize = 0;
        while shard_id < total
            invariant
                self.wf(),
                self.config == old(self).config,
                self.consistent_hash == old(self).consistent_hash,
                ring == self.consistent_hash.ring_spec(),
                rf == self.config.replication_factor,
                total == self.config.total_shards,
                total > 0,
                shard_size as nat == shard_width(total),
                shard_id <= total,
                forall|id: ShardId| #[trigger] self.shards.view().contains_key(id) <==> (id < shard_id
                    && replicas_of(ring, default_hash_of_str(shard_key(id as nat)), rf as nat).len() > 0),
                forall|id: ShardId| #[trigger] self.shards.view().contains_key(id) ==> assignment_matches(
                    self.shards.view()[id], id as nat, total, replicas_of(ring, default_hash_of_str(shard_key(id as nat)), rf as nat)),
            decreases total - shard_id,
        {
            proof { lemma_range_fits(shard_id as nat, total as nat); }
            let key_range_start: u64 = (shard_id as u64) * shard_size;
            let key_range_end: u64 = if shard_id == total - 1 {
                u64::MAX
            } else {
                proof {
                    lemma_range_fits((shard_id + 1) as nat, total as nat);
                    let q = shard_size as nat;
                    let a = (shard_id + 1) as nat;
                    assert(q >= 1);
                    assert(a * q >= 1) by (nonlinear_arith) requires a >= 1, q >= 1;
                }
                ((shard_id as u64) + 1) * shard_size - 1
            };
            let digits = usize_to_string(shard_id);
            let midpoint_key = concat2("shard_", digits.as_str());
            let replica_nodes = self.consistent_hash.get_replica_nodes(midpoint_key.as_str());
            if replica_nodes.len() > 0 {
                let primary_node = replica_nodes[0];
                let rest = drop_first_node(&replica_nodes);
                let assignment = ShardAssignment {
                    shard_id: shard_id as ShardId,
                    primary_node,
                    replica_nodes: rest,
                    key_range_start,
                    key_range_end,
                    entity_count: 0,
                };
                self.shards.insert(shard_id as ShardId, assignment);
            }
            proof {
                assert forall|id: ShardId| #[trigger] self.shards.view().contains_key(id) <==> (id < shard_id + 1
                    && replicas_of(ring, default_hash_of_str(shard_key(id as nat)), rf as nat).len() > 0) by {
                    if id == shard_id {
                        assert(midpoint_key@ =~= shard_key(id as nat));
                    }
                }
                assert(midpoint_key@ =~= shard_key(shard_id as nat));
            }
            shard_id = shard_id + 1;
        }
    }

    /// Add a node to the ring and rebuild the shard assignments.
    pub fn add_node(&mut self, node_id: NodeId)
        requires
            old(self).wf(),
            old(self).config_spec().total_shards > 0,
        ensures
            final(self).wf(),
            final(self).config_spec() == old(self).config_spec(),
            final(self).ring().ring_map() == add_vnodes(
                old(self).ring().ring_map(), node_id, old(self).config_spec().virtual_nodes_per_node as nat),
            final(self).ring().positions() == old(self).ring().positions().insert(
                node_id, vnode_positions(node_id, old(self).config_spec().virtual_nodes_per_node as nat)),
            shards_rebuilt(final(self).shards_spec(), final(self).ring().ring_spec(),
                final(self).config_spec().replication_factor, final(self).config_spec().total_shards),
    {
        self.consistent_hash.add_node(node_id);
        self.rebuild_shard_assignments();
    }

    /// Remove a node from the ring, rebuild the shard assignments, and hand
    /// back the shards that the node still holds.
    pub fn remove_node(&mut self, node_id: NodeId) -> (r: Vec<ShardId>)
        requires
            old(self).wf(),
            old(self).config_spec().total_shards > 0,
        ensures
            final(self).wf(),
            final(self).config_spec() == old(self).config_spec(),
            final(self).ring().positions() == old(self).ring().positions().remove(node_id),
            final(self).ring().ring_map() == old(self).ring().ring_map().remove_keys(
                if old(self).ring().positions().contains_key(node_id) {
                    old(self).ring().positions()[node_id].to_set()
                } else {
                    Set::<u64>::empty()
                }),
            shards_rebuilt(final(self).shards_spec(), final(self).ring().ring_spec(),
                final(self).config_spec().replication_factor, final(self).config_spec().total_shards),
            r@.no_duplicates(),
            r@.to_set() == final(self).shards_spec().dom().filter(
                |id: ShardId| holds_shard(final(self).shards_spec()[id], node_id)),
    {
        let removed = self.consistent_hash.remove_node(node_id);
        proof {
            if !old(self).ring().positions().contains_key(node_id) {
                assert(removed@.to_set() =~= Set::<u64>::empty());
            }
        }
        self.rebuild_shard_assignments();
        self.shard_ids_held_by(node_id)
    }

    /// The ids of the shards that node `n` holds, each once.
    fn shard_ids_held_by(&self, n: NodeId) -> (r: Vec<ShardId>)
        requires
            self.wf(),
        ensures
            r@.no_duplicates(),
            r@.to_set() == self.shards_spec().dom().filter(|id: ShardId| holds_shard(self.shards_spec()[id], n)),
    {
        let mut out: Vec<ShardId> = Vec::new();
        let len = self.shards.len();
        proof { self.shards.lemma_wf(); }
        let ghost s = self.shards.entries();
        let mut i: usize = 0;
        while i < len
            invariant
                self.wf(),
                s == self.shards.entries(),
                keys_unique(s),
                len == s.len(),
                i <= len,
                forall|j: int| 0 <= j < out@.len() ==> self.shards_spec().dom().filter(
                    |id: ShardId| holds_shard(self.shards_spec()[id], n)).contains(#[trigger] out@[j]),
                forall|w: int| 0 <= w < i && holds_shard(s[w].1, n) ==> out@.contains(#[trigger] s[w].0),
                out@.no_duplicates(),
                forall|j: int, w: int| 0 <= j < out@.len() && i <= w < len ==> #[trigger] s[w].0 != #[trigger] out@[j],
            decreases len - i,
        {
            let a = self.shards.value_at(i);
            let k = self.shards.key_at(i);
            let holds = a.primary_node == n || contains_node(&a.replica_nodes, n);
            let ghost old_out = out@;
            proof { lemma_entry_in_view(s, i as int); }
            if holds {
                out.push(k);
                proof {
                    assert forall|j: int| 0 <= j < out@.len() implies self.shards_spec().dom().filter(
                        |id: ShardId| holds_shard(self.shards_spec()[id], n)).contains(#[trigger] out@[j]) by {
                        if j < old_out.len() {
                            assert(out@[j] == old_out[j]);
                        }
                    }
                    assert forall|w: int| 0 <= w < i + 1 && holds_shard(s[w].1, n) implies out@.contains(#[trigger] s[w].0) by {
                        if w < i {
                            let j = choose|j: int| 0 <= j < old_out.len() && old_out[j] == s[w].0;
                            assert(out@[j] == s[w].0);
                        } else {
                            assert(out@[out@.len() - 1] == s[w].0);
                        }
                    }
                    assert forall|x: int, y: int| 0 <= x < out@.len() && 0 <= y < out@.len() && x != y implies out@[x] != out@[y] by {
                        if x < old_out.len() && y < old_out.len() {
                            assert(old_out[x] != old_out[y]);
                        } else if x < old_out.len() {
                            assert(s[i as int].0 != old_out[x]);
                        } else if y < old_out.len() {
                            assert(s[i as int].0 != old_out[y]);
                        }
                    }
                    assert forall|j: int, w: int| 0 <= j < out@.len() && i + 1 <= w < len implies #[trigger] s[w].0 != #[trigger] out@[j] by {
                        if j < old_out.len() {
                            assert(out@[j] == old_out[j]);
                        } else {
                            assert(s[w].0 != s[i as int].0);
                        }
                    }
                }
            }
            i = i + 1;
        }
        proof {
            let f = self.shards_spec().dom().filter(|id: ShardId| holds_shard(self.shards_spec()[id], n));
            assert forall|x: ShardId| out@.to_set().contains(x) <==> f.contains(x) by {
                if out@.to_set().contains(x) {
                    let j = choose|j: int| 0 <= j < out@.len() && out@[j] == x;
                    assert(f.contains(out@[j]));
                }
                if f.contains(x) {
                    let w = choose|w: int| 0 <= w < s.len() && s[w].0 == x;
                    lemma_entry_in_view(s, w);
                    assert(out@.contains(s[w].0));
                }
            }
            assert(out@.to_set() =~= f);
        }
        out
    }

    /// The shard of a key: its hash modulo the number of shards.
    pub fn get_shard_for_key(&self, key: &str) -> (r: Option<ShardId>)
        requires
            self.config_spec().total_shards > 0,
        ensures
            r == Some((default_hash_of_str(key@) % (self.config_spec().total_shards as u64)) as ShardId),
    {
        let hash = hash_key(key);
        let shard_id = hash % (self.config.total_shards as u64);
        Some(shard_id)
    }

    /// The primary node of a shard.
    pub fn get_node_for_shard(&self, shard_id: ShardId) -> (r: Option<NodeId>)
        requires
            self.wf(),
        ensures
            self.shards_spec().contains_key(shard_id) ==> r == Some(self.shards_spec()[shard_id].primary_node),
            !self.shards_spec().contains_key(shard_id) ==> r is None,
    {
        match self.shards.get(&shard_id) {
            Some(a) => Some(a.primary_node),
            None => None,
        }
    }

    /// The replica nodes of a shard (other than its primary).
    pub fn get_replicas_for_shard(&self, shard_id: ShardId) -> (r: Vec<NodeId>)
        requires
            self.wf(),
        ensures
            self.shards_spec().contains_key(shard_id) ==> r@ == self.shards_spec()[shard_id].replica_nodes@,
            !self.shards_spec().contains_key(shard_id) ==> r@ == Seq::<NodeId>::empty(),
    {
        match self.shards.get(&shard_id) {
            Some(a) => copy_nodes(&a.replica_nodes),
            None => Vec::new(),
        }
    }

    /// The node of a key on the ring.
    pub fn get_node_for_key(&self, key: &str) -> (r: Option<NodeId>)
        requires
            self.wf(),
        ensures
            self.ring().ring_spec().len() == 0 ==> r is None,
            self.ring().ring_spec().len() > 0 ==> r == Some(self.ring().ring_spec()[
                ring_start(self.ring().ring_spec(), default_hash_of_str(key@))].1.0),
    {
        self.consistent_hash.get_node(key)
    }

    /// The replicas of a key on the ring.
    pub fn get_replicas_for_key(&self, key: &str) -> (r: Vec<NodeId>)
        requires
            self.wf(),
        ensures
            r@ == replicas_of(self.ring().ring_spec(), default_hash_of_str(key@), self.config_spec().replication_factor as nat),
    {
        self.consistent_hash.get_replica_nodes(key)
    }

    /// Copies of all shard assignments, each shard once.
    pub fn get_all_shards(&self) -> (r: Vec<ShardAssignment>)
        requires
            self.wf(),
        ensures
            r@.len() == self.shards_spec().dom().len(),
            forall|j: int| 0 <= j < r@.len() ==> self.shards_spec().contains_key(#[trigger] r@[j].shard_id)
                && r@[j].replica_nodes@ == self.shards_spec()[r@[j].shard_id].replica_nodes@
                && r@[j].primary_node == self.shards_spec()[r@[j].shard_id].primary_node,
            forall|a: int, b: int| 0 <= a < b < r@.len() ==> r@[a].shard_id != r@[b].shard_id,
    {
        let mut out: Vec<ShardAssignment> = Vec::new();
        let len = self.shards.len();
        proof { self.shards.lemma_wf(); }
        let ghost s = self.shards.entries();
        let mut i: usize = 0;
        while i < len
            invariant
                self.wf(),
                s == self.shards.entries(),
                keys_unique(s),
                len == s.len(),
                i <= len,
                out@.len() == i,
                forall|j: int| 0 <= j < i ==> (#[trigger] out@[j]).shard_id == s[j].0
                    && out@[j].replica_nodes@ == s[j].1.replica_nodes@ && out@[j].primary_node == s[j].1.primary_node,
            decreases len - i,
        {
            let a = self.shards.value_at(i);
            proof { lemma_entry_in_view(s, i as int); }
            out.push(a.duplicate());
            i = i + 1;
        }
        proof {
            assert forall|j: int| 0 <= j < out@.len() implies self.shards_spec().contains_key(#[trigger] out@[j].shard_id)
                && out@[j].replica_nodes@ == self.shards_spec()[out@[j].shard_id].replica_nodes@
                && out@[j].primary_node == self.shards_spec()[out@[j].shard_id].primary_node by {
                lemma_entry_in_view(s, j);
            }
        }
        out
    }

    /// Copies of the shard assignments that node `n` holds, each shard once.
    #[verifier::spinoff_prover]
    #[verifier::rlimit(40)]
    pub fn get_shards_for_node(&self, node_id: NodeId) -> (r: Vec<ShardAssignment>)
        requires
            self.wf(),
        ensures
            forall|j: int| 0 <= j < r@.len() ==> self.shards_spec().contains_key(#[trigger] r@[j].shard_id)
                && holds_shard(self.shards_spec()[r@[j].shard_id], node_id)
                && r@[j].replica_nodes@ == self.shards_spec()[r@[j].shard_id].replica_nodes@
                && r@[j].primary_node == self.shards_spec()[r@[j].shard_id].primary_node,
            forall|id: ShardId| #[trigger] self.shards_spec().contains_key(id) && holds_shard(self.shards_spec()[id], node_id)
                ==> exists|j: int| 0 <= j < r@.len() && r@[j].shard_id == id,
            forall|a: int, b: int| 0 <= a < b < r@.len() ==> r@[a].shard_id != r@[b].shard_id,
    {
        let mut out: Vec<ShardAssignment> = Vec::new();
        let len = self.shards.len();
        proof { self.shards.lemma_wf(); }
        let ghost s = self.shards.entries();
        let mut i: usize = 0;
        while i < len
            invariant
                self.wf(),
                s == self.shards.entries(),
                keys_unique(s),
                len == s.len(),
                i <= len,
                forall|j: int| 0 <= j < out@.len() ==> exists|w: int| 0 <= w < i && (#[trigger] out@[j]).shard_id == s[w].0
                    && holds_shard(s[w].1, node_id)
                    && out@[j].replica_nodes@ == s[w].1.replica_nodes@ && out@[j].primary_node == s[w].1.primary_node,
                forall|w: int| 0 <= w < i && holds_shard(s[w].1, node_id) ==> exists|j: int| 0 <= j < out@.len() && out@[j].shard_id == #[trigger] s[w].0,
                forall|a: int, b: int| 0 <= a < b < out@.len() ==> out@[a].shard_id != out@[b].shard_id,
                forall|j: int, w: int| 0 <= j < out@.len() && i <= w < len ==> #[trigger] s[w].0 != (#[trigger] out@[j]).shard_id,
            decreases len - i,
        {
            let a = self.shards.value_at(i);
            let k = self.shards.key_at(i);
            let holds = a.primary_node == node_id || contains_node(&a.replica_nodes, node_id);
            let ghost old_out = out@;
            if holds {
                let d = a.duplicate();
                proof { assert(self.shards.view()[k].shard_id == k); }
                out.push(d);
                proof {
                    assert forall|j: int| 0 <= j < out@.len() implies exists|w: int| 0 <= w < i + 1 && (#[trigger] out@[j]).shard_id == s[w].0
                        && holds_shard(s[w].1, node_id)
                        && out@[j].replica_nodes@ == s[w].1.replica_nodes@ && out@[j].primary_node == s[w].1.primary_node by {
                        if j < old_out.len() {
                            assert(out@[j] == old_out[j]);
                        } else {
                            lemma_entry_in_view(s, i as int);
                            assert(out@[j].shard_id == s[i as int].0);
                        }
                    }
                    assert forall|w: int| 0 <= w < i + 1 && holds_shard(s[w].1, node_id) implies exists|j: int| 0 <= j < out@.len() && out@[j].shard_id == #[trigger] s[w].0 by {
                        if w < i {
                            let j = choose|j: int| 0 <= j < old_out.len() && old_out[j].shard_id == s[w].0;
                            assert(out@[j] == old_out[j]);
                        } else {
                            lemma_entry_in_view(s, i as int);
                            assert(out@[out@.len() - 1].shard_id == s[w].0);
                        }
                    }
                    assert forall|x: int, y: int| 0 <= x < y < out@.len() implies out@[x].shard_id != out@[y].shard_id by {
                        lemma_entry_in_view(s, i as int);
                        if y < old_out.len() {
                            assert(old_out[x].shard_id != old_out[y].shard_id);
                        } else {
                            assert(s[i as int].0 != old_out[x].shard_id);
                        }
                    }
                    assert forall|j: int, w: int| 0 <= j < out@.len() && i + 1 <= w < len implies #[trigger] s[w].0 != (#[trigger] out@[j]).shard_id by {
                        if j < old_out.len() {
                            assert(out@[j] == old_out[j]);
                        } else {
                            lemma_entry_in_view(s, i as int);
                            assert(s[w].0 != s[i as int].0);
                        }
                    }
                }
            }
            i = i + 1;
        }
        proof {
            assert forall|j: int| 0 <= j < out@.len() implies self.shards_spec().contains_key(#[trigger] out@[j].shard_id)
                && holds_shard(self.shards_spec()[out@[j].shard_id], node_id)
                && out@[j].replica_nodes@ == self.shards_spec()[out@[j].shard_id].replica_nodes@
                && out@[j].primary_node == self.shards_spec()[out@[j].shard_id].primary_node by {
                let w = choose|w: int| 0 <= w < len && (#[trigger] out@[j]).shard_id == s[w].0
                    && holds_shard(s[w].1, node_id)
                    && out@[j].replica_nodes@ == s[w].1.replica_nodes@ && out@[j].primary_node == s[w].1.primary_node;
                lemma_entry_in_view(s, w);
            }
            assert forall|id: ShardId| #[trigger] self.shards_spec().contains_key(id) && holds_shard(self.shards_spec()[id], node_id)
                implies exists|j: int| 0 <= j < out@.len() && out@[j].shard_id == id by {
                let w = choose|w: int| 0 <= w < s.len() && s[w].0 == id;
                lemma_entry_in_view(s, w);
                assert(holds_shard(s[w].1, node_id));
            }
        }
        out
    }

    /// The copy operations that bring node `target_node_id` the shards whose
    /// key it replicates but whose primary it is not.
    pub fn calculate_rebalancing(&self, target_node_id: NodeId) -> (r: Vec<RebalanceOperation>)
        requires
            self.wf(),
        ensures
            forall|j: int| 0 <= j < r@.len() ==> {
                let op = #[trigger] r@[j];
                &&& self.shards_spec().contains_key(op.shard_id)
                &&& replicas_of(self.ring().ring_spec(), default_hash_of_str(shard_key(op.shard_id as nat)),
                    self.config_spec().replication_factor as nat).contains(target_node_id)
                &&& self.shards_spec()[op.shard_id].primary_node != target_node_id
                &&& op.from_node == self.shards_spec()[op.shard_id].primary_node
                &&& op.to_node == target_node_id
                &&& op.operation_type == RebalanceType::Copy
            },
            forall|id: ShardId| #[trigger] self.shards_spec().contains_key(id)
                && replicas_of(self.ring().ring_spec(), default_hash_of_str(shard_key(id as nat)),
                    self.config_spec().replication_factor as nat).contains(target_node_id)
                && self.shards_spec()[id].primary_node != target_node_id
                ==> exists|j: int| 0 <= j < r@.len() && r@[j].shard_id == id,
            forall|a: int, b: int| 0 <= a < b < r@.len() ==> r@[a].shard_id != r@[b].shard_id,
    {
        let mut operations: Vec<RebalanceOperation> = Vec::new();
        let len = self.shards.len();
        proof { self.shards.lemma_wf(); }
        let ghost s = self.shards.entries();
        let ghost ring = self.consistent_hash.ring_spec();
        let ghost rf = self.config.replication_factor;
        let mut i: usize = 0;
        while i < len
            invariant
                self.wf(),
                s == self.shards.entries(),
                ring == self.consistent_hash.ring_spec(),
                rf == self.config.replication_factor,
                keys_unique(s),
                len == s.len(),
                i <= len,
                forall|j: int| 0 <= j < operations@.len() ==> {
                    let op = #[trigger] operations@[j];
                    &&& self.shards_spec().contains_key(op.shard_id)
                    &&& replicas_of(ring, default_hash_of_str(shard_key(op.shard_id as nat)), rf as nat).contains(target_node_id)
                    &&& self.shards_spec()[op.shard_id].primary_node != target_node_id
                    &&& op.from_node == self.shards_spec()[op.shard_id].primary_node
                    &&& op.to_node == target_node_id
                    &&& op.operation_type == RebalanceType::Copy
                },
                forall|w: int| 0 <= w < i
                    && replicas_of(ring, default_hash_of_str(shard_key(s[w].0 as nat)), rf as nat).contains(target_node_id)
                    && s[w].1.primary_node != target_node_id
                    ==> exists|j: int| 0 <= j < operations@.len() && operations@[j].shard_id == #[trigger] s[w].0,
                forall|j: int| 0 <= j < operations@.len() ==> exists|w: int| 0 <= w < i && (#[trigger] operations@[j]).shard_id == s[w].0,
                forall|a: int, b: int| 0 <= a < b < operations@.len() ==> operations@[a].shard_id != operations@[b].shard_id,
            decreases len - i,
        {
            let shard_id = self.shards.key_at(i);
            let a = self.shards.value_at(i);
            let digits = u64_to_string(shard_id);
            let key = concat2("shard_", digits.as_str());
            let replica_nodes = self.consistent_hash.get_replica_nodes(key.as_str());
            proof { assert(key@ =~= shard_key(shard_id as nat)); }
            let ghost old_ops = operations@;
            if contains_node(&replica_nodes, target_node_id) && a.primary_node != target_node_id {
                operations.push(RebalanceOperation {
                    shard_id,
                    from_node: a.primary_node,
                    to_node: target_node_id,
                    operation_type: RebalanceType::Copy,
                });
                proof {
                    assert forall|j: int| 0 <= j < old_ops.len() implies operations@[j] == old_ops[j] by {}
                    assert(operations@[old_ops.len() as int].shard_id == shard_id);
                    assert forall|j: int| 0 <= j < old_ops.len() implies old_ops[j].shard_id != shard_id by {
                        let w = choose|w: int| 0 <= w < i && old_ops[j].shard_id == s[w].0;
                        assert(s[w].0 != s[i as int].0);
                    }
                }
            }
            proof {
                assert forall|j: int| 0 <= j < operations@.len() implies exists|w: int| 0 <= w < i + 1
                    && (#[trigger] operations@[j]).shard_id == s[w].0 by {
                    if j < old_ops.len() {
                        assert(operations@[j] == old_ops[j]);
                        let w = choose|w: int| 0 <= w < i && old_ops[j].shard_id == s[w].0;
                    } else {
                        assert(operations@[j].shard_id == s[i as int].0);
                    }
                }
                assert forall|w: int| 0 <= w < i + 1
                    && replicas_of(ring, default_hash_of_str(shard_key(s[w].0 as nat)), rf as nat).contains(target_node_id)
                    && s[w].1.primary_node != target_node_id
                    implies exists|j: int| 0 <= j < operations@.len() && operations@[j].shard_id == #[trigger] s[w].0 by {
                    if w < i {
                        let j = choose|j: int| 0 <= j < old_ops.len() && old_ops[j].shard_id == s[w].0;
                        assert(operations@[j] == old_ops[j]);
                    } else {
                        assert(operations@[old_ops.len() as int].shard_id == s[w].0);
                    }
                }
            }
            i = i + 1;
        }
        proof {
            assert forall|id: ShardId| #[trigger] self.shards_spec().contains_key(id)
                && replicas_of(ring, default_hash_of_str(shard_key(id as nat)), rf as nat).contains(target_node_id)
                && self.shards_spec()[id].primary_node != target_node_id
                implies exists|j: int| 0 <= j < operations@.len() && operations@[j].shard_id == id by {
                let w = choose|w: int| 0 <= w < s.len() && s[w].0 == id;
                lemma_entry_in_view(s, w);
            }
        }
        operations
    }

    /// Statistics: shard and node counts, and the totals from which the mean
    /// number of shard copies per node is taken.
    pub fn get_statistics(&self) -> (r: ShardManagerStats)
        requires
            self.wf(),
        ensures
            r.total_shards == self.shards_spec().dom().len(),
            r.total_nodes == self.ring().positions().dom().len(),
            r.replication_factor == self.config_spec().replication_factor,
    {
        let hash_stats = self.consistent_hash.get_statistics();
        let total_shards = self.shards.len();
        let mut copies: usize = 0;
        let mut holders: Vec<NodeId> = Vec::new();
        let mut i: usize = 0;
        while i < total_shards
            invariant
                self.wf(),
                total_shards == self.shards.entries().len(),
                i <= total_shards,
            decreases total_shards - i,
        {
            let a = self.shards.value_at(i);
            if !contains_node(&holders, a.primary_node) {
                holders.push(a.primary_node);
            }
            copies = copies.saturating_add(1);
            let mut k: usize = 0;
            while k < a.replica_nodes.len()
                invariant
                    k <= a.replica_nodes.len(),
                decreases a.replica_nodes.len() - k,
            {
                let n = a.replica_nodes[k];
                if !contains_node(&holders, n) {
                    holders.push(n);
                }
                copies = copies.saturating_add(1);
                k = k + 1;
            }
            i = i + 1;
        }
        ShardManagerStats {
            total_shards,
            total_nodes: hash_stats.total_nodes,
            shard_copies: copies,
            nodes_with_shards: holders.len(),
            replication_factor: self.config.replication_factor,
        }
    }
}

/// All but the first node of a nonempty vector.
fn drop_first_node(v: &Vec<NodeId>) -> (r: Vec<NodeId>)
    requires
        v@.len() > 0,
    ensures
        r@ == v@.drop_first(),
{
    let mut r: Vec<NodeId> = Vec::new();
    let mut i: usize = 1;
    while i < v.len()
        invariant
            1 <= i <= v.len(),
            r@ == v@.subrange(1, i as int),
        decreases v.len() - i,
    {
        r.push(v[i]);
        i = i + 1;
    }
    assert(r@ =~= v@.drop_first());
    r
}

/// Type of rebalancing operation.
#[derive(Debug, Clone, Copy, PartialEq, Eq, Structural)]
pub enum RebalanceType {
    /// Copy shard to new node
    Copy,
    /// Move shard to new node (and delete from old)
    Move,
    /// Delete shard from node
    Delete,
}

/// Rebalancing operation.
#[derive(Debug, Clone, Copy)]
pub struct RebalanceOperation {
    pub shard_id: ShardId,
    pub from_node: NodeId,
    pub to_node: NodeId,
    pub operation_type: RebalanceType,
}

/// Shard manager statistics. The mean number of shard copies per node is
/// `shard_copies / nodes_with_shards` (0 when no node holds a shard).
#[derive(Debug, Clone, Copy)]
pub struct ShardManagerStats {
    pub total_shards: usize,
    pub total_nodes: usize,
    /// Primary and replica copies over all shards
    pub shard_copies: usize,
    /// Distinct nodes holding at least one copy
    pub nodes_with_shards: usize,
    pub replication_factor: usize,
}


proof fn lemma_split_exists(s: Seq<RingEntry>, h: u64)
    requires
        ring_sorted(s),
    ensures
        exists|i: int| splits_at(s, h, i),
    decreases s.len(),
{
    if s.len() == 0 {
        assert(splits_at(s, h, 0));
    } else {
        let t = s.drop_last();
        assert(ring_sorted(t)) by {
            assert forall|i: int, j: int| 0 <= i < j < t.len() implies t[i].0 < t[j].0 by {
                assert(t[i] == s[i] && t[j] == s[j]);
            }
        }
        lemma_split_exists(t, h);
        let k = choose|i: int| splits_at(t, h, i);
        if k < t.len() {
            assert(splits_at(s, h, k)) by {
                assert forall|j: int| k <= j < s.len() implies s[j].0 >= h by {
                    if j < t.len() {
                        assert(s[j] == t[j]);
                    } else {
                        assert(s[k] == t[k]);
                    }
                }
                assert forall|j: int| 0 <= j < k implies s[j].0 < h by {
                    assert(s[j] == t[j]);
                }
            }
        } else if s[s.len() - 1].0 >= h {
            assert(splits_at(s, h, t.len() as int)) by {
                assert forall|j: int| 0 <= j < t.len() implies s[j].0 < h by {
                    assert(s[j] == t[j]);
                }
            }
        } else {
            assert(splits_at(s, h, s.len() as int)) by {
                assert forall|j: int| 0 <= j < s.len() implies s[j].0 < h by {
                    if j < t.len() {
                        assert(s[j] == t[j]);
                    }
                }
            }
        }
    }
}

/// Replica placement: the replicas of a hash are distinct nodes of the
/// ring, no more than the replication factor (and at least one) of them;
/// on a non-empty ring the first is the node that owns the hash (the one
/// `get_node` returns); and fewer than the replication factor are returned
/// only when every node of the ring is already among them.
pub proof fn law_replica_placement(ring: Seq<RingEntry>, h: u64, rf: nat)
    requires
        ring_sorted(ring),
    ensures
        replicas_of(ring, h, rf).no_duplicates(),
        replicas_of(ring, h, rf).len() <= (if rf > 1 { rf } else { 1 }),
        forall|x: NodeId| replicas_of(ring, h, rf).contains(x) ==> ring_nodes(ring).contains(x),
        ring.len() > 0 ==> replicas_of(ring, h, rf).len() > 0
            && replicas_of(ring, h, rf)[0] == ring[ring_start(ring, h)].1.0,
        replicas_of(ring, h, rf).len() < rf ==> forall|x: NodeId| ring_nodes(ring).contains(x)
            ==> replicas_of(ring, h, rf).contains(x),
{
    if ring.len() > 0 {
        lemma_split_exists(ring, h);
        let start = ring_start(ring, h);
        assert(0 <= start < ring.len());
        let nodes = ring_nodes(ring);
        let walk = ring_walk(ring, start);
        let sub = nodes.subrange(start, ring.len() as int);
        lemma_collect_props(walk, rf);
        let r = collect_distinct(walk, rf);
        assert(walk[0] == ring[start].1.0);
        assert forall|x: NodeId| r.contains(x) implies nodes.contains(x) by {
            assert(walk.contains(x));
            let j = choose|j: int| 0 <= j < walk.len() && walk[j] == x;
            if j < sub.len() {
                assert(nodes[start + j] == x);
            } else {
                assert(nodes[j - sub.len()] == x);
            }
        }
        assert forall|x: NodeId| nodes.contains(x) implies walk.contains(x) by {
            let j = choose|j: int| 0 <= j < nodes.len() && nodes[j] == x;
            assert(walk[sub.len() + j] == x);
        }
    } else {
        assert(ring_nodes(ring) =~= Seq::<NodeId>::empty());
    }
}

/// The replica count: the replication factor (at least one), or the
/// number of distinct nodes on the ring where there are fewer.
pub proof fn law_replica_count(ring: Seq<RingEntry>, h: u64, rf: nat)
    requires
        ring_sorted(ring),
    ensures
        ({
            let want: nat = if rf > 1 { rf } else { 1 };
            let have = ring_nodes(ring).to_set().len();
            replicas_of(ring, h, rf).len() == if want <= have { want } else { have }
        }),
{
    law_replica_placement(ring, h, rf);
    let r = replicas_of(ring, h, rf);
    let nodes = ring_nodes(ring);
    let want: nat = if rf > 1 { rf } else { 1 };
    r.unique_seq_to_set();
    assert(r.to_set().subset_of(nodes.to_set())) by {
        assert forall|x: NodeId| r.to_set().contains(x) implies nodes.to_set().contains(x) by {
            assert(r.contains(x));
        }
    }
    vstd::set_lib::lemma_len_subset(r.to_set(), nodes.to_set());
    if r.len() < want {
        if rf > 1 {
            assert(nodes.to_set().subset_of(r.to_set())) by {
                assert forall|x: NodeId| nodes.to_set().contains(x) implies r.to_set().contains(x) by {
                    assert(nodes.contains(x));
                }
            }
            vstd::set_lib::lemma_len_subset(nodes.to_set(), r.to_set());
        } else {
            assert(r.len() == 0);
            assert(ring.len() == 0);
            assert(nodes =~= Seq::<NodeId>::empty());
            assert(nodes.to_set() =~= Set::<NodeId>::empty());
        }
    }
}

/// Adding virtual nodes keeps every position already on the ring, and a
/// position afterwards either holds the new node or what it held before.
proof fn lemma_add_vnodes(m: Map<u64, (NodeId, usize)>, n: NodeId, k: nat, q: u64)
    ensures
        m.contains_key(q) ==> add_vnodes(m, n, k).contains_key(q),
        add_vnodes(m, n, k).contains_key(q) ==> (add_vnodes(m, n, k)[q].0 == n || (m.contains_key(q)
            && add_vnodes(m, n, k)[q] == m[q])),
    decreases k,
{
    if k > 0 {
        lemma_add_vnodes(m, n, (k - 1) as nat, q);
    }
}

/// Where the owner of hash `h` stands: at the least position at or after
/// `h`, or, where there is none, at the least position of all.
proof fn lemma_owner(s: Seq<RingEntry>, h: u64)
    requires
        ring_sorted(s),
        s.len() > 0,
    ensures
        0 <= ring_start(s, h) < s.len(),
        (exists|j: int| 0 <= j < s.len() && s[j].0 >= h) ==> s[ring_start(s, h)].0 >= h && forall|j: int|
            0 <= j < s.len() && (#[trigger] s[j]).0 >= h ==> s[ring_start(s, h)].0 <= s[j].0,
        !(exists|j: int| 0 <= j < s.len() && s[j].0 >= h) ==> ring_start(s, h) == 0,
{
    lemma_split_exists(s, h);
    let i = choose|i: int| splits_at(s, h, i);
    lemma_split_unique(s, h, i);
    if i < s.len() {
        assert forall|j: int| 0 <= j < s.len() && s[j].0 >= h implies s[i].0 <= s[j].0 by {
            if j < i {
                assert(s[j].0 < h);
            }
        }
    } else {
        assert forall|j: int| 0 <= j < s.len() implies s[j].0 < h by {}
    }
}

/// Only keys taken over by a new node move: once a node's virtual nodes
/// join the ring, every hash is owned by the node that owned it before or
/// by the new node.
pub proof fn law_join_moves_keys_only_to_the_new_node(
    before: Seq<RingEntry>,
    after: Seq<RingEntry>,
    n: NodeId,
    k: nat,
    h: u64,
)
    requires
        ring_sorted(before),
        ring_sorted(after),
        before.len() > 0,
        table_view(after) == add_vnodes(table_view(before), n, k),
    ensures
        after.len() > 0,
        after[ring_start(after, h)].1.0 == before[ring_start(before, h)].1.0 || after[ring_start(after, h)].1.0 == n,
{
    ConsistentHash::lemma_sorted_unique(before);
    ConsistentHash::lemma_sorted_unique(after);
    let m1 = table_view(before);
    let m2 = table_view(after);
    lemma_owner(before, h);
    let o1 = ring_start(before, h);
    let q1 = before[o1].0;
    lemma_entry_in_view(before, o1);
    lemma_add_vnodes(m1, n, k, q1);
    assert(has_key(after, q1));
    let j1 = choose|j: int| 0 <= j < after.len() && after[j].0 == q1;
    lemma_owner(after, h);
    let o2 = ring_start(after, h);
    let q2 = after[o2].0;
    lemma_entry_in_view(after, o2);
    lemma_add_vnodes(m1, n, k, q2);
    if m2[q2].0 != n {
        assert(has_key(before, q2));
        let j2 = choose|j: int| 0 <= j < before.len() && before[j].0 == q2;
        if exists|j: int| 0 <= j < before.len() && before[j].0 >= h {
            assert(q1 >= h);
            assert(after[j1].0 >= h);
            assert(q2 <= q1);
            assert(q2 >= h);
            assert(before[j2].0 >= h);
            assert(q1 <= q2);
        } else {
            assert(o1 == 0);
            assert(before[j2].0 < h);
            if exists|j: int| 0 <= j < after.len() && after[j].0 >= h {
                assert(q2 >= h);
                assert(false);
            }
            assert(o2 == 0);
            if j1 > 0 {
                assert(after[0].0 < after[j1].0);
            }
            if j2 > 0 {
                assert(before[0].0 < before[j2].0);
            }
        }
        assert(q1 == q2);
        lemma_entry_in_view(before, j2);
    }
}

/// A removed node's keys fall to others: once the positions a node held
/// leave the ring (every position holding it among them), no hash is
/// owned by it and none has it among its replicas.
pub proof fn law_leave_moves_keys_off_the_removed_node(
    before: Seq<RingEntry>,
    after: Seq<RingEntry>,
    removed: Seq<u64>,
    n: NodeId,
    h: u64,
    rf: nat,
)
    requires
        ring_sorted(before),
        ring_sorted(after),
        table_view(after) == table_view(before).remove_keys(removed.to_set()),
        forall|j: int| 0 <= j < before.len() && (#[trigger] before[j]).1.0 == n ==> removed.contains(before[j].0),
    ensures
        !replicas_of(after, h, rf).contains(n),
        after.len() > 0 ==> after[ring_start(after, h)].1.0 != n,
{
    ConsistentHash::lemma_sorted_unique(before);
    ConsistentHash::lemma_sorted_unique(after);
    assert forall|j: int| 0 <= j < after.len() implies (#[trigger] after[j]).1.0 != n by {
        lemma_entry_in_view(after, j);
        let q = after[j].0;
        assert(has_key(before, q));
        let b = choose|b: int| 0 <= b < before.len() && before[b].0 == q;
        lemma_entry_in_view(before, b);
        if before[b].1.0 == n {
            assert(removed.contains(q));
            assert(removed.to_set().contains(q));
        }
    }
    law_replica_placement(after, h, rf);
    if replicas_of(after, h, rf).contains(n) {
        assert(ring_nodes(after).contains(n));
        let j = choose|j: int| 0 <= j < ring_nodes(after).len() && ring_nodes(after)[j] == n;
        assert(after[j].1.0 == n);
    }
    if after.len() > 0 {
        lemma_owner(after, h);
    }
}

/// The first hash of shard `id`'s slice.
pub open spec fn range_start(id: nat, total: usize) -> int {
    (id * shard_width(total)) as int
}

/// The last hash of shard `id`'s slice; the last shard runs to the top.
pub open spec fn range_end(id: nat, total: usize) -> int {
    if id == total - 1 {
        u64::MAX as int
    } else {
        (id + 1) * shard_width(total) - 1
    }
}

/// The shard layout: the slices of the hash space that the shards are
/// given run in order without gap or overlap, from 0 to the largest hash,
/// each slice non-empty.
pub proof fn law_shard_ranges_tile_the_hash_space(total: usize, id: nat)
    requires
        0 < total,
        id < total,
    ensures
        range_start(0, total) == 0,
        range_end((total - 1) as nat, total) == u64::MAX,
        range_start(id, total) <= range_end(id, total),
        id + 1 < total ==> range_start(id + 1, total) == range_end(id, total) + 1,
{
    let w = shard_width(total);
    assert(w >= 1) by (nonlinear_arith)
        requires
            w == (u64::MAX as nat) / (total as nat),
            0 < total <= u64::MAX,
    ;
    assert(range_start(0, total) == 0 * w);
    if id == total - 1 {
        assert(id * w <= u64::MAX) by (nonlinear_arith)
            requires
                w == (u64::MAX as nat) / (total as nat),
                id + 1 == total,
                0 < total,
        ;
    } else {
        assert(id * w <= (id + 1) * w - 1) by (nonlinear_arith)
            requires
                w >= 1,
        ;
    }
    assert((id + 1) * w == id * w + w) by (nonlinear_arith);
}

/// The owner of hash `h`: the node of the first ring entry at or after
/// it, wrapping around; none on an empty ring (what `get_node` returns).
pub open spec fn owner(ring: Seq<RingEntry>, h: u64) -> Option<NodeId> {
    if ring.len() == 0 {
        None
    } else {
        Some(ring[ring_start(ring, h)].1.0)
    }
}

/// Removing positions that all held the removed node leaves every other
/// owner in place.
pub proof fn law_leave_keeps_other_owners(
    before: Seq<RingEntry>,
    after: Seq<RingEntry>,
    removed: Seq<u64>,
    n: NodeId,
    h: u64,
)
    requires
        ring_sorted(before),
        ring_sorted(after),
        table_view(after) == table_view(before).remove_keys(removed.to_set()),
        forall|j: int| 0 <= j < before.len() && removed.contains((#[trigger] before[j]).0) ==> before[j].1.0 == n,
        owner(before, h) != Some(n),
    ensures
        owner(after, h) == owner(before, h),
{
    if before.len() == 0 {
        ConsistentHash::lemma_sorted_unique(after);
        if after.len() > 0 {
            lemma_entry_in_view(after, 0);
            assert(has_key(before, after[0].0));
        }
        return;
    }
    ConsistentHash::lemma_sorted_unique(before);
    ConsistentHash::lemma_sorted_unique(after);
    let m1 = table_view(before);
    let m2 = table_view(after);
    lemma_owner(before, h);
    let o1 = ring_start(before, h);
    let q1 = before[o1].0;
    lemma_entry_in_view(before, o1);
    assert(!removed.contains(q1));
    assert(!removed.to_set().contains(q1));
    assert(m2.contains_key(q1));
    assert(has_key(after, q1));
    let j1 = choose|j: int| 0 <= j < after.len() && after[j].0 == q1;
    lemma_owner(after, h);
    let o2 = ring_start(after, h);
    let q2 = after[o2].0;
    lemma_entry_in_view(after, o2);
    assert(has_key(before, q2));
    let j2 = choose|j: int| 0 <= j < before.len() && before[j].0 == q2;
    if exists|j: int| 0 <= j < before.len() && before[j].0 >= h {
        assert(q1 >= h);
        assert(after[j1].0 >= h);
        assert(q2 <= q1);
        assert(before[j2].0 >= h);
        assert(q1 <= q2);
    } else {
        assert(o1 == 0);
        assert(before[j2].0 < h);
        if exists|j: int| 0 <= j < after.len() && after[j].0 >= h {
            assert(q2 >= h);
            assert(false);
        }
        assert(o2 == 0);
        if j1 > 0 {
            assert(after[0].0 < after[j1].0);
        }
        if j2 > 0 {
            assert(before[0].0 < before[j2].0);
        }
    }
    assert(q1 == q2);
}

/// Joining moves only the keys the new node takes over: after `add_node`
/// every hash keeps its owner or is owned by the new node, the node has
/// one position per virtual node, and the node count grows by one where
/// the node is new.
pub proof fn law_add_node(before: ConsistentHash, after: ConsistentHash, n: NodeId, h: u64)
    requires
        before.wf(),
        after.wf(),
        after.ring_map() == add_vnodes(before.ring_map(), n, before.config_spec().virtual_nodes_per_node as nat),
        after.positions() == before.positions().insert(
            n, vnode_positions(n, before.config_spec().virtual_nodes_per_node as nat)),
    ensures
        owner(after.ring_spec(), h) == owner(before.ring_spec(), h) || owner(after.ring_spec(), h) == Some(n),
        after.positions()[n].len() == before.config_spec().virtual_nodes_per_node,
        !before.positions().contains_key(n) ==> after.positions().dom().len() == before.positions().dom().len() + 1,
{
    before.lemma_ring_sorted();
    after.lemma_ring_sorted();
    let k = before.config_spec().virtual_nodes_per_node as nat;
    if before.ring_spec().len() > 0 {
        law_join_moves_keys_only_to_the_new_node(before.ring_spec(), after.ring_spec(), n, k, h);
    } else if after.ring_spec().len() > 0 {
        let a = after.ring_spec();
        ConsistentHash::lemma_sorted_unique(a);
        lemma_owner(a, h);
        let o = ring_start(a, h);
        lemma_entry_in_view(a, o);
        lemma_add_vnodes(before.ring_map(), n, k, a[o].0);
        assert(!has_key(before.ring_spec(), a[o].0));
    }
    if !before.positions().contains_key(n) {
        assert(after.positions().dom() == before.positions().dom().insert(n));
    }
}

/// Leaving: after `remove_node` drops the positions a node placed (every
/// position holding it among them, and none of them holding another
/// node), no hash is owned by it, and every hash it did not own keeps its
/// owner.
pub proof fn law_remove_node(before: ConsistentHash, after: ConsistentHash, removed: Seq<u64>, n: NodeId, h: u64)
    requires
        before.wf(),
        after.wf(),
        after.ring_map() == before.ring_map().remove_keys(removed.to_set()),
        forall|j: int| 0 <= j < before.ring_spec().len() && (#[trigger] before.ring_spec()[j]).1.0 == n
            ==> removed.contains(before.ring_spec()[j].0),
        forall|j: int| 0 <= j < before.ring_spec().len() && removed.contains((#[trigger] before.ring_spec()[j]).0)
            ==> before.ring_spec()[j].1.0 == n,
    ensures
        owner(after.ring_spec(), h) != Some(n),
        owner(before.ring_spec(), h) != Some(n) ==> owner(after.ring_spec(), h) == owner(before.ring_spec(), h),
{
    before.lemma_ring_sorted();
    after.lemma_ring_sorted();
    law_leave_moves_keys_off_the_removed_node(before.ring_spec(), after.ring_spec(), removed, n, h, 1);
    if owner(before.ring_spec(), h) != Some(n) {
        law_leave_keeps_other_owners(before.ring_spec(), after.ring_spec(), removed, n, h);
    }
}

/// The replicas of a hash on a well-formed ring: distinct nodes of the
/// ring, as many as the replication factor (at least one) or as there are
/// nodes, the first being the hash's owner.
pub proof fn law_replicas(c: ConsistentHash, h: u64)
    requires
        c.wf(),
    ensures
        ({
            let r = replicas_of(c.ring_spec(), h, c.config_spec().replication_factor as nat);
            let rf = c.config_spec().replication_factor as nat;
            let want: nat = if rf > 1 { rf } else { 1 };
            let have = ring_nodes(c.ring_spec()).to_set().len();
            &&& r.no_duplicates()
            &&& r.len() == if want <= have { want } else { have }
            &&& forall|x: NodeId| r.contains(x) ==> ring_nodes(c.ring_spec()).contains(x)
            &&& owner(c.ring_spec(), h) == if r.len() > 0 { Some(r[0]) } else { None }
        }),
{
    c.lemma_ring_sorted();
    let rf = c.config_spec().replication_factor as nat;
    law_replica_placement(c.ring_spec(), h, rf);
    law_replica_count(c.ring_spec(), h, rf);
}

/// The node for a key is its first replica, and there is one exactly when
/// some node is on the ring.
pub proof fn law_node_is_first_replica(m: ShardManager, h: u64)
    requires
        m.wf(),
    ensures
        ({
            let r = replicas_of(m.ring().ring_spec(), h, m.config_spec().replication_factor as nat);
            &&& owner(m.ring().ring_spec(), h) == if r.len() > 0 { Some(r[0]) } else { None }
            &&& (owner(m.ring().ring_spec(), h) is Some <==> m.ring().ring_spec().len() > 0)
        }),
{
    m.lemma_ring_wf();
    law_replicas(m.ring(), h);
}

} // verus!
