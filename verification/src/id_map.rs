use crate::error::VectorIndexError;
use crate::shared_map::{map_clear, map_entries, map_get, map_insert, map_len, map_new, map_remove};
use crate::sorting::{pair_le, sort_pairs};
use dashmap::DashMap;
use vstd::prelude::*;

verus! {

/// Whether a vertex id fits the 32 bits of a slot.
pub open spec fn fits_slot(node: u64) -> bool {
    node <= u32::MAX
}

/// Whether `node` stands at two places of `nodes`.
pub open spec fn occurs_twice(nodes: Seq<u64>, node: u64) -> bool {
    exists|i: int, j: int| 0 <= i < j < nodes.len() && nodes[i] == node && nodes[j] == node
}

/// `node` is the least id that fits a slot and occurs twice.
pub open spec fn least_repeated(nodes: Seq<u64>, node: u64) -> bool {
    &&& fits_slot(node)
    &&& occurs_twice(nodes, node)
    &&& forall|other: u64| other < node ==> !occurs_twice(nodes, other)
}

/// `node` is the least id that does not fit a slot.
pub open spec fn least_overflow(nodes: Seq<u64>, node: u64) -> bool {
    &&& !fits_slot(node)
    &&& nodes.contains(node)
    &&& forall|i: int| 0 <= i < nodes.len() && !fits_slot(#[trigger] nodes[i]) ==> node <= nodes[i]
}

/// Every id fits a slot and none occurs twice.
pub open spec fn assignable(nodes: Seq<u64>) -> bool {
    &&& forall|i: int| 0 <= i < nodes.len() ==> fits_slot(#[trigger] nodes[i])
    &&& forall|i: int, j: int| 0 <= i < j < nodes.len() ==> nodes[i] != nodes[j]
}

/// `slots[i]` is the place of `nodes[i]` in the ascending list of the ids:
/// the slots lie below the number of ids and rise as the ids do.
pub open spec fn is_ranking(nodes: Seq<u64>, slots: Seq<u32>) -> bool {
    &&& slots.len() == nodes.len()
    &&& forall|i: int| 0 <= i < nodes.len() ==> (#[trigger] slots[i]) < nodes.len()
    &&& forall|i: int, j: int|
        0 <= i < nodes.len() && 0 <= j < nodes.len() && nodes[i] < nodes[j] ==> slots[i] < slots[j]
}

/// Each id paired with the place at which it stands.
spec fn tagged(nodes: Seq<u64>) -> Seq<(u64, usize)> {
    Seq::new(nodes.len(), |i: int| (nodes[i], i as usize))
}

/// What a list holds that is a rearrangement of the tagged ids.
proof fn lemma_rearranged_tags(nodes: Seq<u64>, sorted: Seq<(u64, usize)>)
    requires
        nodes.len() <= usize::MAX,
        sorted.to_multiset() == tagged(nodes).to_multiset(),
    ensures
        sorted.len() == nodes.len(),
        forall|p: int|
            0 <= p < sorted.len() ==> (#[trigger] sorted[p]).1 < nodes.len() && nodes[sorted[p].1 as int]
                == sorted[p].0,
        forall|p: int, q: int| 0 <= p < q < sorted.len() ==> sorted[p].1 != sorted[q].1,
        forall|i: int| 0 <= i < nodes.len() ==> sorted.contains(#[trigger] tagged(nodes)[i]),
{
    let tags = tagged(nodes);
    broadcast use vstd::seq_lib::to_multiset_len, vstd::seq_lib::to_multiset_contains;

    assert(sorted.len() == sorted.to_multiset().len());
    assert(tags.len() == tags.to_multiset().len());
    assert forall|p: int| 0 <= p < sorted.len() implies (#[trigger] sorted[p]).1 < nodes.len()
        && nodes[sorted[p].1 as int] == sorted[p].0 by {
        assert(sorted.contains(sorted[p]));
        assert(sorted.to_multiset().count(sorted[p]) > 0);
        assert(tags.contains(sorted[p]));
        let i = choose|i: int| 0 <= i < tags.len() && tags[i] == sorted[p];
        assert(tags[i] == (nodes[i], i as usize));
    }
    assert(tags.no_duplicates());
    tags.lemma_multiset_has_no_duplicates();
    sorted.lemma_multiset_has_no_duplicates_conv();
    assert forall|p: int, q: int| 0 <= p < q < sorted.len() implies sorted[p].1 != sorted[q].1 by {
        assert(sorted[p] != sorted[q]);
        assert(nodes[sorted[p].1 as int] == sorted[p].0);
        assert(nodes[sorted[q].1 as int] == sorted[q].0);
    }
    assert forall|i: int| 0 <= i < nodes.len() implies sorted.contains(#[trigger] tags[i]) by {
        assert(tags.contains(tags[i]));
        assert(tags.to_multiset().count(tags[i]) > 0);
    }
}

/// The ids of the first `upto` pairs rise strictly.
spec fn rising(sorted: Seq<(u64, usize)>, upto: int) -> bool {
    forall|a: int, b: int| 0 <= a < b < upto ==> sorted[a].0 < sorted[b].0
}

/// The ids of `nodes`, each with its place, in ascending order.
fn sorted_tags(nodes: &[u64]) -> (sorted: Vec<(u64, usize)>)
    ensures
        sorted@.to_multiset() == tagged(nodes@).to_multiset(),
        forall|i: int, j: int| 0 <= i < j < sorted@.len() ==> pair_le(sorted@[i], sorted@[j]),
{
    let mut tags: Vec<(u64, usize)> = Vec::with_capacity(nodes.len());
    let mut i: usize = 0;
    while i < nodes.len()
        invariant
            i <= nodes.len(),
            tags@ == tagged(nodes@).take(i as int),
        decreases nodes.len() - i,
    {
        tags.push((nodes[i], i));
        i += 1;
        assert(tags@ =~= tagged(nodes@).take(i as int));
    }
    assert(tags@ =~= tagged(nodes@));
    sort_pairs(&mut tags);
    tags
}

/// Looks for the first pair of the ascending list whose id does not fit a
/// slot or repeats the id before it.
fn check_sorted(nodes: &[u64], sorted: &Vec<(u64, usize)>) -> (r: Result<(), VectorIndexError>)
    requires
        sorted@.to_multiset() == tagged(nodes@).to_multiset(),
        forall|i: int, j: int| 0 <= i < j < sorted@.len() ==> pair_le(sorted@[i], sorted@[j]),
    ensures
        match r {
            Ok(()) => assignable(nodes@) && rising(sorted@, sorted@.len() as int),
            Err(VectorIndexError::DuplicateNodeId { node_id }) => least_repeated(nodes@, node_id),
            Err(VectorIndexError::VertexIdOverflow { vertex_id }) => {
                &&& least_overflow(nodes@, vertex_id)
                &&& forall|node: u64| fits_slot(node) ==> !occurs_twice(nodes@, node)
            },
            Err(_) => false,
        },
{
    let count = nodes.len();
    proof {
        lemma_rearranged_tags(nodes@, sorted@);
    }
    let mut p: usize = 0;
    while p < sorted.len()
        invariant
            p <= sorted@.len(),
            sorted@.len() == nodes@.len() == count,
            sorted@.to_multiset() == tagged(nodes@).to_multiset(),
            forall|i: int, j: int| 0 <= i < j < sorted@.len() ==> pair_le(sorted@[i], sorted@[j]),
            forall|q: int| 0 <= q < p ==> fits_slot(sorted@[q].0),
            rising(sorted@, p as int),
        decreases sorted@.len() - p,
    {
        let node = sorted[p].0;
        if node > u32::MAX as u64 {
            proof {
                lemma_rearranged_tags(nodes@, sorted@);
                assert(nodes@[sorted@[p as int].1 as int] == node);
                assert forall|i: int| 0 <= i < nodes@.len() && !fits_slot(
                    #[trigger] nodes@[i],
                ) implies node <= nodes@[i] by {
                    let a = lemma_place_of(nodes@, sorted@, i);
                    if a < p {
                        assert(fits_slot(sorted@[a].0));
                    } else if a > p {
                        assert(pair_le(sorted@[p as int], sorted@[a]));
                    }
                }
                assert forall|other: u64| fits_slot(other) implies !occurs_twice(nodes@, other) by {
                    lemma_twice_below(nodes@, sorted@, other, p as int);
                }
            }
            return Err(VectorIndexError::VertexIdOverflow { vertex_id: node });
        }
        if p > 0 && sorted[p - 1].0 == node {
            proof {
                lemma_rearranged_tags(nodes@, sorted@);
                let i = sorted@[p - 1].1 as int;
                let j = sorted@[p as int].1 as int;
                assert(nodes@[i] == node && nodes@[j] == node && i != j);
                if i < j {
                    assert(0 <= i < j < nodes@.len() && nodes@[i] == node && nodes@[j] == node);
                } else {
                    assert(0 <= j < i < nodes@.len() && nodes@[j] == node && nodes@[i] == node);
                }
                assert(occurs_twice(nodes@, node));
                assert forall|other: u64| other < node implies !occurs_twice(nodes@, other) by {
                    lemma_twice_below(nodes@, sorted@, other, p as int);
                }
            }
            return Err(VectorIndexError::DuplicateNodeId { node_id: node });
        }
        proof {
            assert forall|a: int, b: int| 0 <= a < b < p + 1 implies sorted@[a].0 < sorted@[b].0 by {
                if b == p {
                    assert(pair_le(sorted@[a], sorted@[p as int]));
                    if a < p - 1 {
                        assert(sorted@[a].0 < sorted@[p - 1].0);
                    }
                    assert(pair_le(sorted@[p - 1], sorted@[p as int]));
                }
            }
        }
        p += 1;
    }
    proof {
        lemma_rearranged_tags(nodes@, sorted@);
        assert forall|i: int| 0 <= i < nodes@.len() implies fits_slot(#[trigger] nodes@[i]) by {
            let a = lemma_place_of(nodes@, sorted@, i);
        }
        assert forall|i: int, j: int| 0 <= i < j < nodes@.len() implies nodes@[i] != nodes@[j] by {
            let a = lemma_place_of(nodes@, sorted@, i);
            let b = lemma_place_of(nodes@, sorted@, j);
            assert(a != b);
            if a < b {
                assert(sorted@[a].0 < sorted@[b].0);
            } else {
                assert(sorted@[b].0 < sorted@[a].0);
            }
        }
    }
    Ok(())
}

/// The place of the `i`-th id in a rearrangement of the tagged ids.
proof fn lemma_place_of(nodes: Seq<u64>, sorted: Seq<(u64, usize)>, i: int) -> (a: int)
    requires
        nodes.len() <= usize::MAX,
        sorted.to_multiset() == tagged(nodes).to_multiset(),
        0 <= i < nodes.len(),
    ensures
        0 <= a < sorted.len(),
        sorted[a] == (nodes[i], i as usize),
{
    lemma_rearranged_tags(nodes, sorted);
    assert(sorted.contains(tagged(nodes)[i]));
    choose|a: int| 0 <= a < sorted.len() && sorted[a] == tagged(nodes)[i]
}

/// An id below a pair of the ascending list, up to which the ids rise
/// strictly, does not occur twice.
proof fn lemma_twice_below(nodes: Seq<u64>, sorted: Seq<(u64, usize)>, node: u64, p: int)
    requires
        nodes.len() <= usize::MAX,
        sorted.to_multiset() == tagged(nodes).to_multiset(),
        forall|i: int, j: int| 0 <= i < j < sorted.len() ==> pair_le(sorted[i], sorted[j]),
        0 <= p < sorted.len(),
        rising(sorted, p),
        node < sorted[p].0 || (p > 0 && node < sorted[p - 1].0),
    ensures
        !occurs_twice(nodes, node),
{
    if occurs_twice(nodes, node) {
        let (i, j) = choose|i: int, j: int|
            0 <= i < j < nodes.len() && nodes[i] == node && nodes[j] == node;
        let a = lemma_place_of(nodes, sorted, i);
        let b = lemma_place_of(nodes, sorted, j);
        assert(a != b);
        if a >= p {
            assert(a > p ==> pair_le(sorted[p], sorted[a]));
            assert(p > 0 ==> pair_le(sorted[p - 1], sorted[a]));
        }
        if b >= p {
            assert(b > p ==> pair_le(sorted[p], sorted[b]));
            assert(p > 0 ==> pair_le(sorted[p - 1], sorted[b]));
        }
        if a < b {
            assert(sorted[a].0 < sorted[b].0);
        } else {
            assert(sorted[b].0 < sorted[a].0);
        }
    }
}

/// The two-way mapping between vertex ids and slots, with the counter from
/// which fresh slots are drawn. Slot ids are kept widened to 64 bits, so
/// that both directions live in maps of one type.
pub struct IdMap {
    node_to_slot: DashMap<u64, u64>,
    slot_to_node: DashMap<u64, u64>,
    next_slot: u32,
}

impl IdMap {
    /// The slot of each mapped vertex id.
    pub closed spec fn slots(&self) -> Map<u64, u32> {
        Map::new(
            |node: u64| map_entries(self.node_to_slot).contains_key(node),
            |node: u64| map_entries(self.node_to_slot)[node] as u32,
        )
    }

    /// The vertex id of each mapped slot.
    pub closed spec fn nodes(&self) -> Map<u32, u64> {
        Map::new(
            |slot: u32| map_entries(self.slot_to_node).contains_key(slot as u64),
            |slot: u32| map_entries(self.slot_to_node)[slot as u64],
        )
    }

    /// The first slot that has never been handed out.
    pub closed spec fn next_slot(&self) -> u32 {
        self.next_slot
    }

    /// The two directions are inverse to each other, finitely many pairs are
    /// held, and every mapped slot lies below the counter.
    pub open spec fn consistent(&self) -> bool {
        &&& self.slots().dom().finite()
        &&& forall|node: u64| #[trigger]
            self.slots().contains_key(node) ==> self.nodes().contains_key(self.slots()[node])
                && self.nodes()[self.slots()[node]] == node
        &&& forall|slot: u32| #[trigger]
            self.nodes().contains_key(slot) ==> self.slots().contains_key(self.nodes()[slot])
                && self.slots()[self.nodes()[slot]] == slot
        &&& forall|slot: u32| #[trigger] self.nodes().contains_key(slot) ==> slot < self.next_slot()
    }

    /// The ids of `nodes` hold the slots `0..n`, and the ids rise with their slots.
    pub open spec fn ranked(&self, nodes: Seq<u64>) -> bool {
        &&& self.next_slot() == nodes.len()
        &&& forall|node: u64| #[trigger] self.slots().contains_key(node) <==> nodes.contains(node)
        &&& forall|slot: u32| #[trigger] self.nodes().contains_key(slot) <==> slot < nodes.len()
        &&& forall|a: u32, b: u32|
            a < b < nodes.len() ==> (#[trigger] self.nodes()[a]) < (#[trigger] self.nodes()[b])
    }

    /// The invariant of the type: `consistent`, and every stored slot fits 32 bits.
    pub closed spec fn wf(&self) -> bool {
        &&& self.consistent()
        &&& forall|node: u64| #[trigger]
            map_entries(self.node_to_slot).contains_key(node) ==> map_entries(
                self.node_to_slot,
            )[node] <= u32::MAX
        &&& forall|key: u64| #[trigger]
            map_entries(self.slot_to_node).contains_key(key) ==> key <= u32::MAX
    }

    /// A well-formed mapping is consistent.
    pub proof fn lemma_wf_consistent(&self)
        requires
            self.wf(),
        ensures
            self.consistent(),
    {
    }

    /// Looking a vertex id up gives a slot exactly where looking that slot
    /// up gives the vertex id.
    pub proof fn lemma_lookup_round_trip(&self, node: u64, slot: u32)
        requires
            self.wf(),
        ensures
            (self.slots().contains_key(node) && self.slots()[node] == slot) <==> (
            self.nodes().contains_key(slot) && self.nodes()[slot] == node),
    {
        if self.slots().contains_key(node) && self.slots()[node] == slot {
            assert(self.nodes().contains_key(self.slots()[node]));
        }
        if self.nodes().contains_key(slot) && self.nodes()[slot] == node {
            assert(self.slots().contains_key(self.nodes()[slot]));
        }
    }

    /// Two mappings that rank the same ids agree up to the slot `upto`.
    proof fn lemma_ranked_agree(&self, other: &IdMap, nodes: Seq<u64>, upto: u32)
        requires
            self.wf(),
            other.wf(),
            self.ranked(nodes),
            other.ranked(nodes),
            upto < nodes.len(),
        ensures
            forall|slot: u32| slot <= upto ==> self.nodes()[slot] == other.nodes()[slot],
        decreases upto,
    {
        if upto > 0 {
            self.lemma_ranked_agree(other, nodes, (upto - 1) as u32);
        }
        let mine = self.nodes()[upto];
        let theirs = other.nodes()[upto];
        assert(self.nodes().contains_key(upto));
        assert(other.nodes().contains_key(upto));
        // `mine` is ranked by `other` too, at a slot that is not below `upto`
        assert(self.slots().contains_key(mine));
        assert(nodes.contains(mine));
        assert(other.slots().contains_key(mine));
        let there = other.slots()[mine];
        assert(other.nodes().contains_key(there) && other.nodes()[there] == mine);
        if there < upto {
            assert(self.nodes()[there] == other.nodes()[there]);
            assert(self.nodes()[there] < self.nodes()[upto]);
        }
        assert(theirs <= mine) by {
            if upto < there {
                assert(other.nodes()[upto] < other.nodes()[there]);
            }
        }
        // and the other way round
        assert(other.slots().contains_key(theirs));
        assert(nodes.contains(theirs));
        assert(self.slots().contains_key(theirs));
        let here = self.slots()[theirs];
        assert(self.nodes().contains_key(here) && self.nodes()[here] == theirs);
        if here < upto {
            assert(self.nodes()[here] == other.nodes()[here]);
            assert(other.nodes()[here] < other.nodes()[upto]);
        }
        assert(mine <= theirs) by {
            if upto < here {
                assert(self.nodes()[upto] < self.nodes()[here]);
            }
        }
    }

    /// Ranking a list of ids leaves one mapping only: two mappings that
    /// rank the same ids are the same, whatever was mapped before.
    pub proof fn lemma_ranked_unique(&self, other: &IdMap, nodes: Seq<u64>)
        requires
            self.wf(),
            other.wf(),
            self.ranked(nodes),
            other.ranked(nodes),
        ensures
            self.slots() == other.slots(),
            self.nodes() == other.nodes(),
            self.next_slot() == other.next_slot(),
    {
        if nodes.len() > 0 {
            self.lemma_ranked_agree(other, nodes, (nodes.len() - 1) as u32);
        }
        assert forall|slot: u32| self.nodes().contains_key(slot) implies self.nodes()[slot]
            == other.nodes()[slot] by {}
        assert(self.nodes() =~= other.nodes());
        assert forall|node: u64| self.slots().contains_key(node) implies self.slots()[node]
            == other.slots()[node] by {
            let slot = self.slots()[node];
            assert(self.nodes().contains_key(slot) && self.nodes()[slot] == node);
            assert(other.nodes().contains_key(slot));
            assert(other.slots().contains_key(other.nodes()[slot]));
        }
        assert(self.slots() =~= other.slots());
    }

    /// An empty mapping whose counter stands at zero.
    pub fn new() -> (r: Self)
        ensures
            r.wf(),
            r.slots() == Map::<u64, u32>::empty(),
            r.nodes() == Map::<u32, u64>::empty(),
            r.next_slot() == 0,
    {
        let r = IdMap { node_to_slot: map_new(), slot_to_node: map_new(), next_slot: 0 };
        assert(r.slots() =~= Map::<u64, u32>::empty());
        assert(r.nodes() =~= Map::<u32, u64>::empty());
        r
    }

    /// Forgets every pair and sets the counter back to zero.
    pub fn clear(&mut self)
        ensures
            final(self).wf(),
            final(self).slots() == Map::<u64, u32>::empty(),
            final(self).nodes() == Map::<u32, u64>::empty(),
            final(self).next_slot() == 0,
    {
        map_clear(&mut self.node_to_slot);
        map_clear(&mut self.slot_to_node);
        self.next_slot = 0;
        assert(self.slots() =~= Map::<u64, u32>::empty());
        assert(self.nodes() =~= Map::<u32, u64>::empty());
    }

    /// The number of mapped vertex ids.
    pub fn len(&self) -> (n: usize)
        requires
            self.wf(),
        ensures
            n == self.slots().len(),
    {
        assert(self.slots().dom() =~= map_entries(self.node_to_slot).dom());
        map_len(&self.node_to_slot)
    }

    /// Whether nothing is mapped.
    pub fn is_empty(&self) -> (b: bool)
        requires
            self.wf(),
        ensures
            b == (self.slots() == Map::<u64, u32>::empty()),
            b == (self.nodes() == Map::<u32, u64>::empty()),
    {
        let n = self.len();
        proof {
            if n == 0 {
                assert(self.slots().dom() =~= Set::<u64>::empty()) by {
                    self.slots().dom().lemma_len0_is_empty();
                }
                assert(self.slots() =~= Map::<u64, u32>::empty());
                assert(forall|slot: u32| !self.nodes().contains_key(slot));
                assert(self.nodes() =~= Map::<u32, u64>::empty());
            } else {
                assert(self.slots() != Map::<u64, u32>::empty());
                let node = choose|node: u64| self.slots().contains_key(node);
                assert(self.slots().dom().len() != 0);
                assert(exists|node: u64| self.slots().dom().contains(node)) by {
                    if forall|node: u64| !self.slots().dom().contains(node) {
                        assert(self.slots().dom() =~= Set::<u64>::empty());
                    }
                }
                assert(self.slots().contains_key(node));
                assert(self.nodes().contains_key(self.slots()[node]));
            }
        }
        n == 0
    }

    /// The first slot that has never been handed out.
    pub fn peek_next_slot(&self) -> (r: u32)
        ensures
            r == self.next_slot(),
    {
        self.next_slot
    }

    /// The slot that `node` is mapped to.
    pub fn lookup_slot(&self, node: u64) -> (r: Option<u32>)
        requires
            self.wf(),
        ensures
            r == (if self.slots().contains_key(node) {
                Some(self.slots()[node])
            } else {
                None
            }),
    {
        match map_get(&self.node_to_slot, node) {
            Some(slot) => Some(slot as u32),
            None => None,
        }
    }

    /// The vertex id that `slot` is mapped to.
    pub fn lookup_node(&self, slot: u32) -> (r: Option<u64>)
        requires
            self.wf(),
        ensures
            r == (if self.nodes().contains_key(slot) {
                Some(self.nodes()[slot])
            } else {
                None
            }),
    {
        map_get(&self.slot_to_node, slot as u64)
    }

    /// Maps `node` and `slot` to each other. Neither may be mapped yet, and
    /// the slot must have been handed out by the counter.
    pub fn bind(&mut self, node: u64, slot: u32)
        requires
            old(self).wf(),
            !old(self).slots().contains_key(node),
            !old(self).nodes().contains_key(slot),
            slot < old(self).next_slot(),
        ensures
            final(self).wf(),
            final(self).slots() == old(self).slots().insert(node, slot),
            final(self).nodes() == old(self).nodes().insert(slot, node),
            final(self).next_slot() == old(self).next_slot(),
    {
        map_insert(&mut self.node_to_slot, node, slot as u64);
        map_insert(&mut self.slot_to_node, slot as u64, node);
        proof {
            assert(self.slots() =~= old(self).slots().insert(node, slot));
            assert(self.nodes() =~= old(self).nodes().insert(slot, node)) by {
                assert forall|s: u32|
                    self.nodes().contains_key(s) == old(self).nodes().insert(
                        slot,
                        node,
                    ).contains_key(s) by {
                    if s == slot {
                    } else {
                        assert(s as u64 != slot as u64);
                    }
                }
            }
            assert forall|n: u64| #[trigger] self.slots().contains_key(n) implies self.nodes().contains_key(
                self.slots()[n],
            ) && self.nodes()[self.slots()[n]] == n by {
                if n != node {
                    assert(old(self).slots().contains_key(n));
                }
            }
            assert forall|s: u32| #[trigger] self.nodes().contains_key(s) implies self.slots().contains_key(
                self.nodes()[s],
            ) && self.slots()[self.nodes()[s]] == s by {
                if s != slot {
                    assert(old(self).nodes().contains_key(s));
                }
            }
        }
    }

    /// Takes `node` and its slot out of the mapping and returns the slot.
    /// The slot is not handed out again.
    pub fn remove_by_node(&mut self, node: u64) -> (r: Option<u32>)
        requires
            old(self).wf(),
        ensures
            final(self).wf(),
            final(self).next_slot() == old(self).next_slot(),
            final(self).slots() == old(self).slots().remove(node),
            r == (if old(self).slots().contains_key(node) {
                Some(old(self).slots()[node])
            } else {
                None
            }),
            final(self).nodes() == (if old(self).slots().contains_key(node) {
                old(self).nodes().remove(old(self).slots()[node])
            } else {
                old(self).nodes()
            }),
    {
        match map_remove(&mut self.node_to_slot, node) {
            Some((_, wide)) => {
                let slot = wide as u32;
                map_remove(&mut self.slot_to_node, wide);
                proof {
                    assert(old(self).slots()[node] == slot);
                    assert(self.slots() =~= old(self).slots().remove(node));
                    assert(self.nodes() =~= old(self).nodes().remove(slot)) by {
                        assert forall|s: u32|
                            self.nodes().contains_key(s) == old(self).nodes().remove(
                                slot,
                            ).contains_key(s) by {
                            if s != slot {
                                assert(s as u64 != slot as u64);
                            }
                        }
                    }
                    assert forall|n: u64| #[trigger]
                        self.slots().contains_key(n) implies self.nodes().contains_key(
                        self.slots()[n],
                    ) && self.nodes()[self.slots()[n]] == n by {
                        assert(old(self).slots().contains_key(n));
                        assert(old(self).slots().contains_key(node));
                    }
                    assert forall|s: u32| #[trigger]
                        self.nodes().contains_key(s) implies self.slots().contains_key(
                        self.nodes()[s],
                    ) && self.slots()[self.nodes()[s]] == s by {
                        assert(old(self).nodes().contains_key(s));
                    }
                }
                Some(slot)
            },
            None => {
                proof {
                    assert(self.slots() =~= old(self).slots().remove(node));
                    assert(self.nodes() =~= old(self).nodes());
                }
                None
            },
        }
    }

    /// Hands out the next `count` slots and returns the first of them.
    pub fn allocate_block(&mut self, count: u32) -> (base: u32)
        requires
            old(self).wf(),
            old(self).next_slot() + count <= u32::MAX,
        ensures
            final(self).wf(),
            base == old(self).next_slot(),
            final(self).next_slot() == old(self).next_slot() + count,
            final(self).slots() == old(self).slots(),
            final(self).nodes() == old(self).nodes(),
    {
        let base = self.next_slot;
        self.next_slot = base + count;
        proof {
            assert(self.slots() =~= old(self).slots());
            assert(self.nodes() =~= old(self).nodes());
        }
        base
    }

    /// Takes back the last `count` slots handed out. None of them may be mapped.
    pub fn release_block(&mut self, count: u32)
        requires
            old(self).wf(),
            count <= old(self).next_slot(),
            forall|slot: u32| #[trigger]
                old(self).nodes().contains_key(slot) ==> slot < old(self).next_slot() - count,
        ensures
            final(self).wf(),
            final(self).next_slot() == old(self).next_slot() - count,
            final(self).slots() == old(self).slots(),
            final(self).nodes() == old(self).nodes(),
    {
        self.next_slot = self.next_slot - count;
        proof {
            assert(self.slots() =~= old(self).slots());
            assert(self.nodes() =~= old(self).nodes());
        }
    }

    /// Replaces the mapping by one that gives the ids of `nodes` the slots
    /// `0..n` in ascending order of the ids, and returns the slot of each id
    /// in the order of `nodes`. Where an id occurs twice or does not fit a
    /// slot, nothing is changed. The error is the one met first in ascending
    /// order: the least repeated id that fits a slot, or else the least id
    /// that does not fit.
    pub fn assign_sorted(&mut self, nodes: &[u64]) -> (r: Result<Vec<u32>, VectorIndexError>)
        requires
            old(self).wf(),
            nodes.len() <= u32::MAX,
        ensures
            final(self).wf(),
            match r {
                Ok(slots) => {
                    &&& assignable(nodes@)
                    &&& is_ranking(nodes@, slots@)
                    &&& final(self).ranked(nodes@)
                    &&& final(self).slots().len() == nodes.len()
                    &&& forall|i: int|
                        0 <= i < nodes.len() ==> final(self).slots()[#[trigger] nodes[i]] == slots[i]
                },
                Err(VectorIndexError::DuplicateNodeId { node_id }) => {
                    &&& least_repeated(nodes@, node_id)
                    &&& final(self).slots() == old(self).slots()
                    &&& final(self).nodes() == old(self).nodes()
                    &&& final(self).next_slot() == old(self).next_slot()
                },
                Err(VectorIndexError::VertexIdOverflow { vertex_id }) => {
                    &&& least_overflow(nodes@, vertex_id)
                    &&& forall|node: u64| fits_slot(node) ==> !occurs_twice(nodes@, node)
                    &&& final(self).slots() == old(self).slots()
                    &&& final(self).nodes() == old(self).nodes()
                    &&& final(self).next_slot() == old(self).next_slot()
                },
                Err(_) => false,
            },
    {
        let count = nodes.len();
        let sorted = sorted_tags(nodes);
        match check_sorted(nodes, &sorted) {
            Err(e) => {
                return Err(e);
            },
            Ok(()) => {},
        }
        proof {
            lemma_rearranged_tags(nodes@, sorted@);
        }
        self.clear();
        self.allocate_block(count as u32);
        let mut slots: Vec<u32> = vec![0u32; count];
        let mut p: usize = 0;
        while p < count
            invariant
                p <= count,
                count == nodes@.len(),
                count == sorted@.len(),
                count <= u32::MAX,
                slots@.len() == count,
                rising(sorted@, count as int),
                forall|q: int|
                    0 <= q < count ==> (#[trigger] sorted@[q]).1 < count && nodes@[sorted@[q].1 as int]
                        == sorted@[q].0,
                forall|a: int, b: int| 0 <= a < b < count ==> sorted@[a].1 != sorted@[b].1,
                self.wf(),
                self.next_slot() == count,
                forall|node: u64| #[trigger]
                    self.slots().contains_key(node) <==> exists|q: int|
                        0 <= q < p && sorted@[q].0 == node,
                forall|q: int|
                    0 <= q < p ==> self.slots()[(#[trigger] sorted@[q]).0] == q && slots@[sorted@[q].1 as int]
                        == q,
                forall|slot: u32| #[trigger] self.nodes().contains_key(slot) <==> slot < p,
                forall|q: int| 0 <= q < p ==> self.nodes()[q as u32] == (#[trigger] sorted@[q]).0,
                self.slots().len() == p,
            decreases count - p,
        {
            let (node, place) = sorted[p];
            proof {
                if self.slots().contains_key(node) {
                    let q = choose|q: int| 0 <= q < p && sorted@[q].0 == node;
                    assert(sorted@[q].0 < sorted@[p as int].0);
                }
            }
            let ghost before = *self;
            self.bind(node, p as u32);
            slots.set(place, p as u32);
            proof {
                assert forall|other: u64| #[trigger]
                    self.slots().contains_key(other) <==> exists|q: int|
                        0 <= q < p + 1 && sorted@[q].0 == other by {
                    if other == node {
                        assert(sorted@[p as int].0 == other);
                    } else if before.slots().contains_key(other) {
                        let q = choose|q: int| 0 <= q < p && sorted@[q].0 == other;
                        assert(0 <= q < p + 1 && sorted@[q].0 == other);
                    } else if exists|q: int| 0 <= q < p + 1 && sorted@[q].0 == other {
                        let q = choose|q: int| 0 <= q < p + 1 && sorted@[q].0 == other;
                        assert(0 <= q < p && sorted@[q].0 == other);
                    }
                }
                assert forall|q: int| 0 <= q < p + 1 implies self.slots()[(#[trigger] sorted@[q]).0]
                    == q && slots@[sorted@[q].1 as int] == q by {
                    if q < p {
                        assert(sorted@[q].0 < sorted@[p as int].0);
                        assert(sorted@[q].1 != sorted@[p as int].1);
                    }
                }
            }
            p += 1;
        }
        proof {
            assert forall|a: u32, b: u32| a < b < nodes.len() implies (#[trigger] self.nodes()[a]) < (
            #[trigger] self.nodes()[b]) by {
                assert(sorted@[a as int].0 < sorted@[b as int].0);
            }
            assert forall|i: int| 0 <= i < nodes.len() implies (#[trigger] slots@[i]) < nodes.len()
                && self.slots().contains_key(nodes@[i]) && self.slots()[nodes@[i]] == slots@[i] by {
                let a = lemma_place_of(nodes@, sorted@, i);
                assert(sorted@[a].0 == nodes@[i] && sorted@[a].1 == i);
            }
            assert forall|i: int, j: int|
                0 <= i < nodes.len() && 0 <= j < nodes.len() && nodes@[i] < nodes@[j] implies slots@[i]
                < slots@[j] by {
                let a = lemma_place_of(nodes@, sorted@, i);
                let b = lemma_place_of(nodes@, sorted@, j);
                assert(sorted@[a].0 == nodes@[i] && sorted@[a].1 == i);
                assert(sorted@[b].0 == nodes@[j] && sorted@[b].1 == j);
                if b < a {
                    assert(sorted@[b].0 < sorted@[a].0);
                }
            }
            assert forall|node: u64| #[trigger] self.slots().contains_key(node) implies nodes@.contains(
                node,
            ) by {
                let q = choose|q: int| 0 <= q < count && sorted@[q].0 == node;
                assert(nodes@[sorted@[q].1 as int] == node);
            }
            assert forall|node: u64| nodes@.contains(node) implies #[trigger] self.slots().contains_key(
                node,
            ) by {
                let i = choose|i: int| 0 <= i < nodes@.len() && nodes@[i] == node;
                assert(self.slots().contains_key(nodes@[i]));
            }
        }
        Ok(slots)
    }
}

} // verus!
