use crate::adapter::InMemDiskANNAdapter;
use crate::error::{error_text, VectorIndexError};
use crate::id_map::fits_slot;
use diskann::ANNError;
use std::collections::HashSet;
use vstd::prelude::*;

verus! {

/// What is wrong with the `i`-th id of an insert into an index that maps
/// `slots`: it does not fit a slot, or else it is mapped already or stands
/// earlier in the list.
pub open spec fn insert_fault(slots: Map<u64, u32>, node_ids: Seq<u64>, i: int) -> Option<
    VectorIndexError,
> {
    if !fits_slot(node_ids[i]) {
        Some(VectorIndexError::VertexIdOverflow { vertex_id: node_ids[i] })
    } else if slots.contains_key(node_ids[i]) || exists|j: int|
        0 <= j < i && node_ids[j] == node_ids[i] {
        Some(VectorIndexError::DuplicateNodeId { node_id: node_ids[i] })
    } else {
        None
    }
}

/// No id of the list is at fault.
pub open spec fn insertable(slots: Map<u64, u32>, node_ids: Seq<u64>) -> bool {
    forall|i: int| 0 <= i < node_ids.len() ==> insert_fault(slots, node_ids, i) is None
}

/// `e` is the fault of the first id of the list that has one.
pub open spec fn first_insert_fault(
    slots: Map<u64, u32>,
    node_ids: Seq<u64>,
    e: VectorIndexError,
) -> bool {
    exists|i: int|
        0 <= i < node_ids.len() && insert_fault(slots, node_ids, i) == Some(e) && forall|j: int|
            0 <= j < i ==> insert_fault(slots, node_ids, j) is None
}

impl InMemDiskANNAdapter {
    /// The ids of the list hold the last slots handed out, from `base` on,
    /// in the order of the list.
    pub open spec fn holds_block(self, node_ids: Seq<u64>, base: u32) -> bool {
        &&& base + node_ids.len() == self.next_slot()
        &&& forall|i: int|
            0 <= i < node_ids.len() ==> self.slots().contains_key(#[trigger] node_ids[i])
                && self.slots()[node_ids[i]] == base + i
    }

    /// This state is `before` with the ids of the list mapped to the next
    /// slots of `before`, in the order of the list.
    pub open spec fn extends(self, before: Self, node_ids: Seq<u64>) -> bool {
        &&& self.holds_block(node_ids, before.next_slot())
        &&& self.slots().len() == before.slots().len() + node_ids.len()
        &&& forall|node: u64| #[trigger]
            self.slots().contains_key(node) <==> before.slots().contains_key(node)
                || node_ids.contains(node)
        &&& forall|node: u64| #[trigger]
            before.slots().contains_key(node) ==> self.slots()[node] == before.slots()[node]
        &&& forall|slot: u32| #[trigger]
            self.nodes().contains_key(slot) <==> before.nodes().contains_key(slot) || (
            before.next_slot() <= slot < self.next_slot())
        &&& forall|slot: u32| #[trigger]
            before.nodes().contains_key(slot) ==> self.nodes()[slot] == before.nodes()[slot]
        &&& self.statistics() == before.statistics()
        &&& self.dimension() == before.dimension()
    }

    /// Whether `count` more slots can be handed out.
    pub fn can_insert(&self, count: usize) -> (b: bool)
        ensures
            b == (self.next_slot() + count <= u32::MAX),
    {
        count <= (u32::MAX - self.ids.peek_next_slot()) as usize
    }

    /// The first half of an insert. An empty list asks for nothing and gives
    /// `None`. Otherwise the index must be built and no id at fault; the ids
    /// are then mapped to the next slots, in the order of the list, and the
    /// first of these slots is returned.
    pub fn begin_insert(&mut self, node_ids: &[u64]) -> (r: Result<Option<u32>, VectorIndexError>)
        requires
            old(self).wf(),
            old(self).next_slot() + node_ids.len() <= u32::MAX,
        ensures
            final(self).wf(),
            node_ids.len() == 0 ==> r == Ok::<Option<u32>, VectorIndexError>(None) && final(self).same_as(
                *old(self),
            ),
            node_ids.len() > 0 && !old(self).is_built() ==> (r matches Err(
                VectorIndexError::IndexNotBuilt,
            )) && final(self).same_as(*old(self)),
            node_ids.len() > 0 && old(self).is_built() ==> match r {
                Ok(Some(base)) => {
                    &&& insertable(old(self).slots(), node_ids@)
                    &&& base == old(self).next_slot()
                    &&& final(self).extends(*old(self), node_ids@)
                },
                Ok(None) => false,
                Err(e) => first_insert_fault(old(self).slots(), node_ids@, e) && final(self).same_as(
                    *old(self),
                ),
            },
    {
        let count = node_ids.len();
        if count == 0 {
            return Ok(None);
        }
        if self.ids.is_empty() {
            return Err(VectorIndexError::IndexNotBuilt);
        }
        let mut seen: HashSet<u64> = HashSet::new();
        let mut i: usize = 0;
        while i < count
            invariant
                i <= count,
                count == node_ids@.len(),
                self.wf(),
                *self == *old(self),
                old(self).is_built(),
                forall|j: int| 0 <= j < i ==> insert_fault(self.slots(), node_ids@, j) is None,
                forall|node: u64|
                    seen@.contains(node) <==> exists|j: int| 0 <= j < i && node_ids@[j] == node,
            decreases count - i,
        {
            let node = node_ids[i];
            if node > u32::MAX as u64 {
                let e = VectorIndexError::VertexIdOverflow { vertex_id: node };
                assert(insert_fault(self.slots(), node_ids@, i as int) == Some(e));
                return Err(e);
            }
            let mapped = self.ids.lookup_slot(node).is_some();
            if mapped || !seen.insert(node) {
                let e = VectorIndexError::DuplicateNodeId { node_id: node };
                assert(insert_fault(self.slots(), node_ids@, i as int) == Some(e));
                return Err(e);
            }
            i += 1;
        }
        proof {
            self.ids.lemma_wf_consistent();
        }
        let base = self.ids.allocate_block(count as u32);
        let mut i: usize = 0;
        while i < count
            invariant
                i <= count,
                count == node_ids@.len(),
                old(self).wf(),
                old(self).id_map().consistent(),
                insertable(old(self).slots(), node_ids@),
                base == old(self).next_slot(),
                base + count <= u32::MAX,
                self.wf(),
                self.next_slot() == base + count,
                self.statistics() == old(self).statistics(),
                self.dimension() == old(self).dimension(),
                self.slots().len() == old(self).slots().len() + i,
                forall|node: u64| #[trigger]
                    self.slots().contains_key(node) <==> old(self).slots().contains_key(node)
                        || exists|j: int| 0 <= j < i && node_ids@[j] == node,
                forall|node: u64| #[trigger]
                    old(self).slots().contains_key(node) ==> self.slots()[node] == old(self).slots()[node],
                forall|j: int|
                    0 <= j < i ==> self.slots().contains_key(#[trigger] node_ids@[j])
                        && self.slots()[node_ids@[j]] == base + j,
                forall|slot: u32| #[trigger]
                    self.nodes().contains_key(slot) <==> old(self).nodes().contains_key(slot) || (
                    base <= slot < base + i),
                forall|slot: u32| #[trigger]
                    old(self).nodes().contains_key(slot) ==> self.nodes()[slot] == old(self).nodes()[slot],
            decreases count - i,
        {
            let node = node_ids[i];
            let slot = base + i as u32;
            proof {
                assert(insert_fault(old(self).slots(), node_ids@, i as int) is None);
                self.ids.lemma_wf_consistent();
                if self.slots().contains_key(node) {
                    let j = choose|j: int| 0 <= j < i && node_ids@[j] == node;
                    assert(false);
                }
            }
            let ghost before = *self;
            self.ids.bind(node, slot);
            proof {
                assert forall|other: u64| #[trigger]
                    self.slots().contains_key(other) <==> old(self).slots().contains_key(other)
                        || exists|j: int| 0 <= j < i + 1 && node_ids@[j] == other by {
                    if other == node {
                        assert(node_ids@[i as int] == other);
                    } else if before.slots().contains_key(other) {
                        if !old(self).slots().contains_key(other) {
                            let j = choose|j: int| 0 <= j < i && node_ids@[j] == other;
                            assert(0 <= j < i + 1 && node_ids@[j] == other);
                        }
                    } else if exists|j: int| 0 <= j < i + 1 && node_ids@[j] == other {
                        let j = choose|j: int| 0 <= j < i + 1 && node_ids@[j] == other;
                        assert(0 <= j < i && node_ids@[j] == other);
                    }
                }
                assert forall|j: int| 0 <= j < i + 1 implies self.slots().contains_key(
                    #[trigger] node_ids@[j],
                ) && self.slots()[node_ids@[j]] == base + j by {
                    if j < i {
                        assert(before.slots().contains_key(node_ids@[j]));
                    }
                }
                assert forall|other: u32| #[trigger]
                    self.nodes().contains_key(other) <==> old(self).nodes().contains_key(other) || (
                    base <= other < base + i + 1) by {
                    if other != slot {
                        assert(self.nodes().contains_key(other) == before.nodes().contains_key(
                            other,
                        ));
                    }
                }
                assert forall|other: u32| #[trigger]
                    old(self).nodes().contains_key(other) implies self.nodes()[other] == old(self).nodes()[other] by {
                    assert(before.nodes().contains_key(other));
                    assert(other < base);
                }
            }
            i += 1;
        }
        proof {
            assert forall|node: u64| #[trigger]
                self.slots().contains_key(node) <==> old(self).slots().contains_key(node)
                    || node_ids@.contains(node) by {
                if node_ids@.contains(node) {
                    let j = choose|j: int| 0 <= j < node_ids@.len() && node_ids@[j] == node;
                    assert(0 <= j < count && node_ids@[j] == node);
                }
            }
        }
        Ok(Some(base))
    }

    /// The second half of an insert, given what the inner index answered.
    /// After an error the ids of the list are taken out again and the
    /// counter is set back to `base`.
    pub fn complete_insert(
        &mut self,
        node_ids: &[u64],
        base: u32,
        outcome: Result<(), ANNError>,
    ) -> (r: Result<(), VectorIndexError>)
        requires
            old(self).wf(),
            old(self).holds_block(node_ids@, base),
        ensures
            final(self).wf(),
            final(self).statistics() == old(self).statistics(),
            final(self).dimension() == old(self).dimension(),
            match outcome {
                Ok(()) => (r is Ok) && final(self).same_as(*old(self)),
                Err(_) => {
                    &&& r matches Err(VectorIndexError::BuildError(_))
                    &&& final(self).next_slot() == base
                    &&& final(self).slots() == old(self).slots().remove_keys(node_ids@.to_set())
                    &&& forall|slot: u32| #[trigger]
                        final(self).nodes().contains_key(slot) <==> old(self).nodes().contains_key(
                            slot,
                        ) && slot < base
                    &&& forall|slot: u32| #[trigger]
                        final(self).nodes().contains_key(slot) ==> final(self).nodes()[slot] == old(self).nodes()[slot]
                },
            },
    {
        match outcome {
            Ok(()) => Ok(()),
            Err(e) => {
                let count = node_ids.len();
                proof {
                    self.ids.lemma_wf_consistent();
                }
                let mut i: usize = 0;
                while i < count
                    invariant
                        i <= count,
                        count == node_ids@.len(),
                        old(self).wf(),
                        old(self).id_map().consistent(),
                        old(self).holds_block(node_ids@, base),
                        self.wf(),
                        self.next_slot() == old(self).next_slot(),
                        self.statistics() == old(self).statistics(),
                        self.dimension() == old(self).dimension(),
                        self.slots() == old(self).slots().remove_keys(
                            node_ids@.take(i as int).to_set(),
                        ),
                        forall|slot: u32| #[trigger]
                            self.nodes().contains_key(slot) <==> old(self).nodes().contains_key(
                                slot,
                            ) && !(base <= slot < base + i),
                        forall|slot: u32| #[trigger]
                            self.nodes().contains_key(slot) ==> self.nodes()[slot] == old(self).nodes()[slot],
                    decreases count - i,
                {
                    let node = node_ids[i];
                    proof {
                        assert(old(self).slots().contains_key(node_ids@[i as int]));
                        assert(!node_ids@.take(i as int).to_set().contains(node)) by {
                            if node_ids@.take(i as int).contains(node) {
                                let j = choose|j: int|
                                    0 <= j < i && node_ids@.take(i as int)[j] == node;
                                assert(old(self).slots()[node_ids@[j]] == base + j);
                            }
                        }
                        assert(self.slots().contains_key(node));
                        assert(self.slots()[node] == base + i);
                    }
                    let ghost before = *self;
                    self.ids.remove_by_node(node);
                    proof {
                        assert(node_ids@.take(i + 1) =~= node_ids@.take(i as int).push(node));
                        node_ids@.take(i as int).lemma_push_to_set_commute(node);
                        assert(self.slots() =~= old(self).slots().remove_keys(
                            node_ids@.take(i + 1).to_set(),
                        ));
                        let gone = (base + i) as u32;
                        assert(self.nodes() == before.nodes().remove(gone));
                        assert forall|slot: u32| #[trigger]
                            self.nodes().contains_key(slot) <==> old(self).nodes().contains_key(
                                slot,
                            ) && !(base <= slot < base + i + 1) by {
                            if slot != gone {
                                assert(self.nodes().contains_key(slot) == before.nodes().contains_key(
                                    slot,
                                ));
                            }
                        }
                        assert forall|slot: u32| #[trigger]
                            self.nodes().contains_key(slot) implies self.nodes()[slot] == old(self).nodes()[slot] by {
                            assert(before.nodes().contains_key(slot));
                        }
                    }
                    i += 1;
                }
                proof {
                    assert(node_ids@.take(count as int) =~= node_ids@);
                    assert forall|slot: u32| #[trigger] self.nodes().contains_key(slot) implies slot
                        < base by {
                        assert(old(self).nodes().contains_key(slot));
                    }
                    assert(self.ids.next_slot() == base + count);
                    assert(count as u32 == count);
                    assert forall|slot: u32| #[trigger] self.ids.nodes().contains_key(slot) implies slot
                        < self.ids.next_slot() - count as u32 by {
                        assert(self.nodes().contains_key(slot));
                    }
                }
                let ghost pre = *self;
                assert(forall|slot: u32| #[trigger]
                        pre.nodes().contains_key(slot) <==> old(self).nodes().contains_key(
                            slot,
                        ) && slot < base);
                self.ids.release_block(count as u32);
                assert(self.nodes() == pre.nodes());
                let r = Err(VectorIndexError::BuildError(error_text(&e)));
                assert(r matches Err(VectorIndexError::BuildError(_)));
                assert(self.next_slot() == base);
                assert(self.slots() == old(self).slots().remove_keys(node_ids@.to_set()));
                assert(forall|slot: u32| #[trigger]
                        self.nodes().contains_key(slot) <==> old(self).nodes().contains_key(
                            slot,
                        ) && slot < base);
                assert(forall|slot: u32| #[trigger]
                        self.nodes().contains_key(slot) ==> self.nodes()[slot] == old(self).nodes()[slot]);
                r
            },
        }
    }

    /// Adds vectors to a built index. `inner_insert` hands the vectors to
    /// the inner index, which gives them the next slots in their order.
    /// Where it fails, the adapter is as it was before.
    pub fn insert<F: FnOnce() -> Result<(), ANNError>>(&mut self, node_ids: &[u64], inner_insert: F) -> (r:
        Result<(), VectorIndexError>)
        requires
            old(self).wf(),
            old(self).next_slot() + node_ids.len() <= u32::MAX,
            inner_insert.requires(()),
        ensures
            final(self).wf(),
            node_ids.len() == 0 ==> (r is Ok) && final(self).same_as(*old(self)),
            node_ids.len() > 0 && !old(self).is_built() ==> (r matches Err(
                VectorIndexError::IndexNotBuilt,
            )) && final(self).same_as(*old(self)),
            node_ids.len() > 0 && old(self).is_built() ==> match r {
                Ok(()) => {
                    &&& insertable(old(self).slots(), node_ids@)
                    &&& final(self).extends(*old(self), node_ids@)
                    &&& inner_insert.ensures((), Ok(()))
                },
                Err(VectorIndexError::BuildError(_)) => {
                    &&& insertable(old(self).slots(), node_ids@)
                    &&& final(self).same_as(*old(self))
                    &&& exists|e: ANNError| inner_insert.ensures((), Err(e))
                },
                Err(e) => first_insert_fault(old(self).slots(), node_ids@, e) && final(self).same_as(
                    *old(self),
                ),
            },
    {
        let base = match self.begin_insert(node_ids) {
            Ok(Some(base)) => base,
            Ok(None) => {
                return Ok(());
            },
            Err(e) => {
                proof {
                    if node_ids.len() > 0 && old(self).is_built() {
                        let i = choose|i: int|
                            0 <= i < node_ids@.len() && insert_fault(old(self).slots(), node_ids@, i)
                                == Some(e);
                        assert(!(e matches VectorIndexError::BuildError(_)));
                    }
                }
                return Err(e);
            },
        };
        let ghost mid = *self;
        let outcome = inner_insert();
        let ghost answered = outcome;
        let r = self.complete_insert(node_ids, base, outcome);
        proof {
            if let Ok(unit) = answered {
                assert(unit == ());
            }
            if answered is Err {
                old(self).id_map().lemma_wf_consistent();
                assert(inner_insert.ensures((), Err(answered->Err_0)));
                assert(self.slots() =~= old(self).slots()) by {
                    assert forall|node: u64|
                        old(self).slots().contains_key(node) implies !node_ids@.to_set().contains(
                        node,
                    ) by {
                        if node_ids@.contains(node) {
                            let i = choose|i: int| 0 <= i < node_ids@.len() && node_ids@[i] == node;
                            assert(insert_fault(old(self).slots(), node_ids@, i) is None);
                        }
                    }
                }
                assert(self.nodes() =~= old(self).nodes());
                assert(self.same_as(*old(self)));
            }
        }
        r
    }

    /// A successful insert adds as many live vectors as it was given ids,
    /// and moves the counter on by as many.
    pub proof fn lemma_insert_grows(self, before: Self, node_ids: Seq<u64>)
        requires
            self.extends(before, node_ids),
        ensures
            self.slots().len() == before.slots().len() + node_ids.len(),
            self.next_slot() == before.next_slot() + node_ids.len(),
    {
    }
}

} // verus!
