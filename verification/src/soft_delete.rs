use crate::adapter::InMemDiskANNAdapter;
use crate::error::VectorIndexError;
use crate::insert::{insert_fault, insertable};
use diskann::ANNError;
use vstd::prelude::*;

verus! {

/// Every id of the list is mapped.
pub open spec fn all_live(slots: Map<u64, u32>, node_ids: Seq<u64>) -> bool {
    forall|i: int| 0 <= i < node_ids.len() ==> slots.contains_key(#[trigger] node_ids[i])
}

/// `node` is the first id of the list that is not mapped.
pub open spec fn first_missing(slots: Map<u64, u32>, node_ids: Seq<u64>, node: u64) -> bool {
    exists|i: int|
        0 <= i < node_ids.len() && node_ids[i] == node && !slots.contains_key(node) && forall|j: int|
            0 <= j < i ==> slots.contains_key(#[trigger] node_ids[j])
}

impl InMemDiskANNAdapter {
    /// This state is `before` with the ids of the list, and their slots,
    /// taken out of the mapping. The counter is where it was.
    pub open spec fn without(self, before: Self, node_ids: Seq<u64>) -> bool {
        &&& self.slots() == before.slots().remove_keys(node_ids.to_set())
        &&& forall|slot: u32| #[trigger]
            self.nodes().contains_key(slot) <==> before.nodes().contains_key(slot)
                && !node_ids.contains(before.nodes()[slot])
        &&& forall|slot: u32| #[trigger]
            self.nodes().contains_key(slot) ==> self.nodes()[slot] == before.nodes()[slot]
        &&& self.next_slot() == before.next_slot()
        &&& self.statistics() == before.statistics()
        &&& self.dimension() == before.dimension()
    }

    /// The first half of a soft delete. An empty list asks for nothing and
    /// gives `None`. Otherwise the index must be built and every id mapped;
    /// the slots of the ids are returned, in the order of the list. Nothing
    /// is changed yet.
    pub fn begin_soft_delete(&self, node_ids: &[u64]) -> (r: Result<Option<Vec<u32>>, VectorIndexError>)
        requires
            self.wf(),
        ensures
            node_ids.len() == 0 ==> r == Ok::<Option<Vec<u32>>, VectorIndexError>(None),
            node_ids.len() > 0 && !self.is_built() ==> r matches Err(VectorIndexError::IndexNotBuilt),
            node_ids.len() > 0 && self.is_built() ==> match r {
                Ok(Some(slots)) => {
                    &&& all_live(self.slots(), node_ids@)
                    &&& slots@.len() == node_ids.len()
                    &&& forall|i: int|
                        0 <= i < node_ids.len() ==> (#[trigger] slots@[i]) == self.slots()[node_ids[i]]
                },
                Err(VectorIndexError::NodeIdNotFound { node_id }) => first_missing(
                    self.slots(),
                    node_ids@,
                    node_id,
                ),
                _ => false,
            },
    {
        let count = node_ids.len();
        if count == 0 {
            return Ok(None);
        }
        if self.ids.is_empty() {
            return Err(VectorIndexError::IndexNotBuilt);
        }
        let mut slots: Vec<u32> = Vec::with_capacity(count);
        let mut i: usize = 0;
        while i < count
            invariant
                i <= count,
                count == node_ids@.len(),
                self.wf(),
                self.is_built(),
                slots@.len() == i,
                forall|j: int| 0 <= j < i ==> self.slots().contains_key(#[trigger] node_ids@[j]),
                forall|j: int| 0 <= j < i ==> (#[trigger] slots@[j]) == self.slots()[node_ids@[j]],
            decreases count - i,
        {
            let node = node_ids[i];
            match self.ids.lookup_slot(node) {
                Some(slot) => {
                    slots.push(slot);
                },
                None => {
                    assert(node_ids@[i as int] == node);
                    return Err(VectorIndexError::NodeIdNotFound { node_id: node });
                },
            }
            i += 1;
        }
        Ok(Some(slots))
    }

    /// The second half of a soft delete, given what the inner index
    /// answered. After success the ids of the list are taken out of the
    /// mapping; after an error nothing is changed and the error is handed on.
    pub fn complete_soft_delete(&mut self, node_ids: &[u64], outcome: Result<(), ANNError>) -> (r: Result<
        (),
        VectorIndexError,
    >)
        requires
            old(self).wf(),
        ensures
            final(self).wf(),
            match outcome {
                Ok(()) => {
                    &&& r is Ok
                    &&& final(self).without(*old(self), node_ids@)
                    &&& all_live(old(self).slots(), node_ids@) && node_ids@.no_duplicates() ==> final(self).slots().len() == old(self).slots().len() - node_ids.len()
                },
                Err(e) => r == Err::<(), VectorIndexError>(VectorIndexError::DiskANN(e)) && final(self).same_as(*old(self)),
            },
    {
        match outcome {
            Ok(()) => {
                let count = node_ids.len();
                proof {
                    self.ids.lemma_wf_consistent();
                    assert(self.slots() =~= old(self).slots().remove_keys(
                        node_ids@.take(0).to_set(),
                    ));
                }
                let mut i: usize = 0;
                while i < count
                    invariant
                        i <= count,
                        count == node_ids@.len(),
                        old(self).wf(),
                        old(self).id_map().consistent(),
                        self.wf(),
                        self.next_slot() == old(self).next_slot(),
                        self.statistics() == old(self).statistics(),
                        self.dimension() == old(self).dimension(),
                        self.slots() == old(self).slots().remove_keys(
                            node_ids@.take(i as int).to_set(),
                        ),
                        forall|slot: u32| #[trigger]
                            self.nodes().contains_key(slot) <==> old(self).nodes().contains_key(slot)
                                && !node_ids@.take(i as int).contains(old(self).nodes()[slot]),
                        forall|slot: u32| #[trigger]
                            self.nodes().contains_key(slot) ==> self.nodes()[slot] == old(self).nodes()[slot],
                        all_live(old(self).slots(), node_ids@) && node_ids@.no_duplicates()
                            ==> self.slots().len() == old(self).slots().len() - i,
                    decreases count - i,
                {
                    let node = node_ids[i];
                    let ghost before = *self;
                    let ghost shorter = node_ids@.take(i as int);
                    let ghost longer = node_ids@.take(i + 1);
                    self.ids.remove_by_node(node);
                    proof {
                        before.id_map().lemma_wf_consistent();
                        assert(longer =~= shorter.push(node));
                        shorter.lemma_push_to_set_commute(node);
                        assert(self.slots() =~= old(self).slots().remove_keys(longer.to_set()));
                        assert forall|x: u64| longer.contains(x) <==> shorter.contains(x) || x
                            == node by {
                            assert(longer.to_set().contains(x) <==> shorter.to_set().contains(x) || x
                                == node);
                        }
                        assert forall|slot: u32| #[trigger]
                            self.nodes().contains_key(slot) <==> old(self).nodes().contains_key(slot)
                                && !longer.contains(old(self).nodes()[slot]) by {
                            if old(self).nodes().contains_key(slot) {
                                let owner = old(self).nodes()[slot];
                                assert(old(self).slots().contains_key(owner));
                                if before.slots().contains_key(node) {
                                    assert(old(self).slots().contains_key(node));
                                    assert(before.slots()[node] == old(self).slots()[node]);
                                    if before.nodes().contains_key(slot) {
                                        assert(self.nodes().contains_key(slot) <==> slot
                                            != before.slots()[node]);
                                    }
                                } else {
                                    assert(self.nodes() == before.nodes());
                                    if owner == node {
                                        assert(shorter.to_set().contains(node));
                                    }
                                }
                            }
                        }
                        assert forall|slot: u32| #[trigger]
                            self.nodes().contains_key(slot) implies self.nodes()[slot] == old(self).nodes()[slot] by {
                            assert(before.nodes().contains_key(slot));
                        }
                        if all_live(old(self).slots(), node_ids@) && node_ids@.no_duplicates() {
                            assert(old(self).slots().contains_key(node_ids@[i as int]));
                            if shorter.contains(node) {
                                let j = choose|j: int| 0 <= j < shorter.len() && shorter[j] == node;
                                assert(node_ids@[j] == node_ids@[i as int]);
                            }
                            assert(before.slots().contains_key(node));
                        }
                    }
                    i += 1;
                }
                proof {
                    assert(node_ids@.take(count as int) =~= node_ids@);
                }
                Ok(())
            },
            Err(e) => Err(VectorIndexError::DiskANN(e)),
        }
    }

    /// Soft-deletes vectors by their vertex ids. `inner_delete` is handed the
    /// slots of the ids and marks them deleted in the inner index. The
    /// mapping is only changed where it succeeds.
    pub fn soft_delete<F: FnOnce(Vec<u32>) -> Result<(), ANNError>>(
        &mut self,
        node_ids: &[u64],
        inner_delete: F,
    ) -> (r: Result<(), VectorIndexError>)
        requires
            old(self).wf(),
            forall|slots: Vec<u32>| inner_delete.requires((slots,)),
        ensures
            final(self).wf(),
            node_ids.len() == 0 ==> (r is Ok) && final(self).same_as(*old(self)),
            node_ids.len() > 0 && !old(self).is_built() ==> (r matches Err(
                VectorIndexError::IndexNotBuilt,
            )) && final(self).same_as(*old(self)),
            node_ids.len() > 0 && old(self).is_built() ==> match r {
                Ok(()) => {
                    &&& all_live(old(self).slots(), node_ids@)
                    &&& final(self).without(*old(self), node_ids@)
                    &&& node_ids@.no_duplicates() ==> final(self).slots().len() == old(self).slots().len() - node_ids.len()
                    &&& exists|slots: Vec<u32>|
                        {
                            &&& slots@.len() == node_ids.len()
                            &&& forall|i: int|
                                0 <= i < node_ids.len() ==> (#[trigger] slots@[i]) == old(self).slots()[node_ids[i]]
                            &&& inner_delete.ensures((slots,), Ok(()))
                        }
                },
                Err(VectorIndexError::NodeIdNotFound { node_id }) => {
                    &&& first_missing(old(self).slots(), node_ids@, node_id)
                    &&& final(self).same_as(*old(self))
                },
                Err(VectorIndexError::DiskANN(e)) => {
                    &&& all_live(old(self).slots(), node_ids@)
                    &&& final(self).same_as(*old(self))
                    &&& exists|slots: Vec<u32>|
                        {
                            &&& slots@.len() == node_ids.len()
                            &&& forall|i: int|
                                0 <= i < node_ids.len() ==> (#[trigger] slots@[i]) == old(self).slots()[node_ids[i]]
                            &&& inner_delete.ensures((slots,), Err(e))
                        }
                },
                Err(_) => false,
            },
    {
        let slots = match self.begin_soft_delete(node_ids) {
            Ok(Some(slots)) => slots,
            Ok(None) => {
                return Ok(());
            },
            Err(e) => {
                return Err(e);
            },
        };
        let ghost handed = slots;
        let outcome = inner_delete(slots);
        let ghost answered = outcome;
        let r = self.complete_soft_delete(node_ids, outcome);
        proof {
            match answered {
                Ok(unit) => {
                    assert(unit == ());
                    assert(handed@.len() == node_ids.len() && (forall|i: int|
                        0 <= i < node_ids.len() ==> (#[trigger] handed@[i]) == old(self).slots()[node_ids[i]]) && inner_delete.ensures((handed,), Ok(())));
                },
                Err(e) => {
                    assert(handed@.len() == node_ids.len() && (forall|i: int|
                        0 <= i < node_ids.len() ==> (#[trigger] handed@[i]) == old(self).slots()[node_ids[i]]) && inner_delete.ensures((handed,), Err(e)));
                },
            }
        }
        r
    }

    /// Deleting what was just inserted gives back the mapping from before
    /// the insert, and with it the number of live vectors. Only the counter
    /// stays where the insert left it.
    pub proof fn lemma_insert_then_delete(self, before: Self, inserted: Self, node_ids: Seq<u64>)
        requires
            before.wf(),
            inserted.wf(),
            insertable(before.slots(), node_ids),
            inserted.extends(before, node_ids),
            self.without(inserted, node_ids),
        ensures
            self.slots() == before.slots(),
            self.nodes() == before.nodes(),
            self.slots().len() == before.slots().len(),
            self.next_slot() == before.next_slot() + node_ids.len(),
    {
        before.id_map().lemma_wf_consistent();
        inserted.id_map().lemma_wf_consistent();
        assert forall|node: u64| before.slots().contains_key(node) implies !node_ids.contains(
            node,
        ) by {
            if node_ids.contains(node) {
                let i = choose|i: int| 0 <= i < node_ids.len() && node_ids[i] == node;
                assert(insert_fault(before.slots(), node_ids, i) is None);
            }
        }
        assert forall|node: u64| self.slots().contains_key(node) <==> before.slots().contains_key(
            node,
        ) by {
            assert(inserted.slots().contains_key(node) <==> before.slots().contains_key(node)
                || node_ids.contains(node));
        }
        assert(self.slots() =~= before.slots());
        assert forall|slot: u32| self.nodes().contains_key(slot) <==> before.nodes().contains_key(
            slot,
        ) by {
            if before.nodes().contains_key(slot) {
                assert(inserted.nodes().contains_key(slot));
                assert(before.slots().contains_key(before.nodes()[slot]));
            }
            if inserted.nodes().contains_key(slot) && !before.nodes().contains_key(slot) {
                let i = slot - before.next_slot();
                assert(inserted.slots().contains_key(node_ids[i]));
                assert(inserted.slots()[node_ids[i]] == slot);
                assert(inserted.nodes()[slot] == node_ids[i]);
                assert(node_ids.contains(node_ids[i]));
            }
        }
        assert(self.nodes() =~= before.nodes());
    }

    /// A slot that was taken out by a soft delete is not handed out again:
    /// every id inserted afterwards gets a slot above it.
    pub proof fn lemma_deleted_slot_not_reused(
        self,
        before: Self,
        deleted: Self,
        removed: Seq<u64>,
        added: Seq<u64>,
        i: int,
        j: int,
    )
        requires
            before.wf(),
            deleted.without(before, removed),
            self.extends(deleted, added),
            0 <= i < removed.len(),
            before.slots().contains_key(removed[i]),
            0 <= j < added.len(),
        ensures
            before.slots()[removed[i]] < self.slots()[added[j]],
    {
        before.id_map().lemma_wf_consistent();
        assert(before.nodes().contains_key(before.slots()[removed[i]]));
        assert(self.slots().contains_key(added[j]));
    }
}

} // verus!
