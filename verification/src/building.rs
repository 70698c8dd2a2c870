use crate::adapter::InMemDiskANNAdapter;
use crate::error::{error_text, VectorIndexError};
use crate::id_map::{assignable, fits_slot, is_ranking, least_overflow, least_repeated, occurs_twice};
use crate::stats::IndexStats;
use diskann::ANNError;
use vstd::prelude::*;

verus! {

impl InMemDiskANNAdapter {
    /// The first half of a build: refuses an empty list, forgets what was
    /// there, and gives the ids the slots `0..n` in ascending order. Returns
    /// the slot of each id, in the order of `node_ids`: the vector of
    /// `node_ids[i]` is to stand at place `slots[i]` of what the inner index
    /// is built from.
    pub fn begin_build(&mut self, node_ids: &[u64]) -> (r: Result<Vec<u32>, VectorIndexError>)
        requires
            old(self).wf(),
            node_ids.len() <= u32::MAX,
        ensures
            final(self).wf(),
            final(self).dimension() == old(self).dimension(),
            node_ids.len() == 0 ==> (r matches Err(VectorIndexError::EmptyDataset))
                && final(self).same_as(*old(self)),
            node_ids.len() > 0 ==> match r {
                Ok(slots) => {
                    &&& assignable(node_ids@)
                    &&& is_ranking(node_ids@, slots@)
                    &&& final(self).id_map().ranked(node_ids@)
                    &&& final(self).slots().len() == node_ids.len()
                    &&& forall|i: int|
                        0 <= i < node_ids.len() ==> final(self).slots()[#[trigger] node_ids[i]]
                            == slots[i]
                    &&& final(self).statistics() == IndexStats::fresh()
                },
                Err(VectorIndexError::DuplicateNodeId { node_id }) => {
                    &&& least_repeated(node_ids@, node_id)
                    &&& final(self).cleared()
                },
                Err(VectorIndexError::VertexIdOverflow { vertex_id }) => {
                    &&& least_overflow(node_ids@, vertex_id)
                    &&& forall|node: u64| fits_slot(node) ==> !occurs_twice(node_ids@, node)
                    &&& final(self).cleared()
                },
                Err(_) => false,
            },
    {
        if node_ids.len() == 0 {
            return Err(VectorIndexError::EmptyDataset);
        }
        self.clear_mappings();
        self.ids.assign_sorted(node_ids)
    }

    /// The second half of a build, given what the inner index answered: the
    /// milliseconds that the build took, or its error. After an error
    /// nothing is left of the build.
    pub fn complete_build(&mut self, outcome: Result<u64, ANNError>) -> (r: Result<
        (),
        VectorIndexError,
    >)
        requires
            old(self).wf(),
        ensures
            final(self).wf(),
            final(self).dimension() == old(self).dimension(),
            match outcome {
                Ok(build_time_ms) => {
                    &&& r is Ok
                    &&& final(self).same_mapping(*old(self))
                    &&& final(self).statistics() == old(self).statistics().with_build(
                        old(self).slots().len() as usize,
                        build_time_ms,
                        0,
                    )
                },
                Err(_) => (r matches Err(VectorIndexError::BuildError(_))) && final(self).cleared(),
            },
    {
        match outcome {
            Ok(build_time_ms) => {
                let count = self.ids.len();
                self.stats.update_after_build(count, build_time_ms, 0);
                Ok(())
            },
            Err(e) => {
                self.clear_mappings();
                Err(VectorIndexError::BuildError(error_text(&e)))
            },
        }
    }

    /// Builds the index from scratch. `inner_build` is handed the slot of
    /// each id, builds the inner index from the vectors in the order of
    /// their slots, and returns the milliseconds that took, or the inner
    /// index's error.
    pub fn build<F: FnOnce(Vec<u32>) -> Result<u64, ANNError>>(
        &mut self,
        node_ids: &[u64],
        inner_build: F,
    ) -> (r: Result<(), VectorIndexError>)
        requires
            old(self).wf(),
            node_ids.len() <= u32::MAX,
            forall|slots: Vec<u32>| inner_build.requires((slots,)),
        ensures
            final(self).wf(),
            final(self).dimension() == old(self).dimension(),
            node_ids.len() == 0 ==> (r matches Err(VectorIndexError::EmptyDataset))
                && final(self).same_as(*old(self)),
            node_ids.len() > 0 ==> match r {
                Ok(()) => {
                    &&& assignable(node_ids@)
                    &&& final(self).id_map().ranked(node_ids@)
                    &&& final(self).slots().len() == node_ids.len()
                    &&& exists|slots: Vec<u32>, build_time_ms: u64|
                        {
                            &&& is_ranking(node_ids@, slots@)
                            &&& forall|i: int|
                                0 <= i < node_ids.len() ==> final(self).slots()[#[trigger] node_ids[i]]
                                    == slots[i]
                            &&& inner_build.ensures((slots,), Ok(build_time_ms))
                            &&& final(self).statistics() == IndexStats::fresh().with_build(
                                node_ids.len(),
                                build_time_ms,
                                0,
                            )
                        }
                },
                Err(VectorIndexError::DuplicateNodeId { node_id }) => {
                    &&& least_repeated(node_ids@, node_id)
                    &&& final(self).cleared()
                },
                Err(VectorIndexError::VertexIdOverflow { vertex_id }) => {
                    &&& least_overflow(node_ids@, vertex_id)
                    &&& forall|node: u64| fits_slot(node) ==> !occurs_twice(node_ids@, node)
                    &&& final(self).cleared()
                },
                Err(VectorIndexError::BuildError(_)) => {
                    &&& assignable(node_ids@)
                    &&& final(self).cleared()
                    &&& exists|slots: Vec<u32>, e: ANNError|
                        is_ranking(node_ids@, slots@) && inner_build.ensures((slots,), Err(e))
                },
                Err(_) => false,
            },
    {
        let slots = match self.begin_build(node_ids) {
            Ok(slots) => slots,
            Err(e) => {
                return Err(e);
            },
        };
        let ghost handed = slots;
        let ghost mapped = *self;
        let outcome = inner_build(slots);
        let ghost answered = outcome;
        let r = self.complete_build(outcome);
        proof {
            match answered {
                Ok(build_time_ms) => {
                    assert(is_ranking(node_ids@, handed@) && inner_build.ensures(
                        (handed,),
                        Ok(build_time_ms),
                    ) && self.statistics() == IndexStats::fresh().with_build(
                        node_ids.len(),
                        build_time_ms,
                        0,
                    ));
                },
                Err(e) => {
                    assert(is_ranking(node_ids@, handed@) && inner_build.ensures((handed,), Err(e)));
                },
            }
        }
        r
    }

    /// Building twice from the same ids gives the mapping that building
    /// once gives: whatever was there before a build, the ids alone say
    /// what is mapped after it.
    pub proof fn lemma_rebuild_is_build(self, again: Self, node_ids: Seq<u64>)
        requires
            self.wf(),
            again.wf(),
            self.id_map().ranked(node_ids),
            again.id_map().ranked(node_ids),
        ensures
            again.slots() == self.slots(),
            again.nodes() == self.nodes(),
            again.next_slot() == self.next_slot(),
    {
        self.id_map().lemma_ranked_unique(&again.id_map(), node_ids);
    }
}

} // verus!
