use crate::error::VectorIndexError;
use crate::id_map::IdMap;
use crate::stats::IndexStats;
use vstd::prelude::*;
use vstd::string::StringExecFns;

verus! {

/// The adapter's own state: the dimension of the vectors, the mapping
/// between vertex ids and slots, and the statistics. The proximity-graph
/// index itself stays with the caller, who hands each of its operations in
/// as a function value where the adapter needs it.
pub struct InMemDiskANNAdapter {
    pub(crate) dimension: usize,
    pub(crate) ids: IdMap,
    pub(crate) stats: IndexStats,
}

impl InMemDiskANNAdapter {
    /// The mapping between vertex ids and slots.
    pub open(crate) spec fn id_map(self) -> IdMap {
        self.ids
    }

    /// The statistics kept so far.
    pub open(crate) spec fn statistics(self) -> IndexStats {
        self.stats
    }

    /// The dimension that the adapter was made for.
    pub open(crate) spec fn dimension(self) -> usize {
        self.dimension
    }

    /// The invariant of the type: that of the mapping.
    pub open spec fn wf(self) -> bool {
        self.id_map().wf()
    }

    /// The slot of each live vertex id.
    pub open spec fn slots(self) -> Map<u64, u32> {
        self.id_map().slots()
    }

    /// The vertex id of each live slot.
    pub open spec fn nodes(self) -> Map<u32, u64> {
        self.id_map().nodes()
    }

    /// The first slot that has never been handed out.
    pub open spec fn next_slot(self) -> u32 {
        self.id_map().next_slot()
    }

    /// Whether any vertex id is mapped.
    pub open spec fn is_built(self) -> bool {
        self.slots() != Map::<u64, u32>::empty()
    }

    /// The mapping and the counter are those of `other`.
    pub open spec fn same_mapping(self, other: Self) -> bool {
        &&& self.slots() == other.slots()
        &&& self.nodes() == other.nodes()
        &&& self.next_slot() == other.next_slot()
        &&& self.dimension() == other.dimension()
    }

    /// Nothing differs from `other`.
    pub open spec fn same_as(self, other: Self) -> bool {
        self.same_mapping(other) && self.statistics() == other.statistics()
    }

    /// Nothing is mapped, the counter stands at zero and nothing is counted.
    pub open spec fn cleared(self) -> bool {
        &&& self.slots() == Map::<u64, u32>::empty()
        &&& self.nodes() == Map::<u32, u64>::empty()
        &&& self.next_slot() == 0
        &&& self.statistics() == IndexStats::fresh()
    }

    /// An adapter for vectors of the given dimension, with nothing built.
    pub fn new(dimension: usize) -> (r: Self)
        ensures
            r.wf(),
            r.cleared(),
            r.dimension() == dimension,
    {
        InMemDiskANNAdapter { dimension, ids: IdMap::new(), stats: IndexStats::new() }
    }

    /// A copy of the statistics.
    pub fn stats(&self) -> (r: IndexStats)
        ensures
            r == self.statistics(),
    {
        self.stats
    }

    /// The number of vertex ids that are mapped to a slot.
    pub fn mapping_count(&self) -> (n: usize)
        requires
            self.wf(),
        ensures
            n == self.slots().len(),
    {
        self.ids.len()
    }

    /// The dimension that the adapter was made for.
    pub fn get_dimension(&self) -> (d: usize)
        ensures
            d == self.dimension(),
    {
        self.dimension
    }

    /// The number of live vectors: the vertex ids that are mapped.
    pub fn size(&self) -> (n: usize)
        requires
            self.wf(),
        ensures
            n == self.slots().len(),
    {
        self.ids.len()
    }

    /// The slot of a vertex id, if it is live.
    pub fn node_to_vector_id(&self, node_id: u64) -> (r: Option<u32>)
        requires
            self.wf(),
        ensures
            r == (if self.slots().contains_key(node_id) {
                Some(self.slots()[node_id])
            } else {
                None
            }),
    {
        self.ids.lookup_slot(node_id)
    }

    /// The first slot that has never been handed out.
    pub fn next_vector_id(&self) -> (r: u32)
        ensures
            r == self.next_slot(),
    {
        self.ids.peek_next_slot()
    }

    /// Forgets the mapping and the statistics.
    pub(crate) fn clear_mappings(&mut self)
        ensures
            final(self).wf(),
            final(self).cleared(),
            final(self).dimension() == old(self).dimension(),
    {
        self.ids.clear();
        self.stats = IndexStats::new();
    }

    /// Saving is not offered: the index lives in memory only.
    pub fn save(&mut self, path: &str) -> (r: Result<(), VectorIndexError>)
        ensures
            r matches Err(VectorIndexError::NotSupported(text)) && text@
                == "save() is not yet implemented"@,
            final(self).same_as(*old(self)),
            final(self).wf() == old(self).wf(),
    {
        Err(VectorIndexError::NotSupported(String::from_str("save() is not yet implemented")))
    }

    /// Loading is not offered: the index lives in memory only.
    pub fn load(&mut self, path: &str) -> (r: Result<(), VectorIndexError>)
        ensures
            r matches Err(VectorIndexError::NotSupported(text)) && text@
                == "load() is not yet implemented for InMemDiskANNAdapter"@,
            final(self).same_as(*old(self)),
            final(self).wf() == old(self).wf(),
    {
        Err(
            VectorIndexError::NotSupported(
                String::from_str("load() is not yet implemented for InMemDiskANNAdapter"),
            ),
        )
    }
}

} // verus!
