use vstd::prelude::*;

verus! {

/// Counters and measurements kept about an index. Averages are left to the
/// reader: the sum and the count of the expansion factors are both here.
#[derive(Debug, Clone, Copy)]
pub struct IndexStats {
    pub vector_count: usize,
    pub memory_usage: usize,
    pub build_time_ms: Option<u64>,
    pub search_count: u64,
    pub brute_force_searches: u64,
    pub post_filter_searches: u64,
    pub pre_filter_searches: u64,
    pub total_brute_force_candidates: u64,
    pub expansion_factor_sum: u64,
    pub expansion_factor_count: u64,
    pub max_expansion_factor: usize,
    /// `usize::MAX` until the first expansion factor is recorded.
    pub min_expansion_factor: usize,
}

/// The smaller of two numbers.
pub open spec fn lesser(a: int, b: int) -> int {
    if a <= b {
        a
    } else {
        b
    }
}

/// The larger of two numbers.
pub open spec fn greater(a: int, b: int) -> int {
    if a >= b {
        a
    } else {
        b
    }
}

impl IndexStats {
    /// Statistics with nothing counted yet.
    pub open spec fn fresh() -> IndexStats {
        IndexStats {
            vector_count: 0,
            memory_usage: 0,
            build_time_ms: None,
            search_count: 0,
            brute_force_searches: 0,
            post_filter_searches: 0,
            pre_filter_searches: 0,
            total_brute_force_candidates: 0,
            expansion_factor_sum: 0,
            expansion_factor_count: 0,
            max_expansion_factor: 0,
            min_expansion_factor: usize::MAX,
        }
    }

    /// The statistics after one more expansion factor.
    pub open spec fn with_expansion_factor(self, factor: usize) -> IndexStats {
        IndexStats {
            expansion_factor_sum: (self.expansion_factor_sum + factor) as u64,
            expansion_factor_count: (self.expansion_factor_count + 1) as u64,
            max_expansion_factor: greater(self.max_expansion_factor as int, factor as int) as usize,
            min_expansion_factor: lesser(self.min_expansion_factor as int, factor as int) as usize,
            ..self
        }
    }

    /// The statistics after a build.
    pub open spec fn with_build(
        self,
        vector_count: usize,
        build_time_ms: u64,
        memory_usage: usize,
    ) -> IndexStats {
        IndexStats { vector_count, build_time_ms: Some(build_time_ms), memory_usage, ..self }
    }

    /// The statistics after one more search of the inner index.
    pub open spec fn with_search(self) -> IndexStats {
        IndexStats { search_count: (self.search_count + 1) as u64, ..self }
    }

    /// The statistics after one more exact scan over `candidates` slots.
    pub open spec fn with_brute_force(self, candidates: nat) -> IndexStats {
        IndexStats {
            brute_force_searches: (self.brute_force_searches + 1) as u64,
            total_brute_force_candidates: (self.total_brute_force_candidates + candidates) as u64,
            ..self
        }
    }

    /// The statistics after one more filtered search with the given
    /// expansion factor.
    pub open spec fn with_post_filter(self, factor: usize) -> IndexStats {
        (IndexStats {
            post_filter_searches: (self.post_filter_searches + 1) as u64,
            ..self
        }).with_expansion_factor(factor)
    }

    /// Whether one more search of the inner index can be counted.
    pub open spec fn has_room_for_search(self) -> bool {
        self.search_count < u64::MAX
    }

    /// Whether one more exact scan over `candidates` slots can be counted.
    pub open spec fn has_room_for_brute_force(self, candidates: nat) -> bool {
        &&& self.brute_force_searches < u64::MAX
        &&& self.total_brute_force_candidates + candidates <= u64::MAX
    }

    /// Whether one more filtered search can be counted, whatever its
    /// expansion factor.
    pub open spec fn has_room_for_post_filter(self) -> bool {
        &&& self.post_filter_searches < u64::MAX
        &&& self.has_room_for_factor(50)
    }

    /// Whether a search over a mask of `candidates` slots can be counted,
    /// whichever way it is carried out.
    pub open spec fn has_room(self, candidates: nat) -> bool {
        &&& self.has_room_for_search()
        &&& self.has_room_for_brute_force(candidates)
        &&& self.has_room_for_post_filter()
    }

    /// Whether one more expansion factor can be counted and summed.
    pub open spec fn has_room_for_factor(self, factor: usize) -> bool {
        &&& self.expansion_factor_count < u64::MAX
        &&& self.expansion_factor_sum + factor <= u64::MAX
    }

    pub fn new() -> (r: Self)
        ensures
            r == IndexStats::fresh(),
    {
        IndexStats {
            vector_count: 0,
            memory_usage: 0,
            build_time_ms: None,
            search_count: 0,
            brute_force_searches: 0,
            post_filter_searches: 0,
            pre_filter_searches: 0,
            total_brute_force_candidates: 0,
            expansion_factor_sum: 0,
            expansion_factor_count: 0,
            max_expansion_factor: 0,
            min_expansion_factor: usize::MAX,
        }
    }

    /// Counts one expansion factor: adds it to the sum and widens the
    /// smallest and the largest factor seen.
    pub fn update_expansion_factor(&mut self, factor: usize)
        requires
            old(self).has_room_for_factor(factor),
        ensures
            *final(self) == old(self).with_expansion_factor(factor),
    {
        self.expansion_factor_sum = self.expansion_factor_sum + factor as u64;
        self.expansion_factor_count = self.expansion_factor_count + 1;
        if factor > self.max_expansion_factor {
            self.max_expansion_factor = factor;
        }
        if factor < self.min_expansion_factor {
            self.min_expansion_factor = factor;
        }
    }

    /// Records the size, the duration and the memory of a build.
    pub fn update_after_build(&mut self, vector_count: usize, build_time_ms: u64, memory_usage: usize)
        ensures
            *final(self) == old(self).with_build(vector_count, build_time_ms, memory_usage),
    {
        self.vector_count = vector_count;
        self.build_time_ms = Some(build_time_ms);
        self.memory_usage = memory_usage;
    }

    /// Whether a search over a mask of `candidates` slots can be counted,
    /// whichever way it is carried out.
    pub fn can_count(&self, candidates: usize) -> (b: bool)
        ensures
            b == self.has_room(candidates as nat),
    {
        self.search_count < u64::MAX && self.brute_force_searches < u64::MAX
            && candidates as u64 <= u64::MAX - self.total_brute_force_candidates
            && self.post_filter_searches < u64::MAX && self.expansion_factor_count < u64::MAX
            && self.expansion_factor_sum <= u64::MAX - 50
    }

    /// The smallest expansion factor recorded, or `None` before the first.
    pub fn smallest_expansion_factor(&self) -> (r: Option<usize>)
        ensures
            r == (if self.expansion_factor_count == 0 {
                None
            } else {
                Some(self.min_expansion_factor)
            }),
    {
        if self.expansion_factor_count == 0 {
            None
        } else {
            Some(self.min_expansion_factor)
        }
    }
}

impl Default for IndexStats {
    /// Every counter at zero, the smallest factor included.
    fn default() -> (r: Self)
        ensures
            r == (IndexStats { min_expansion_factor: 0, ..IndexStats::fresh() }),
    {
        IndexStats {
            vector_count: 0,
            memory_usage: 0,
            build_time_ms: None,
            search_count: 0,
            brute_force_searches: 0,
            post_filter_searches: 0,
            pre_filter_searches: 0,
            total_brute_force_candidates: 0,
            expansion_factor_sum: 0,
            expansion_factor_count: 0,
            max_expansion_factor: 0,
            min_expansion_factor: 0,
        }
    }
}

} // verus!
