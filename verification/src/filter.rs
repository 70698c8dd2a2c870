use vstd::prelude::*;

verus! {

/// Each slot is smaller than the one after it.
pub open spec fn strictly_ascending(slots: Seq<u32>) -> bool {
    forall|i: int, j: int| 0 <= i < j < slots.len() ==> slots[i] < slots[j]
}

/// The slots that a filter admits, out of a population of vectors. The
/// selectivity of the mask is the number of its candidates over the
/// population.
pub struct FilterMask {
    candidates: Vec<u32>,
    population: usize,
}

impl FilterMask {
    /// The admitted slots, in ascending order.
    pub closed spec fn view(&self) -> Seq<u32> {
        self.candidates@
    }

    /// The number of vectors that the filter was applied to.
    pub closed spec fn population(&self) -> nat {
        self.population as nat
    }

    /// The candidates ascend strictly and are no more than the population.
    pub open spec fn wf(&self) -> bool {
        strictly_ascending(self.view()) && self.view().len() <= self.population()
    }

    /// Whether the selectivity lies below `numerator / denominator`.
    pub open spec fn sparser_than(&self, numerator: nat, denominator: nat) -> bool {
        self.view().len() * denominator < numerator * self.population()
    }

    /// A mask of the given candidates, or `None` where they do not ascend
    /// strictly or are more than the population.
    pub fn new(candidates: Vec<u32>, population: usize) -> (r: Option<FilterMask>)
        ensures
            match r {
                Some(mask) => mask.wf() && mask.view() == candidates@ && mask.population()
                    == population,
                None => !(strictly_ascending(candidates@) && candidates@.len() <= population),
            },
    {
        if candidates.len() > population {
            return None;
        }
        let mut i: usize = 1;
        while i < candidates.len()
            invariant
                1 <= i,
                forall|a: int, b: int| 0 <= a < b < i && b < candidates@.len() ==> candidates@[a] < candidates@[b],
            decreases candidates.len() - i,
        {
            if candidates[i - 1] >= candidates[i] {
                return None;
            }
            proof {
                assert forall|a: int, b: int| 0 <= a < b < i + 1 implies candidates@[a]
                    < candidates@[b] by {
                    if b == i && a < i - 1 {
                        assert(candidates@[a] < candidates@[i - 1]);
                    }
                }
            }
            i += 1;
        }
        Some(FilterMask { candidates, population })
    }

    /// The number of admitted slots.
    pub fn candidate_count(&self) -> (n: usize)
        ensures
            n == self.view().len(),
    {
        self.candidates.len()
    }

    /// The number of vectors that the filter was applied to.
    pub fn total_vectors(&self) -> (n: usize)
        ensures
            n == self.population(),
    {
        self.population
    }

    /// The admitted slots, in ascending order.
    pub fn iter_candidates(&self) -> (r: &[u32])
        ensures
            r@ == self.view(),
    {
        self.candidates.as_slice()
    }

    /// Whether `slot` is admitted.
    pub fn contains_vector(&self, slot: u32) -> (b: bool)
        requires
            self.wf(),
        ensures
            b == self.view().contains(slot),
    {
        let mut low: usize = 0;
        let mut high: usize = self.candidates.len();
        while low < high
            invariant
                low <= high <= self.candidates@.len(),
                strictly_ascending(self.candidates@),
                forall|i: int| 0 <= i < low ==> self.candidates@[i] < slot,
                forall|i: int| high <= i < self.candidates@.len() ==> slot < self.candidates@[i],
            decreases high - low,
        {
            let mid = low + (high - low) / 2;
            let found = self.candidates[mid];
            if found == slot {
                return true;
            }
            if found < slot {
                proof {
                    assert forall|i: int| 0 <= i < mid + 1 implies self.candidates@[i] < slot by {
                        if i < mid {
                            assert(self.candidates@[i] < self.candidates@[mid as int]);
                        }
                    }
                }
                low = mid + 1;
            } else {
                proof {
                    assert forall|i: int| mid <= i < self.candidates@.len() implies slot
                        < self.candidates@[i] by {
                        if mid < i {
                            assert(self.candidates@[mid as int] < self.candidates@[i]);
                        }
                    }
                }
                high = mid;
            }
        }
        false
    }

    /// Whether the selectivity lies below `numerator / denominator`.
    pub fn selectivity_below(&self, numerator: usize, denominator: usize) -> (b: bool)
        ensures
            b == self.sparser_than(numerator as nat, denominator as nat),
    {
        let count = self.candidates.len() as u128;
        let total = self.population as u128;
        proof {
            assert(count * (denominator as u128) <= u128::MAX) by (nonlinear_arith)
                requires
                    count <= u64::MAX,
                    denominator <= u64::MAX,
            ;
            assert(total * (numerator as u128) <= u128::MAX) by (nonlinear_arith)
                requires
                    total <= u64::MAX,
                    numerator <= u64::MAX,
            ;
            assert((numerator as nat) * (total as nat) == (total as nat) * (numerator as nat))
                by (nonlinear_arith);
        }
        count * (denominator as u128) < total * (numerator as u128)
    }
}

} // verus!
