use crate::adapter::InMemDiskANNAdapter;
use crate::error::{error_text, VectorIndexError};
use crate::filter::FilterMask;
use crate::nearest::{nearest, NearestBuffer};
use crate::resolve::{
    all_mapped, first_admitted, first_unmapped, keep_admitted, lemma_scan_len, mapped_nodes,
    present_nodes, reported, resolve_present, resolve_reported,
};
use crate::strategy::{
    clamp_factor, expanded, expanded_k, expansion_factor, select_strategy, strategy_for, Strategy,
};
use diskann::ANNError;
use vstd::prelude::*;

verus! {

/// The candidate slots, each with the distance key found for it.
pub open spec fn scored_with(keys: Seq<u32>, slots: Seq<u32>) -> Seq<(u32, u32)> {
    Seq::new(slots.len(), |i: int| (keys[i], slots[i]))
}

/// The smaller of `k` and the number of live vectors.
pub open spec fn effective_k(k: nat, live: nat) -> nat {
    if k <= live {
        k
    } else {
        live
    }
}

impl InMemDiskANNAdapter {
    /// What a search of the inner index for `wanted` vectors comes to, given
    /// what the inner index answered: its error as a search error; or the
    /// vertex ids of the slots it reported, and one more search counted; or
    /// the first reported slot that is not mapped, and nothing counted.
    pub open spec fn ann_answer(
        self,
        before: Self,
        wanted: usize,
        outcome: Result<(Vec<u32>, u32), ANNError>,
        r: Result<Vec<u64>, VectorIndexError>,
    ) -> bool {
        &&& self.same_mapping(before)
        &&& match outcome {
            Err(_) => (r matches Err(VectorIndexError::SearchError(_))) && self.statistics()
                == before.statistics(),
            Ok((buffer, count)) => match r {
                Ok(found) => {
                    &&& all_mapped(before.nodes(), reported(buffer@, count, wanted))
                    &&& found@ == mapped_nodes(before.nodes(), reported(buffer@, count, wanted))
                    &&& self.statistics() == before.statistics().with_search()
                },
                Err(VectorIndexError::VectorIdNotFound { vector_id }) => {
                    &&& first_unmapped(before.nodes(), reported(buffer@, count, wanted), vector_id)
                    &&& self.statistics() == before.statistics()
                },
                Err(_) => false,
            },
        }
    }

    /// What a filtered search of the inner index comes to, given what the
    /// inner index answered: as `ann_answer`, but of the vertex ids found
    /// only the first `k` that the candidates let through are kept, and the
    /// filtered search and its expansion factor are counted too.
    pub open spec fn post_filter_answer(
        self,
        before: Self,
        candidates: Seq<u32>,
        k: nat,
        factor: usize,
        wanted: usize,
        outcome: Result<(Vec<u32>, u32), ANNError>,
        r: Result<Vec<u64>, VectorIndexError>,
    ) -> bool {
        &&& self.same_mapping(before)
        &&& match outcome {
            Err(_) => (r matches Err(VectorIndexError::SearchError(_))) && self.statistics()
                == before.statistics(),
            Ok((buffer, count)) => match r {
                Ok(kept) => {
                    &&& all_mapped(before.nodes(), reported(buffer@, count, wanted))
                    &&& kept@ == first_admitted(
                        before.slots(),
                        candidates,
                        mapped_nodes(before.nodes(), reported(buffer@, count, wanted)),
                        k,
                    )
                    &&& self.statistics() == before.statistics().with_search().with_post_filter(
                        factor,
                    )
                },
                Err(VectorIndexError::VectorIdNotFound { vector_id }) => {
                    &&& first_unmapped(before.nodes(), reported(buffer@, count, wanted), vector_id)
                    &&& self.statistics() == before.statistics()
                },
                Err(_) => false,
            },
        }
    }

    /// The second half of a search of the inner index for `wanted` vectors,
    /// given what the inner index answered: the buffer of slots and how many
    /// of them it filled, or its error.
    pub fn complete_ann_search(
        &mut self,
        wanted: usize,
        outcome: Result<(Vec<u32>, u32), ANNError>,
    ) -> (r: Result<Vec<u64>, VectorIndexError>)
        requires
            old(self).wf(),
            old(self).statistics().has_room_for_search(),
        ensures
            final(self).wf(),
            final(self).ann_answer(*old(self), wanted, outcome, r),
            r matches Ok(found) ==> found@.len() <= wanted,
    {
        match outcome {
            Err(e) => Err(VectorIndexError::SearchError(error_text(&e))),
            Ok((buffer, count)) => {
                let found = match resolve_reported(&self.ids, buffer.as_slice(), count, wanted) {
                    Ok(found) => found,
                    Err(e) => {
                        return Err(e);
                    },
                };
                self.stats.search_count = self.stats.search_count + 1;
                Ok(found)
            },
        }
    }

    /// What `ann_search` comes to: it refuses an index that is not built,
    /// gives nothing where `k` is zero, and else asks the inner index for
    /// the smaller of `k` and the number of live vectors.
    pub open spec fn ann_search_result<F: FnOnce(usize, u32) -> Result<(Vec<u32>, u32), ANNError>>(
        self,
        before: Self,
        k: usize,
        l_value: u32,
        inner_search: F,
        r: Result<Vec<u64>, VectorIndexError>,
    ) -> bool {
        if !before.is_built() {
            (r matches Err(VectorIndexError::IndexNotBuilt)) && self.same_as(before)
        } else if k == 0 {
            (r matches Ok(found) && found@.len() == 0) && self.same_as(before)
        } else {
            let wanted = effective_k(k as nat, before.slots().len()) as usize;
            exists|outcome: Result<(Vec<u32>, u32), ANNError>|
                {
                    &&& inner_search.ensures((wanted, l_value), outcome)
                    &&& self.ann_answer(before, wanted, outcome, r)
                }
        }
    }

    /// Searches the inner index for the `k` nearest vectors. `inner_search`
    /// is handed the number of results to look for and the size of the
    /// search list, and returns a buffer of slots with the number of them
    /// that it filled, nearest first.
    pub fn ann_search<F: FnOnce(usize, u32) -> Result<(Vec<u32>, u32), ANNError>>(
        &mut self,
        k: usize,
        l_value: u32,
        inner_search: F,
    ) -> (r: Result<Vec<u64>, VectorIndexError>)
        requires
            old(self).wf(),
            old(self).statistics().has_room_for_search(),
            forall|wanted: usize, list: u32| inner_search.requires((wanted, list)),
        ensures
            final(self).wf(),
            final(self).ann_search_result(*old(self), k, l_value, inner_search, r),
            r matches Ok(found) ==> found@.len() <= k,
    {
        if self.ids.is_empty() {
            return Err(VectorIndexError::IndexNotBuilt);
        }
        let live = self.ids.len();
        let wanted = if k <= live {
            k
        } else {
            live
        };
        if wanted == 0 {
            proof {
                if live == 0 {
                    self.ids.lemma_wf_consistent();
                    self.slots().dom().lemma_len0_is_empty();
                    assert(self.slots() =~= Map::<u64, u32>::empty());
                }
            }
            return Ok(Vec::new());
        }
        let outcome = inner_search(wanted, l_value);
        let ghost answered = outcome;
        let r = self.complete_ann_search(wanted, outcome);
        proof {
            assert(wanted == effective_k(k as nat, old(self).slots().len()));
            assert(inner_search.ensures((wanted, l_value), answered) && self.ann_answer(
                *old(self),
                wanted,
                answered,
                r,
            ));
        }
        r
    }

    /// The second half of an exact scan: the vertex ids of the nearest
    /// scored slots kept, nearest first, with the scan and the number of
    /// slots it looked at counted.
    pub fn complete_brute_force(&mut self, kept: &[(u32, u32)], valid_candidates: usize) -> (r: Vec<u64>)
        requires
            old(self).wf(),
            old(self).statistics().has_room_for_brute_force(valid_candidates as nat),
        ensures
            final(self).wf(),
            final(self).same_mapping(*old(self)),
            r@ == present_nodes(old(self).nodes(), kept@),
            final(self).statistics() == old(self).statistics().with_brute_force(
                valid_candidates as nat,
            ),
    {
        let found = resolve_present(&self.ids, kept);
        self.stats.brute_force_searches = self.stats.brute_force_searches + 1;
        self.stats.total_brute_force_candidates = self.stats.total_brute_force_candidates
            + valid_candidates as u64;
        found
    }

    /// What `brute_force_search` comes to. Where `k` is zero it gives
    /// nothing. Else it has the distance key of every candidate computed, in
    /// the order of the mask, and stops at the first that fails, with that
    /// error and nothing counted. Where none fails it gives the vertex ids
    /// of the `k` nearest candidates, nearest first, as `nearest` says, and
    /// counts the scan.
    pub open spec fn brute_force_result<D: Fn(u32) -> Result<u32, VectorIndexError>>(
        self,
        before: Self,
        k: usize,
        candidates: Seq<u32>,
        distance_key: D,
        r: Result<Vec<u64>, VectorIndexError>,
    ) -> bool {
        if k == 0 {
            (r matches Ok(found) && found@.len() == 0) && self.same_as(before)
        } else {
            match r {
                Ok(found) => {
                    &&& self.same_mapping(before)
                    &&& self.statistics() == before.statistics().with_brute_force(candidates.len())
                    &&& exists|keys: Seq<u32>|
                        {
                            &&& keys.len() == candidates.len()
                            &&& forall|i: int|
                                0 <= i < candidates.len() ==> distance_key.ensures(
                                    (#[trigger] candidates[i],),
                                    Ok(keys[i]),
                                )
                            &&& found@ == present_nodes(
                                before.nodes(),
                                nearest(scored_with(keys, candidates), k as nat),
                            )
                        }
                },
                Err(e) => {
                    &&& self.same_as(before)
                    &&& exists|keys: Seq<u32>|
                        {
                            &&& keys.len() < candidates.len()
                            &&& forall|i: int|
                                0 <= i < keys.len() ==> distance_key.ensures(
                                    (#[trigger] candidates[i],),
                                    Ok(keys[i]),
                                )
                            &&& distance_key.ensures((candidates[keys.len() as int],), Err(e))
                        }
                },
            }
        }
    }

    /// Scans the candidates of the mask for the `k` nearest. `distance_key`
    /// is handed a slot and returns the key of the distance between the
    /// query and the vector stored there, or the error met on the way.
    pub fn brute_force_search<D: Fn(u32) -> Result<u32, VectorIndexError>>(
        &mut self,
        k: usize,
        filter_mask: &FilterMask,
        distance_key: D,
    ) -> (r: Result<Vec<u64>, VectorIndexError>)
        requires
            old(self).wf(),
            old(self).statistics().has_room_for_brute_force(filter_mask.view().len()),
            forall|slot: u32| distance_key.requires((slot,)),
        ensures
            final(self).wf(),
            final(self).brute_force_result(*old(self), k, filter_mask.view(), distance_key, r),
            r matches Ok(found) ==> found@.len() <= k,
    {
        if k == 0 {
            return Ok(Vec::new());
        }
        let candidates = filter_mask.iter_candidates();
        let mut buffer = NearestBuffer::new(k);
        let ghost mut keys: Seq<u32> = Seq::empty();
        let mut i: usize = 0;
        while i < candidates.len()
            invariant
                i <= candidates.len(),
                candidates@ == filter_mask.view(),
                *self == *old(self),
                self.wf(),
                k > 0,
                forall|slot: u32| distance_key.requires((slot,)),
                buffer.wf(),
                buffer.limit() == k,
                keys.len() == i,
                forall|j: int|
                    0 <= j < i ==> distance_key.ensures((#[trigger] candidates@[j],), Ok(keys[j])),
                buffer.view() == nearest(scored_with(keys, candidates@.take(i as int)), k as nat),
            decreases candidates.len() - i,
        {
            let slot = candidates[i];
            let key = match distance_key(slot) {
                Ok(key) => key,
                Err(e) => {
                    assert(keys.len() < candidates@.len() && (forall|j: int|
                        0 <= j < keys.len() ==> distance_key.ensures(
                            (#[trigger] candidates@[j],),
                            Ok(keys[j]),
                        )) && distance_key.ensures((candidates@[keys.len() as int],), Err(e)));
                    return Err(e);
                },
            };
            proof {
                let longer = keys.push(key);
                assert(scored_with(longer, candidates@.take(i + 1)).drop_last() =~= scored_with(
                    keys,
                    candidates@.take(i as int),
                ));
                assert(scored_with(longer, candidates@.take(i + 1)).last() == (key, slot));
                keys = longer;
            }
            buffer.offer(key, slot);
            i += 1;
        }
        assert(candidates@.take(i as int) =~= candidates@);
        let kept = buffer.into_sorted();
        let found = self.complete_brute_force(kept.as_slice(), candidates.len());
        proof {
            lemma_scan_len(old(self).nodes(), scored_with(keys, candidates@), k as nat);
            assert(keys.len() == candidates@.len() && (forall|j: int|
                0 <= j < candidates@.len() ==> distance_key.ensures(
                    (#[trigger] candidates@[j],),
                    Ok(keys[j]),
                )) && found@ == present_nodes(
                old(self).nodes(),
                nearest(scored_with(keys, candidates@), k as nat),
            ));
        }
        Ok(found)
    }

    /// The second half of a filtered search: of the vertex ids found, the
    /// first `k` that the mask lets through, with the filtered search and
    /// its expansion factor counted.
    pub fn complete_post_filter(
        &mut self,
        found: &[u64],
        k: usize,
        filter_mask: &FilterMask,
        factor: usize,
    ) -> (r: Vec<u64>)
        requires
            old(self).wf(),
            filter_mask.wf(),
            old(self).statistics().post_filter_searches < u64::MAX,
            old(self).statistics().has_room_for_factor(factor),
        ensures
            final(self).wf(),
            final(self).same_mapping(*old(self)),
            r@ == first_admitted(old(self).slots(), filter_mask.view(), found@, k as nat),
            r@.len() <= k,
            final(self).statistics() == old(self).statistics().with_post_filter(factor),
    {
        let kept = keep_admitted(&self.ids, filter_mask, found, k);
        self.stats.post_filter_searches = self.stats.post_filter_searches + 1;
        self.stats.update_expansion_factor(factor);
        kept
    }

    /// What `post_filter_search` comes to. The expansion factor is the
    /// given ceiling held between 2 and 50. Where `k` times the factor, or
    /// the number of live vectors if that is smaller, is zero, it gives
    /// nothing. Else it asks the inner index for that many.
    pub open spec fn post_filter_result<F: FnOnce(usize, u32) -> Result<(Vec<u32>, u32), ANNError>>(
        self,
        before: Self,
        k: usize,
        l_value: u32,
        candidates: Seq<u32>,
        log_ceiling: usize,
        inner_search: F,
        r: Result<Vec<u64>, VectorIndexError>,
    ) -> bool {
        let factor = clamp_factor(log_ceiling as int) as usize;
        let wanted = expanded(k as nat, factor as nat, before.slots().len()) as usize;
        if wanted == 0 {
            (r matches Ok(found) && found@.len() == 0) && self.same_as(before)
        } else {
            exists|outcome: Result<(Vec<u32>, u32), ANNError>|
                {
                    &&& inner_search.ensures((wanted, l_value), outcome)
                    &&& self.post_filter_answer(
                        before,
                        candidates,
                        k as nat,
                        factor,
                        wanted,
                        outcome,
                        r,
                    )
                }
        }
    }

    /// Searches the inner index for more than `k` vectors and keeps the
    /// first `k` that the mask lets through. `log_ceiling` is the ceiling of
    /// twice the negated natural logarithm of the mask's selectivity, or 1
    /// if that is larger; `inner_search` is as in `ann_search`.
    pub fn post_filter_search<F: FnOnce(usize, u32) -> Result<(Vec<u32>, u32), ANNError>>(
        &mut self,
        k: usize,
        l_value: u32,
        filter_mask: &FilterMask,
        log_ceiling: usize,
        inner_search: F,
    ) -> (r: Result<Vec<u64>, VectorIndexError>)
        requires
            old(self).wf(),
            filter_mask.wf(),
            old(self).statistics().has_room_for_search(),
            old(self).statistics().has_room_for_post_filter(),
            forall|wanted: usize, list: u32| inner_search.requires((wanted, list)),
        ensures
            final(self).wf(),
            final(self).post_filter_result(
                *old(self),
                k,
                l_value,
                filter_mask.view(),
                log_ceiling,
                inner_search,
                r,
            ),
            r matches Ok(found) ==> found@.len() <= k,
    {
        let live = self.size();
        let factor = expansion_factor(log_ceiling);
        let wanted = expanded_k(k, factor, live);
        if wanted == 0 {
            return Ok(Vec::new());
        }
        proof {
            assert(old(self).is_built()) by {
                if old(self).slots() == Map::<u64, u32>::empty() {
                    assert(old(self).slots().len() == 0);
                }
            }
            assert(k > 0) by {
                if k == 0 {
                    assert(0 * (factor as nat) == 0) by (nonlinear_arith);
                }
            }
            assert(effective_k(wanted as nat, live as nat) == wanted);
        }
        let found = match self.ann_search(wanted, l_value, inner_search) {
            Ok(found) => found,
            Err(e) => {
                proof {
                    let outcome = choose|outcome: Result<(Vec<u32>, u32), ANNError>|
                        inner_search.ensures((wanted, l_value), outcome) && self.ann_answer(
                            *old(self),
                            wanted,
                            outcome,
                            Err::<Vec<u64>, VectorIndexError>(e),
                        );
                    assert(inner_search.ensures((wanted, l_value), outcome)
                        && self.post_filter_answer(
                        *old(self),
                        filter_mask.view(),
                        k as nat,
                        factor,
                        wanted,
                        outcome,
                        Err::<Vec<u64>, VectorIndexError>(e),
                    ));
                }
                return Err(e);
            },
        };
        let ghost searched = *self;
        let kept = self.complete_post_filter(found.as_slice(), k, filter_mask, factor);
        proof {
            let outcome = choose|outcome: Result<(Vec<u32>, u32), ANNError>|
                inner_search.ensures((wanted, l_value), outcome) && searched.ann_answer(
                    *old(self),
                    wanted,
                    outcome,
                    Ok::<Vec<u64>, VectorIndexError>(found),
                );
            assert(inner_search.ensures((wanted, l_value), outcome) && self.post_filter_answer(
                *old(self),
                filter_mask.view(),
                k as nat,
                factor,
                wanted,
                outcome,
                Ok::<Vec<u64>, VectorIndexError>(kept),
            ));
        }
        Ok(kept)
    }

    /// What `search` comes to: without a mask, a search of the inner index.
    /// With a mask, an index that is not built is refused and a mask without
    /// candidates gives nothing; a mask whose selectivity lies below a
    /// tenth is scanned, and any other goes through the inner index.
    pub open spec fn search_result<
        F: FnOnce(usize, u32) -> Result<(Vec<u32>, u32), ANNError>,
        D: Fn(u32) -> Result<u32, VectorIndexError>,
    >(
        self,
        before: Self,
        k: usize,
        l_value: u32,
        filter_mask: Option<&FilterMask>,
        log_ceiling: usize,
        inner_search: F,
        distance_key: D,
        r: Result<Vec<u64>, VectorIndexError>,
    ) -> bool {
        match filter_mask {
            None => self.ann_search_result(before, k, l_value, inner_search, r),
            Some(mask) => {
                if !before.is_built() {
                    (r matches Err(VectorIndexError::IndexNotBuilt)) && self.same_as(before)
                } else if mask.view().len() == 0 {
                    (r matches Ok(found) && found@.len() == 0) && self.same_as(before)
                } else {
                    match strategy_for(*mask) {
                        Strategy::BruteForce => self.brute_force_result(
                            before,
                            k,
                            mask.view(),
                            distance_key,
                            r,
                        ),
                        Strategy::PostFilter => self.post_filter_result(
                            before,
                            k,
                            l_value,
                            mask.view(),
                            log_ceiling,
                            inner_search,
                            r,
                        ),
                    }
                }
            },
        }
    }

    /// Searches for the `k` nearest vectors, among the candidates of the
    /// mask where one is given. `inner_search` is as in `ann_search`,
    /// `distance_key` as in `brute_force_search` and `log_ceiling` as in
    /// `post_filter_search`; without a mask the last two are not used.
    pub fn search<
        F: FnOnce(usize, u32) -> Result<(Vec<u32>, u32), ANNError>,
        D: Fn(u32) -> Result<u32, VectorIndexError>,
    >(
        &mut self,
        k: usize,
        l_value: u32,
        filter_mask: Option<&FilterMask>,
        log_ceiling: usize,
        inner_search: F,
        distance_key: D,
    ) -> (r: Result<Vec<u64>, VectorIndexError>)
        requires
            old(self).wf(),
            match filter_mask {
                None => old(self).statistics().has_room_for_search(),
                Some(mask) => mask.wf() && old(self).statistics().has_room(mask.view().len()),
            },
            forall|wanted: usize, list: u32| inner_search.requires((wanted, list)),
            forall|slot: u32| distance_key.requires((slot,)),
        ensures
            final(self).wf(),
            final(self).search_result(
                *old(self),
                k,
                l_value,
                filter_mask,
                log_ceiling,
                inner_search,
                distance_key,
                r,
            ),
            r matches Ok(found) ==> found@.len() <= k,
    {
        let mask = match filter_mask {
            None => {
                return self.ann_search(k, l_value, inner_search);
            },
            Some(mask) => mask,
        };
        if self.ids.is_empty() {
            return Err(VectorIndexError::IndexNotBuilt);
        }
        if mask.candidate_count() == 0 {
            return Ok(Vec::new());
        }
        match select_strategy(mask) {
            Strategy::BruteForce => self.brute_force_search(k, mask, distance_key),
            Strategy::PostFilter => self.post_filter_search(
                k,
                l_value,
                mask,
                log_ceiling,
                inner_search,
            ),
        }
    }
}

} // verus!
