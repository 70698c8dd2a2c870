use diskann::ANNError;
use vector_index::adapter::InMemDiskANNAdapter;
use vector_index::distance::distance_key_of_bits;
use vector_index::error::VectorIndexError;
use vector_index::filter::FilterMask;

/// A stand-in for the inner index: the vectors by slot, searched exactly.
struct FlatIndex {
    vectors: Vec<Option<Vec<f32>>>,
}

impl FlatIndex {
    fn distance(&self, query: &[f32], slot: u32) -> f32 {
        let v = self.vectors[slot as usize].as_ref().unwrap();
        v.iter().zip(query).map(|(a, b)| (a - b) * (a - b)).sum()
    }

    fn search(&self, query: &[f32], wanted: usize) -> (Vec<u32>, u32) {
        let mut scored: Vec<(f32, u32)> = Vec::new();
        for slot in 0..self.vectors.len() {
            if self.vectors[slot].is_some() {
                scored.push((self.distance(query, slot as u32), slot as u32));
            }
        }
        scored.sort_by(|a, b| a.partial_cmp(b).unwrap());
        let mut buffer = vec![0u32; wanted];
        let filled = scored.len().min(wanted);
        for i in 0..filled {
            buffer[i] = scored[i].1;
        }
        (buffer, filled as u32)
    }
}

/// An index of the ids `1..=count` on a line: the vector of id `n` is `n`
/// in every component, so that slot `n - 1` holds it.
fn line(count: u64) -> (InMemDiskANNAdapter, FlatIndex) {
    let ids: Vec<u64> = (1..=count).collect();
    let mut adapter = InMemDiskANNAdapter::new(4);
    adapter.build(&ids, |_| Ok(1)).unwrap();
    let vectors = ids.iter().map(|id| Some(vec![*id as f32; 4])).collect();
    (adapter, FlatIndex { vectors })
}

fn no_scan(_: u32) -> Result<u32, VectorIndexError> {
    panic!("scanned")
}

fn no_inner(_: usize, _: u32) -> Result<(Vec<u32>, u32), ANNError> {
    panic!("inner index touched")
}

#[test]
fn ann_search_needs_a_built_index() {
    let mut adapter = InMemDiskANNAdapter::new(4);
    let r = adapter.ann_search(3, 16, no_inner);
    assert!(matches!(r, Err(VectorIndexError::IndexNotBuilt)));
    let r = adapter.ann_search(0, 16, no_inner);
    assert!(matches!(r, Err(VectorIndexError::IndexNotBuilt)));
    assert_eq!(adapter.stats().search_count, 0);
}

#[test]
fn ann_search_for_nothing_gives_nothing_and_leaves_the_inner_index_alone() {
    let (mut adapter, _) = line(5);
    let found = adapter.ann_search(0, 16, no_inner).unwrap();
    assert!(found.is_empty());
    assert_eq!(adapter.stats().search_count, 0);
}

#[test]
fn ann_search_asks_for_no_more_than_there_are_live_vectors() {
    let (mut adapter, inner) = line(5);
    let query = vec![2.2f32; 4];
    let found = adapter
        .ann_search(9, 32, |wanted, list| {
            assert_eq!((wanted, list), (5, 32));
            Ok(inner.search(&query, wanted))
        })
        .unwrap();
    assert_eq!(found, vec![2, 3, 1, 4, 5]);
    assert_eq!(adapter.stats().search_count, 1);
}

#[test]
fn ann_search_maps_only_the_slots_that_were_filled() {
    let (mut adapter, _) = line(5);
    let found = adapter.ann_search(4, 16, |_, _| Ok((vec![3, 1, 0, 0], 2))).unwrap();
    assert_eq!(found, vec![4, 2]);
}

#[test]
fn ann_search_gives_no_more_than_it_asked_for() {
    let (mut adapter, _) = line(5);
    let found = adapter.ann_search(2, 16, |_, _| Ok((vec![3, 1, 0, 2], 4))).unwrap();
    assert_eq!(found, vec![4, 2]);
}

#[test]
fn ann_search_reports_a_slot_that_is_not_mapped() {
    let (mut adapter, _) = line(5);
    let r = adapter.ann_search(2, 16, |_, _| Ok((vec![1, 77], 2)));
    assert!(matches!(r, Err(VectorIndexError::VectorIdNotFound { vector_id: 77 })));
    assert_eq!(adapter.stats().search_count, 0);
}

#[test]
fn ann_search_reports_an_error_of_the_inner_index() {
    let (mut adapter, _) = line(5);
    let r = adapter.ann_search(2, 16, |_, _| Err(ANNError::message("beam broke")));
    match r {
        Err(VectorIndexError::SearchError(text)) => assert!(text.contains("beam broke")),
        _ => panic!("wrong result"),
    }
    assert_eq!(adapter.stats().search_count, 0);
}

#[test]
fn brute_force_search_gives_the_nearest_candidates_nearest_first() {
    let (mut adapter, inner) = line(100);
    let mask = FilterMask::new(vec![9, 19, 29, 39, 49], 100).unwrap();
    let query = vec![33.0f32; 4];
    let found = adapter
        .brute_force_search(3, &mask, |slot| {
            Ok(distance_key_of_bits(inner.distance(&query, slot).to_bits()))
        })
        .unwrap();
    // the candidates are the ids 10, 20, 30, 40, 50
    assert_eq!(found, vec![30, 40, 20]);
    let stats = adapter.stats();
    assert_eq!(stats.brute_force_searches, 1);
    assert_eq!(stats.total_brute_force_candidates, 5);
    assert_eq!(stats.search_count, 0);
}

#[test]
fn brute_force_search_for_nothing_gives_nothing() {
    let (mut adapter, _) = line(10);
    let mask = FilterMask::new(vec![1, 2], 10).unwrap();
    let found = adapter.brute_force_search(0, &mask, no_scan).unwrap();
    assert!(found.is_empty());
    assert_eq!(adapter.stats().brute_force_searches, 0);
}

#[test]
fn brute_force_search_stops_at_the_first_error() {
    let (mut adapter, _) = line(10);
    let mask = FilterMask::new(vec![1, 2, 3], 10).unwrap();
    let r = adapter.brute_force_search(2, &mask, |slot| {
        if slot == 2 {
            Err(VectorIndexError::InvalidDimension { expected: 4, actual: 3 })
        } else if slot == 3 {
            panic!("went on after the error")
        } else {
            Ok(5)
        }
    });
    assert!(matches!(r, Err(VectorIndexError::InvalidDimension { expected: 4, actual: 3 })));
    assert_eq!(adapter.stats().brute_force_searches, 0);
    assert_eq!(adapter.stats().total_brute_force_candidates, 0);
}

#[test]
fn brute_force_search_passes_over_a_candidate_that_was_deleted() {
    let (mut adapter, _) = line(10);
    adapter.soft_delete(&[3], |_| Ok(())).unwrap();
    let mask = FilterMask::new(vec![1, 2, 3], 10).unwrap();
    let found = adapter.brute_force_search(3, &mask, |slot| Ok(slot)).unwrap();
    assert_eq!(found, vec![2, 4]);
    assert_eq!(adapter.stats().total_brute_force_candidates, 3);
}

#[test]
fn post_filter_search_asks_for_more_and_keeps_what_passes() {
    let (mut adapter, inner) = line(100);
    // every second slot passes: selectivity 0.5, expansion factor 2
    let mask = FilterMask::new((0..100).step_by(2).collect(), 100).unwrap();
    let query = vec![50.2f32; 4];
    let found = adapter
        .post_filter_search(3, 32, &mask, 2, |wanted, list| {
            assert_eq!((wanted, list), (6, 32));
            Ok(inner.search(&query, wanted))
        })
        .unwrap();
    // nearest are 50, 51, 49, 52, 48, 53; the ids in even slots are odd
    assert_eq!(found, vec![51, 49, 53]);
    let stats = adapter.stats();
    assert_eq!(stats.post_filter_searches, 1);
    assert_eq!(stats.search_count, 1);
    assert_eq!(stats.expansion_factor_count, 1);
    assert_eq!(stats.expansion_factor_sum, 2);
    assert_eq!(stats.max_expansion_factor, 2);
    assert_eq!(stats.min_expansion_factor, 2);
}

#[test]
fn post_filter_search_takes_the_first_k_that_pass() {
    let (mut adapter, inner) = line(10);
    let mask = FilterMask::new((0..10).collect(), 10).unwrap();
    let query = vec![1.0f32; 4];
    let found = adapter
        .post_filter_search(2, 8, &mask, 5, |wanted, _| {
            assert_eq!(wanted, 10);
            Ok(inner.search(&query, wanted))
        })
        .unwrap();
    assert_eq!(found, vec![1, 2]);
    assert_eq!(adapter.stats().max_expansion_factor, 5);
}

#[test]
fn post_filter_search_for_nothing_gives_nothing() {
    let (mut adapter, _) = line(10);
    let mask = FilterMask::new(vec![1, 2, 3, 4, 5], 10).unwrap();
    let found = adapter.post_filter_search(0, 8, &mask, 2, no_inner).unwrap();
    assert!(found.is_empty());
    assert_eq!(adapter.stats().post_filter_searches, 0);
    let mut unbuilt = InMemDiskANNAdapter::new(4);
    let found = unbuilt.post_filter_search(3, 8, &mask, 2, no_inner).unwrap();
    assert!(found.is_empty());
}

#[test]
fn post_filter_search_hands_an_error_of_the_search_on() {
    let (mut adapter, _) = line(10);
    let mask = FilterMask::new(vec![1, 2, 3, 4, 5], 10).unwrap();
    let r = adapter.post_filter_search(2, 8, &mask, 2, |_, _| Err(ANNError::message("z")));
    assert!(matches!(r, Err(VectorIndexError::SearchError(_))));
    assert_eq!(adapter.stats().post_filter_searches, 0);
    assert_eq!(adapter.stats().expansion_factor_count, 0);
}

#[test]
fn search_without_a_mask_is_a_search_of_the_inner_index() {
    let (mut adapter, inner) = line(100);
    adapter.soft_delete(&[50], |_| Ok(())).unwrap();
    let mut inner = inner;
    inner.vectors[49] = None;
    let query = vec![50.0f32; 4];
    let found = adapter
        .search(10, 16, None, 0, |wanted, _| Ok(inner.search(&query, wanted)), no_scan)
        .unwrap();
    assert_eq!(found.len(), 10);
    assert!(!found.contains(&50));
    assert_eq!(found[0], 49);
}

#[test]
fn search_with_a_mask_needs_a_built_index() {
    let mut adapter = InMemDiskANNAdapter::new(4);
    let mask = FilterMask::new(vec![1], 100).unwrap();
    let r = adapter.search(3, 16, Some(&mask), 2, no_inner, no_scan);
    assert!(matches!(r, Err(VectorIndexError::IndexNotBuilt)));
}

#[test]
fn search_with_a_mask_without_candidates_gives_nothing() {
    let (mut adapter, _) = line(10);
    let mask = FilterMask::new(vec![], 10).unwrap();
    let found = adapter.search(3, 16, Some(&mask), 50, no_inner, no_scan).unwrap();
    assert!(found.is_empty());
    let stats = adapter.stats();
    assert_eq!(stats.search_count, 0);
    assert_eq!(stats.brute_force_searches, 0);
    assert_eq!(stats.post_filter_searches, 0);
}

#[test]
fn search_scans_a_mask_whose_selectivity_is_below_a_tenth() {
    let (mut adapter, inner) = line(100);
    // 5 of 100: selectivity 0.05
    let mask = FilterMask::new(vec![0, 25, 50, 75, 99], 100).unwrap();
    let query = vec![70.0f32; 4];
    let before = adapter.stats().brute_force_searches;
    let found = adapter
        .search(2, 16, Some(&mask), 6, no_inner, |slot| {
            Ok(distance_key_of_bits(inner.distance(&query, slot).to_bits()))
        })
        .unwrap();
    assert_eq!(found, vec![76, 51]);
    assert_eq!(adapter.stats().brute_force_searches, before + 1);
    assert_eq!(adapter.stats().post_filter_searches, 0);
}

#[test]
fn search_goes_through_the_inner_index_from_a_tenth_on() {
    let (mut adapter, inner) = line(100);
    // 10 of 100: selectivity 0.1, not below a tenth
    let mask = FilterMask::new((0..100).step_by(10).collect(), 100).unwrap();
    let query = vec![1.0f32; 4];
    let found = adapter
        .search(
            3,
            32,
            Some(&mask),
            5,
            |wanted, _| {
                assert_eq!(wanted, 15);
                Ok(inner.search(&query, wanted))
            },
            no_scan,
        )
        .unwrap();
    // of the 15 nearest ids 1..=15 the slots 0 and 10 pass
    assert_eq!(found, vec![1, 11]);
    let stats = adapter.stats();
    assert_eq!(stats.post_filter_searches, 1);
    assert_eq!(stats.brute_force_searches, 0);
    assert_eq!(stats.max_expansion_factor, 5);
}

/// An inner index that looks at every third slot only.
fn careless_search(inner: &FlatIndex, query: &[f32], wanted: usize) -> (Vec<u32>, u32) {
    let mut scored: Vec<(f32, u32)> = Vec::new();
    for slot in (0..inner.vectors.len()).step_by(3) {
        scored.push((inner.distance(query, slot as u32), slot as u32));
    }
    scored.sort_by(|a, b| a.partial_cmp(b).unwrap());
    scored.truncate(wanted);
    (scored.iter().map(|p| p.1).collect(), scored.len() as u32)
}

#[test]
fn a_scan_comes_at_least_as_near_as_a_filtered_search() {
    let (mut adapter, inner) = line(60);
    let mask = FilterMask::new((0..60).collect(), 60).unwrap();
    let query = vec![20.3f32; 4];
    let k = 5;
    let scanned = adapter
        .brute_force_search(k, &mask, |slot| {
            Ok(distance_key_of_bits(inner.distance(&query, slot).to_bits()))
        })
        .unwrap();
    let filtered = adapter
        .post_filter_search(k, 16, &mask, 2, |wanted, _| Ok(careless_search(&inner, &query, wanted)))
        .unwrap();
    assert_eq!(scanned.len(), k);
    assert_eq!(filtered.len(), k);
    let distance_of = |node: u64| inner.distance(&query, (node - 1) as u32);
    for i in 0..k {
        assert!(distance_of(scanned[i]) <= distance_of(filtered[i]));
    }
    for w in scanned.windows(2) {
        assert!(distance_of(w[0]) <= distance_of(w[1]));
    }
}

#[test]
fn search_for_nothing_gives_nothing() {
    let (mut adapter, _) = line(100);
    let sparse = FilterMask::new(vec![1, 2], 100).unwrap();
    let dense = FilterMask::new((0..50).collect(), 100).unwrap();
    assert!(adapter.search(0, 16, None, 0, no_inner, no_scan).unwrap().is_empty());
    assert!(adapter.search(0, 16, Some(&sparse), 7, no_inner, no_scan).unwrap().is_empty());
    assert!(adapter.search(0, 16, Some(&dense), 2, no_inner, no_scan).unwrap().is_empty());
    let stats = adapter.stats();
    assert_eq!(stats.search_count, 0);
    assert_eq!(stats.brute_force_searches, 0);
    assert_eq!(stats.post_filter_searches, 0);
}

#[test]
fn the_second_halves_of_the_searches_can_be_called_apart() {
    let (mut adapter, _) = line(5);
    let found = adapter.complete_ann_search(2, Ok((vec![4, 0], 2))).unwrap();
    assert_eq!(found, vec![5, 1]);
    let found = adapter.complete_brute_force(&[(1, 2), (2, 9), (3, 0)], 3);
    assert_eq!(found, vec![3, 1]);
    let mask = FilterMask::new(vec![0, 1], 5).unwrap();
    let found = adapter.complete_post_filter(&[5, 2, 1, 9], 1, &mask, 3);
    assert_eq!(found, vec![2]);
    let stats = adapter.stats();
    assert_eq!(stats.search_count, 1);
    assert_eq!(stats.brute_force_searches, 1);
    assert_eq!(stats.total_brute_force_candidates, 3);
    assert_eq!(stats.post_filter_searches, 1);
    assert_eq!(stats.expansion_factor_sum, 3);
}
