use vstd::prelude::*;

verus! {

/// The order of scored slots, each a pair of a distance key and a slot:
/// by key, then by slot. A smaller key stands for a smaller distance.
pub open spec fn scored_le(a: (u32, u32), b: (u32, u32)) -> bool {
    a.0 < b.0 || (a.0 == b.0 && a.1 <= b.1)
}

/// Every pair is followed only by pairs that are not smaller.
pub open spec fn ascending(s: Seq<(u32, u32)>) -> bool {
    forall|i: int, j: int| 0 <= i < j < s.len() ==> scored_le(s[i], s[j])
}

/// An ascending list with one more pair, put behind the pairs that are not larger.
pub open spec fn insert_ascending(s: Seq<(u32, u32)>, x: (u32, u32)) -> Seq<(u32, u32)>
    decreases s.len(),
{
    if s.len() == 0 {
        seq![x]
    } else if scored_le(s.last(), x) {
        s.push(x)
    } else {
        insert_ascending(s.drop_last(), x).push(s.last())
    }
}

/// What is kept of at most `limit` pairs once `x` has been offered: while
/// there is room `x` is taken in; after that it takes the place of the
/// largest pair kept, if its key is strictly smaller than that pair's key.
pub open spec fn offer(kept: Seq<(u32, u32)>, limit: nat, x: (u32, u32)) -> Seq<(u32, u32)> {
    if kept.len() < limit {
        insert_ascending(kept, x)
    } else if kept.len() > 0 && x.0 < kept.last().0 {
        insert_ascending(kept.drop_last(), x)
    } else {
        kept
    }
}

/// The pairs kept after the candidates have been offered one by one, in
/// ascending order.
pub open spec fn nearest(candidates: Seq<(u32, u32)>, limit: nat) -> Seq<(u32, u32)>
    decreases candidates.len(),
{
    if candidates.len() == 0 {
        Seq::empty()
    } else {
        offer(nearest(candidates.drop_last(), limit), limit, candidates.last())
    }
}

/// Inserting into an ascending list keeps it ascending, adds the pair and
/// nothing else, and ends on the larger of the pair and the old last pair.
pub proof fn lemma_insert_ascending(s: Seq<(u32, u32)>, x: (u32, u32))
    requires
        ascending(s),
    ensures
        ascending(insert_ascending(s, x)),
        insert_ascending(s, x).len() == s.len() + 1,
        forall|y: (u32, u32)| #[trigger]
            insert_ascending(s, x).contains(y) <==> y == x || s.contains(y),
        insert_ascending(s, x).last() == (if s.len() > 0 && !scored_le(s.last(), x) {
            s.last()
        } else {
            x
        }),
    decreases s.len(),
{
    let r = insert_ascending(s, x);
    if s.len() == 0 {
        assert(r[0] == x);
        assert forall|y: (u32, u32)| r.contains(y) <==> y == x || s.contains(y) by {
            if y == x {
                assert(r[0] == y);
            }
        }
    } else if scored_le(s.last(), x) {
        assert forall|i: int, j: int| 0 <= i < j < r.len() implies scored_le(r[i], r[j]) by {
            if j == s.len() {
                if i < s.len() - 1 {
                    assert(scored_le(s[i], s.last()));
                }
            }
        }
        assert forall|y: (u32, u32)| r.contains(y) <==> y == x || s.contains(y) by {
            if y == x {
                assert(r[s.len() as int] == y);
            }
            if s.contains(y) {
                let i = choose|i: int| 0 <= i < s.len() && s[i] == y;
                assert(r[i] == y);
            }
            if r.contains(y) {
                let i = choose|i: int| 0 <= i < r.len() && r[i] == y;
                if i < s.len() {
                    assert(s[i] == y);
                }
            }
        }
    } else {
        let front = s.drop_last();
        let inner = insert_ascending(front, x);
        assert(ascending(front));
        lemma_insert_ascending(front, x);
        assert forall|i: int, j: int| 0 <= i < j < r.len() implies scored_le(r[i], r[j]) by {
            if j == inner.len() {
                assert(inner.contains(inner[i]));
                if inner[i] != x {
                    let a = choose|a: int| 0 <= a < front.len() && front[a] == inner[i];
                    assert(scored_le(s[a], s.last()));
                }
            }
        }
        assert forall|y: (u32, u32)| r.contains(y) <==> y == x || s.contains(y) by {
            if y == x {
                assert(inner.contains(x));
                let i = choose|i: int| 0 <= i < inner.len() && inner[i] == x;
                assert(r[i] == y);
            }
            if s.contains(y) {
                let i = choose|i: int| 0 <= i < s.len() && s[i] == y;
                if i == s.len() - 1 {
                    assert(r[inner.len() as int] == y);
                } else {
                    assert(front[i] == y);
                    assert(inner.contains(y));
                    let a = choose|a: int| 0 <= a < inner.len() && inner[a] == y;
                    assert(r[a] == y);
                }
            }
            if r.contains(y) {
                let i = choose|i: int| 0 <= i < r.len() && r[i] == y;
                if i < inner.len() {
                    assert(inner.contains(inner[i]));
                    if y != x {
                        let a = choose|a: int| 0 <= a < front.len() && front[a] == y;
                        assert(s[a] == y);
                    }
                } else {
                    assert(s[s.len() - 1] == y);
                }
            }
        }
    }
}

/// In an ascending list, inserting a pair is putting it at the place up to
/// which no pair is larger and from which every pair is.
pub proof fn lemma_insert_at(s: Seq<(u32, u32)>, x: (u32, u32), at: int)
    requires
        0 <= at <= s.len(),
        forall|i: int| 0 <= i < at ==> scored_le(s[i], x),
        forall|i: int| at <= i < s.len() ==> !scored_le(s[i], x),
    ensures
        insert_ascending(s, x) == s.insert(at, x),
    decreases s.len(),
{
    if s.len() == 0 {
        assert(s.insert(at, x) =~= seq![x]);
    } else if scored_le(s.last(), x) {
        assert(at == s.len());
        assert(s.insert(at, x) =~= s.push(x));
    } else {
        assert(at < s.len());
        lemma_insert_at(s.drop_last(), x, at);
        assert(s.insert(at, x) =~= s.drop_last().insert(at, x).push(s.last()));
    }
}

/// What is kept is ascending, and holds as many pairs as were offered, up
/// to the limit.
pub proof fn lemma_nearest_ascending(candidates: Seq<(u32, u32)>, limit: nat)
    ensures
        ascending(nearest(candidates, limit)),
        nearest(candidates, limit).len() == (if candidates.len() <= limit {
            candidates.len()
        } else {
            limit
        }),
    decreases candidates.len(),
{
    if candidates.len() > 0 {
        let kept = nearest(candidates.drop_last(), limit);
        lemma_nearest_ascending(candidates.drop_last(), limit);
        if kept.len() < limit {
            lemma_insert_ascending(kept, candidates.last());
        } else if kept.len() > 0 && candidates.last().0 < kept.last().0 {
            assert(ascending(kept.drop_last()));
            lemma_insert_ascending(kept.drop_last(), candidates.last());
        }
    }
}

/// Every pair kept was offered. Every pair offered is kept, unless the
/// limit is reached and no pair kept has a larger key than it.
pub proof fn lemma_nearest_closest(candidates: Seq<(u32, u32)>, limit: nat)
    ensures
        forall|y: (u32, u32)| #[trigger]
            nearest(candidates, limit).contains(y) ==> candidates.contains(y),
        forall|j: int|
            0 <= j < candidates.len() ==> nearest(candidates, limit).contains(#[trigger] candidates[j])
                || (nearest(candidates, limit).len() == limit && forall|i: int|
                0 <= i < limit ==> nearest(candidates, limit)[i].0 <= candidates[j].0),
    decreases candidates.len(),
{
    let result = nearest(candidates, limit);
    if candidates.len() > 0 {
        let front = candidates.drop_last();
        let x = candidates.last();
        let kept = nearest(front, limit);
        lemma_nearest_closest(front, limit);
        lemma_nearest_ascending(front, limit);
        lemma_nearest_ascending(candidates, limit);
        if kept.len() < limit {
            lemma_insert_ascending(kept, x);
        } else if kept.len() > 0 && x.0 < kept.last().0 {
            assert(ascending(kept.drop_last()));
            lemma_insert_ascending(kept.drop_last(), x);
        }
        assert forall|y: (u32, u32)| result.contains(y) implies candidates.contains(y) by {
            if y == x {
                assert(candidates[candidates.len() - 1] == y);
            } else {
                if kept.len() >= limit && kept.len() > 0 && x.0 < kept.last().0 {
                    let a = choose|a: int| 0 <= a < kept.drop_last().len() && kept.drop_last()[a] == y;
                    assert(kept[a] == y);
                }
                assert(kept.contains(y));
                let i = choose|i: int| 0 <= i < front.len() && front[i] == y;
                assert(candidates[i] == y);
            }
        }
        assert forall|j: int| 0 <= j < candidates.len() implies result.contains(
            #[trigger] candidates[j],
        ) || (result.len() == limit && forall|i: int|
            0 <= i < limit ==> result[i].0 <= candidates[j].0) by {
            let y = candidates[j];
            if j == candidates.len() - 1 {
                if kept.len() >= limit && !(kept.len() > 0 && x.0 < kept.last().0) {
                    assert forall|i: int| 0 <= i < limit implies result[i].0 <= y.0 by {
                        if i < kept.len() - 1 {
                            assert(scored_le(kept[i], kept.last()));
                        }
                    }
                }
            } else {
                assert(front[j] == y);
                if kept.len() < limit {
                    assert(kept.contains(y));
                } else if kept.len() > 0 && x.0 < kept.last().0 {
                    let shorter = kept.drop_last();
                    if kept.contains(y) && y != kept.last() {
                        let a = choose|a: int| 0 <= a < kept.len() && kept[a] == y;
                        assert(shorter[a] == y);
                        assert(shorter.contains(y));
                    } else {
                        assert(kept.last().0 <= y.0) by {
                            if !kept.contains(y) {
                                assert(kept[limit - 1].0 <= y.0);
                            }
                        }
                        assert forall|i: int| 0 <= i < limit implies result[i].0 <= y.0 by {
                            assert(result.contains(result[i]));
                            if result[i] != x {
                                let a = choose|a: int| 0 <= a < shorter.len() && shorter[a] == result[i];
                                assert(scored_le(kept[a], kept.last()));
                            }
                        }
                    }
                }
            }
        }
    }
}

/// The number of pairs whose key lies below `bound`.
pub open spec fn count_below(s: Seq<(u32, u32)>, bound: u32) -> nat
    decreases s.len(),
{
    if s.len() == 0 {
        0
    } else {
        count_below(s.drop_last(), bound) + if s.last().0 < bound {
            1nat
        } else {
            0nat
        }
    }
}

/// No more pairs lie below a bound than there are pairs. In an ascending
/// list whose last key lies below the bound, all do.
pub proof fn lemma_count_below_len(s: Seq<(u32, u32)>, bound: u32)
    ensures
        count_below(s, bound) <= s.len(),
        ascending(s) && s.len() > 0 && s.last().0 < bound ==> count_below(s, bound) == s.len(),
    decreases s.len(),
{
    if s.len() > 0 {
        lemma_count_below_len(s.drop_last(), bound);
        if ascending(s) && s.last().0 < bound && s.len() > 1 {
            assert(ascending(s.drop_last()));
            assert(scored_le(s[s.len() - 2], s[s.len() - 1]));
            assert(s.drop_last().last() == s[s.len() - 2]);
        }
    }
}

/// Taking the pair at place `at` out of a list takes it out of the count.
pub proof fn lemma_count_below_remove(s: Seq<(u32, u32)>, at: int, bound: u32)
    requires
        0 <= at < s.len(),
    ensures
        count_below(s, bound) == count_below(s.remove(at), bound) + if s[at].0 < bound {
            1nat
        } else {
            0nat
        },
    decreases s.len(),
{
    if at == s.len() - 1 {
        assert(s.remove(at) =~= s.drop_last());
    } else {
        lemma_count_below_remove(s.drop_last(), at, bound);
        assert(s.remove(at).drop_last() =~= s.drop_last().remove(at));
        assert(s.remove(at).last() == s.last());
    }
}

/// Inserting a pair into an ascending list adds it to the count.
pub proof fn lemma_count_below_insert(s: Seq<(u32, u32)>, x: (u32, u32), bound: u32)
    ensures
        count_below(insert_ascending(s, x), bound) == count_below(s, bound) + if x.0 < bound {
            1nat
        } else {
            0nat
        },
    decreases s.len(),
{
    if s.len() == 0 {
        assert(seq![x].drop_last() =~= Seq::<(u32, u32)>::empty());
        assert(count_below(seq![x].drop_last(), bound) == 0);
    } else if scored_le(s.last(), x) {
        assert(s.push(x).drop_last() =~= s);
    } else {
        lemma_count_below_insert(s.drop_last(), x, bound);
        let inner = insert_ascending(s.drop_last(), x);
        assert(inner.push(s.last()).drop_last() =~= inner);
    }
}

/// The keys kept are the smallest keys offered: below any bound lie as
/// many pairs kept as pairs offered, up to the limit.
pub proof fn lemma_nearest_counts(candidates: Seq<(u32, u32)>, limit: nat, bound: u32)
    ensures
        count_below(nearest(candidates, limit), bound) == (if count_below(candidates, bound)
            <= limit {
            count_below(candidates, bound)
        } else {
            limit
        }),
    decreases candidates.len(),
{
    if candidates.len() > 0 {
        let front = candidates.drop_last();
        let x = candidates.last();
        let kept = nearest(front, limit);
        lemma_nearest_counts(front, limit, bound);
        lemma_nearest_ascending(front, limit);
        lemma_count_below_len(front, bound);
        lemma_count_below_len(kept, bound);
        let below: nat = if x.0 < bound {
            1
        } else {
            0
        };
        assert(count_below(candidates, bound) == count_below(front, bound) + below);
        if kept.len() < limit {
            lemma_count_below_insert(kept, x, bound);
            assert(kept.len() == front.len());
        } else if kept.len() > 0 && x.0 < kept.last().0 {
            lemma_count_below_insert(kept.drop_last(), x, bound);
            lemma_count_below_len(kept.drop_last(), bound);
            assert(count_below(kept, bound) == count_below(kept.drop_last(), bound) + if kept.last().0
                < bound {
                1nat
            } else {
                0nat
            });
        } else if kept.len() > 0 {
            assert(kept.last().0 <= x.0);
            assert(nearest(candidates, limit) == kept);
        } else {
            assert(nearest(candidates, limit) == kept);
        }
    }
}

/// A list that takes each of its pairs from the candidates, none more
/// often than it stands there, has no more pairs below a bound than the
/// candidates have.
pub proof fn lemma_selection_counts(
    candidates: Seq<(u32, u32)>,
    selection: Seq<(u32, u32)>,
    bound: u32,
)
    requires
        selection.to_multiset().subset_of(candidates.to_multiset()),
    ensures
        count_below(selection, bound) <= count_below(candidates, bound),
    decreases candidates.len(),
{
    broadcast use vstd::seq_lib::to_multiset_len, vstd::seq_lib::to_multiset_contains;

    if candidates.len() == 0 {
        assert(candidates.to_multiset().len() == 0);
        if selection.len() > 0 {
            assert(selection.contains(selection[0]));
            assert(selection.to_multiset().count(selection[0]) > 0);
            assert(candidates.to_multiset().count(selection[0]) > 0);
            assert(candidates.contains(selection[0]));
        }
    } else {
        let front = candidates.drop_last();
        let x = candidates.last();
        assert(candidates =~= front.push(x));
        vstd::seq_lib::to_multiset_build(front, x);
        assert(candidates.to_multiset() =~= front.to_multiset().insert(x));
        if selection.contains(x) {
            let at = choose|at: int| 0 <= at < selection.len() && selection[at] == x;
            let rest = selection.remove(at);
            vstd::seq_lib::to_multiset_remove(selection, at);
            assert(rest.to_multiset() =~= selection.to_multiset().remove(x));
            assert(rest.to_multiset().subset_of(front.to_multiset())) by {
                assert forall|y: (u32, u32)|
                    rest.to_multiset().count(y) <= front.to_multiset().count(y) by {
                    assert(selection.to_multiset().count(y) <= candidates.to_multiset().count(y));
                }
            }
            lemma_selection_counts(front, rest, bound);
            lemma_count_below_remove(selection, at, bound);
        } else {
            assert(selection.to_multiset().count(x) == 0);
            assert(selection.to_multiset().subset_of(front.to_multiset())) by {
                assert forall|y: (u32, u32)|
                    selection.to_multiset().count(y) <= front.to_multiset().count(y) by {
                    assert(selection.to_multiset().count(y) <= candidates.to_multiset().count(y));
                }
            }
            lemma_selection_counts(front, selection, bound);
        }
    }
}

/// No other way of choosing at most `limit` of the candidates comes
/// nearer: below any bound lie at least as many of the pairs kept as of
/// the pairs chosen.
pub proof fn lemma_nearest_beats_selection(
    candidates: Seq<(u32, u32)>,
    limit: nat,
    selection: Seq<(u32, u32)>,
    bound: u32,
)
    requires
        selection.to_multiset().subset_of(candidates.to_multiset()),
        selection.len() <= limit,
    ensures
        count_below(selection, bound) <= count_below(nearest(candidates, limit), bound),
{
    lemma_selection_counts(candidates, selection, bound);
    lemma_count_below_len(selection, bound);
    lemma_nearest_counts(candidates, limit, bound);
}

/// At most `limit` scored slots, the nearest of those offered so far, in
/// ascending order.
pub struct NearestBuffer {
    kept: Vec<(u32, u32)>,
    limit: usize,
}

impl NearestBuffer {
    /// The pairs kept, in ascending order.
    pub closed spec fn view(&self) -> Seq<(u32, u32)> {
        self.kept@
    }

    /// The number of pairs that the buffer keeps at most.
    pub closed spec fn limit(&self) -> nat {
        self.limit as nat
    }

    /// The pairs kept are ascending and no more than the limit.
    pub closed spec fn wf(&self) -> bool {
        ascending(self.kept@) && self.kept@.len() <= self.limit
    }

    /// An empty buffer that keeps at most `limit` pairs.
    pub fn new(limit: usize) -> (r: Self)
        ensures
            r.wf(),
            r.limit() == limit,
            r.view() == Seq::<(u32, u32)>::empty(),
    {
        NearestBuffer { kept: Vec::new(), limit }
    }

    /// The place at which `x` goes into the pairs kept.
    fn place_of(&self, x: (u32, u32)) -> (at: usize)
        requires
            self.wf(),
        ensures
            at <= self.view().len(),
            forall|i: int| 0 <= i < at ==> scored_le(self.view()[i], x),
            forall|i: int| at <= i < self.view().len() ==> !scored_le(self.view()[i], x),
    {
        let mut low: usize = 0;
        let mut high: usize = self.kept.len();
        while low < high
            invariant
                low <= high <= self.kept@.len(),
                ascending(self.kept@),
                forall|i: int| 0 <= i < low ==> scored_le(self.kept@[i], x),
                forall|i: int| high <= i < self.kept@.len() ==> !scored_le(self.kept@[i], x),
            decreases high - low,
        {
            let mid = low + (high - low) / 2;
            let y = self.kept[mid];
            if y.0 < x.0 || (y.0 == x.0 && y.1 <= x.1) {
                proof {
                    assert forall|i: int| 0 <= i < mid + 1 implies scored_le(self.kept@[i], x) by {
                        if i < mid {
                            assert(scored_le(self.kept@[i], self.kept@[mid as int]));
                        }
                    }
                }
                low = mid + 1;
            } else {
                proof {
                    assert forall|i: int| mid <= i < self.kept@.len() implies !scored_le(
                        self.kept@[i],
                        x,
                    ) by {
                        if mid < i {
                            assert(scored_le(self.kept@[mid as int], self.kept@[i]));
                        }
                    }
                }
                high = mid;
            }
        }
        low
    }

    /// Offers one scored slot to the buffer.
    pub fn offer(&mut self, key: u32, slot: u32)
        requires
            old(self).wf(),
        ensures
            final(self).wf(),
            final(self).limit() == old(self).limit(),
            final(self).view() == offer(old(self).view(), old(self).limit(), (key, slot)),
    {
        let x = (key, slot);
        let held = self.kept.len();
        if held >= self.limit {
            if held == 0 || key >= self.kept[held - 1].0 {
                return ;
            }
            self.kept.pop();
            assert(self.kept@ == old(self).kept@.drop_last());
        }
        let at = self.place_of(x);
        proof {
            lemma_insert_at(self.kept@, x, at as int);
            lemma_insert_ascending(self.kept@, x);
        }
        self.kept.insert(at, x);
    }

    /// The pairs kept, in ascending order.
    pub fn into_sorted(self) -> (r: Vec<(u32, u32)>)
        ensures
            r@ == self.view(),
    {
        self.kept
    }
}

/// The `limit` nearest of the scored slots, as `nearest` says, in
/// ascending order.
pub fn select_nearest(scored: &[(u32, u32)], limit: usize) -> (r: Vec<(u32, u32)>)
    ensures
        r@ == nearest(scored@, limit as nat),
{
    let mut buffer = NearestBuffer::new(limit);
    let mut i: usize = 0;
    while i < scored.len()
        invariant
            i <= scored.len(),
            buffer.wf(),
            buffer.limit() == limit,
            buffer.view() == nearest(scored@.take(i as int), limit as nat),
        decreases scored.len() - i,
    {
        let (key, slot) = scored[i];
        proof {
            assert(scored@.take(i + 1).drop_last() =~= scored@.take(i as int));
        }
        buffer.offer(key, slot);
        i += 1;
    }
    assert(scored@.take(i as int) =~= scored@);
    buffer.into_sorted()
}

} // verus!
