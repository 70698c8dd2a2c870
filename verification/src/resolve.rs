use crate::error::VectorIndexError;
use crate::filter::FilterMask;
use crate::id_map::IdMap;
use crate::nearest::{lemma_nearest_ascending, lemma_nearest_closest, nearest};
use vstd::prelude::*;

verus! {

/// The vertex ids of the scored slots that are mapped, in their order.
/// Slots that are not mapped are passed over.
pub open spec fn present_nodes(nodes: Map<u32, u64>, kept: Seq<(u32, u32)>) -> Seq<u64>
    decreases kept.len(),
{
    if kept.len() == 0 {
        Seq::empty()
    } else {
        let front = present_nodes(nodes, kept.drop_last());
        if nodes.contains_key(kept.last().1) {
            front.push(nodes[kept.last().1])
        } else {
            front
        }
    }
}

/// No more ids come out than slots went in, and as many where every slot
/// is mapped.
pub proof fn lemma_present_nodes_len(nodes: Map<u32, u64>, kept: Seq<(u32, u32)>)
    ensures
        present_nodes(nodes, kept).len() <= kept.len(),
        (forall|i: int| 0 <= i < kept.len() ==> nodes.contains_key(#[trigger] kept[i].1))
            ==> present_nodes(nodes, kept).len() == kept.len(),
    decreases kept.len(),
{
    if kept.len() > 0 {
        lemma_present_nodes_len(nodes, kept.drop_last());
        if forall|i: int| 0 <= i < kept.len() ==> nodes.contains_key(#[trigger] kept[i].1) {
            assert forall|i: int| 0 <= i < kept.drop_last().len() implies nodes.contains_key(
                #[trigger] kept.drop_last()[i].1,
            ) by {
                assert(kept.drop_last()[i] == kept[i]);
            }
            assert(nodes.contains_key(kept[kept.len() - 1].1));
        }
    }
}

/// An exact scan gives at most `limit` vertex ids, and exactly `limit`
/// where there are that many candidates and the slot of each is mapped.
pub proof fn lemma_scan_len(nodes: Map<u32, u64>, candidates: Seq<(u32, u32)>, limit: nat)
    ensures
        present_nodes(nodes, nearest(candidates, limit)).len() <= limit,
        candidates.len() >= limit && (forall|i: int|
            0 <= i < candidates.len() ==> nodes.contains_key(#[trigger] candidates[i].1))
            ==> present_nodes(nodes, nearest(candidates, limit)).len() == limit,
{
    let kept = nearest(candidates, limit);
    lemma_nearest_ascending(candidates, limit);
    lemma_nearest_closest(candidates, limit);
    lemma_present_nodes_len(nodes, kept);
    if forall|i: int| 0 <= i < candidates.len() ==> nodes.contains_key(#[trigger] candidates[i].1) {
        assert forall|i: int| 0 <= i < kept.len() implies nodes.contains_key(
            #[trigger] kept[i].1,
        ) by {
            assert(kept.contains(kept[i]));
            assert(candidates.contains(kept[i]));
            let j = choose|j: int| 0 <= j < candidates.len() && candidates[j] == kept[i];
            assert(nodes.contains_key(candidates[j].1));
        }
    }
}

/// The smallest of three numbers.
pub open spec fn least_of(a: int, b: int, c: int) -> int {
    if a <= b && a <= c {
        a
    } else if b <= c {
        b
    } else {
        c
    }
}

/// The part of a search buffer that counts: what the inner index says it
/// has filled, but no more than the buffer holds nor than was asked for.
pub open spec fn reported(buffer: Seq<u32>, count: u32, wanted: usize) -> Seq<u32> {
    buffer.take(least_of(count as int, buffer.len() as int, wanted as int))
}

/// Every slot of the list is mapped.
pub open spec fn all_mapped(nodes: Map<u32, u64>, slots: Seq<u32>) -> bool {
    forall|i: int| 0 <= i < slots.len() ==> nodes.contains_key(#[trigger] slots[i])
}

/// `slot` is the first slot of the list that is not mapped.
pub open spec fn first_unmapped(nodes: Map<u32, u64>, slots: Seq<u32>, slot: u32) -> bool {
    exists|i: int|
        0 <= i < slots.len() && slots[i] == slot && !nodes.contains_key(slot) && forall|j: int|
            0 <= j < i ==> nodes.contains_key(#[trigger] slots[j])
}

/// The vertex id of each slot of the list.
pub open spec fn mapped_nodes(nodes: Map<u32, u64>, slots: Seq<u32>) -> Seq<u64> {
    Seq::new(slots.len(), |i: int| nodes[slots[i]])
}

/// Whether a vertex id is live and its slot is among the candidates.
pub open spec fn admits(slots: Map<u64, u32>, candidates: Seq<u32>, node: u64) -> bool {
    slots.contains_key(node) && candidates.contains(slots[node])
}

/// The vertex ids of the list that the candidates let through, in their order.
pub open spec fn admitted(slots: Map<u64, u32>, candidates: Seq<u32>, found: Seq<u64>) -> Seq<u64>
    decreases found.len(),
{
    if found.len() == 0 {
        Seq::empty()
    } else {
        let front = admitted(slots, candidates, found.drop_last());
        if admits(slots, candidates, found.last()) {
            front.push(found.last())
        } else {
            front
        }
    }
}

/// The first `limit` of the admitted vertex ids, or all of them where they
/// are fewer.
pub open spec fn first_admitted(
    slots: Map<u64, u32>,
    candidates: Seq<u32>,
    found: Seq<u64>,
    limit: nat,
) -> Seq<u64> {
    let all = admitted(slots, candidates, found);
    if all.len() <= limit {
        all
    } else {
        all.take(limit as int)
    }
}

/// A filtered search keeps at most `limit` vertex ids, and exactly
/// `limit` where at least that many of those found are let through.
pub proof fn lemma_first_admitted_len(
    slots: Map<u64, u32>,
    candidates: Seq<u32>,
    found: Seq<u64>,
    limit: nat,
)
    ensures
        first_admitted(slots, candidates, found, limit).len() <= limit,
        admitted(slots, candidates, found).len() >= limit ==> first_admitted(
            slots,
            candidates,
            found,
            limit,
        ).len() == limit,
{
}

/// What is let through of a prefix of the list is a prefix of what is let
/// through of the list.
pub proof fn lemma_admitted_prefix(
    slots: Map<u64, u32>,
    candidates: Seq<u32>,
    found: Seq<u64>,
    upto: int,
)
    requires
        0 <= upto <= found.len(),
    ensures
        admitted(slots, candidates, found.take(upto)).len() <= admitted(
            slots,
            candidates,
            found,
        ).len(),
        admitted(slots, candidates, found.take(upto)) == admitted(slots, candidates, found).take(
            admitted(slots, candidates, found.take(upto)).len() as int,
        ),
    decreases found.len(),
{
    if upto == found.len() {
        assert(found.take(upto) =~= found);
        let all = admitted(slots, candidates, found);
        assert(all.take(all.len() as int) =~= all);
    } else {
        let front = found.drop_last();
        assert(found.take(upto) =~= front.take(upto));
        lemma_admitted_prefix(slots, candidates, front, upto);
        let part = admitted(slots, candidates, front.take(upto));
        let most = admitted(slots, candidates, front);
        let all = admitted(slots, candidates, found);
        assert(all.take(part.len() as int) =~= most.take(part.len() as int));
    }
}

/// The vertex ids of the scored slots that are mapped, in their order.
pub fn resolve_present(ids: &IdMap, kept: &[(u32, u32)]) -> (r: Vec<u64>)
    requires
        ids.wf(),
    ensures
        r@ == present_nodes(ids.nodes(), kept@),
{
    let mut out: Vec<u64> = Vec::new();
    let mut i: usize = 0;
    while i < kept.len()
        invariant
            i <= kept.len(),
            ids.wf(),
            out@ == present_nodes(ids.nodes(), kept@.take(i as int)),
        decreases kept.len() - i,
    {
        proof {
            assert(kept@.take(i + 1).drop_last() =~= kept@.take(i as int));
        }
        match ids.lookup_node(kept[i].1) {
            Some(node) => {
                out.push(node);
            },
            None => {},
        }
        i += 1;
    }
    assert(kept@.take(i as int) =~= kept@);
    out
}

/// The vertex id of each slot that the inner index reported, or the first
/// reported slot that is not mapped.
pub fn resolve_reported(ids: &IdMap, buffer: &[u32], count: u32, wanted: usize) -> (r: Result<
    Vec<u64>,
    VectorIndexError,
>)
    requires
        ids.wf(),
    ensures
        match r {
            Ok(found) => {
                &&& all_mapped(ids.nodes(), reported(buffer@, count, wanted))
                &&& found@ == mapped_nodes(ids.nodes(), reported(buffer@, count, wanted))
                &&& found@.len() <= wanted
            },
            Err(VectorIndexError::VectorIdNotFound { vector_id }) => first_unmapped(
                ids.nodes(),
                reported(buffer@, count, wanted),
                vector_id,
            ),
            Err(_) => false,
        },
{
    let len = buffer.len();
    let mut filled: usize = if (count as usize) <= len {
        count as usize
    } else {
        len
    };
    if wanted < filled {
        filled = wanted;
    }
    let ghost slots = reported(buffer@, count, wanted);
    assert(slots =~= buffer@.take(filled as int));
    let mut out: Vec<u64> = Vec::with_capacity(filled);
    let mut i: usize = 0;
    while i < filled
        invariant
            i <= filled <= buffer@.len(),
            ids.wf(),
            slots == buffer@.take(filled as int),
            slots == reported(buffer@, count, wanted),
            out@.len() == i,
            forall|j: int| 0 <= j < i ==> ids.nodes().contains_key(#[trigger] slots[j]),
            forall|j: int| 0 <= j < i ==> (#[trigger] out@[j]) == ids.nodes()[slots[j]],
        decreases filled - i,
    {
        let slot = buffer[i];
        assert(slots[i as int] == slot);
        match ids.lookup_node(slot) {
            Some(node) => {
                out.push(node);
            },
            None => {
                assert(0 <= i < slots.len() && slots[i as int] == slot && !ids.nodes().contains_key(
                    slot,
                ) && forall|j: int| 0 <= j < i ==> ids.nodes().contains_key(#[trigger] slots[j]));
                return Err(VectorIndexError::VectorIdNotFound { vector_id: slot });
            },
        }
        i += 1;
    }
    assert(out@ =~= mapped_nodes(ids.nodes(), slots));
    Ok(out)
}

/// The first `limit` vertex ids of the list that the mask admits.
pub fn keep_admitted(ids: &IdMap, mask: &FilterMask, found: &[u64], limit: usize) -> (r: Vec<u64>)
    requires
        ids.wf(),
        mask.wf(),
    ensures
        r@ == first_admitted(ids.slots(), mask.view(), found@, limit as nat),
{
    let mut out: Vec<u64> = Vec::new();
    let mut i: usize = 0;
    while i < found.len() && out.len() < limit
        invariant
            i <= found.len(),
            ids.wf(),
            mask.wf(),
            out@.len() <= limit,
            out@ == admitted(ids.slots(), mask.view(), found@.take(i as int)),
        decreases found.len() - i,
    {
        proof {
            assert(found@.take(i + 1).drop_last() =~= found@.take(i as int));
        }
        let node = found[i];
        let passes = match ids.lookup_slot(node) {
            Some(slot) => mask.contains_vector(slot),
            None => false,
        };
        if passes {
            out.push(node);
        }
        i += 1;
    }
    proof {
        lemma_admitted_prefix(ids.slots(), mask.view(), found@, i as int);
        let all = admitted(ids.slots(), mask.view(), found@);
        if i == found.len() {
            assert(found@.take(i as int) =~= found@);
            assert(all.take(all.len() as int) =~= all);
        }
    }
    out
}

} // verus!
