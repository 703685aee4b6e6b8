//! Manual ordering of saved sessions: moving one into a container at a
//! position renumbers the container.
use vstd::prelude::*;

verus! {

/// The new order of a container: `id` inserted among the other members
/// `peers` (in their current order) at `target_index`, clamped to the end.
pub fn reordered(peers: Vec<i64>, id: i64, target_index: usize) -> (r: Vec<i64>)
    ensures
        r@ == peers@.insert(
            if target_index < peers@.len() {
                target_index as int
            } else {
                peers@.len() as int
            },
            id,
        ),
{
    let mut v = peers;
    let at = if target_index < v.len() {
        target_index
    } else {
        v.len()
    };
    v.insert(at, id);
    v
}

/// The `(id, sort_order)` rows that renumber a container: each id gets its
/// position.
pub fn sort_orders(ids: &Vec<i64>) -> (r: Vec<(i64, i64)>)
    ensures
        r@.len() == ids@.len(),
        forall|k: int| 0 <= k < ids@.len() ==> #[trigger] r@[k] == (ids@[k], k as i64),
{
    let mut r: Vec<(i64, i64)> = Vec::new();
    let mut k: usize = 0;
    while k < ids.len()
        invariant
            k <= ids@.len(),
            r@.len() == k,
            forall|j: int| 0 <= j < k ==> #[trigger] r@[j] == (ids@[j], j as i64),
        decreases ids.len() - k,
    {
        r.push((ids[k], k as i64));
        k = k + 1;
    }
    r
}

/// Moving a session keeps the container's members: the new order holds the
/// old members in their order, with the moved session at the asked place
/// (or last).
pub proof fn lemma_reorder_keeps_members(peers: Seq<i64>, id: i64, target: int)
    requires
        0 <= target,
    ensures
        ({
            let at = if target < peers.len() {
                target
            } else {
                peers.len() as int
            };
            let r = peers.insert(at, id);
            &&& r.len() == peers.len() + 1
            &&& r[at] == id
            &&& r.remove(at) == peers
        }),
{
    let at = if target < peers.len() {
        target
    } else {
        peers.len() as int
    };
    assert(peers.insert(at, id).remove(at) =~= peers);
}

} // verus!
