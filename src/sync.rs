use vstd::prelude::*;
use crate::cache::Cache;
use crate::ids::IdSet;
use crate::reconcile::{Delta, diff};

verus! {

/// The set of ids that the resolved names map to: names that resolve to the
/// same id give it once.
pub fn local_ids(resolved: &Cache) -> (r: IdSet)
    requires
        resolved.wf(),
    ensures
        r.wf(),
        r@ == resolved@.values(),
{
    let pairs = resolved.pairs();
    let mut r = IdSet::new();
    let mut i: usize = 0;
    while i < pairs.len()
        invariant
            i <= pairs@.len(),
            r.wf(),
            forall|k: int| 0 <= k < pairs@.len() ==> #[trigger] resolved@.contains_key(pairs@[k].0@)
                && resolved@[pairs@[k].0@] == pairs@[k].1@,
            forall|x: Seq<char>| #[trigger] r@.contains(x) <==> exists|k: int|
                0 <= k < i && (#[trigger] pairs@[k]).1@ == x,
        decreases pairs@.len() - i,
    {
        r.insert(pairs[i].1.clone());
        assert forall|x: Seq<char>| #[trigger] r@.contains(x) <==> exists|k: int|
            0 <= k < i + 1 && (#[trigger] pairs@[k]).1@ == x by {
            if x == pairs@[i as int].1@ {
                assert(0 <= i < i + 1 && pairs@[i as int].1@ == x);
            } else if exists|k: int| 0 <= k < i + 1 && (#[trigger] pairs@[k]).1@ == x {
                let k = choose|k: int| 0 <= k < i + 1 && (#[trigger] pairs@[k]).1@ == x;
                assert(k < i);
            }
        }
        i = i + 1;
    }
    assert forall|x: Seq<char>| #[trigger] resolved@.values().contains(x) implies r@.contains(x) by {
        let key = choose|key: Seq<char>| #[trigger] resolved@.contains_key(key) && resolved@[key] == x;
        let k = choose|k: int| 0 <= k < pairs@.len() && (#[trigger] pairs@[k]).0@ == key;
        assert(pairs@[k].1@ == x);
    }
    assert forall|x: Seq<char>| r@.contains(x) implies #[trigger] resolved@.values().contains(x) by {
        let k = choose|k: int| 0 <= k < pairs@.len() && (#[trigger] pairs@[k]).1@ == x;
        assert(resolved@.contains_key(pairs@[k].0@));
    }
    assert(r@ =~= resolved@.values());
    r
}

/// What a run does once both id sets are known.
pub struct SyncPlan {
    /// The additions and removals that make the remote list match.
    pub delta: Delta,
    /// Whether to send the one update of the remote list.
    pub update: bool,
    /// Whether to persist the cache.
    pub save_cache: bool,
}

/// Plans a run: the delta of the local ids against the remote list; the
/// remote list is updated where the delta is not empty, and the cache saved,
/// unless this is a dry run, which does neither.
pub fn plan_sync(local: &IdSet, remote: &IdSet, dry_run: bool) -> (r: SyncPlan)
    ensures
        r.delta.wf(),
        r.delta.to_add@ == local@.difference(remote@),
        r.delta.to_remove@ == remote@.difference(local@),
        r.update == (!dry_run && !(local@.difference(remote@).is_empty() && remote@.difference(
            local@,
        ).is_empty())),
        r.save_cache == !dry_run,
{
    let delta = diff(local, remote);
    let empty = delta.is_empty();
    SyncPlan { delta, update: !dry_run && !empty, save_cache: !dry_run }
}

} // verus!
