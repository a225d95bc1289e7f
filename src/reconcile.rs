use vstd::prelude::*;
use crate::ids::{IdSet, ids_of, occurs_before};

verus! {

/// What makes a remote list match the local collection.
pub struct Delta {
    /// Ids that are local and not yet on the remote list.
    pub to_add: IdSet,
    /// Ids on the remote list that are no longer local.
    pub to_remove: IdSet,
}

impl Delta {
    pub open spec fn wf(&self) -> bool {
        self.to_add.wf() && self.to_remove.wf()
    }

    /// True when nothing is to be added nor removed.
    pub fn is_empty(&self) -> (r: bool)
        requires
            self.wf(),
        ensures
            r == (self.to_add@.is_empty() && self.to_remove@.is_empty()),
    {
        let r = self.to_add.len() == 0 && self.to_remove.len() == 0;
        proof {
            if self.to_add.items@.len() > 0 {
                assert(self.to_add@.contains(self.to_add.items@[0]@));
            }
            if self.to_remove.items@.len() > 0 {
                assert(self.to_remove@.contains(self.to_remove.items@[0]@));
            }
        }
        r
    }
}

/// The remote membership after a delta has been applied to it.
pub open spec fn applied(remote: Set<Seq<char>>, add: Set<Seq<char>>, remove: Set<Seq<char>>) -> Set<
    Seq<char>,
> {
    remote.difference(remove).union(add)
}

/// The ids of `items` that `other` lacks.
fn missing_from(items: &IdSet, other: &IdSet) -> (r: IdSet)
    ensures
        r.wf(),
        r@ == items@.difference(other@),
{
    let mut r = IdSet::new();
    let mut i: usize = 0;
    while i < items.items.len()
        invariant
            i <= items.items@.len(),
            r.wf(),
            forall|x: Seq<char>|
                r@.contains(x) <==> (occurs_before(items.items@, x, i as int) && !other@.contains(x)),
        decreases items.items@.len() - i,
    {
        if !other.contains(&items.items[i]) {
            r.insert(items.items[i].clone());
        }
        assert forall|x: Seq<char>|
            r@.contains(x) <==> (occurs_before(items.items@, x, i + 1) && !other@.contains(x)) by {
            if occurs_before(items.items@, x, i + 1) && x != items.items@[i as int]@ {
                let j = choose|j: int| 0 <= j < i + 1 && (#[trigger] items.items@[j])@ == x;
                assert(occurs_before(items.items@, x, i as int));
            }
        }
        i = i + 1;
    }
    assert(r@ =~= items@.difference(other@));
    r
}

/// The delta that makes `remote` equal to `local`: the local ids that the
/// remote list lacks are added, the remote ids that are not local are removed.
pub fn diff(local: &IdSet, remote: &IdSet) -> (r: Delta)
    ensures
        r.wf(),
        r.to_add@ == local@.difference(remote@),
        r.to_remove@ == remote@.difference(local@),
{
    Delta { to_add: missing_from(local, remote), to_remove: missing_from(remote, local) }
}

/// Applying the delta of `diff` to the remote list makes it equal to the local
/// set, and no id is both added and removed.
pub proof fn lemma_diff_reconciles(local: Set<Seq<char>>, remote: Set<Seq<char>>)
    ensures
        applied(remote, local.difference(remote), remote.difference(local)) == local,
        local.difference(remote).disjoint(remote.difference(local)),
{
    assert(applied(remote, local.difference(remote), remote.difference(local)) =~= local);
}

/// The delta of a set against itself is empty.
pub proof fn lemma_diff_self_empty(ids: Set<Seq<char>>)
    ensures
        ids.difference(ids).is_empty(),
{
    assert(ids.difference(ids) =~= Set::<Seq<char>>::empty());
}

/// Reconciling a second time, with the local files and the remote list as the
/// first run left them, finds nothing to do.
pub proof fn lemma_reconcile_idempotent(local: Set<Seq<char>>, remote: Set<Seq<char>>)
    ensures
        ({
            let after = applied(remote, local.difference(remote), remote.difference(local));
            local.difference(after).is_empty() && after.difference(local).is_empty()
        }),
{
    lemma_diff_reconciles(local, remote);
    lemma_diff_self_empty(local);
}

} // verus!
