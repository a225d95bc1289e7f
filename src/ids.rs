use vstd::prelude::*;

verus! {

/// A set of canonical ids, kept as a vector without repeated ids.
pub struct IdSet {
    pub items: Vec<String>,
}

/// The ids of a sequence of strings, as a set.
pub open spec fn ids_of(items: Seq<String>) -> Set<Seq<char>> {
    Set::new(|x: Seq<char>| exists|i: int| 0 <= i < items.len() && (#[trigger] items[i])@ == x)
}

/// No id occurs twice in the sequence.
pub open spec fn no_repeats(items: Seq<String>) -> bool {
    forall|i: int, j: int|
        0 <= i < items.len() && 0 <= j < items.len() && i != j ==> (#[trigger] items[i])@
            != (#[trigger] items[j])@
}

/// Whether `x` equals one of the first `n` strings of `items`.
pub open spec fn occurs_before(items: Seq<String>, x: Seq<char>, n: int) -> bool {
    exists|i: int| 0 <= i < n && (#[trigger] items[i])@ == x
}

/// Position of `x` among `items`, if it occurs there.
pub fn position_of(items: &Vec<String>, x: &String) -> (r: Option<usize>)
    ensures
        r is None <==> !ids_of(items@).contains(x@),
        r matches Some(i) ==> i < items@.len() && items@[i as int]@ == x@,
{
    let mut i: usize = 0;
    while i < items.len()
        invariant
            i <= items@.len(),
            forall|j: int| 0 <= j < i ==> (#[trigger] items@[j])@ != x@,
        decreases items@.len() - i,
    {
        if items[i].eq(x) {
            return Some(i);
        }
        i = i + 1;
    }
    None
}

impl View for IdSet {
    type V = Set<Seq<char>>;

    open spec fn view(&self) -> Set<Seq<char>> {
        ids_of(self.items@)
    }
}

impl IdSet {
    /// The vector holds each id at most once.
    pub open spec fn wf(&self) -> bool {
        no_repeats(self.items@)
    }

    /// The empty set.
    pub fn new() -> (r: IdSet)
        ensures
            r.wf(),
            r@ == Set::<Seq<char>>::empty(),
    {
        let r = IdSet { items: Vec::new() };
        assert(r@ =~= Set::<Seq<char>>::empty());
        r
    }

    /// Whether `id` is in the set.
    pub fn contains(&self, id: &String) -> (r: bool)
        ensures
            r == self@.contains(id@),
    {
        position_of(&self.items, id).is_some()
    }

    /// Number of ids in the set.
    pub fn len(&self) -> (r: usize)
        requires
            self.wf(),
        ensures
            r == self.items@.len(),
            r == self@.len(),
    {
        proof {
            self.lemma_len();
        }
        self.items.len()
    }

    proof fn lemma_len(&self)
        requires
            self.wf(),
        ensures
            self@.finite(),
            self.items@.len() == self@.len(),
    {
        let views = self.items@.map_values(|s: String| s@);
        assert(views.no_duplicates()) by {
            assert forall|i: int, j: int| 0 <= i < views.len() && 0 <= j < views.len() && i != j
                implies views[i] != views[j] by {
                assert(self.items@[i]@ != self.items@[j]@);
            }
        }
        views.unique_seq_to_set();
        assert(views.to_set() =~= self@) by {
            assert forall|x: Seq<char>| #[trigger] self@.contains(x) implies views.to_set().contains(x) by {
                let i = choose|i: int| 0 <= i < self.items@.len() && (#[trigger] self.items@[i])@ == x;
                assert(views[i] == x);
            }
        }
    }

    /// Adds `id`; nothing changes where it is already in the set.
    pub fn insert(&mut self, id: String)
        requires
            old(self).wf(),
        ensures
            final(self).wf(),
            final(self)@ == old(self)@.insert(id@),
    {
        if position_of(&self.items, &id).is_none() {
            let ghost before = self.items@;
            self.items.push(id);
            assert(self.items@[before.len() as int] == id);
            assert(self@ =~= ids_of(before).insert(id@)) by {
                assert forall|x: Seq<char>| ids_of(before).contains(x) implies #[trigger] self@.contains(x) by {
                    let i = choose|i: int| 0 <= i < before.len() && before[i]@ == x;
                    assert(self.items@[i] == before[i]);
                }
            }
        }
    }

    /// The set of the given ids.
    pub fn from_vec(ids: Vec<String>) -> (r: IdSet)
        ensures
            r.wf(),
            r@ == ids_of(ids@),
    {
        let mut r = IdSet::new();
        let mut i: usize = 0;
        while i < ids.len()
            invariant
                i <= ids@.len(),
                r.wf(),
                forall|x: Seq<char>| r@.contains(x) <==> occurs_before(ids@, x, i as int),
            decreases ids@.len() - i,
        {
            r.insert(ids[i].clone());
            assert forall|x: Seq<char>| r@.contains(x) <==> occurs_before(ids@, x, i + 1) by {
                if occurs_before(ids@, x, i + 1) && x != ids@[i as int]@ {
                    let j = choose|j: int| 0 <= j < i + 1 && (#[trigger] ids@[j])@ == x;
                    assert(occurs_before(ids@, x, i as int));
                }
            }
            i = i + 1;
        }
        assert(r@ =~= ids_of(ids@));
        r
    }

    /// The ids, each once.
    pub fn to_vec(&self) -> (r: Vec<String>)
        ensures
            r@ == self.items@,
    {
        self.items.clone()
    }
}

} // verus!
