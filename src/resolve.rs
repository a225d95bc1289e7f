use vstd::prelude::*;
use crate::cache::Cache;

verus! {

/// How many remote lookups may be in flight at once.
pub const REQUESTS_CONCURRENCY: usize = 16;

/// A local item to resolve: its name, which keys the cache, and the query
/// that a remote lookup searches for.
pub struct Candidate {
    pub name: String,
    pub query: String,
}

impl Candidate {
    fn duplicate(&self) -> (r: Candidate)
        ensures
            r.name@ == self.name@,
            r.query@ == self.query@,
    {
        Candidate { name: self.name.clone(), query: self.query.clone() }
    }
}

/// The candidates as pairs of name and query.
pub open spec fn candidates_view(cs: Seq<Candidate>) -> Seq<(Seq<char>, Seq<char>)> {
    cs.map_values(|c: Candidate| (c.name@, c.query@))
}

/// The names of pairs of name and query.
pub open spec fn names_of(cs: Seq<(Seq<char>, Seq<char>)>) -> Seq<Seq<char>> {
    cs.map_values(|c: (Seq<char>, Seq<char>)| c.0)
}

/// The views of a sequence of strings.
pub open spec fn strings_view(s: Seq<String>) -> Seq<Seq<char>> {
    s.map_values(|x: String| x@)
}

/// The candidates that need a remote lookup, in order: those whose name the
/// cache lacks, each name once (its first candidate).
pub open spec fn lookup_queue(
    cands: Seq<(Seq<char>, Seq<char>)>,
    cache: Map<Seq<char>, Seq<char>>,
) -> Seq<(Seq<char>, Seq<char>)>
    decreases cands.len(),
{
    if cands.len() == 0 {
        Seq::empty()
    } else {
        let q = lookup_queue(cands.drop_last(), cache);
        let c = cands.last();
        if cache.contains_key(c.0) || names_of(q).contains(c.0) {
            q
        } else {
            q.push(c)
        }
    }
}

/// What a run resolves: each name that is cached maps to its cached id, each
/// other name that a lookup found maps to the found id, and a name that is
/// neither is left out.
pub open spec fn resolution(
    names: Seq<Seq<char>>,
    cache: Map<Seq<char>, Seq<char>>,
    found: Map<Seq<char>, Seq<char>>,
) -> Map<Seq<char>, Seq<char>> {
    Map::new(
        |n: Seq<char>| names.contains(n) && (cache.contains_key(n) || found.contains_key(n)),
        |n: Seq<char>|
            if cache.contains_key(n) {
                cache[n]
            } else {
                found[n]
            },
    )
}

/// Every queued candidate is a candidate that the cache lacks, no name is
/// queued twice, and every such candidate's name is queued.
pub proof fn lemma_lookup_queue(cands: Seq<(Seq<char>, Seq<char>)>, cache: Map<Seq<char>, Seq<char>>)
    ensures
        names_of(lookup_queue(cands, cache)).no_duplicates(),
        forall|i: int|
            0 <= i < lookup_queue(cands, cache).len() ==> !cache.contains_key(
                (#[trigger] lookup_queue(cands, cache)[i]).0,
            ) && cands.contains(lookup_queue(cands, cache)[i]),
        forall|n: Seq<char>|
            #[trigger] names_of(cands).contains(n) && !cache.contains_key(n) ==> names_of(
                lookup_queue(cands, cache),
            ).contains(n),
    decreases cands.len(),
{
    if cands.len() > 0 {
        let prev = cands.drop_last();
        lemma_lookup_queue(prev, cache);
        let q = lookup_queue(prev, cache);
        let c = cands.last();
        assert forall|i: int| 0 <= i < q.len() implies cands.contains(#[trigger] q[i]) by {
            let j = choose|j: int| 0 <= j < prev.len() && prev[j] == q[i];
            assert(cands[j] == prev[j]);
        }
        assert(cands[cands.len() - 1] == c);
        if !(cache.contains_key(c.0) || names_of(q).contains(c.0)) {
            let q2 = q.push(c);
            assert(names_of(q2) =~= names_of(q).push(c.0));
            assert forall|i: int, j: int|
                0 <= i < names_of(q2).len() && 0 <= j < names_of(q2).len() && i != j implies names_of(
                q2,
            )[i] != names_of(q2)[j] by {
                if i < q.len() && j < q.len() {
                    assert(names_of(q)[i] != names_of(q)[j]);
                } else if i < q.len() {
                    assert(names_of(q).contains(names_of(q)[i]));
                } else {
                    assert(names_of(q).contains(names_of(q)[j]));
                }
            }
        }
        assert forall|n: Seq<char>|
            #[trigger] names_of(cands).contains(n) && !cache.contains_key(n) implies names_of(
            lookup_queue(cands, cache),
        ).contains(n) by {
            let k = choose|k: int| 0 <= k < cands.len() && names_of(cands)[k] == n;
            let q2 = lookup_queue(cands, cache);
            if cache.contains_key(c.0) || names_of(q).contains(c.0) {
                assert(q2 == q);
            } else {
                assert(q2 == q.push(c));
            }
            if k < cands.len() - 1 {
                assert(names_of(prev)[k] == n);
                assert(names_of(prev).contains(n));
                let m = choose|m: int| 0 <= m < q.len() && names_of(q)[m] == n;
                assert(q2.len() >= q.len() && q2[m] == q[m]);
                assert(names_of(q2)[m] == n);
            } else if names_of(q).contains(n) {
                let m = choose|m: int| 0 <= m < q.len() && names_of(q)[m] == n;
                assert(q2.len() >= q.len() && q2[m] == q[m]);
                assert(names_of(q2)[m] == n);
            } else {
                assert(names_of(q2)[q.len() as int] == n);
            }
        }
    }
}

/// Whether a name is among the queued candidates.
fn queued(queue: &Vec<Candidate>, name: &String) -> (r: bool)
    ensures
        r == names_of(candidates_view(queue@)).contains(name@),
{
    let mut i: usize = 0;
    while i < queue.len()
        invariant
            i <= queue@.len(),
            forall|j: int| 0 <= j < i ==> (#[trigger] queue@[j]).name@ != name@,
        decreases queue@.len() - i,
    {
        if queue[i].name.eq(name) {
            assert(names_of(candidates_view(queue@))[i as int] == name@);
            return true;
        }
        i = i + 1;
    }
    assert forall|j: int| 0 <= j < queue@.len() implies names_of(candidates_view(queue@))[j] != name@ by {
        assert(queue@[j].name@ != name@);
    }
    false
}

/// What a remote lookup for one candidate gave.
pub enum LookupOutcome {
    /// The best match's canonical id.
    Found(String),
    /// The service knows no match for the query.
    NoMatch,
    /// The lookup failed in a way that concerns this candidate alone.
    Failed,
    /// The service can serve no further request (an expired login, say).
    Fatal(String),
}

/// What the resolver wants done next.
pub enum ResolveAction {
    /// Start a remote lookup for this candidate.
    Lookup(Candidate),
    /// Wait for a lookup in flight to complete.
    Wait,
    /// Every candidate has been handled.
    Finished,
}

/// Why resolution stopped.
#[derive(Debug, PartialEq, Eq)]
pub enum ResolveError {
    /// The lookup service reported a fatal condition; its message.
    Fatal(String),
}

/// Resolves candidate names to canonical ids: a cached name is resolved from
/// the cache, each other name by one remote lookup, with at most
/// `REQUESTS_CONCURRENCY` lookups in flight. The caller performs the lookups
/// that `next_action` asks for and hands each outcome to `complete`.
pub struct Resolver {
    names: Vec<String>,
    queue: Vec<Candidate>,
    next: usize,
    in_flight: Vec<String>,
    cache: Cache,
    cands: Ghost<Seq<(Seq<char>, Seq<char>)>>,
    initial: Ghost<Map<Seq<char>, Seq<char>>>,
    found: Ghost<Map<Seq<char>, Seq<char>>>,
    completed: Ghost<Set<Seq<char>>>,
}

impl Resolver {
    /// The candidates, as pairs of name and query.
    pub closed spec fn candidates(&self) -> Seq<(Seq<char>, Seq<char>)> {
        self.cands@
    }

    /// The cache as it was when resolution began.
    pub closed spec fn initial_cache(&self) -> Map<Seq<char>, Seq<char>> {
        self.initial@
    }

    /// The ids that completed lookups found, by name.
    pub closed spec fn found(&self) -> Map<Seq<char>, Seq<char>> {
        self.found@
    }

    /// The names whose lookups have completed, whatever their outcome.
    pub closed spec fn completed(&self) -> Set<Seq<char>> {
        self.completed@
    }

    /// The candidates whose lookups have not started yet, in the order they
    /// will start.
    pub closed spec fn waiting(&self) -> Seq<(Seq<char>, Seq<char>)> {
        candidates_view(self.queue@).skip(self.next as int)
    }

    /// The names whose lookups are in flight, in the order they started.
    pub closed spec fn in_flight(&self) -> Seq<Seq<char>> {
        strings_view(self.in_flight@)
    }

    pub closed spec fn wf(&self) -> bool {
        &&& self.cache.wf()
        &&& self.cache@ == self.initial@.union_prefer_right(self.found@)
        &&& strings_view(self.names@) == names_of(self.cands@)
        &&& candidates_view(self.queue@) == lookup_queue(self.cands@, self.initial@)
        &&& self.next <= self.queue@.len()
        &&& forall|k: Seq<char>|
            #[trigger] self.found@.contains_key(k) ==> names_of(self.cands@).contains(k)
                && !self.initial@.contains_key(k)
        &&& self.in_flight@.len() <= REQUESTS_CONCURRENCY
        &&& strings_view(self.in_flight@).no_duplicates()
        &&& forall|i: int|
            0 <= i < self.in_flight@.len() ==> exists|j: int|
                0 <= j < self.next && (#[trigger] self.queue@[j]).name@ == (
                #[trigger] self.in_flight@[i])@
        &&& forall|j: int|
            0 <= j < self.next ==> self.completed@.contains((#[trigger] self.queue@[j]).name@)
                || strings_view(self.in_flight@).contains(self.queue@[j].name@)
    }

    /// Begins resolution of the candidates against the cache.
    pub fn new(candidates: Vec<Candidate>, cache: Cache) -> (r: Resolver)
        requires
            cache.wf(),
        ensures
            r.wf(),
            r.candidates() == candidates_view(candidates@),
            r.initial_cache() == cache@,
            r.found() == Map::<Seq<char>, Seq<char>>::empty(),
            r.found().dom().disjoint(r.initial_cache().dom()),
            r.completed() == Set::<Seq<char>>::empty(),
            r.in_flight() == Seq::<Seq<char>>::empty(),
            r.waiting() == lookup_queue(candidates_view(candidates@), cache@),
    {
        let ghost cv = candidates_view(candidates@);
        let mut names: Vec<String> = Vec::new();
        let mut queue: Vec<Candidate> = Vec::new();
        let mut i: usize = 0;
        while i < candidates.len()
            invariant
                i <= candidates@.len(),
                cache.wf(),
                cv == candidates_view(candidates@),
                strings_view(names@) == names_of(cv.take(i as int)),
                candidates_view(queue@) == lookup_queue(cv.take(i as int), cache@),
            decreases candidates@.len() - i,
        {
            let c = &candidates[i];
            let ghost before = queue@;
            assert(cv.take(i + 1).drop_last() =~= cv.take(i as int));
            assert(cv.take(i + 1).last() == (c.name@, c.query@));
            if cache.get(&c.name).is_none() && !queued(&queue, &c.name) {
                queue.push(c.duplicate());
                assert(candidates_view(queue@) =~= candidates_view(before).push((c.name@, c.query@)));
            }
            let ghost names_before = names@;
            names.push(c.name.clone());
            assert(strings_view(names@) =~= strings_view(names_before).push(c.name@));
            assert(names_of(cv.take(i + 1)) =~= names_of(cv.take(i as int)).push(c.name@));
            i = i + 1;
        }
        assert(cv.take(candidates@.len() as int) =~= cv);
        let r = Resolver {
            names,
            queue,
            next: 0,
            in_flight: Vec::new(),
            cache,
            cands: Ghost(cv),
            initial: Ghost(cache@),
            found: Ghost(Map::empty()),
            completed: Ghost(Set::empty()),
        };
        assert(r.cache@ =~= r.initial@.union_prefer_right(r.found@));
        assert(r.in_flight() =~= Seq::<Seq<char>>::empty());
        assert(r.waiting() =~= lookup_queue(cv, cache@));
        r
    }

    /// Decides the next step: a lookup for the next waiting candidate while
    /// fewer than `REQUESTS_CONCURRENCY` are in flight, else a wait while any
    /// is in flight, else the end.
    pub fn next_action(&mut self) -> (r: ResolveAction)
        requires
            old(self).wf(),
        ensures
            final(self).wf(),
            final(self).candidates() == old(self).candidates(),
            final(self).initial_cache() == old(self).initial_cache(),
            final(self).found() == old(self).found(),
            final(self).found().dom().disjoint(final(self).initial_cache().dom()),
            final(self).completed() == old(self).completed(),
            final(self).in_flight().len() <= REQUESTS_CONCURRENCY,
            r is Lookup <==> (old(self).in_flight().len() < REQUESTS_CONCURRENCY
                && old(self).waiting().len() > 0),
            r is Finished <==> (old(self).in_flight().len() == 0 && old(self).waiting().len() == 0),
            r matches ResolveAction::Lookup(c) ==> ((c.name@, c.query@) == old(self).waiting()[0]
                && !old(self).initial_cache().contains_key(c.name@)
                && final(self).waiting() == old(self).waiting().drop_first()
                && final(self).in_flight() == old(self).in_flight().push(c.name@)),
            !(r is Lookup) ==> (final(self).waiting() == old(self).waiting()
                && final(self).in_flight() == old(self).in_flight()),
    {
        proof {
            lemma_lookup_queue(self.cands@, self.initial@);
        }
        if self.in_flight.len() < REQUESTS_CONCURRENCY && self.next < self.queue.len() {
            let c = self.queue[self.next].duplicate();
            let ghost k = self.next as int;
            let ghost before = self.in_flight@;
            let ghost qv = candidates_view(self.queue@);
            assert(qv[k] == (self.queue@[k].name@, self.queue@[k].query@));
            assert(self.waiting()[0] == qv[k]);
            assert(!self.initial@.contains_key(qv[k].0));
            // the started name is not yet in flight: in-flight names are earlier queue names
            assert forall|i: int| 0 <= i < before.len() implies (#[trigger] before[i])@ != c.name@ by {
                let j = choose|j: int| 0 <= j < k && (#[trigger] self.queue@[j]).name@ == before[i]@;
                assert(names_of(qv)[j] == self.queue@[j].name@);
                assert(names_of(qv)[k] == c.name@);
            }
            self.in_flight.push(c.name.clone());
            self.next = self.next + 1;
            assert(self.in_flight() =~= strings_view(before).push(c.name@));
            assert(self.waiting() =~= candidates_view(self.queue@).skip(k).drop_first());
            assert forall|i: int| 0 <= i < self.in_flight@.len() implies exists|j: int|
                0 <= j < self.next && (#[trigger] self.queue@[j]).name@ == (
                #[trigger] self.in_flight@[i])@ by {
                if i < before.len() {
                    assert(self.in_flight@[i] == before[i]);
                    let j = choose|j: int| 0 <= j < k && (#[trigger] self.queue@[j]).name@ == before[i]@;
                } else {
                    assert(self.queue@[k].name@ == self.in_flight@[i]@);
                }
            }
            assert(strings_view(self.in_flight@).no_duplicates()) by {
                let s = strings_view(self.in_flight@);
                assert forall|a: int, b: int| 0 <= a < s.len() && 0 <= b < s.len() && a != b implies s[a] != s[b] by {
                    if a < before.len() && b < before.len() {
                        assert(strings_view(before)[a] != strings_view(before)[b]);
                    } else if a < before.len() {
                        assert(before[a]@ != c.name@);
                    } else {
                        assert(before[b]@ != c.name@);
                    }
                }
            }
            assert forall|j: int| 0 <= j < self.next implies self.completed@.contains(
                (#[trigger] self.queue@[j]).name@,
            ) || strings_view(self.in_flight@).contains(self.queue@[j].name@) by {
                let s2 = strings_view(self.in_flight@);
                if j == k {
                    assert(s2[before.len() as int] == c.name@);
                } else if !self.completed@.contains(self.queue@[j].name@) {
                    let m = choose|m: int| 0 <= m < strings_view(before).len() && strings_view(before)[m]
                        == self.queue@[j].name@;
                    assert(s2[m] == strings_view(before)[m]);
                }
            }
            ResolveAction::Lookup(c)
        } else if self.in_flight.len() > 0 {
            ResolveAction::Wait
        } else {
            ResolveAction::Finished
        }
    }

    /// Takes in the outcome of the lookup for `name`, which was in flight. A
    /// found, non-empty id is recorded and cached; no match, a failure of this
    /// lookup alone, or an empty id drops the candidate; a fatal outcome is
    /// returned as an error.
    pub fn complete(&mut self, name: &String, outcome: LookupOutcome) -> (r: Result<(), ResolveError>)
        requires
            old(self).wf(),
            old(self).in_flight().contains(name@),
        ensures
            final(self).wf(),
            final(self).candidates() == old(self).candidates(),
            final(self).initial_cache() == old(self).initial_cache(),
            final(self).waiting() == old(self).waiting(),
            final(self).in_flight().len() == old(self).in_flight().len() - 1,
            final(self).in_flight().to_set() == old(self).in_flight().to_set().remove(name@),
            final(self).in_flight().len() <= REQUESTS_CONCURRENCY,
            final(self).found().dom().disjoint(final(self).initial_cache().dom()),
            final(self).completed() == old(self).completed().insert(name@),
            match outcome {
                LookupOutcome::Found(id) => r is Ok && final(self).found() == if id@.len() > 0 {
                    old(self).found().insert(name@, id@)
                } else {
                    old(self).found()
                },
                LookupOutcome::Fatal(m) => r == Err::<(), ResolveError>(ResolveError::Fatal(m))
                    && final(self).found() == old(self).found(),
                _ => r is Ok && final(self).found() == old(self).found(),
            },
    {
        let ghost before = self.in_flight@;
        let mut i: usize = 0;
        while i < self.in_flight.len()
            invariant
                self.in_flight@ == before,
                i <= before.len(),
                forall|j: int| 0 <= j < i ==> (#[trigger] before[j])@ != name@,
            ensures
                i <= before.len(),
                i < before.len() ==> before[i as int]@ == name@,
                forall|j: int| 0 <= j < i ==> (#[trigger] before[j])@ != name@,
            decreases before.len() - i,
        {
            if self.in_flight[i].eq(name) {
                break;
            }
            i = i + 1;
        }
        if i == self.in_flight.len() {
            assert(false) by {
                let j = choose|j: int| 0 <= j < before.len() && strings_view(before)[j] == name@;
                assert(before[j]@ == name@);
            }
        }
        let ghost at = i as int;
        self.in_flight.remove(i);
        let ghost sb = strings_view(before);
        assert(strings_view(self.in_flight@) =~= sb.remove(at));
        assert(sb[at] == name@);
        assert forall|x: Seq<char>| #[trigger] sb.remove(at).contains(x) <==> (sb.contains(x) && x != name@) by {
            if sb.remove(at).contains(x) {
                let j = choose|j: int| 0 <= j < sb.remove(at).len() && sb.remove(at)[j] == x;
                if j < at {
                    assert(sb[j] == x && j != at);
                } else {
                    assert(sb[j + 1] == x && j + 1 != at);
                }
            }
            if sb.contains(x) && x != name@ {
                let j = choose|j: int| 0 <= j < sb.len() && sb[j] == x;
                if j < at {
                    assert(sb.remove(at)[j] == x);
                } else {
                    assert(sb.remove(at)[j - 1] == x);
                }
            }
        }
        assert(self.in_flight().to_set() =~= sb.to_set().remove(name@));
        assert(sb.remove(at).no_duplicates()) by {
            assert forall|a: int, b: int| 0 <= a < sb.remove(at).len() && 0 <= b < sb.remove(at).len() && a != b
                implies sb.remove(at)[a] != sb.remove(at)[b] by {
                let a2 = if a < at { a } else { a + 1 };
                let b2 = if b < at { b } else { b + 1 };
                assert(sb.remove(at)[a] == sb[a2] && sb.remove(at)[b] == sb[b2]);
            }
        }
        assert forall|i: int| 0 <= i < self.in_flight@.len() implies exists|j: int|
            0 <= j < self.next && (#[trigger] self.queue@[j]).name@ == (
            #[trigger] self.in_flight@[i])@ by {
            if i < at {
                assert(self.in_flight@[i] == before[i]);
            } else {
                assert(self.in_flight@[i] == before[i + 1]);
            }
        }
        // the name came from the queue, so it is a candidate's and not cached
        let ghost k = choose|j: int| 0 <= j < self.next && (#[trigger] self.queue@[j]).name@ == before[at]@;
        proof {
            lemma_lookup_queue(self.cands@, self.initial@);
            let qv = candidates_view(self.queue@);
            assert(qv[k].0 == name@);
            assert(self.cands@.contains(qv[k]));
            let m = choose|m: int| 0 <= m < self.cands@.len() && self.cands@[m] == qv[k];
            assert(names_of(self.cands@)[m] == name@);
        }
        assert(names_of(self.cands@).contains(name@));
        assert(!self.initial@.contains_key(name@));
        self.completed = Ghost(self.completed@.insert(name@));
        assert forall|j: int| 0 <= j < self.next implies self.completed@.contains(
            (#[trigger] self.queue@[j]).name@,
        ) || strings_view(self.in_flight@).contains(self.queue@[j].name@) by {
            let x = self.queue@[j].name@;
            if x != name@ && !self.completed@.contains(x) {
                assert(sb.contains(x));
                assert(sb.remove(at).contains(x));
            }
        }
        match outcome {
            LookupOutcome::Found(id) => {
                if !id.as_str().is_empty() {
                    let ghost v = id@;
                    self.cache.insert(name.clone(), id);
                    self.found = Ghost(self.found@.insert(name@, v));
                    assert(self.cache@ =~= self.initial@.union_prefer_right(self.found@));
                }
                Ok(())
            },
            LookupOutcome::Fatal(m) => Err(ResolveError::Fatal(m)),
            _ => Ok(()),
        }
    }

    /// The cache with every id found so far added to it.
    pub fn cache(&self) -> (r: &Cache)
        requires
            self.wf(),
        ensures
            r.wf(),
            r@ == self.initial_cache().union_prefer_right(self.found()),
            forall|k: Seq<char>| #[trigger] self.initial_cache().contains_key(k) ==> r@.contains_key(k)
                && r@[k] == self.initial_cache()[k],
    {
        &self.cache
    }

    /// The ids resolved so far, by candidate name: each candidate name that
    /// was cached or whose lookup found an id.
    pub fn resolved(&self) -> (r: Cache)
        requires
            self.wf(),
        ensures
            r.wf(),
            r@ == resolution(names_of(self.candidates()), self.initial_cache(), self.found()),
    {
        let ghost names = names_of(self.cands@);
        let mut r = Cache::new();
        let mut i: usize = 0;
        while i < self.names.len()
            invariant
                self.wf(),
                names == names_of(self.cands@),
                i <= self.names@.len(),
                r.wf(),
                r@ == resolution(names.take(i as int), self.initial@, self.found@),
            decreases self.names@.len() - i,
        {
            let name = &self.names[i];
            assert(strings_view(self.names@)[i as int] == name@);
            assert(names.take(i + 1) =~= names.take(i as int).push(name@));
            assert forall|n: Seq<char>| #[trigger] names.take(i + 1).contains(n) <==> (names.take(i as int).contains(n) || n == name@) by {
                if names.take(i + 1).contains(n) && n != name@ {
                    let j = choose|j: int| 0 <= j < i + 1 && #[trigger] names.take(i + 1)[j] == n;
                    assert(names.take(i as int)[j] == n);
                }
                if names.take(i as int).contains(n) {
                    let j = choose|j: int| 0 <= j < i && #[trigger] names.take(i as int)[j] == n;
                    assert(names.take(i + 1)[j] == n);
                }
                if n == name@ {
                    assert(names.take(i + 1)[i as int] == n);
                }
            }
            match self.cache.get(name) {
                Some(id) => {
                    r.insert(name.clone(), id);
                    assert(r@ =~= resolution(names.take(i + 1), self.initial@, self.found@));
                },
                None => {
                    assert(r@ =~= resolution(names.take(i + 1), self.initial@, self.found@));
                },
            }
            i = i + 1;
        }
        assert(names.take(self.names@.len() as int) =~= names);
        r
    }
}

impl Resolver {
    /// Once nothing waits and nothing is in flight, every candidate name that
    /// the initial cache lacked has been looked up.
    pub proof fn lemma_finished_looked_up_all(&self)
        requires
            self.wf(),
            self.waiting().len() == 0,
            self.in_flight().len() == 0,
        ensures
            forall|n: Seq<char>|
                #[trigger] names_of(self.candidates()).contains(n) && !self.initial_cache().contains_key(n)
                    ==> self.completed().contains(n),
    {
        lemma_lookup_queue(self.cands@, self.initial@);
        let qv = candidates_view(self.queue@);
        assert(self.next == self.queue@.len());
        assert forall|n: Seq<char>|
            #[trigger] names_of(self.candidates()).contains(n) && !self.initial_cache().contains_key(n)
                implies self.completed().contains(n) by {
            assert(names_of(qv).contains(n));
            let j = choose|j: int| 0 <= j < names_of(qv).len() && names_of(qv)[j] == n;
            assert(self.queue@[j].name@ == n);
            assert(!strings_view(self.in_flight@).contains(n));
        }
    }

    /// A finished run over distinct candidate names that the cache lacks,
    /// whose lookups found an id for every name but one, resolves all names
    /// but that one: one entry fewer than there are candidates.
    pub proof fn lemma_run_drops_one(&self, dropped: Seq<char>)
        requires
            self.wf(),
            self.waiting().len() == 0,
            self.in_flight().len() == 0,
            names_of(self.candidates()).no_duplicates(),
            names_of(self.candidates()).contains(dropped),
            forall|n: Seq<char>| #[trigger] names_of(self.candidates()).contains(n) ==> !self.initial_cache().contains_key(n),
            forall|n: Seq<char>| #[trigger] self.completed().contains(n) && n != dropped ==> self.found().contains_key(n),
            !self.found().contains_key(dropped),
        ensures
            resolution(names_of(self.candidates()), self.initial_cache(), self.found()).dom().len()
                == self.candidates().len() - 1,
    {
        let names = names_of(self.candidates());
        self.lemma_finished_looked_up_all();
        assert forall|n: Seq<char>| #[trigger] names.contains(n) && n != dropped implies self.initial_cache().contains_key(n)
            || self.found().contains_key(n) by {
            assert(self.completed().contains(n));
        }
        lemma_one_dropped(names, self.initial_cache(), self.found(), dropped);
    }
}

/// A second run over the same names, with the cache that the first run left
/// (its initial cache and what it found) and lookups that find nothing new,
/// resolves exactly what the first run resolved.
pub proof fn lemma_rerun_stable(
    names: Seq<Seq<char>>,
    cache: Map<Seq<char>, Seq<char>>,
    found: Map<Seq<char>, Seq<char>>,
)
    requires
        found.dom().disjoint(cache.dom()),
    ensures
        resolution(names, cache.union_prefer_right(found), Map::empty()) == resolution(names, cache, found),
{
    assert(resolution(names, cache.union_prefer_right(found), Map::empty()) =~= resolution(names, cache, found));
}

/// Where a second run starts from the resolution of a first run as its
/// cache, the only names looked up again are those the first run left
/// unresolved.
pub proof fn lemma_rerun_looks_up_unresolved(
    cands: Seq<(Seq<char>, Seq<char>)>,
    cache: Map<Seq<char>, Seq<char>>,
    found: Map<Seq<char>, Seq<char>>,
)
    ensures
        forall|n: Seq<char>|
            #[trigger] names_of(lookup_queue(cands, resolution(names_of(cands), cache, found))).contains(n)
                <==> (names_of(cands).contains(n) && !resolution(names_of(cands), cache, found).contains_key(n)),
{
    let first = resolution(names_of(cands), cache, found);
    lemma_lookup_queue(cands, first);
    let q = lookup_queue(cands, first);
    assert forall|n: Seq<char>| #[trigger] names_of(q).contains(n) implies names_of(cands).contains(n)
        && !first.contains_key(n) by {
        let i = choose|i: int| 0 <= i < names_of(q).len() && names_of(q)[i] == n;
        assert(!first.contains_key(q[i].0) && cands.contains(q[i]));
        let j = choose|j: int| 0 <= j < cands.len() && cands[j] == q[i];
        assert(names_of(cands)[j] == n);
    }
}

/// Where every candidate name but one is resolved, from the cache or by a
/// lookup, and the lookup for that one found nothing, the resolution holds
/// exactly one entry fewer than there are (distinct) candidate names.
pub proof fn lemma_one_dropped(
    names: Seq<Seq<char>>,
    cache: Map<Seq<char>, Seq<char>>,
    found: Map<Seq<char>, Seq<char>>,
    dropped: Seq<char>,
)
    requires
        names.no_duplicates(),
        names.contains(dropped),
        !cache.contains_key(dropped),
        !found.contains_key(dropped),
        forall|n: Seq<char>| #[trigger] names.contains(n) && n != dropped ==> cache.contains_key(n) || found.contains_key(n),
    ensures
        resolution(names, cache, found).dom().len() == names.len() - 1,
{
    names.unique_seq_to_set();
    assert(resolution(names, cache, found).dom() =~= names.to_set().remove(dropped));
}

} // verus!
