use vstd::prelude::*;

verus! {

/// The mapping that a JSON object of strings to strings holds, as its pairs in
/// key order, or `None` where the text is no such object.
pub uninterp spec fn json_string_map(text: Seq<char>) -> Option<Seq<(Seq<char>, Seq<char>)>>;

/// The pretty-printed JSON object that maps each key of the pairs to its value.
pub uninterp spec fn json_text_of(pairs: Seq<(Seq<char>, Seq<char>)>) -> Seq<char>;

/// The pairs of strings, as pairs of character sequences.
pub open spec fn pairs_view(pairs: Seq<(String, String)>) -> Seq<(Seq<char>, Seq<char>)> {
    pairs.map_values(|p: (String, String)| (p.0@, p.1@))
}

/// The map that inserting the pairs one after the other yields: a later pair
/// replaces an earlier one with the same key.
pub open spec fn map_of_pairs(pairs: Seq<(Seq<char>, Seq<char>)>) -> Map<Seq<char>, Seq<char>>
    decreases pairs.len(),
{
    if pairs.len() == 0 {
        Map::empty()
    } else {
        map_of_pairs(pairs.drop_last()).insert(pairs.last().0, pairs.last().1)
    }
}

/// Relies on serde_json::from_str into a BTreeMap<String, String>: it succeeds
/// exactly on a JSON object whose values are all strings, and the map's pairs
/// come out in key order.
#[verifier::external_body]
fn parse_string_map(text: &str) -> (r: Result<Vec<(String, String)>, String>)
    ensures
        r is Ok <==> json_string_map(text@) is Some,
        r matches Ok(v) ==> json_string_map(text@) == Some(pairs_view(v@)),
{
    serde_json::from_str::<std::collections::BTreeMap<String, String>>(text)
        .map(|m| m.into_iter().collect())
        .map_err(|e| e.to_string())
}

/// Relies on serde_json::to_string_pretty on a BTreeMap of the pairs: it fails
/// only where a Serialize impl fails or a map key is not a string, and neither
/// can happen for a map of strings to strings.
#[verifier::external_body]
fn string_map_to_json(pairs: &Vec<(String, String)>) -> (r: Result<String, String>)
    ensures
        r is Ok,
        r matches Ok(t) ==> t@ == json_text_of(pairs_view(pairs@)),
{
    let m: std::collections::BTreeMap<&String, &String> = pairs.iter().map(|p| (&p.0, &p.1)).collect();
    serde_json::to_string_pretty(&m).map_err(|e| e.to_string())
}

/// Why a persisted cache could not be read.
#[derive(Debug, PartialEq, Eq)]
pub enum CacheError {
    /// The text is not a JSON object of strings; the parser's message.
    Malformed(String),
}

/// The cache of resolved ids: each candidate name maps to its canonical id.
/// Names are compared exactly, character for character.
pub struct Cache {
    entries: Vec<(String, String)>,
    model: Ghost<Map<Seq<char>, Seq<char>>>,
}

impl View for Cache {
    type V = Map<Seq<char>, Seq<char>>;

    closed spec fn view(&self) -> Map<Seq<char>, Seq<char>> {
        self.model@
    }
}

impl Cache {
    /// The entries hold each name once, and hold exactly the model's pairs.
    pub closed spec fn wf(&self) -> bool {
        &&& forall|i: int|
            0 <= i < self.entries@.len() ==> #[trigger] self.model@.contains_key(self.entries@[i].0@)
                && self.model@[self.entries@[i].0@] == self.entries@[i].1@
        &&& forall|k: Seq<char>|
            #[trigger] self.model@.contains_key(k) ==> exists|i: int|
                0 <= i < self.entries@.len() && (#[trigger] self.entries@[i]).0@ == k
        &&& forall|i: int, j: int|
            0 <= i < self.entries@.len() && 0 <= j < self.entries@.len() && i != j
                ==> (#[trigger] self.entries@[i]).0@ != (#[trigger] self.entries@[j]).0@
    }

    /// The cached pairs of name and id, in the order they are held.
    pub closed spec fn pair_seq(&self) -> Seq<(String, String)> {
        self.entries@
    }

    /// The empty cache.
    pub fn new() -> (r: Cache)
        ensures
            r.wf(),
            r@ == Map::<Seq<char>, Seq<char>>::empty(),
    {
        Cache { entries: Vec::new(), model: Ghost(Map::empty()) }
    }

    fn position(&self, name: &String) -> (r: Option<usize>)
        requires
            self.wf(),
        ensures
            r is None <==> !self@.contains_key(name@),
            r matches Some(i) ==> i < self.entries@.len() && self.entries@[i as int].0@ == name@,
    {
        let mut i: usize = 0;
        while i < self.entries.len()
            invariant
                self.wf(),
                i <= self.entries@.len(),
                forall|j: int| 0 <= j < i ==> (#[trigger] self.entries@[j]).0@ != name@,
            decreases self.entries@.len() - i,
        {
            if self.entries[i].0.eq(name) {
                return Some(i);
            }
            i = i + 1;
        }
        None
    }

    /// The id cached for `name`, if any.
    pub fn get(&self, name: &String) -> (r: Option<String>)
        requires
            self.wf(),
        ensures
            r is None <==> !self@.contains_key(name@),
            r matches Some(id) ==> id@ == self@[name@],
    {
        match self.position(name) {
            Some(i) => Some(self.entries[i].1.clone()),
            None => None,
        }
    }

    /// Caches `id` for `name`, replacing what was cached for it.
    pub fn insert(&mut self, name: String, id: String)
        requires
            old(self).wf(),
        ensures
            final(self).wf(),
            final(self)@ == old(self)@.insert(name@, id@),
    {
        let ghost before = self.entries@;
        let ghost k = name@;
        let ghost v = id@;
        match self.position(&name) {
            Some(i) => {
                self.entries.set(i, (name, id));
                self.model = Ghost(self.model@.insert(k, v));
                assert forall|key: Seq<char>| #[trigger] self.model@.contains_key(key) implies exists|j: int|
                    0 <= j < self.entries@.len() && (#[trigger] self.entries@[j]).0@ == key by {
                    if key != k {
                        let j = choose|j: int| 0 <= j < before.len() && (#[trigger] before[j]).0@ == key;
                        assert(self.entries@[j] == before[j]);
                    } else {
                        assert(self.entries@[i as int].0@ == key);
                    }
                }
            },
            None => {
                self.entries.push((name, id));
                self.model = Ghost(self.model@.insert(k, v));
                assert forall|key: Seq<char>| #[trigger] self.model@.contains_key(key) implies exists|j: int|
                    0 <= j < self.entries@.len() && (#[trigger] self.entries@[j]).0@ == key by {
                    if key != k {
                        let j = choose|j: int| 0 <= j < before.len() && (#[trigger] before[j]).0@ == key;
                        assert(self.entries@[j] == before[j]);
                    } else {
                        assert(self.entries@[before.len() as int].0@ == key);
                    }
                }
            },
        }
    }

    /// Number of cached names.
    pub fn len(&self) -> (r: usize)
        requires
            self.wf(),
        ensures
            r == self@.len(),
    {
        proof {
            self.lemma_len();
        }
        self.entries.len()
    }

    proof fn lemma_len(&self)
        requires
            self.wf(),
        ensures
            self.entries@.len() == self@.len(),
    {
        let keys = self.entries@.map_values(|p: (String, String)| p.0@);
        assert(keys.no_duplicates()) by {
            assert forall|i: int, j: int| 0 <= i < keys.len() && 0 <= j < keys.len() && i != j
                implies keys[i] != keys[j] by {
                assert(self.entries@[i].0@ != self.entries@[j].0@);
            }
        }
        keys.unique_seq_to_set();
        assert(keys.to_set() =~= self@.dom()) by {
            assert forall|k: Seq<char>| #[trigger] self@.dom().contains(k) implies keys.to_set().contains(k) by {
                let j = choose|j: int| 0 <= j < self.entries@.len() && (#[trigger] self.entries@[j]).0@ == k;
                assert(keys[j] == k);
            }
        }
    }

    /// The cached pairs of name and id, each name once.
    pub fn pairs(&self) -> (r: Vec<(String, String)>)
        requires
            self.wf(),
        ensures
            r@ == self.pair_seq(),
            forall|i: int| 0 <= i < r@.len() ==> #[trigger] self@.contains_key(r@[i].0@) && self@[r@[i].0@] == r@[i].1@,
            forall|k: Seq<char>| #[trigger] self@.contains_key(k) ==> exists|i: int| 0 <= i < r@.len() && (#[trigger] r@[i]).0@ == k,
    {
        let mut r: Vec<(String, String)> = Vec::new();
        let mut i: usize = 0;
        while i < self.entries.len()
            invariant
                i <= self.entries@.len(),
                r@ == self.entries@.take(i as int),
            decreases self.entries@.len() - i,
        {
            r.push((self.entries[i].0.clone(), self.entries[i].1.clone()));
            assert(r@ =~= self.entries@.take(i + 1));
            i = i + 1;
        }
        assert(r@ =~= self.entries@);
        r
    }

    /// The cache that holds the pairs, a later pair winning over an earlier one
    /// with the same name.
    pub fn from_pairs(pairs: Vec<(String, String)>) -> (r: Cache)
        ensures
            r.wf(),
            r@ == map_of_pairs(pairs_view(pairs@)),
    {
        let mut r = Cache::new();
        let mut i: usize = 0;
        while i < pairs.len()
            invariant
                i <= pairs@.len(),
                r.wf(),
                r@ == map_of_pairs(pairs_view(pairs@.take(i as int))),
            decreases pairs@.len() - i,
        {
            r.insert(pairs[i].0.clone(), pairs[i].1.clone());
            assert(pairs_view(pairs@.take(i + 1)).drop_last() =~= pairs_view(pairs@.take(i as int)));
            i = i + 1;
        }
        assert(pairs@.take(pairs@.len() as int) =~= pairs@);
        r
    }

    /// The cache as the pretty-printed JSON object that persists it.
    pub fn to_json(&self) -> (r: String)
        requires
            self.wf(),
        ensures
            r@ == json_text_of(pairs_view(self.pair_seq())),
    {
        match string_map_to_json(&self.entries) {
            Ok(t) => t,
            Err(_) => {
                assert(false);
                String::new()
            },
        }
    }
}

/// Reads a persisted cache. A missing file (`None`) is an empty cache; text
/// that is not a JSON object of strings is an error.
pub fn load_cache(text: Option<&str>) -> (r: Result<Cache, CacheError>)
    ensures
        text is None ==> (r matches Ok(c) && c.wf() && c@ == Map::<Seq<char>, Seq<char>>::empty()),
        text matches Some(t) ==> (r is Err <==> json_string_map(t@) is None),
        text matches Some(t) ==> (r matches Ok(c) ==> (c.wf() && c@ == map_of_pairs(
            json_string_map(t@)->Some_0,
        ))),
{
    match text {
        None => Ok(Cache::new()),
        Some(t) => match parse_string_map(t) {
            Ok(pairs) => Ok(Cache::from_pairs(pairs)),
            Err(e) => Err(CacheError::Malformed(e)),
        },
    }
}

} // verus!
