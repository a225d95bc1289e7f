use letterboxd_sync::cache::Cache;
use letterboxd_sync::resolve::{
    Candidate, LookupOutcome, ResolveAction, ResolveError, Resolver, REQUESTS_CONCURRENCY,
};

fn candidate(name: &str, query: &str) -> Candidate {
    Candidate { name: name.to_string(), query: query.to_string() }
}

/// Runs a resolution against a stub lookup service. Lookups complete oldest
/// first. Returns the resolver, the number of lookups made, and the largest
/// number in flight at once.
fn run(
    candidates: Vec<Candidate>,
    cache: Cache,
    lookup: &dyn Fn(&str) -> LookupOutcome,
) -> (Result<Resolver, ResolveError>, usize, usize) {
    let mut resolver = Resolver::new(candidates, cache);
    let mut in_flight: Vec<Candidate> = Vec::new();
    let mut calls = 0;
    let mut most = 0;
    loop {
        match resolver.next_action() {
            ResolveAction::Lookup(c) => {
                calls += 1;
                in_flight.push(c);
                most = most.max(in_flight.len());
            }
            ResolveAction::Wait => {
                let c = in_flight.remove(0);
                if let Err(e) = resolver.complete(&c.name, lookup(&c.query)) {
                    return (Err(e), calls, most);
                }
            }
            ResolveAction::Finished => return (Ok(resolver), calls, most),
        }
    }
}

fn found_for(query: &str) -> LookupOutcome {
    LookupOutcome::Found(format!("id-{}", query))
}

#[test]
fn cached_names_need_no_lookup() {
    let mut cache = Cache::new();
    cache.insert("a.mkv".to_string(), "ID-A".to_string());
    cache.insert("b.mkv".to_string(), "ID-B".to_string());
    let (r, calls, _) = run(
        vec![candidate("a.mkv", "A"), candidate("b.mkv", "B")],
        cache,
        &|_| panic!("lookup service called"),
    );
    assert_eq!(calls, 0);
    let resolved = r.unwrap().resolved();
    assert_eq!(resolved.get(&"a.mkv".to_string()), Some("ID-A".to_string()));
    assert_eq!(resolved.get(&"b.mkv".to_string()), Some("ID-B".to_string()));
}

#[test]
fn only_cache_misses_are_looked_up() {
    let mut cache = Cache::new();
    cache.insert("a.mkv".to_string(), "ID-A".to_string());
    let (r, calls, _) = run(
        vec![candidate("a.mkv", "A"), candidate("b.mkv", "B")],
        cache,
        &found_for,
    );
    assert_eq!(calls, 1);
    let r = r.unwrap();
    assert_eq!(r.resolved().get(&"b.mkv".to_string()), Some("id-B".to_string()));
    // the found id joins the cache, the cached one stays
    assert_eq!(r.cache().get(&"b.mkv".to_string()), Some("id-B".to_string()));
    assert_eq!(r.cache().get(&"a.mkv".to_string()), Some("ID-A".to_string()));
}

#[test]
fn one_unmatched_candidate_is_dropped() {
    let names = ["a", "b", "c", "d", "e"];
    let candidates = names.iter().map(|n| candidate(n, n)).collect();
    let (r, calls, _) = run(candidates, Cache::new(), &|q| {
        if q == "c" { LookupOutcome::NoMatch } else { found_for(q) }
    });
    assert_eq!(calls, 5);
    let resolved = r.unwrap().resolved();
    assert_eq!(resolved.len(), 4);
    assert_eq!(resolved.get(&"c".to_string()), None);
    assert_eq!(resolved.get(&"d".to_string()), Some("id-d".to_string()));
}

#[test]
fn failed_lookup_is_dropped_not_fatal() {
    let candidates = vec![candidate("a", "a"), candidate("b", "b")];
    let (r, _, _) = run(candidates, Cache::new(), &|q| {
        if q == "a" { LookupOutcome::Failed } else { found_for(q) }
    });
    let r = r.unwrap();
    assert_eq!(r.resolved().len(), 1);
    assert_eq!(r.cache().get(&"a".to_string()), None);
}

#[test]
fn empty_id_is_never_stored() {
    let (r, _, _) = run(vec![candidate("a", "a")], Cache::new(), &|_| {
        LookupOutcome::Found(String::new())
    });
    let r = r.unwrap();
    assert_eq!(r.resolved().len(), 0);
    assert_eq!(r.cache().len(), 0);
}

#[test]
fn fatal_lookup_aborts() {
    let candidates = vec![candidate("a", "a"), candidate("b", "b")];
    let (r, _, _) = run(candidates, Cache::new(), &|_| LookupOutcome::Fatal("expired".to_string()));
    assert_eq!(r.err(), Some(ResolveError::Fatal("expired".to_string())));
}

#[test]
fn lookups_in_flight_stay_within_bound() {
    let candidates = (0..100).map(|i| candidate(&format!("f{}", i), &format!("q{}", i))).collect();
    let (r, calls, most) = run(candidates, Cache::new(), &found_for);
    assert_eq!(calls, 100);
    assert_eq!(most, REQUESTS_CONCURRENCY);
    assert_eq!(r.unwrap().resolved().len(), 100);
}

#[test]
fn repeated_name_is_looked_up_once() {
    let candidates = vec![candidate("a", "first"), candidate("a", "second")];
    let (r, calls, _) = run(candidates, Cache::new(), &found_for);
    assert_eq!(calls, 1);
    assert_eq!(r.unwrap().resolved().get(&"a".to_string()), Some("id-first".to_string()));
}

#[test]
fn nothing_to_resolve_finishes_at_once() {
    let mut resolver = Resolver::new(vec![], Cache::new());
    assert!(matches!(resolver.next_action(), ResolveAction::Finished));
}

fn pairs_sorted(c: &Cache) -> Vec<(String, String)> {
    let mut p = c.pairs();
    p.sort();
    p
}

#[test]
fn second_run_with_saved_cache_resolves_the_same() {
    let candidates = || vec![candidate("a", "a"), candidate("b", "b"), candidate("c", "c")];
    let outcome = |q: &str| if q == "b" { LookupOutcome::NoMatch } else { found_for(q) };
    let (first, calls1, _) = run(candidates(), Cache::new(), &outcome);
    let first = first.unwrap();
    assert_eq!(calls1, 3);
    let saved = first.cache().pairs();
    let (second, calls2, _) = run(candidates(), Cache::from_pairs(saved), &outcome);
    // only the name left unresolved is looked up again
    assert_eq!(calls2, 1);
    assert_eq!(pairs_sorted(&second.unwrap().resolved()), pairs_sorted(&first.resolved()));
}

#[test]
fn initial_cache_entries_are_kept() {
    let mut cache = Cache::new();
    cache.insert("old.mkv".to_string(), "ID-OLD".to_string());
    let (r, _, _) = run(vec![candidate("new.mkv", "new")], cache, &found_for);
    let r = r.unwrap();
    assert_eq!(r.cache().get(&"old.mkv".to_string()), Some("ID-OLD".to_string()));
    assert_eq!(r.cache().len(), 2);
    assert_eq!(r.resolved().len(), 1);
}
