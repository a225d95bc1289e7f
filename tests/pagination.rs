use letterboxd_sync::ids::IdSet;
use letterboxd_sync::pagination::{FetchStep, ListFetcher, MAX_PAGES, PAGE_SIZE};

/// A list service serving fixed pages, keyed by cursor, that counts requests.
struct FakeList {
    pages: Vec<(Option<String>, Vec<String>, Option<String>)>,
    requests: usize,
}

impl FakeList {
    fn fetch_page(&mut self, cursor: &Option<String>) -> (Vec<String>, Option<String>) {
        self.requests += 1;
        let page = self.pages.iter().find(|p| &p.0 == cursor).expect("unknown cursor");
        (page.1.clone(), page.2.clone())
    }
}

fn fetch_all(service: &mut FakeList) -> Result<IdSet, String> {
    let mut fetcher = ListFetcher::new();
    loop {
        let request = fetcher.request();
        assert_eq!(request.per_page, PAGE_SIZE);
        let (entries, next) = service.fetch_page(&request.cursor);
        match fetcher.on_page(entries, next) {
            FetchStep::More => {}
            FetchStep::Done => return Ok(fetcher.into_ids()),
            FetchStep::TooManyPages => return Err("too many pages".to_string()),
        }
    }
}

fn strings(v: &[&str]) -> Vec<String> {
    v.iter().map(|s| s.to_string()).collect()
}

#[test]
fn pages_accumulate_until_no_cursor() {
    let mut service = FakeList {
        pages: vec![
            (None, strings(&["a", "b"]), Some("1".to_string())),
            (Some("1".to_string()), strings(&["c"]), None),
        ],
        requests: 0,
    };
    let ids = fetch_all(&mut service).unwrap();
    let mut v = ids.to_vec();
    v.sort();
    assert_eq!(v, strings(&["a", "b", "c"]));
    assert_eq!(service.requests, 2);
}

#[test]
fn single_empty_page_gives_empty_set() {
    let mut service = FakeList { pages: vec![(None, vec![], None)], requests: 0 };
    let ids = fetch_all(&mut service).unwrap();
    assert_eq!(ids.len(), 0);
    assert_eq!(service.requests, 1);
}

#[test]
fn repeated_entries_across_pages_count_once() {
    let mut service = FakeList {
        pages: vec![
            (None, strings(&["a", "b"]), Some("x".to_string())),
            (Some("x".to_string()), strings(&["b", "a"]), None),
        ],
        requests: 0,
    };
    assert_eq!(fetch_all(&mut service).unwrap().len(), 2);
}

#[test]
fn first_request_has_no_cursor_then_follows_it() {
    let mut fetcher = ListFetcher::new();
    assert!(fetcher.request().cursor.is_none());
    assert_eq!(fetcher.on_page(strings(&["a"]), Some("c2".to_string())), FetchStep::More);
    assert_eq!(fetcher.request().cursor, Some("c2".to_string()));
}

#[test]
fn endless_cursor_stops_at_page_limit() {
    let mut service = FakeList {
        pages: vec![
            (None, strings(&["a"]), Some("loop".to_string())),
            (Some("loop".to_string()), strings(&["a"]), Some("loop".to_string())),
        ],
        requests: 0,
    };
    assert!(fetch_all(&mut service).is_err());
    assert_eq!(service.requests as u64, MAX_PAGES);
}
