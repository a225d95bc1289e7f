use vstd::prelude::*;
use crate::ids::{IdSet, ids_of};

verus! {

/// How many entries each page request asks for.
pub const PAGE_SIZE: usize = 100;

/// How many pages a list may take before the fetch is abandoned: a guard
/// against a service that hands out cursors forever.
pub const MAX_PAGES: u64 = 10000;

/// A request for one page of a list's entries.
pub struct PageRequest {
    /// Where the page starts; none for the first page.
    pub cursor: Option<String>,
    /// How many entries the page should hold at most.
    pub per_page: usize,
}

/// What follows a page.
#[derive(Debug, PartialEq, Eq)]
pub enum FetchStep {
    /// Request the page at the new cursor.
    More,
    /// The page was the last one.
    Done,
    /// The list has taken `MAX_PAGES` pages without an end.
    TooManyPages,
}

/// Gathers the ids of a remote list, page after page, following the cursor
/// that each page hands on until a page hands on none.
pub struct ListFetcher {
    ids: IdSet,
    cursor: Option<String>,
    pages: u64,
    done: bool,
}

/// The optional string as an optional sequence of characters.
pub open spec fn opt_view(o: Option<String>) -> Option<Seq<char>> {
    match o {
        Some(s) => Some(s@),
        None => None,
    }
}

impl ListFetcher {
    /// The ids gathered so far.
    pub closed spec fn ids(&self) -> Set<Seq<char>> {
        self.ids@
    }

    /// The cursor of the next page request.
    pub closed spec fn cursor(&self) -> Option<Seq<char>> {
        opt_view(self.cursor)
    }

    /// How many pages have been taken in.
    pub closed spec fn pages(&self) -> nat {
        self.pages as nat
    }

    /// Whether the fetch has ended, at the last page or at the page limit.
    pub closed spec fn is_done(&self) -> bool {
        self.done
    }

    pub closed spec fn wf(&self) -> bool {
        &&& self.ids.wf()
        &&& self.pages <= MAX_PAGES
        &&& !self.done ==> self.pages < MAX_PAGES
    }

    /// A fetch that has taken in no page yet.
    pub fn new() -> (r: ListFetcher)
        ensures
            r.wf(),
            r.ids() == Set::<Seq<char>>::empty(),
            r.cursor() is None,
            r.pages() == 0,
            !r.is_done(),
    {
        ListFetcher { ids: IdSet::new(), cursor: None, pages: 0, done: false }
    }

    /// The request for the next page: at the current cursor, `PAGE_SIZE`
    /// entries.
    pub fn request(&self) -> (r: PageRequest)
        ensures
            opt_view(r.cursor) == self.cursor(),
            r.per_page == PAGE_SIZE,
    {
        let cursor = match &self.cursor {
            Some(c) => Some(c.clone()),
            None => None,
        };
        PageRequest { cursor, per_page: PAGE_SIZE }
    }

    /// Takes in a page: its entries join the gathered ids; the fetch ends
    /// where the page hands on no cursor, or where it was page `MAX_PAGES`.
    pub fn on_page(&mut self, entries: Vec<String>, next: Option<String>) -> (r: FetchStep)
        requires
            old(self).wf(),
            !old(self).is_done(),
        ensures
            final(self).wf(),
            final(self).ids() == old(self).ids().union(ids_of(entries@)),
            final(self).pages() == old(self).pages() + 1,
            final(self).cursor() == opt_view(next),
            next is None ==> r == FetchStep::Done,
            next is Some && old(self).pages() + 1 < MAX_PAGES ==> r == FetchStep::More,
            next is Some && old(self).pages() + 1 >= MAX_PAGES ==> r == FetchStep::TooManyPages,
            final(self).is_done() == !(r == FetchStep::More),
    {
        let ghost before = self.ids@;
        let ghost pages = self.pages;
        let mut i: usize = 0;
        while i < entries.len()
            invariant
                i <= entries@.len(),
                self.pages == pages,
                !self.done,
                pages < MAX_PAGES,
                self.ids.wf(),
                forall|x: Seq<char>| #[trigger] self.ids@.contains(x) <==> (before.contains(x)
                    || crate::ids::occurs_before(entries@, x, i as int)),
            decreases entries@.len() - i,
        {
            self.ids.insert(entries[i].clone());
            assert forall|x: Seq<char>| #[trigger] self.ids@.contains(x) <==> (before.contains(x)
                || crate::ids::occurs_before(entries@, x, i + 1)) by {
                if crate::ids::occurs_before(entries@, x, i + 1) && x != entries@[i as int]@ {
                    let j = choose|j: int| 0 <= j < i + 1 && (#[trigger] entries@[j])@ == x;
                    assert(crate::ids::occurs_before(entries@, x, i as int));
                }
            }
            i = i + 1;
        }
        assert(self.ids@ =~= before.union(ids_of(entries@)));
        self.pages = self.pages + 1;
        let more = next.is_some();
        self.cursor = next;
        if !more {
            self.done = true;
            FetchStep::Done
        } else if self.pages >= MAX_PAGES {
            self.done = true;
            FetchStep::TooManyPages
        } else {
            FetchStep::More
        }
    }

    /// The ids gathered.
    pub fn into_ids(self) -> (r: IdSet)
        requires
            self.wf(),
        ensures
            r.wf(),
            r@ == self.ids(),
    {
        self.ids
    }
}

} // verus!
