//! The pagination engine. A collector holds the cursor (the next page to
//! fetch, or none once done) and the entries gathered so far, page after
//! page. The caller performs each fetch that the collector asks for and hands
//! back what came of it.
use vstd::prelude::*;
use crate::config::Config;
use crate::link::{HeaderField, extract_link_next, link_next, view_opt};
use crate::model::Star;

verus! {

/// Why a collection was abandoned.
#[derive(Debug, Clone, Copy, PartialEq, Eq, Structural)]
pub enum CollectError {
    /// The server answered a page with a status outside 200..=299.
    Status(u16),
    /// The request for a page could not be completed.
    Transport,
    /// A page's body was not a list of starred entries.
    Malformed,
}

/// What the caller does next.
#[derive(Debug)]
pub enum Action {
    /// Fetch the page at this URL and hand the response to `receive`.
    Fetch(String),
    /// All pages were read; this many entries were gathered.
    Finish(usize),
    /// The collection failed; nothing gathered is kept.
    Abort(CollectError),
}

/// A response to a page request: its status, its header fields, and its body
/// read as a list of entries (`None`: the body was not such a list).
#[derive(Debug)]
pub struct Page {
    pub status: u16,
    pub headers: Vec<HeaderField>,
    pub stars: Option<Vec<Star>>,
}

/// A page as the collector sees it: its status, the next page it announces,
/// and its entries.
pub struct PageView {
    pub status: u16,
    pub next: Option<Seq<char>>,
    pub stars: Option<Seq<Star>>,
}

pub enum ActionView {
    Fetch(Seq<char>),
    Finish(nat),
    Abort(CollectError),
}

pub struct CollectorView {
    pub cursor: Option<Seq<char>>,
    pub stars: Seq<Star>,
    pub failure: Option<CollectError>,
}

pub open spec fn is_success(status: u16) -> bool {
    200 <= status <= 299
}

pub open spec fn action_view(a: Action) -> ActionView {
    match a {
        Action::Fetch(u) => ActionView::Fetch(u@),
        Action::Finish(n) => ActionView::Finish(n as nat),
        Action::Abort(e) => ActionView::Abort(e),
    }
}

pub open spec fn page_view(p: Page) -> PageView {
    PageView {
        status: p.status,
        next: link_next(p.headers@),
        stars: match p.stars {
            Some(v) => Some(v@),
            None => None,
        },
    }
}

/// The state after the failure `e`: nothing left to fetch, everything
/// gathered discarded, and the failure kept.
pub open spec fn aborted(e: CollectError) -> CollectorView {
    CollectorView { cursor: None, stars: Seq::empty(), failure: Some(e) }
}

/// One step of the engine: a collection that failed stays failed; a failed
/// page ends the collection with an error; a good page adds its entries after
/// those gathered, and the cursor moves to the page it announces, or the
/// collection finishes with the total count.
pub open spec fn receive_step(c: CollectorView, p: PageView) -> (CollectorView, ActionView) {
    if c.failure is Some {
        (c, ActionView::Abort(c.failure->Some_0))
    } else if !is_success(p.status) {
        (aborted(CollectError::Status(p.status)), ActionView::Abort(CollectError::Status(p.status)))
    } else {
        match p.stars {
            None => (aborted(CollectError::Malformed), ActionView::Abort(CollectError::Malformed)),
            Some(b) => {
                let gathered = c.stars + b;
                match p.next {
                    Some(u) => (
                        CollectorView { cursor: Some(u), stars: gathered, failure: None },
                        ActionView::Fetch(u),
                    ),
                    None => (
                        CollectorView { cursor: None, stars: gathered, failure: None },
                        ActionView::Finish(gathered.len()),
                    ),
                }
            },
        }
    }
}

pub struct Collector {
    cursor: Option<String>,
    stars: Vec<Star>,
    failure: Option<CollectError>,
}

impl View for Collector {
    type V = CollectorView;

    closed spec fn view(&self) -> CollectorView {
        CollectorView { cursor: view_opt(self.cursor), stars: self.stars@, failure: self.failure }
    }
}

impl Collector {
    /// A collector about to fetch the first page named by `config`.
    pub fn new(config: Config) -> (r: Collector)
        ensures
            r@.cursor == Some(config.spec_url()),
            r@.stars == Seq::<Star>::empty(),
            r@.failure is None,
    {
        let url = config.url();
        Collector { cursor: url, stars: Vec::new(), failure: None }
    }

    /// What to do now: report the failure, fetch the page under the cursor,
    /// or finish.
    pub fn start(&self) -> (r: Action)
        ensures
            action_view(r) == (match self@.failure {
                Some(e) => ActionView::Abort(e),
                None => match self@.cursor {
                    Some(u) => ActionView::Fetch(u),
                    None => ActionView::Finish(self@.stars.len()),
                },
            }),
    {
        if let Some(e) = self.failure {
            return Action::Abort(e);
        }
        match &self.cursor {
            Some(u) => Action::Fetch(u.clone()),
            None => Action::Finish(self.stars.len()),
        }
    }

    /// Takes in the response to the last fetch.
    pub fn receive(&mut self, page: Page) -> (r: Action)
        ensures
            (final(self)@, action_view(r)) == receive_step(old(self)@, page_view(page)),
    {
        if let Some(e) = self.failure {
            return Action::Abort(e);
        }
        let status = page.status;
        if !(200 <= status && status <= 299) {
            self.discard(CollectError::Status(status));
            return Action::Abort(CollectError::Status(status));
        }
        let next = extract_link_next(&page.headers);
        match page.stars {
            None => {
                self.discard(CollectError::Malformed);
                Action::Abort(CollectError::Malformed)
            },
            Some(b) => {
                let mut b = b;
                self.stars.append(&mut b);
                match next {
                    Some(u) => {
                        let a = Action::Fetch(u.clone());
                        self.cursor = Some(u);
                        a
                    },
                    None => {
                        self.cursor = None;
                        Action::Finish(self.stars.len())
                    },
                }
            },
        }
    }

    /// The fetch could not be completed: the collection fails.
    pub fn transport_failed(&mut self) -> (r: Action)
        ensures
            final(self)@ == aborted(CollectError::Transport),
            action_view(r) == ActionView::Abort(CollectError::Transport),
    {
        self.discard(CollectError::Transport);
        Action::Abort(CollectError::Transport)
    }

    fn discard(&mut self, e: CollectError)
        ensures
            final(self)@ == aborted(e),
    {
        self.cursor = None;
        self.stars = Vec::new();
        self.failure = Some(e);
    }

    /// The entries gathered so far, in page order and within each page in
    /// the order received.
    pub fn stars(&self) -> (r: &Vec<Star>)
        ensures
            r@ == self@.stars,
    {
        &self.stars
    }
}

/// Feeds `pages` to the engine in order, one per fetch, for as long as it
/// keeps fetching: the state reached and the actions taken, one per page read.
pub open spec fn run(c: CollectorView, pages: Seq<PageView>) -> (CollectorView, Seq<ActionView>)
    decreases pages.len(),
{
    if c.cursor is Some && pages.len() > 0 {
        let (c1, a) = receive_step(c, pages[0]);
        let (c2, rest) = run(c1, pages.drop_first());
        (c2, seq![a] + rest)
    } else {
        (c, Seq::empty())
    }
}

/// The entries of `pages`, page after page.
pub open spec fn entries_of(pages: Seq<PageView>) -> Seq<Star>
    decreases pages.len(),
{
    if pages.len() == 0 {
        Seq::empty()
    } else {
        match pages[0].stars {
            Some(b) => b + entries_of(pages.drop_first()),
            None => entries_of(pages.drop_first()),
        }
    }
}

/// The number of entries on each page, summed.
pub open spec fn count_of(pages: Seq<PageView>) -> nat
    decreases pages.len(),
{
    if pages.len() == 0 {
        0
    } else {
        match pages[0].stars {
            Some(b) => b.len() + count_of(pages.drop_first()),
            None => count_of(pages.drop_first()),
        }
    }
}

/// Good pages, each announcing a next page but the last, which announces
/// none.
pub open spec fn is_chain(pages: Seq<PageView>) -> bool {
    &&& pages.len() > 0
    &&& forall|i: int|
        0 <= i < pages.len() ==> is_success(#[trigger] pages[i].status) && pages[i].stars is Some
    &&& forall|i: int| 0 <= i < pages.len() - 1 ==> (#[trigger] pages[i]).next is Some
    &&& pages.last().next is None
}

proof fn lemma_run_chain(c: CollectorView, pages: Seq<PageView>, more: Seq<PageView>)
    requires
        c.cursor is Some,
        c.failure is None,
        is_chain(pages),
    ensures
        run(c, pages + more) == run(c, pages),
        run(c, pages).0.cursor is None,
        run(c, pages).0.stars == c.stars + entries_of(pages),
        entries_of(pages).len() == count_of(pages),
        run(c, pages).1.len() == pages.len(),
        run(c, pages).1.last() == ActionView::Finish(c.stars.len() + count_of(pages)),
        forall|i: int|
            0 <= i < pages.len() - 1 ==> run(c, pages).1[i] == ActionView::Fetch(
                (#[trigger] pages[i]).next->Some_0,
            ),
    decreases pages.len(),
{
    let all = pages + more;
    assert(all[0] == pages[0]);
    let (c1, a) = receive_step(c, pages[0]);
    let b = pages[0].stars->Some_0;
    assert(is_success(pages[0].status) && pages[0].stars is Some);
    let tail = pages.drop_first();
    assert(all.drop_first() =~= tail + more);
    if pages.len() == 1 {
        assert(tail =~= Seq::<PageView>::empty());
        assert(c1.cursor is None);
        assert(entries_of(pages) == b + entries_of(tail));
        assert(entries_of(pages) =~= b);
        assert(count_of(tail) == 0);
        assert(count_of(pages) == b.len());
        assert(run(c1, all.drop_first()) == run(c1, tail));
    } else {
        assert(pages[0].next is Some);
        assert(is_chain(tail)) by {
            assert forall|i: int| 0 <= i < tail.len() implies is_success(#[trigger] tail[i].status)
                && tail[i].stars is Some by {
                assert(tail[i] == pages[i + 1]);
            }
            assert forall|i: int| 0 <= i < tail.len() - 1 implies (#[trigger] tail[i]).next is Some by {
                assert(tail[i] == pages[i + 1]);
            }
            assert(tail.last() == pages.last());
        }
        lemma_run_chain(c1, tail, more);
        assert(run(c1, all.drop_first()) == run(c1, tail));
        let (c2, rest) = run(c1, tail);
        assert(c1.stars == c.stars + b);
        assert(c.stars + entries_of(pages) =~= c1.stars + entries_of(tail));
        assert forall|i: int| 0 <= i < pages.len() - 1 implies run(c, pages).1[i]
            == ActionView::Fetch((#[trigger] pages[i]).next->Some_0) by {
            if i > 0 {
                assert(pages[i] == tail[i - 1]);
            }
        }
    }
}

/// Over a chain of good pages, the gathered entries are those of the pages in
/// page order, each page's in its own order, after those already held; their
/// number is the sum of the pages' counts, and that is the count reported.
pub proof fn lemma_gathered_in_page_order(c: CollectorView, pages: Seq<PageView>)
    requires
        c.cursor is Some,
        c.failure is None,
        is_chain(pages),
    ensures
        run(c, pages).0.stars == c.stars + entries_of(pages),
        run(c, pages).0.stars.len() == c.stars.len() + count_of(pages),
        run(c, pages).1.last() == ActionView::Finish(c.stars.len() + count_of(pages)),
{
    lemma_run_chain(c, pages, Seq::empty());
}

/// Over a chain of good pages whose last announces no next page, the engine
/// reads exactly as many pages as the chain has, asking for the next one after
/// each page but the last, and then stops, whatever pages would follow.
pub proof fn lemma_stops_after_chain(c: CollectorView, pages: Seq<PageView>, more: Seq<PageView>)
    requires
        c.cursor is Some,
        c.failure is None,
        is_chain(pages),
    ensures
        run(c, pages + more) == run(c, pages),
        run(c, pages).1.len() == pages.len(),
        run(c, pages).0.cursor is None,
        forall|i: int|
            0 <= i < pages.len() - 1 ==> run(c, pages).1[i] == ActionView::Fetch(
                (#[trigger] pages[i]).next->Some_0,
            ),
        run(c, pages).1.last() is Finish,
{
    lemma_run_chain(c, pages, more);
}

} // verus!
