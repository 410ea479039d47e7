//! The crawl graph and its bookkeeping: runs, pages, depths, links, the
//! frontier and the blacklisted/stubbed referrer records.
use vstd::prelude::*;
use crate::domain_state::{CachedRobots, DomainState};
use crate::page_state::PageState;
use crate::text::str_eq;

verus! {

/// The lifecycle of a run.
#[derive(Debug, Clone, Copy, PartialEq, Eq, Structural)]
pub enum RunStatus {
    Running,
    Completed,
    Interrupted,
    Failed,
}

/// The text under which a run status is stored.
pub open spec fn spec_run_status_string(s: RunStatus) -> Seq<char> {
    match s {
        RunStatus::Running => "running"@,
        RunStatus::Completed => "completed"@,
        RunStatus::Interrupted => "interrupted"@,
        RunStatus::Failed => "failed"@,
    }
}

/// The run status stored under a text, if any.
pub open spec fn spec_run_status_from(t: Seq<char>) -> Option<RunStatus> {
    if t == "running"@ {
        Some(RunStatus::Running)
    } else if t == "completed"@ {
        Some(RunStatus::Completed)
    } else if t == "interrupted"@ {
        Some(RunStatus::Interrupted)
    } else if t == "failed"@ {
        Some(RunStatus::Failed)
    } else {
        None
    }
}

impl RunStatus {
    /// The text under which the status is stored.
    pub fn to_db_string(&self) -> (r: &'static str)
        ensures
            r@ == spec_run_status_string(*self),
    {
        match self {
            RunStatus::Running => "running",
            RunStatus::Completed => "completed",
            RunStatus::Interrupted => "interrupted",
            RunStatus::Failed => "failed",
        }
    }

    /// The status stored under `s`, or `None` for any other text.
    pub fn from_db_string(s: &str) -> (r: Option<RunStatus>)
        ensures
            r == spec_run_status_from(s@),
    {
        if str_eq(s, "running") {
            Some(RunStatus::Running)
        } else if str_eq(s, "completed") {
            Some(RunStatus::Completed)
        } else if str_eq(s, "interrupted") {
            Some(RunStatus::Interrupted)
        } else if str_eq(s, "failed") {
            Some(RunStatus::Failed)
        } else {
            None
        }
    }
}

/// Each status reads back from its stored text.
pub proof fn lemma_run_status_round_trip(s: RunStatus)
    ensures
        spec_run_status_from(spec_run_status_string(s)) == Some(s),
{
    reveal_strlit("running");
    reveal_strlit("completed");
    reveal_strlit("interrupted");
    reveal_strlit("failed");
    let t = spec_run_status_string(s);
    if s != RunStatus::Running {
        assert(t.len() != 7 || t[0] != 'r');
    }
    if s != RunStatus::Completed {
        assert(t.len() != 9 || t[0] != 'c');
    }
    if s != RunStatus::Interrupted {
        assert(t.len() != 11 || t[0] != 'i');
    }
}

/// One page of the graph.
#[derive(Debug, Clone)]
pub struct PageRecord {
    pub id: i64,
    pub url: String,
    pub domain: String,
    pub state: PageState,
    pub title: Option<String>,
    pub status_code: Option<u16>,
    pub content_type: Option<String>,
    /// When the page was last visited (wall clock, milliseconds).
    pub visited_at: Option<i64>,
    /// When the page was first seen (wall clock, milliseconds).
    pub discovered_at: i64,
    pub discovered_run: i64,
    pub error_message: Option<String>,
    pub retry_count: u32,
}

/// The depth of a page from one quality origin.
#[derive(Debug, Clone)]
pub struct DepthRecord {
    pub page_id: i64,
    pub quality_origin: String,
    pub depth: u32,
}

/// A link between two pages.
#[derive(Debug, Clone, Copy, PartialEq, Eq, Structural)]
pub struct LinkRecord {
    pub from_page_id: i64,
    pub to_page_id: i64,
    pub discovered_run: i64,
}

/// One run of the crawler.
#[derive(Debug, Clone)]
pub struct RunRecord {
    pub id: i64,
    /// Wall clock, milliseconds.
    pub started_at: i64,
    pub finished_at: Option<i64>,
    pub config_hash: String,
    pub status: RunStatus,
}

/// A URL on a blacklisted or stubbed domain and the page that linked to it.
#[derive(Debug, Clone)]
pub struct ReferrerRecord {
    pub url: String,
    pub referrer_url: String,
    pub discovered_run: i64,
}

/// Why a storage operation did not happen.
#[derive(Debug, Clone, Copy, PartialEq, Eq, Structural)]
pub enum StorageError {
    /// No page has this id.
    PageNotFound(i64),
    /// No run has this id.
    RunNotFound(i64),
    /// The table is full: no further id can be issued.
    Full,
}

/// The store. Pages and runs are numbered from 1 in order of insertion;
/// URLs are unique; (page, origin) depth rows and (from, to) links are
/// unique; the frontier holds each page at most once.
pub struct CrawlStore {
    runs: Vec<RunRecord>,
    pages: Vec<PageRecord>,
    depths: Vec<DepthRecord>,
    links: Vec<LinkRecord>,
    frontier: Vec<(i64, u32)>,
    blacklisted: Vec<ReferrerRecord>,
    stubbed: Vec<ReferrerRecord>,
    domain_states: Vec<(String, DomainState)>,
}

/// The minimum of a stored depth and a newly observed one.
pub open spec fn merge_depth(old: Option<u32>, d: u32) -> u32 {
    match old {
        Some(o) => if o <= d { o } else { d },
        None => d,
    }
}

/// The index of the row for (page, origin), if any.
pub open spec fn depth_row(rows: Seq<DepthRecord>, page_id: i64, origin: Seq<char>) -> Option<int> {
    if exists|i: int| 0 <= i < rows.len() && rows[i].page_id == page_id && rows[i].quality_origin@ == origin {
        Some(choose|i: int| 0 <= i < rows.len() && rows[i].page_id == page_id && rows[i].quality_origin@ == origin)
    } else {
        None
    }
}

/// The stored depth of a page from an origin, if any.
pub open spec fn depth_of(rows: Seq<DepthRecord>, page_id: i64, origin: Seq<char>) -> Option<u32> {
    match depth_row(rows, page_id, origin) {
        Some(i) => Some(rows[i].depth),
        None => None,
    }
}

/// No two depth rows share (page, origin).
pub open spec fn depths_unique(rows: Seq<DepthRecord>) -> bool {
    forall|i: int, j: int|
        0 <= i < rows.len() && 0 <= j < rows.len() && i != j
            ==> !(rows[i].page_id == rows[j].page_id && rows[i].quality_origin@ == rows[j].quality_origin@)
}

/// The number of link rows from `from` to `to`.
pub open spec fn link_count(links: Seq<LinkRecord>, from: i64, to: i64) -> nat
    decreases links.len(),
{
    if links.len() == 0 {
        0
    } else {
        link_count(links.drop_last(), from, to) + if links.last().from_page_id == from && links.last().to_page_id == to { 1nat } else { 0nat }
    }
}

/// A link row from `from` to `to` exists.
pub open spec fn has_link(links: Seq<LinkRecord>, from: i64, to: i64) -> bool {
    exists|i: int| 0 <= i < links.len() && links[i].from_page_id == from && links[i].to_page_id == to
}

/// The link rows after inserting (from, to): unchanged if the pair is present.
pub open spec fn spec_insert_link(links: Seq<LinkRecord>, from: i64, to: i64, run: i64) -> Seq<LinkRecord> {
    if has_link(links, from, to) {
        links
    } else {
        links.push(LinkRecord { from_page_id: from, to_page_id: to, discovered_run: run })
    }
}

/// No two page rows share a URL.
pub open spec fn urls_unique(pages: Seq<PageRecord>) -> bool {
    forall|i: int, j: int| 0 <= i < pages.len() && 0 <= j < pages.len() && i != j ==> pages[i].url@ != pages[j].url@
}

/// The page row holding `url`, if any.
pub open spec fn page_index(pages: Seq<PageRecord>, url: Seq<char>) -> Option<int> {
    if exists|i: int| 0 <= i < pages.len() && pages[i].url@ == url {
        Some(choose|i: int| 0 <= i < pages.len() && pages[i].url@ == url)
    } else {
        None
    }
}

/// Each page id appears at most once in the frontier.
pub open spec fn frontier_unique(f: Seq<(i64, u32)>) -> bool {
    forall|i: int, j: int| 0 <= i < f.len() && 0 <= j < f.len() && i != j ==> f[i].0 != f[j].0
}

impl CrawlStore {
    /// The page rows.
    pub closed spec fn spec_pages(&self) -> Seq<PageRecord> {
        self.pages@
    }

    /// The depth rows.
    pub closed spec fn spec_depths(&self) -> Seq<DepthRecord> {
        self.depths@
    }

    /// The link rows.
    pub closed spec fn spec_links(&self) -> Seq<LinkRecord> {
        self.links@
    }

    /// The frontier rows: page id and priority.
    pub closed spec fn spec_frontier(&self) -> Seq<(i64, u32)> {
        self.frontier@
    }

    /// The run rows.
    pub closed spec fn spec_runs(&self) -> Seq<RunRecord> {
        self.runs@
    }

    /// The blacklisted referrer rows.
    pub closed spec fn spec_blacklisted(&self) -> Seq<ReferrerRecord> {
        self.blacklisted@
    }

    /// The stubbed referrer rows.
    pub closed spec fn spec_stubbed(&self) -> Seq<ReferrerRecord> {
        self.stubbed@
    }

    /// The persisted domain states.
    pub closed spec fn spec_domain_states(&self) -> Seq<(String, DomainState)> {
        self.domain_states@
    }

    /// The store's invariants: ids follow positions, URLs, depth keys,
    /// link pairs and frontier pages are unique, frontier pages exist.
    pub open spec fn wf(&self) -> bool {
        &&& forall|i: int| 0 <= i < self.spec_pages().len() ==> #[trigger] self.spec_pages()[i].id == i + 1
        &&& forall|i: int| 0 <= i < self.spec_runs().len() ==> #[trigger] self.spec_runs()[i].id == i + 1
        &&& urls_unique(self.spec_pages())
        &&& depths_unique(self.spec_depths())
        &&& forall|from: i64, to: i64| #[trigger] link_count(self.spec_links(), from, to) <= 1
        &&& frontier_unique(self.spec_frontier())
        &&& forall|i: int| 0 <= i < self.spec_frontier().len()
            ==> 1 <= #[trigger] self.spec_frontier()[i].0 <= self.spec_pages().len()
    }

    /// An empty store.
    pub fn new() -> (r: CrawlStore)
        ensures
            r.wf(),
            r.spec_pages().len() == 0,
            r.spec_depths().len() == 0,
            r.spec_links().len() == 0,
            r.spec_frontier().len() == 0,
            r.spec_runs().len() == 0,
            r.spec_blacklisted().len() == 0,
            r.spec_stubbed().len() == 0,
    {
        let r = CrawlStore {
            runs: Vec::new(),
            pages: Vec::new(),
            depths: Vec::new(),
            links: Vec::new(),
            frontier: Vec::new(),
            blacklisted: Vec::new(),
            stubbed: Vec::new(),
            domain_states: Vec::new(),
        };
        proof {
            assert forall|from: i64, to: i64| #[trigger] link_count(r.spec_links(), from, to) <= 1 by {
            }
        }
        r
    }
}

/// With unique URLs, the row holding `url` is the one at `i`.
pub proof fn lemma_page_index(pages: Seq<PageRecord>, url: Seq<char>, i: int)
    requires
        urls_unique(pages),
        0 <= i < pages.len(),
        pages[i].url@ == url,
    ensures
        page_index(pages, url) == Some(i),
{
    let j = choose|j: int| 0 <= j < pages.len() && pages[j].url@ == url;
    assert(j == i);
}

/// The page ids whose state is `state`, in order of insertion.
pub open spec fn ids_with_state(pages: Seq<PageRecord>, state: PageState) -> Seq<i64>
    decreases pages.len(),
{
    if pages.len() == 0 {
        Seq::empty()
    } else if pages.last().state == state {
        ids_with_state(pages.drop_last(), state).push(pages.last().id)
    } else {
        ids_with_state(pages.drop_last(), state)
    }
}

/// The row that `insert_or_get_page` adds for a new URL.
pub open spec fn new_page(id: i64, url: Seq<char>, domain: Seq<char>, run: i64, now: i64, r: PageRecord) -> bool {
    &&& r.id == id
    &&& r.url@ == url
    &&& r.domain@ == domain
    &&& r.state == PageState::Discovered
    &&& r.title is None
    &&& r.status_code is None
    &&& r.content_type is None
    &&& r.visited_at is None
    &&& r.discovered_at == now
    &&& r.discovered_run == run
    &&& r.error_message is None
    &&& r.retry_count == 0
}

/// The tables other than pages are as they were.
pub open spec fn same_but_pages(a: &CrawlStore, b: &CrawlStore) -> bool {
    &&& a.spec_depths() == b.spec_depths()
    &&& a.spec_links() == b.spec_links()
    &&& a.spec_frontier() == b.spec_frontier()
    &&& a.spec_runs() == b.spec_runs()
    &&& a.spec_blacklisted() == b.spec_blacklisted()
    &&& a.spec_stubbed() == b.spec_stubbed()
    &&& a.spec_domain_states() == b.spec_domain_states()
}

/// Page rows numbered by position, with unique URLs.
pub open spec fn pages_wf(pages: Seq<PageRecord>) -> bool {
    &&& forall|i: int| 0 <= i < pages.len() ==> #[trigger] pages[i].id == i + 1
    &&& urls_unique(pages)
}

/// A change to the page rows alone keeps the invariants when the rows stay
/// well numbered and do not shrink.
proof fn lemma_wf_pages_frame(a: &CrawlStore, b: &CrawlStore)
    requires
        a.wf(),
        same_but_pages(a, b),
        pages_wf(b.spec_pages()),
        b.spec_pages().len() >= a.spec_pages().len(),
    ensures
        b.wf(),
{
    assert forall|from: i64, to: i64| #[trigger] link_count(b.spec_links(), from, to) <= 1 by {
        assert(link_count(a.spec_links(), from, to) <= 1);
    }
    assert forall|i: int| 0 <= i < b.spec_frontier().len()
        implies 1 <= #[trigger] b.spec_frontier()[i].0 <= b.spec_pages().len() by {
        assert(1 <= a.spec_frontier()[i].0 <= a.spec_pages().len());
    }
}

impl CrawlStore {
    fn find_url(&self, url: &str) -> (r: Option<usize>)
        requires
            self.wf(),
        ensures
            match r {
                Some(i) => page_index(self.spec_pages(), url@) == Some(i as int),
                None => page_index(self.spec_pages(), url@) is None,
            },
    {
        let mut i: usize = 0;
        while i < self.pages.len()
            invariant
                0 <= i <= self.pages.len(),
                self.wf(),
                forall|j: int| 0 <= j < i ==> #[trigger] self.pages@[j].url@ != url@,
            decreases self.pages.len() - i,
        {
            if str_eq(self.pages[i].url.as_str(), url) {
                proof { lemma_page_index(self.pages@, url@, i as int); }
                return Some(i);
            }
            i = i + 1;
        }
        None
    }

    /// The id of the page with this URL, adding it (state Discovered) if it
    /// is new. The same URL always gives the same id.
    pub fn insert_or_get_page(&mut self, url: &str, domain: &str, discovered_run: i64, now: i64) -> (r: Result<i64, StorageError>)
        requires
            old(self).wf(),
        ensures
            final(self).wf(),
            same_but_pages(old(self), final(self)),
            r is Ok ==> page_index(final(self).spec_pages(), url@) == Some(r->Ok_0 - 1),
            match page_index(old(self).spec_pages(), url@) {
                Some(i) => r == Ok::<i64, StorageError>((i + 1) as i64) && final(self).spec_pages() == old(self).spec_pages(),
                None => if old(self).spec_pages().len() < i64::MAX as nat - 1 {
                    &&& r == Ok::<i64, StorageError>((old(self).spec_pages().len() + 1) as i64)
                    &&& final(self).spec_pages().len() == old(self).spec_pages().len() + 1
                    &&& final(self).spec_pages().drop_last() == old(self).spec_pages()
                    &&& new_page(r->Ok_0, url@, domain@, discovered_run, now, final(self).spec_pages().last())
                } else {
                    r == Err::<i64, StorageError>(StorageError::Full) && final(self).spec_pages() == old(self).spec_pages()
                },
            },
    {
        match self.find_url(url) {
            Some(i) => {
                assert(self.pages@[i as int].id == i + 1);
                Ok(i as i64 + 1)
            },
            None => {
                if self.pages.len() as u64 >= 0x7fff_ffff_ffff_fffe {
                    return Err(StorageError::Full);
                }
                let id = self.pages.len() as i64 + 1;
                let rec = PageRecord {
                    id,
                    url: String::from_str(url),
                    domain: String::from_str(domain),
                    state: PageState::Discovered,
                    title: None,
                    status_code: None,
                    content_type: None,
                    visited_at: None,
                    discovered_at: now,
                    discovered_run,
                    error_message: None,
                    retry_count: 0,
                };
                let ghost old_pages = self.pages@;
                self.pages.push(rec);
                proof {
                    assert(self.pages@.drop_last() =~= old_pages);
                    assert forall|i: int, j: int| 0 <= i < self.pages@.len() && 0 <= j < self.pages@.len() && i != j
                        implies self.pages@[i].url@ != self.pages@[j].url@ by {
                        if i == old_pages.len() {
                            assert(old_pages[j].url@ != url@);
                        } else if j == old_pages.len() {
                            assert(old_pages[i].url@ != url@);
                        }
                    }
                    lemma_wf_pages_frame(old(self), self);
                    lemma_page_index(self.pages@, url@, old_pages.len() as int);
                }
                Ok(id)
            },
        }
    }

    /// The page with this id.
    pub fn get_page(&self, page_id: i64) -> (r: Option<&PageRecord>)
        requires
            self.wf(),
        ensures
            match r {
                Some(p) => 1 <= page_id <= self.spec_pages().len() && *p == self.spec_pages()[page_id - 1],
                None => !(1 <= page_id <= self.spec_pages().len()),
            },
    {
        if page_id >= 1 && page_id as u64 <= self.pages.len() as u64 {
            Some(&self.pages[(page_id - 1) as usize])
        } else {
            None
        }
    }

    /// The page with this URL.
    pub fn get_page_by_url(&self, url: &str) -> (r: Option<&PageRecord>)
        requires
            self.wf(),
        ensures
            match page_index(self.spec_pages(), url@) {
                Some(i) => r is Some && *r->0 == self.spec_pages()[i] && r->0.url@ == url@,
                None => r is None,
            },
    {
        match self.find_url(url) {
            Some(i) => {
                proof {
                    let j = choose|j: int| 0 <= j < self.pages@.len() && self.pages@[j].url@ == url@;
                }
                Some(&self.pages[i])
            },
            None => None,
        }
    }

    /// Sets a page's state and what was learnt of it, and stamps the visit time.
    pub fn update_page_state(
        &mut self,
        page_id: i64,
        state: PageState,
        title: Option<String>,
        status_code: Option<u16>,
        content_type: Option<String>,
        error_message: Option<String>,
        now: i64,
    ) -> (r: Result<(), StorageError>)
        requires
            old(self).wf(),
        ensures
            final(self).wf(),
            same_but_pages(old(self), final(self)),
            1 <= page_id <= old(self).spec_pages().len() ==> {
                let i = page_id - 1;
                let p = old(self).spec_pages()[i];
                &&& r is Ok
                &&& final(self).spec_pages() == old(self).spec_pages().update(i, PageRecord {
                    state,
                    title,
                    status_code,
                    content_type,
                    error_message,
                    visited_at: Some(now),
                    ..p
                })
            },
            !(1 <= page_id <= old(self).spec_pages().len()) ==> r == Err::<(), StorageError>(StorageError::PageNotFound(page_id))
                && final(self).spec_pages() == old(self).spec_pages(),
    {
        if page_id < 1 || page_id as u64 > self.pages.len() as u64 {
            return Err(StorageError::PageNotFound(page_id));
        }
        let i = (page_id - 1) as usize;
        let ghost old_pages = self.pages@;
        self.pages[i].state = state;
        self.pages[i].title = title;
        self.pages[i].status_code = status_code;
        self.pages[i].content_type = content_type;
        self.pages[i].error_message = error_message;
        self.pages[i].visited_at = Some(now);
        proof {
            assert(self.pages@.len() == old_pages.len());
            assert forall|a: int, b: int| 0 <= a < self.pages@.len() && 0 <= b < self.pages@.len() && a != b
                implies self.pages@[a].url@ != self.pages@[b].url@ by {
                assert(self.pages@[a].url == old_pages[a].url);
                assert(self.pages@[b].url == old_pages[b].url);
            }
            assert forall|a: int| 0 <= a < self.pages@.len() implies #[trigger] self.pages@[a].id == a + 1 by {
                assert(self.pages@[a].id == old_pages[a].id);
            }
            lemma_wf_pages_frame(old(self), self);
        }
        Ok(())
    }

    /// Counts one more retry of a page.
    pub fn increment_retry_count(&mut self, page_id: i64) -> (r: Result<(), StorageError>)
        requires
            old(self).wf(),
        ensures
            final(self).wf(),
            same_but_pages(old(self), final(self)),
            1 <= page_id <= old(self).spec_pages().len() && old(self).spec_pages()[page_id - 1].retry_count < u32::MAX ==> {
                let p = old(self).spec_pages()[page_id - 1];
                &&& r is Ok
                &&& final(self).spec_pages() == old(self).spec_pages().update(page_id - 1, PageRecord { retry_count: (p.retry_count + 1) as u32, ..p })
            },
            !(1 <= page_id <= old(self).spec_pages().len()) ==> r == Err::<(), StorageError>(StorageError::PageNotFound(page_id)),
            r is Err ==> final(self).spec_pages() == old(self).spec_pages(),
    {
        if page_id < 1 || page_id as u64 > self.pages.len() as u64 {
            return Err(StorageError::PageNotFound(page_id));
        }
        let i = (page_id - 1) as usize;
        if self.pages[i].retry_count == u32::MAX {
            return Err(StorageError::Full);
        }
        let ghost old_pages = self.pages@;
        self.pages[i].retry_count = self.pages[i].retry_count + 1;
        proof {
            assert(self.pages@.len() == old_pages.len());
            assert forall|a: int, b: int| 0 <= a < self.pages@.len() && 0 <= b < self.pages@.len() && a != b
                implies self.pages@[a].url@ != self.pages@[b].url@ by {
                assert(self.pages@[a].url == old_pages[a].url);
                assert(self.pages@[b].url == old_pages[b].url);
            }
            assert forall|a: int| 0 <= a < self.pages@.len() implies #[trigger] self.pages@[a].id == a + 1 by {
                assert(self.pages@[a].id == old_pages[a].id);
            }
            lemma_wf_pages_frame(old(self), self);
        }
        Ok(())
    }

    /// The ids of the pages in `state`, in order of insertion.
    pub fn get_pages_by_state(&self, state: PageState) -> (r: Vec<i64>)
        ensures
            r@ == ids_with_state(self.spec_pages(), state),
    {
        let mut r: Vec<i64> = Vec::new();
        let mut i: usize = 0;
        while i < self.pages.len()
            invariant
                0 <= i <= self.pages.len(),
                r@ == ids_with_state(self.pages@.subrange(0, i as int), state),
            decreases self.pages.len() - i,
        {
            proof { assert(self.pages@.subrange(0, i + 1).drop_last() =~= self.pages@.subrange(0, i as int)); }
            if self.pages[i].state == state {
                r.push(self.pages[i].id);
            }
            i = i + 1;
        }
        assert(self.pages@.subrange(0, self.pages.len() as int) =~= self.pages@);
        r
    }

    /// The pages left in Fetching by an interrupted run.
    pub fn get_interrupted_pages(&self) -> (r: Vec<i64>)
        ensures
            r@ == ids_with_state(self.spec_pages(), PageState::Fetching),
    {
        self.get_pages_by_state(PageState::Fetching)
    }

    /// The number of pages in `state`.
    pub fn count_pages_by_state(&self, state: PageState) -> (r: u64)
        ensures
            r == ids_with_state(self.spec_pages(), state).len(),
    {
        self.get_pages_by_state(state).len() as u64
    }

    /// The number of pages.
    pub fn count_total_pages(&self) -> (r: u64)
        ensures
            r == self.spec_pages().len(),
    {
        self.pages.len() as u64
    }
}

/// With unique keys, the depth row for (page, origin) is the one at `i`.
pub proof fn lemma_depth_row(rows: Seq<DepthRecord>, page_id: i64, origin: Seq<char>, i: int)
    requires
        depths_unique(rows),
        0 <= i < rows.len(),
        rows[i].page_id == page_id,
        rows[i].quality_origin@ == origin,
    ensures
        depth_row(rows, page_id, origin) == Some(i),
{
    let j = choose|j: int| 0 <= j < rows.len() && rows[j].page_id == page_id && rows[j].quality_origin@ == origin;
    assert(j == i);
}

/// A page is within `max_depth` from some origin.
pub open spec fn spec_should_crawl(rows: Seq<DepthRecord>, page_id: i64, max_depth: u32) -> bool {
    exists|i: int| 0 <= i < rows.len() && rows[i].page_id == page_id && rows[i].depth <= max_depth
}

/// The (origin, depth) pairs of a page, in order.
pub open spec fn depths_for(rows: Seq<DepthRecord>, page_id: i64) -> Seq<(Seq<char>, u32)>
    decreases rows.len(),
{
    if rows.len() == 0 {
        Seq::empty()
    } else if rows.last().page_id == page_id {
        depths_for(rows.drop_last(), page_id).push((rows.last().quality_origin@, rows.last().depth))
    } else {
        depths_for(rows.drop_last(), page_id)
    }
}

/// A link row exists exactly when one is counted.
pub proof fn lemma_has_link_count(links: Seq<LinkRecord>, from: i64, to: i64)
    ensures
        has_link(links, from, to) <==> link_count(links, from, to) > 0,
    decreases links.len(),
{
    if links.len() > 0 {
        let init = links.drop_last();
        lemma_has_link_count(init, from, to);
        if has_link(init, from, to) {
            let i = choose|i: int| 0 <= i < init.len() && init[i].from_page_id == from && init[i].to_page_id == to;
            assert(links[i] == init[i]);
        }
        if has_link(links, from, to) {
            let i = choose|i: int| 0 <= i < links.len() && links[i].from_page_id == from && links[i].to_page_id == to;
            if i < init.len() {
                assert(init[i] == links[i]);
            }
        }
    }
}

/// Counting after one more row.
proof fn lemma_link_count_push(links: Seq<LinkRecord>, l: LinkRecord, from: i64, to: i64)
    ensures
        link_count(links.push(l), from, to) == link_count(links, from, to)
            + if l.from_page_id == from && l.to_page_id == to { 1nat } else { 0nat },
{
    assert(links.push(l).drop_last() =~= links);
}

/// The index of the lowest-priority frontier row, first among equals.
pub open spec fn is_frontier_head(f: Seq<(i64, u32)>, k: int) -> bool {
    &&& 0 <= k < f.len()
    &&& forall|j: int| 0 <= j < f.len() ==> f[k].1 <= #[trigger] f[j].1
    &&& forall|j: int| 0 <= j < k ==> f[k].1 < #[trigger] f[j].1
}

/// `x` placed after every row whose priority is not greater.
pub open spec fn insert_by_priority(s: Seq<(i64, u32)>, x: (i64, u32)) -> Seq<(i64, u32)>
    decreases s.len(),
{
    if s.len() == 0 {
        seq![x]
    } else if x.1 < s.last().1 {
        insert_by_priority(s.drop_last(), x).push(s.last())
    } else {
        s.push(x)
    }
}

/// The rows sorted by priority; rows of equal priority keep their order.
pub open spec fn sort_by_priority(s: Seq<(i64, u32)>) -> Seq<(i64, u32)>
    decreases s.len(),
{
    if s.len() == 0 {
        Seq::empty()
    } else {
        insert_by_priority(sort_by_priority(s.drop_last()), s.last())
    }
}

/// The tables other than depths are as they were.
pub open spec fn same_but_depths(a: &CrawlStore, b: &CrawlStore) -> bool {
    &&& a.spec_pages() == b.spec_pages()
    &&& a.spec_links() == b.spec_links()
    &&& a.spec_frontier() == b.spec_frontier()
    &&& a.spec_runs() == b.spec_runs()
    &&& a.spec_blacklisted() == b.spec_blacklisted()
    &&& a.spec_stubbed() == b.spec_stubbed()
    &&& a.spec_domain_states() == b.spec_domain_states()
}

/// The tables other than links are as they were.
pub open spec fn same_but_links(a: &CrawlStore, b: &CrawlStore) -> bool {
    &&& a.spec_pages() == b.spec_pages()
    &&& a.spec_depths() == b.spec_depths()
    &&& a.spec_frontier() == b.spec_frontier()
    &&& a.spec_runs() == b.spec_runs()
    &&& a.spec_blacklisted() == b.spec_blacklisted()
    &&& a.spec_stubbed() == b.spec_stubbed()
    &&& a.spec_domain_states() == b.spec_domain_states()
}

/// The tables other than the frontier are as they were.
pub open spec fn same_but_frontier(a: &CrawlStore, b: &CrawlStore) -> bool {
    &&& a.spec_pages() == b.spec_pages()
    &&& a.spec_depths() == b.spec_depths()
    &&& a.spec_links() == b.spec_links()
    &&& a.spec_runs() == b.spec_runs()
    &&& a.spec_blacklisted() == b.spec_blacklisted()
    &&& a.spec_stubbed() == b.spec_stubbed()
    &&& a.spec_domain_states() == b.spec_domain_states()
}

impl CrawlStore {
    /// Records that `page_id` is `depth` links from `quality_origin`,
    /// keeping the smaller depth where one is stored.
    pub fn upsert_depth(&mut self, page_id: i64, quality_origin: &str, depth: u32)
        requires
            old(self).wf(),
        ensures
            final(self).wf(),
            same_but_depths(old(self), final(self)),
            depth_of(final(self).spec_depths(), page_id, quality_origin@)
                == Some(merge_depth(depth_of(old(self).spec_depths(), page_id, quality_origin@), depth)),
            forall|p: i64, o: Seq<char>| !(p == page_id && o == quality_origin@)
                ==> #[trigger] depth_of(final(self).spec_depths(), p, o) == depth_of(old(self).spec_depths(), p, o),
    {
        let ghost old_rows = self.depths@;
        let mut i: usize = 0;
        while i < self.depths.len()
            invariant
                0 <= i <= self.depths.len(),
                self.depths@ == old_rows,
                old(self).wf(),
                *self == *old(self),
                forall|j: int| 0 <= j < i ==> !(#[trigger] old_rows[j].page_id == page_id && old_rows[j].quality_origin@ == quality_origin@),
            decreases self.depths.len() - i,
        {
            if self.depths[i].page_id == page_id && str_eq(self.depths[i].quality_origin.as_str(), quality_origin) {
                proof { lemma_depth_row(old_rows, page_id, quality_origin@, i as int); }
                if depth < self.depths[i].depth {
                    self.depths[i].depth = depth;
                }
                proof {
                    let rows = self.depths@;
                    assert(rows.len() == old_rows.len());
                    assert forall|a: int| 0 <= a < rows.len() implies #[trigger] rows[a].page_id == old_rows[a].page_id
                        && rows[a].quality_origin == old_rows[a].quality_origin by {}
                    assert(depths_unique(rows));
                    lemma_depth_row(rows, page_id, quality_origin@, i as int);
                    assert forall|p: i64, o: Seq<char>| !(p == page_id && o == quality_origin@)
                        implies #[trigger] depth_of(rows, p, o) == depth_of(old_rows, p, o) by {
                        if exists|k: int| 0 <= k < rows.len() && rows[k].page_id == p && rows[k].quality_origin@ == o {
                            let k = choose|k: int| 0 <= k < rows.len() && rows[k].page_id == p && rows[k].quality_origin@ == o;
                            lemma_depth_row(rows, p, o, k);
                            lemma_depth_row(old_rows, p, o, k);
                        } else {
                            assert forall|k: int| 0 <= k < old_rows.len() implies !(old_rows[k].page_id == p && old_rows[k].quality_origin@ == o) by {
                                assert(rows[k].page_id == old_rows[k].page_id);
                                assert(rows[k].quality_origin == old_rows[k].quality_origin);
                            }
                        }
                    }
                    assert forall|from: i64, to: i64| #[trigger] link_count(self.spec_links(), from, to) <= 1 by {
                        assert(link_count(old(self).spec_links(), from, to) <= 1);
                    }
                }
                return;
            }
            i = i + 1;
        }
        let rec = DepthRecord { page_id, quality_origin: String::from_str(quality_origin), depth };
        self.depths.push(rec);
        proof {
            let rows = self.depths@;
            assert(rows.drop_last() =~= old_rows);
            assert(depth_row(old_rows, page_id, quality_origin@) is None);
            assert(depths_unique(rows));
            lemma_depth_row(rows, page_id, quality_origin@, old_rows.len() as int);
            assert forall|p: i64, o: Seq<char>| !(p == page_id && o == quality_origin@)
                implies #[trigger] depth_of(rows, p, o) == depth_of(old_rows, p, o) by {
                if exists|k: int| 0 <= k < rows.len() && rows[k].page_id == p && rows[k].quality_origin@ == o {
                    let k = choose|k: int| 0 <= k < rows.len() && rows[k].page_id == p && rows[k].quality_origin@ == o;
                    assert(k < old_rows.len());
                    lemma_depth_row(rows, p, o, k);
                    lemma_depth_row(old_rows, p, o, k);
                } else {
                    assert forall|k: int| 0 <= k < old_rows.len() implies !(old_rows[k].page_id == p && old_rows[k].quality_origin@ == o) by {
                        assert(rows[k] == old_rows[k]);
                    }
                }
            }
            assert forall|from: i64, to: i64| #[trigger] link_count(self.spec_links(), from, to) <= 1 by {
                assert(link_count(old(self).spec_links(), from, to) <= 1);
            }
        }
    }

    /// The (origin, depth) records of a page.
    pub fn get_depths(&self, page_id: i64) -> (r: Vec<DepthRecord>)
        requires
            self.wf(),
        ensures
            r@.map_values(|d: DepthRecord| (d.quality_origin@, d.depth)) == depths_for(self.spec_depths(), page_id),
            forall|i: int| 0 <= i < r@.len() ==> (#[trigger] r@[i]).page_id == page_id,
            forall|i: int| 0 <= i < r@.len()
                ==> depth_of(self.spec_depths(), page_id, (#[trigger] r@[i]).quality_origin@) == Some(r@[i].depth),
            forall|i: int, j: int| 0 <= i < j < r@.len() ==> r@[i].quality_origin@ != r@[j].quality_origin@,
            forall|o: Seq<char>| #[trigger] depth_of(self.spec_depths(), page_id, o) is Some
                ==> exists|i: int| 0 <= i < r@.len() && r@[i].quality_origin@ == o,
    {
        let mut r: Vec<DepthRecord> = Vec::new();
        let ghost mut idx: Seq<int> = Seq::empty();
        let mut i: usize = 0;
        while i < self.depths.len()
            invariant
                0 <= i <= self.depths.len(),
                self.wf(),
                r@.map_values(|d: DepthRecord| (d.quality_origin@, d.depth)) == depths_for(self.depths@.subrange(0, i as int), page_id),
                forall|k: int| 0 <= k < r@.len() ==> (#[trigger] r@[k]).page_id == page_id,
                idx.len() == r@.len(),
                forall|k: int| 0 <= k < r@.len() ==> {
                    let j = #[trigger] idx[k];
                    &&& 0 <= j < i
                    &&& self.depths@[j].page_id == page_id
                    &&& self.depths@[j].quality_origin@ == r@[k].quality_origin@
                    &&& self.depths@[j].depth == r@[k].depth
                },
                forall|k: int, m: int| 0 <= k < m < r@.len() ==> r@[k].quality_origin@ != r@[m].quality_origin@,
                forall|j: int| 0 <= j < i && #[trigger] self.depths@[j].page_id == page_id
                    ==> exists|k: int| 0 <= k < r@.len() && idx[k] == j,
            decreases self.depths.len() - i,
        {
            proof { assert(self.depths@.subrange(0, i + 1).drop_last() =~= self.depths@.subrange(0, i as int)); }
            if self.depths[i].page_id == page_id {
                let ghost before = r@;
                let ghost idx0 = idx;
                r.push(DepthRecord {
                    page_id,
                    quality_origin: self.depths[i].quality_origin.clone(),
                    depth: self.depths[i].depth,
                });
                proof {
                    idx = idx.push(i as int);
                    assert(r@.map_values(|d: DepthRecord| (d.quality_origin@, d.depth))
                        =~= before.map_values(|d: DepthRecord| (d.quality_origin@, d.depth)).push((self.depths@[i as int].quality_origin@, self.depths@[i as int].depth)));
                    assert forall|k: int| 0 <= k < r@.len() implies {
                        let j = #[trigger] idx[k];
                        &&& 0 <= j < i + 1
                        &&& self.depths@[j].page_id == page_id
                        &&& self.depths@[j].quality_origin@ == r@[k].quality_origin@
                        &&& self.depths@[j].depth == r@[k].depth
                    } by {
                        if k < before.len() {
                            assert(r@[k] == before[k]);
                            assert(idx[k] == idx0[k]);
                        }
                    }
                    assert forall|k: int, m: int| 0 <= k < m < r@.len() implies r@[k].quality_origin@ != r@[m].quality_origin@ by {
                        assert(r@[k] == before[k]);
                        assert(idx[k] == idx0[k]);
                        if m == before.len() {
                            let j = idx0[k];
                            assert(self.depths@[j].page_id == page_id);
                            assert(j != i);
                        } else {
                            assert(r@[m] == before[m]);
                        }
                    }
                    assert forall|j: int| 0 <= j < i + 1 && #[trigger] self.depths@[j].page_id == page_id
                        implies exists|k: int| 0 <= k < r@.len() && idx[k] == j by {
                        if j < i {
                            let k = choose|k: int| 0 <= k < before.len() && idx0[k] == j;
                            assert(idx[k] == idx0[k]);
                        } else {
                            assert(idx[before.len() as int] == j);
                        }
                    }
                }
            }
            i = i + 1;
        }
        assert(self.depths@.subrange(0, self.depths.len() as int) =~= self.depths@);
        proof {
            assert forall|k: int| 0 <= k < r@.len()
                implies depth_of(self.spec_depths(), page_id, (#[trigger] r@[k]).quality_origin@) == Some(r@[k].depth) by {
                let j = idx[k];
                lemma_depth_row(self.depths@, page_id, r@[k].quality_origin@, j);
            }
            assert forall|o: Seq<char>| #[trigger] depth_of(self.spec_depths(), page_id, o) is Some
                implies exists|k: int| 0 <= k < r@.len() && r@[k].quality_origin@ == o by {
                let j = choose|j: int| 0 <= j < self.depths@.len() && self.depths@[j].page_id == page_id && self.depths@[j].quality_origin@ == o;
                assert(self.depths@[j].page_id == page_id);
                let k = choose|k: int| 0 <= k < r@.len() && idx[k] == j;
                assert(r@[k].quality_origin@ == o);
            }
        }
        r
    }

    /// Whether some origin puts the page within `max_depth`.
    pub fn should_crawl(&self, page_id: i64, max_depth: u32) -> (r: bool)
        ensures
            r == spec_should_crawl(self.spec_depths(), page_id, max_depth),
    {
        let mut i: usize = 0;
        while i < self.depths.len()
            invariant
                0 <= i <= self.depths.len(),
                forall|j: int| 0 <= j < i ==> !(#[trigger] self.depths@[j].page_id == page_id && self.depths@[j].depth <= max_depth),
            decreases self.depths.len() - i,
        {
            if self.depths[i].page_id == page_id && self.depths[i].depth <= max_depth {
                return true;
            }
            i = i + 1;
        }
        false
    }

    /// Adds the link (from, to) unless it is present.
    pub fn insert_link(&mut self, from_page_id: i64, to_page_id: i64, run_id: i64)
        requires
            old(self).wf(),
        ensures
            final(self).wf(),
            same_but_links(old(self), final(self)),
            final(self).spec_links() == spec_insert_link(old(self).spec_links(), from_page_id, to_page_id, run_id),
            link_count(final(self).spec_links(), from_page_id, to_page_id) == 1,
    {
        let ghost old_links = self.links@;
        let mut i: usize = 0;
        while i < self.links.len()
            invariant
                0 <= i <= self.links.len(),
                self.links@ == old_links,
                old(self).wf(),
                *self == *old(self),
                forall|j: int| 0 <= j < i ==> !(#[trigger] old_links[j].from_page_id == from_page_id && old_links[j].to_page_id == to_page_id),
            decreases self.links.len() - i,
        {
            if self.links[i].from_page_id == from_page_id && self.links[i].to_page_id == to_page_id {
                proof {
                    lemma_has_link_count(old_links, from_page_id, to_page_id);
                    assert(link_count(old(self).spec_links(), from_page_id, to_page_id) <= 1);
                }
                return;
            }
            i = i + 1;
        }
        let l = LinkRecord { from_page_id, to_page_id, discovered_run: run_id };
        self.links.push(l);
        proof {
            lemma_has_link_count(old_links, from_page_id, to_page_id);
            assert forall|from: i64, to: i64| #[trigger] link_count(self.spec_links(), from, to) <= 1 by {
                lemma_link_count_push(old_links, l, from, to);
                assert(link_count(old(self).spec_links(), from, to) <= 1);
            }
            lemma_link_count_push(old_links, l, from_page_id, to_page_id);
        }
    }

    /// The number of links.
    pub fn count_links(&self) -> (r: u64)
        ensures
            r == self.spec_links().len(),
    {
        self.links.len() as u64
    }
}

impl CrawlStore {
    /// Queues a page with a priority, or changes the priority of a queued page.
    pub fn add_to_frontier(&mut self, page_id: i64, priority: u32) -> (r: Result<(), StorageError>)
        requires
            old(self).wf(),
        ensures
            final(self).wf(),
            same_but_frontier(old(self), final(self)),
            !(1 <= page_id <= old(self).spec_pages().len()) ==> r == Err::<(), StorageError>(StorageError::PageNotFound(page_id))
                && final(self).spec_frontier() == old(self).spec_frontier(),
            1 <= page_id <= old(self).spec_pages().len() ==> r is Ok && (
                if exists|k: int| 0 <= k < old(self).spec_frontier().len() && old(self).spec_frontier()[k].0 == page_id {
                    exists|k: int| 0 <= k < old(self).spec_frontier().len() && old(self).spec_frontier()[k].0 == page_id
                        && final(self).spec_frontier() == old(self).spec_frontier().update(k, (page_id, priority))
                } else {
                    final(self).spec_frontier() == old(self).spec_frontier().push((page_id, priority))
                }),
    {
        if page_id < 1 || page_id as u64 > self.pages.len() as u64 {
            return Err(StorageError::PageNotFound(page_id));
        }
        let ghost f0 = self.frontier@;
        let mut i: usize = 0;
        while i < self.frontier.len()
            invariant
                0 <= i <= self.frontier.len(),
                self.frontier@ == f0,
                old(self).wf(),
                *self == *old(self),
                1 <= page_id <= old(self).spec_pages().len(),
                forall|j: int| 0 <= j < i ==> (#[trigger] f0[j]).0 != page_id,
            decreases self.frontier.len() - i,
        {
            if self.frontier[i].0 == page_id {
                self.frontier.set(i, (page_id, priority));
                proof {
                    assert(self.frontier@ == f0.update(i as int, (page_id, priority)));
                    assert forall|from: i64, to: i64| #[trigger] link_count(self.spec_links(), from, to) <= 1 by {
                        assert(link_count(old(self).spec_links(), from, to) <= 1);
                    }
                    assert forall|a: int| 0 <= a < self.spec_frontier().len()
                        implies 1 <= #[trigger] self.spec_frontier()[a].0 <= self.spec_pages().len() by {
                        if a != i {
                            assert(self.spec_frontier()[a] == f0[a]);
                        }
                    }
                }
                return Ok(());
            }
            i = i + 1;
        }
        self.frontier.push((page_id, priority));
        proof {
            assert forall|from: i64, to: i64| #[trigger] link_count(self.spec_links(), from, to) <= 1 by {
                assert(link_count(old(self).spec_links(), from, to) <= 1);
            }
            assert forall|a: int| 0 <= a < self.spec_frontier().len()
                implies 1 <= #[trigger] self.spec_frontier()[a].0 <= self.spec_pages().len() by {
                if a < f0.len() {
                    assert(self.spec_frontier()[a] == f0[a]);
                }
            }
        }
        Ok(())
    }

    /// Removes and returns the page with the lowest priority (the earliest
    /// queued among equals); `None` when the frontier is empty.
    pub fn pop_from_frontier(&mut self) -> (r: Option<i64>)
        requires
            old(self).wf(),
        ensures
            final(self).wf(),
            same_but_frontier(old(self), final(self)),
            old(self).spec_frontier().len() == 0 ==> r is None && final(self).spec_frontier() == old(self).spec_frontier(),
            old(self).spec_frontier().len() > 0 ==> exists|k: int| {
                &&& is_frontier_head(old(self).spec_frontier(), k)
                &&& r == Some(old(self).spec_frontier()[k].0)
                &&& final(self).spec_frontier() == old(self).spec_frontier().remove(k)
            },
    {
        if self.frontier.len() == 0 {
            return None;
        }
        let ghost f0 = self.frontier@;
        let mut best: usize = 0;
        let mut i: usize = 1;
        while i < self.frontier.len()
            invariant
                1 <= i <= self.frontier.len(),
                0 <= best < i,
                self.frontier@ == f0,
                forall|j: int| 0 <= j < i ==> f0[best as int].1 <= #[trigger] f0[j].1,
                forall|j: int| 0 <= j < best ==> f0[best as int].1 < #[trigger] f0[j].1,
            decreases self.frontier.len() - i,
        {
            if self.frontier[i].1 < self.frontier[best].1 {
                best = i;
            }
            i = i + 1;
        }
        let head = self.frontier.remove(best);
        proof {
            assert(is_frontier_head(f0, best as int));
            assert forall|from: i64, to: i64| #[trigger] link_count(self.spec_links(), from, to) <= 1 by {
                assert(link_count(old(self).spec_links(), from, to) <= 1);
            }
            let f1 = self.frontier@;
            assert forall|a: int, b: int| 0 <= a < f1.len() && 0 <= b < f1.len() && a != b implies f1[a].0 != f1[b].0 by {
                let a0 = if a < best { a } else { a + 1 };
                let b0 = if b < best { b } else { b + 1 };
                assert(f1[a] == f0[a0]);
                assert(f1[b] == f0[b0]);
            }
            assert forall|a: int| 0 <= a < f1.len() implies 1 <= #[trigger] f1[a].0 <= self.spec_pages().len() by {
                let a0 = if a < best { a } else { a + 1 };
                assert(f1[a] == f0[a0]);
            }
        }
        Some(head.0)
    }

    /// The frontier rows in priority order (equal priorities in queue order).
    pub fn load_frontier(&self) -> (r: Vec<(i64, u32)>)
        ensures
            r@ == sort_by_priority(self.spec_frontier()),
    {
        let mut r: Vec<(i64, u32)> = Vec::new();
        let mut i: usize = 0;
        while i < self.frontier.len()
            invariant
                0 <= i <= self.frontier.len(),
                r@ == sort_by_priority(self.frontier@.subrange(0, i as int)),
            decreases self.frontier.len() - i,
        {
            let x = self.frontier[i];
            let ghost s = r@;
            let mut j: usize = r.len();
            assert(s.subrange(0, s.len() as int) =~= s);
            assert(insert_by_priority(s, x) + s.subrange(s.len() as int, s.len() as int) =~= insert_by_priority(s, x));
            while j > 0 && x.1 < r[j - 1].1
                invariant
                    0 <= j <= r.len(),
                    r@ == s,
                    insert_by_priority(s, x) == insert_by_priority(s.subrange(0, j as int), x) + s.subrange(j as int, s.len() as int),
                decreases j,
            {
                proof {
                    let pre = s.subrange(0, j as int);
                    assert(pre.drop_last() =~= s.subrange(0, j - 1));
                    assert(insert_by_priority(s.subrange(0, j - 1), x).push(s[j - 1]) + s.subrange(j as int, s.len() as int)
                        =~= insert_by_priority(s.subrange(0, j - 1), x) + s.subrange(j - 1, s.len() as int));
                }
                j = j - 1;
            }
            proof {
                let pre = s.subrange(0, j as int);
                assert(insert_by_priority(pre, x) =~= pre.push(x));
            }
            r.insert(j, x);
            proof {
                assert(r@ =~= s.subrange(0, j as int).push(x) + s.subrange(j as int, s.len() as int));
                assert(self.frontier@.subrange(0, i + 1).drop_last() =~= self.frontier@.subrange(0, i as int));
            }
            i = i + 1;
        }
        assert(self.frontier@.subrange(0, self.frontier.len() as int) =~= self.frontier@);
        r
    }

    /// Empties the frontier.
    pub fn clear_frontier(&mut self)
        requires
            old(self).wf(),
        ensures
            final(self).wf(),
            same_but_frontier(old(self), final(self)),
            final(self).spec_frontier().len() == 0,
    {
        self.frontier = Vec::new();
        proof {
            assert forall|from: i64, to: i64| #[trigger] link_count(self.spec_links(), from, to) <= 1 by {
                assert(link_count(old(self).spec_links(), from, to) <= 1);
            }
        }
    }

    /// The number of queued pages.
    pub fn frontier_len(&self) -> (r: usize)
        ensures
            r == self.spec_frontier().len(),
    {
        self.frontier.len()
    }
}

/// The tables other than runs are as they were.
pub open spec fn same_but_runs(a: &CrawlStore, b: &CrawlStore) -> bool {
    &&& a.spec_pages() == b.spec_pages()
    &&& a.spec_depths() == b.spec_depths()
    &&& a.spec_links() == b.spec_links()
    &&& a.spec_frontier() == b.spec_frontier()
    &&& a.spec_blacklisted() == b.spec_blacklisted()
    &&& a.spec_stubbed() == b.spec_stubbed()
    &&& a.spec_domain_states() == b.spec_domain_states()
}

/// The graph tables are as they were (referrer records may grow).
pub open spec fn same_graph(a: &CrawlStore, b: &CrawlStore) -> bool {
    &&& a.spec_pages() == b.spec_pages()
    &&& a.spec_depths() == b.spec_depths()
    &&& a.spec_links() == b.spec_links()
    &&& a.spec_frontier() == b.spec_frontier()
    &&& a.spec_runs() == b.spec_runs()
    &&& a.spec_domain_states() == b.spec_domain_states()
}

/// A referrer record holds these values.
pub open spec fn referrer_holds(r: ReferrerRecord, url: Seq<char>, referrer: Seq<char>, run: i64) -> bool {
    r.url@ == url && r.referrer_url@ == referrer && r.discovered_run == run
}

proof fn lemma_wf_frame_runs(a: &CrawlStore, b: &CrawlStore)
    requires
        a.wf(),
        same_but_runs(a, b),
        forall|i: int| 0 <= i < b.spec_runs().len() ==> #[trigger] b.spec_runs()[i].id == i + 1,
    ensures
        b.wf(),
{
    assert forall|from: i64, to: i64| #[trigger] link_count(b.spec_links(), from, to) <= 1 by {
        assert(link_count(a.spec_links(), from, to) <= 1);
    }
}

proof fn lemma_wf_frame_graph(a: &CrawlStore, b: &CrawlStore)
    requires
        a.wf(),
        same_graph(a, b),
    ensures
        b.wf(),
{
    assert forall|from: i64, to: i64| #[trigger] link_count(b.spec_links(), from, to) <= 1 by {
        assert(link_count(a.spec_links(), from, to) <= 1);
    }
}

impl CrawlStore {
    /// Starts a run (status Running) and returns its id.
    pub fn create_run(&mut self, config_hash: &str, now: i64) -> (r: Result<i64, StorageError>)
        requires
            old(self).wf(),
        ensures
            final(self).wf(),
            same_but_runs(old(self), final(self)),
            old(self).spec_runs().len() < 0x7fff_ffff_ffff_fffe ==> {
                &&& r == Ok::<i64, StorageError>((old(self).spec_runs().len() + 1) as i64)
                &&& final(self).spec_runs().drop_last() == old(self).spec_runs()
                &&& final(self).spec_runs().len() == old(self).spec_runs().len() + 1
                &&& final(self).spec_runs().last().status == RunStatus::Running
                &&& final(self).spec_runs().last().config_hash@ == config_hash@
                &&& final(self).spec_runs().last().started_at == now
                &&& final(self).spec_runs().last().finished_at is None
            },
            old(self).spec_runs().len() >= 0x7fff_ffff_ffff_fffe ==> r == Err::<i64, StorageError>(StorageError::Full)
                && final(self).spec_runs() == old(self).spec_runs(),
    {
        if self.runs.len() as u64 >= 0x7fff_ffff_ffff_fffe {
            return Err(StorageError::Full);
        }
        let id = self.runs.len() as i64 + 1;
        let ghost r0 = self.runs@;
        self.runs.push(RunRecord {
            id,
            started_at: now,
            finished_at: None,
            config_hash: String::from_str(config_hash),
            status: RunStatus::Running,
        });
        proof {
            assert(self.runs@.drop_last() =~= r0);
            assert forall|i: int| 0 <= i < self.spec_runs().len() implies #[trigger] self.spec_runs()[i].id == i + 1 by {
                if i < r0.len() {
                    assert(self.spec_runs()[i] == r0[i]);
                }
            }
            lemma_wf_frame_runs(old(self), self);
        }
        Ok(id)
    }

    /// The run with this id.
    pub fn get_run(&self, run_id: i64) -> (r: Option<&RunRecord>)
        requires
            self.wf(),
        ensures
            match r {
                Some(run) => 1 <= run_id <= self.spec_runs().len() && *run == self.spec_runs()[run_id - 1],
                None => !(1 <= run_id <= self.spec_runs().len()),
            },
    {
        if run_id >= 1 && run_id as u64 <= self.runs.len() as u64 {
            Some(&self.runs[(run_id - 1) as usize])
        } else {
            None
        }
    }

    /// The most recent run, if any.
    pub fn get_latest_run(&self) -> (r: Option<&RunRecord>)
        ensures
            match r {
                Some(run) => self.spec_runs().len() > 0 && *run == self.spec_runs().last(),
                None => self.spec_runs().len() == 0,
            },
    {
        if self.runs.len() == 0 {
            None
        } else {
            Some(&self.runs[self.runs.len() - 1])
        }
    }

    /// Sets a run's status.
    pub fn update_run_status(&mut self, run_id: i64, status: RunStatus) -> (r: Result<(), StorageError>)
        requires
            old(self).wf(),
        ensures
            final(self).wf(),
            same_but_runs(old(self), final(self)),
            1 <= run_id <= old(self).spec_runs().len() ==> r is Ok && final(self).spec_runs()
                == old(self).spec_runs().update(run_id - 1, RunRecord { status, ..old(self).spec_runs()[run_id - 1] }),
            !(1 <= run_id <= old(self).spec_runs().len()) ==> r == Err::<(), StorageError>(StorageError::RunNotFound(run_id))
                && final(self).spec_runs() == old(self).spec_runs(),
    {
        if run_id < 1 || run_id as u64 > self.runs.len() as u64 {
            return Err(StorageError::RunNotFound(run_id));
        }
        let i = (run_id - 1) as usize;
        let ghost r0 = self.runs@;
        self.runs[i].status = status;
        proof {
            assert forall|a: int| 0 <= a < self.spec_runs().len() implies #[trigger] self.spec_runs()[a].id == a + 1 by {
                assert(self.spec_runs()[a].id == r0[a].id);
            }
            assert(self.runs@ =~= r0.update(i as int, RunRecord { status, ..r0[i as int] }));
            lemma_wf_frame_runs(old(self), self);
        }
        Ok(())
    }

    /// Marks a run Completed at `now`.
    pub fn complete_run(&mut self, run_id: i64, now: i64) -> (r: Result<(), StorageError>)
        requires
            old(self).wf(),
        ensures
            final(self).wf(),
            same_but_runs(old(self), final(self)),
            1 <= run_id <= old(self).spec_runs().len() ==> r is Ok && final(self).spec_runs()
                == old(self).spec_runs().update(run_id - 1, RunRecord {
                    status: RunStatus::Completed,
                    finished_at: Some(now),
                    ..old(self).spec_runs()[run_id - 1]
                }),
            !(1 <= run_id <= old(self).spec_runs().len()) ==> r == Err::<(), StorageError>(StorageError::RunNotFound(run_id))
                && final(self).spec_runs() == old(self).spec_runs(),
    {
        if run_id < 1 || run_id as u64 > self.runs.len() as u64 {
            return Err(StorageError::RunNotFound(run_id));
        }
        let i = (run_id - 1) as usize;
        let ghost r0 = self.runs@;
        self.runs[i].status = RunStatus::Completed;
        self.runs[i].finished_at = Some(now);
        proof {
            assert forall|a: int| 0 <= a < self.spec_runs().len() implies #[trigger] self.spec_runs()[a].id == a + 1 by {
                assert(self.spec_runs()[a].id == r0[a].id);
            }
            assert(self.runs@ =~= r0.update(i as int, RunRecord { status: RunStatus::Completed, finished_at: Some(now), ..r0[i as int] }));
            lemma_wf_frame_runs(old(self), self);
        }
        Ok(())
    }

    /// Records a URL on a blacklisted domain and the page that linked to it.
    pub fn record_blacklisted(&mut self, url: &str, referrer: &str, run_id: i64)
        requires
            old(self).wf(),
        ensures
            final(self).wf(),
            same_graph(old(self), final(self)),
            final(self).spec_stubbed() == old(self).spec_stubbed(),
            final(self).spec_blacklisted().drop_last() == old(self).spec_blacklisted(),
            final(self).spec_blacklisted().len() == old(self).spec_blacklisted().len() + 1,
            referrer_holds(final(self).spec_blacklisted().last(), url@, referrer@, run_id),
    {
        let ghost b0 = self.blacklisted@;
        self.blacklisted.push(ReferrerRecord {
            url: String::from_str(url),
            referrer_url: String::from_str(referrer),
            discovered_run: run_id,
        });
        proof {
            assert(self.blacklisted@.drop_last() =~= b0);
            lemma_wf_frame_graph(old(self), self);
        }
    }

    /// Records a URL on a stubbed domain and the page that linked to it.
    pub fn record_stubbed(&mut self, url: &str, referrer: &str, run_id: i64)
        requires
            old(self).wf(),
        ensures
            final(self).wf(),
            same_graph(old(self), final(self)),
            final(self).spec_blacklisted() == old(self).spec_blacklisted(),
            final(self).spec_stubbed().drop_last() == old(self).spec_stubbed(),
            final(self).spec_stubbed().len() == old(self).spec_stubbed().len() + 1,
            referrer_holds(final(self).spec_stubbed().last(), url@, referrer@, run_id),
    {
        let ghost s0 = self.stubbed@;
        self.stubbed.push(ReferrerRecord {
            url: String::from_str(url),
            referrer_url: String::from_str(referrer),
            discovered_run: run_id,
        });
        proof {
            assert(self.stubbed@.drop_last() =~= s0);
            lemma_wf_frame_graph(old(self), self);
        }
    }

    /// The number of blacklisted referrer records.
    pub fn count_blacklisted(&self) -> (r: usize)
        ensures
            r == self.spec_blacklisted().len(),
    {
        self.blacklisted.len()
    }

    /// The number of stubbed referrer records.
    pub fn count_stubbed(&self) -> (r: usize)
        ensures
            r == self.spec_stubbed().len(),
    {
        self.stubbed.len()
    }
}

/// The stored depth after the observations `ds`, starting from none.
pub open spec fn merged_depth(ds: Seq<u32>) -> Option<u32>
    decreases ds.len(),
{
    if ds.len() == 0 {
        None
    } else {
        Some(merge_depth(merged_depth(ds.drop_last()), ds.last()))
    }
}

/// After any sequence of depth observations for one (page, origin), the
/// stored depth is the minimum of the observed values: it is one of them,
/// and none is smaller.
pub proof fn lemma_depth_is_minimum(ds: Seq<u32>)
    requires
        ds.len() > 0,
    ensures
        merged_depth(ds) is Some,
        forall|i: int| 0 <= i < ds.len() ==> merged_depth(ds)->0 <= #[trigger] ds[i],
        exists|i: int| 0 <= i < ds.len() && merged_depth(ds)->0 == ds[i],
    decreases ds.len(),
{
    let init = ds.drop_last();
    if init.len() == 0 {
        assert(ds[0] == ds.last());
        assert(merged_depth(ds)->0 == ds[0]);
    } else {
        lemma_depth_is_minimum(init);
        let m = merged_depth(init)->0;
        let k = choose|k: int| 0 <= k < init.len() && m == init[k];
        assert forall|i: int| 0 <= i < ds.len() implies merged_depth(ds)->0 <= #[trigger] ds[i] by {
            if i < init.len() {
                assert(ds[i] == init[i]);
            }
        }
        if m <= ds.last() {
            assert(ds[k] == init[k]);
        } else {
            assert(merged_depth(ds)->0 == ds[ds.len() - 1]);
        }
    }
}

/// Inserting the same link twice leaves one row for the pair, and the
/// second insertion changes nothing.
pub proof fn lemma_insert_link_twice(links: Seq<LinkRecord>, from: i64, to: i64, run1: i64, run2: i64)
    requires
        link_count(links, from, to) <= 1,
    ensures
        spec_insert_link(spec_insert_link(links, from, to, run1), from, to, run2) == spec_insert_link(links, from, to, run1),
        link_count(spec_insert_link(spec_insert_link(links, from, to, run1), from, to, run2), from, to) == 1,
{
    let once = spec_insert_link(links, from, to, run1);
    lemma_has_link_count(links, from, to);
    if !has_link(links, from, to) {
        let l = LinkRecord { from_page_id: from, to_page_id: to, discovered_run: run1 };
        lemma_link_count_push(links, l, from, to);
        assert(once[links.len() as int] == l);
    }
    lemma_has_link_count(once, from, to);
}

/// The id that `insert_or_get_page` returns for a URL is the id of the row
/// that holds that URL, and that row is what `get_page_by_url` finds: one
/// URL, one id, one row whose URL is the URL given.
pub proof fn lemma_url_identifies_page(pages: Seq<PageRecord>, url: Seq<char>, id: i64)
    requires
        pages_wf(pages),
        page_index(pages, url) == Some(id - 1),
    ensures
        pages[id - 1].url@ == url,
        pages[id - 1].id == id,
        forall|j: int| 0 <= j < pages.len() && pages[j].url@ == url ==> j == id - 1,
{
    let i = choose|i: int| 0 <= i < pages.len() && pages[i].url@ == url;
    assert(pages[i].id == i + 1);
}

/// The version of the stored layout.
pub fn get_schema_version() -> (r: u32)
    ensures
        r == 1,
{
    1
}

/// What is persisted of a domain state: all but the monotonic last request time.
pub open spec fn persisted(d: (String, DomainState)) -> (Seq<char>, u32, bool, Option<(Seq<char>, i64)>, Option<i64>) {
    (
        d.0@,
        d.1.request_count,
        d.1.rate_limited,
        match d.1.robots_txt { Some(c) => Some((c.content@, c.fetched_at)), None => None },
        d.1.robots_fetched_at,
    )
}

fn copy_state(d: &(String, DomainState)) -> (r: (String, DomainState))
    ensures
        persisted(r) == persisted(*d),
        r.1.last_request_time is None,
{
    let robots = match &d.1.robots_txt {
        Some(c) => Some(CachedRobots { content: c.content.clone(), fetched_at: c.fetched_at }),
        None => None,
    };
    (d.0.clone(), DomainState {
        request_count: d.1.request_count,
        last_request_time: None,
        rate_limited: d.1.rate_limited,
        robots_txt: robots,
        robots_fetched_at: d.1.robots_fetched_at,
    })
}

fn copy_states(states: &Vec<(String, DomainState)>) -> (r: Vec<(String, DomainState)>)
    ensures
        r@.map_values(|d: (String, DomainState)| persisted(d)) == states@.map_values(|d: (String, DomainState)| persisted(d)),
        forall|i: int| 0 <= i < r@.len() ==> (#[trigger] r@[i]).1.last_request_time is None,
{
    let mut r: Vec<(String, DomainState)> = Vec::new();
    let mut i: usize = 0;
    while i < states.len()
        invariant
            0 <= i <= states.len(),
            r.len() == i,
            r@.map_values(|d: (String, DomainState)| persisted(d)) == states@.subrange(0, i as int).map_values(|d: (String, DomainState)| persisted(d)),
            forall|k: int| 0 <= k < r@.len() ==> (#[trigger] r@[k]).1.last_request_time is None,
        decreases states.len() - i,
    {
        let c = copy_state(&states[i]);
        let ghost before = r@;
        let ghost cv = c;
        r.push(c);
        proof {
            assert(r@ == before.push(cv));
            assert(persisted(cv) == persisted(states@[i as int]));
            assert forall|k: int| 0 <= k < i + 1 implies persisted(#[trigger] r@[k]) == persisted(states@[k]) by {
                if k < i {
                    assert(before.map_values(|d: (String, DomainState)| persisted(d))[k]
                        == states@.subrange(0, i as int).map_values(|d: (String, DomainState)| persisted(d))[k]);
                    assert(r@[k] == before[k]);
                }
            }
            assert(r@.map_values(|d: (String, DomainState)| persisted(d))
                =~= states@.subrange(0, i + 1).map_values(|d: (String, DomainState)| persisted(d)));
        }
        i = i + 1;
    }
    assert(states@.subrange(0, states.len() as int) =~= states@);
    r
}

impl CrawlStore {
    /// Replaces the persisted domain states.
    pub fn save_domain_states(&mut self, states: &Vec<(String, DomainState)>)
        requires
            old(self).wf(),
        ensures
            final(self).wf(),
            final(self).spec_pages() == old(self).spec_pages(),
            final(self).spec_depths() == old(self).spec_depths(),
            final(self).spec_links() == old(self).spec_links(),
            final(self).spec_frontier() == old(self).spec_frontier(),
            final(self).spec_runs() == old(self).spec_runs(),
            final(self).spec_domain_states().map_values(|d: (String, DomainState)| persisted(d))
                == states@.map_values(|d: (String, DomainState)| persisted(d)),
    {
        self.domain_states = copy_states(states);
        proof {
            assert forall|from: i64, to: i64| #[trigger] link_count(self.spec_links(), from, to) <= 1 by {
                assert(link_count(old(self).spec_links(), from, to) <= 1);
            }
        }
    }

    /// The persisted domain states, each with no last request time (the
    /// monotonic clock of an earlier process means nothing now).
    pub fn load_domain_states(&self) -> (r: Vec<(String, DomainState)>)
        ensures
            r@.map_values(|d: (String, DomainState)| persisted(d))
                == self.spec_domain_states().map_values(|d: (String, DomainState)| persisted(d)),
            forall|i: int| 0 <= i < r@.len() ==> (#[trigger] r@[i]).1.last_request_time is None,
    {
        copy_states(&self.domain_states)
    }
}

/// Inserting by priority adds exactly `x` to the rows.
proof fn lemma_insert_by_priority_members(s: Seq<(i64, u32)>, x: (i64, u32))
    ensures
        forall|i: int| 0 <= i < insert_by_priority(s, x).len() ==> (#[trigger] insert_by_priority(s, x)[i] == x || s.contains(insert_by_priority(s, x)[i])),
        insert_by_priority(s, x).len() == s.len() + 1,
    decreases s.len(),
{
    let r = insert_by_priority(s, x);
    if s.len() > 0 {
        if x.1 < s.last().1 {
            let init = s.drop_last();
            lemma_insert_by_priority_members(init, x);
            let r0 = insert_by_priority(init, x);
            assert forall|i: int| 0 <= i < r.len() implies (#[trigger] r[i] == x || s.contains(r[i])) by {
                if i < r0.len() {
                    assert(r[i] == r0[i]);
                    if r0[i] != x {
                        let k = choose|k: int| 0 <= k < init.len() && init[k] == r0[i];
                        assert(s[k] == init[k]);
                    }
                } else {
                    assert(s[s.len() - 1] == s.last());
                }
            }
        } else {
            assert forall|i: int| 0 <= i < r.len() implies (#[trigger] r[i] == x || s.contains(r[i])) by {
                if i < s.len() {
                    assert(r[i] == s[i]);
                }
            }
        }
    }
}

/// Every row of the sorted frontier is a row of the frontier.
pub proof fn lemma_sort_by_priority_members(s: Seq<(i64, u32)>)
    ensures
        forall|i: int| 0 <= i < sort_by_priority(s).len() ==> s.contains(#[trigger] sort_by_priority(s)[i]),
    decreases s.len(),
{
    if s.len() > 0 {
        let init = s.drop_last();
        lemma_sort_by_priority_members(init);
        let t = sort_by_priority(init);
        lemma_insert_by_priority_members(t, s.last());
        let r = sort_by_priority(s);
        assert forall|i: int| 0 <= i < r.len() implies s.contains(#[trigger] r[i]) by {
            if r[i] == s.last() {
                assert(s[s.len() - 1] == s.last());
            } else {
                let k = choose|k: int| 0 <= k < t.len() && t[k] == r[i];
                let m = choose|m: int| 0 <= m < init.len() && init[m] == t[k];
                assert(s[m] == init[m]);
            }
        }
    }
}

/// The number of pages in an error state.
pub open spec fn error_page_count(pages: Seq<PageRecord>) -> nat
    decreases pages.len(),
{
    if pages.len() == 0 {
        0
    } else {
        error_page_count(pages.drop_last()) + if crate::page_state::spec_is_error(pages.last().state) { 1nat } else { 0nat }
    }
}

/// The number of distinct domains among pages.
pub open spec fn distinct_domains(pages: Seq<PageRecord>) -> nat
    decreases pages.len(),
{
    if pages.len() == 0 {
        0
    } else {
        let init = pages.drop_last();
        distinct_domains(init) + if exists|j: int| 0 <= j < init.len() && init[j].domain@ == pages.last().domain@ { 0nat } else { 1nat }
    }
}

impl CrawlStore {
    /// The number of pages in an error state.
    pub fn count_error_pages(&self) -> (r: u64)
        ensures
            r == error_page_count(self.spec_pages()),
    {
        let mut n: u64 = 0;
        let mut i: usize = 0;
        while i < self.pages.len()
            invariant
                0 <= i <= self.pages.len(),
                n == error_page_count(self.pages@.subrange(0, i as int)),
                n <= i,
            decreases self.pages.len() - i,
        {
            proof { assert(self.pages@.subrange(0, i + 1).drop_last() =~= self.pages@.subrange(0, i as int)); }
            if self.pages[i].state.is_error() {
                n = n + 1;
            }
            i = i + 1;
        }
        assert(self.pages@.subrange(0, self.pages.len() as int) =~= self.pages@);
        n
    }

    /// The number of distinct domains among pages.
    pub fn count_unique_domains(&self) -> (r: u64)
        ensures
            r == distinct_domains(self.spec_pages()),
    {
        let mut n: u64 = 0;
        let mut i: usize = 0;
        while i < self.pages.len()
            invariant
                0 <= i <= self.pages.len(),
                n == distinct_domains(self.pages@.subrange(0, i as int)),
                n <= i,
            decreases self.pages.len() - i,
        {
            let ghost pre = self.pages@.subrange(0, i as int);
            proof {
                assert(self.pages@.subrange(0, i + 1).drop_last() =~= pre);
                assert(self.pages@.subrange(0, i + 1).last() == self.pages@[i as int]);
            }
            let mut seen = false;
            let mut j: usize = 0;
            while j < i
                invariant
                    0 <= j <= i < self.pages.len(),
                    pre == self.pages@.subrange(0, i as int),
                    seen == exists|k: int| 0 <= k < j && pre[k].domain@ == self.pages@[i as int].domain@,
                decreases i - j,
            {
                if str_eq(self.pages[j].domain.as_str(), self.pages[i].domain.as_str()) {
                    assert(pre[j as int] == self.pages@[j as int]);
                    seen = true;
                } else {
                    proof {
                        assert(pre[j as int] == self.pages@[j as int]);
                        if exists|k: int| 0 <= k < j + 1 && pre[k].domain@ == self.pages@[i as int].domain@ {
                            let k = choose|k: int| 0 <= k < j + 1 && pre[k].domain@ == self.pages@[i as int].domain@;
                            assert(k < j);
                        }
                    }
                }
                j = j + 1;
            }
            if !seen {
                n = n + 1;
            }
            i = i + 1;
        }
        assert(self.pages@.subrange(0, self.pages.len() as int) =~= self.pages@);
        n
    }
}

/// The links leaving `page_id`, in order.
pub open spec fn links_from(links: Seq<LinkRecord>, page_id: i64) -> Seq<LinkRecord>
    decreases links.len(),
{
    if links.len() == 0 {
        Seq::empty()
    } else if links.last().from_page_id == page_id {
        links_from(links.drop_last(), page_id).push(links.last())
    } else {
        links_from(links.drop_last(), page_id)
    }
}

/// The links reaching `page_id`, in order.
pub open spec fn links_to(links: Seq<LinkRecord>, page_id: i64) -> Seq<LinkRecord>
    decreases links.len(),
{
    if links.len() == 0 {
        Seq::empty()
    } else if links.last().to_page_id == page_id {
        links_to(links.drop_last(), page_id).push(links.last())
    } else {
        links_to(links.drop_last(), page_id)
    }
}

/// The distinct domains of pages in state RateLimited, in order of first appearance.
pub open spec fn rate_limited_domains(pages: Seq<PageRecord>) -> Seq<Seq<char>>
    decreases pages.len(),
{
    if pages.len() == 0 {
        Seq::empty()
    } else {
        let rest = rate_limited_domains(pages.drop_last());
        if pages.last().state == PageState::RateLimited && !rest.contains(pages.last().domain@) {
            rest.push(pages.last().domain@)
        } else {
            rest
        }
    }
}

/// The rate-limited domains hold no duplicate, and hold exactly the
/// domains of the pages in state RateLimited.
pub proof fn lemma_rate_limited_domains(pages: Seq<PageRecord>)
    ensures
        forall|i: int, j: int| 0 <= i < j < rate_limited_domains(pages).len()
            ==> rate_limited_domains(pages)[i] != rate_limited_domains(pages)[j],
        forall|d: Seq<char>| #[trigger] rate_limited_domains(pages).contains(d)
            <==> exists|k: int| 0 <= k < pages.len() && pages[k].state == PageState::RateLimited && pages[k].domain@ == d,
    decreases pages.len(),
{
    if pages.len() > 0 {
        let init = pages.drop_last();
        lemma_rate_limited_domains(init);
        let rest = rate_limited_domains(init);
        let r = rate_limited_domains(pages);
        assert forall|d: Seq<char>| r.contains(d)
            <==> exists|k: int| 0 <= k < pages.len() && pages[k].state == PageState::RateLimited && pages[k].domain@ == d by {
            if r.contains(d) {
                let i = choose|i: int| 0 <= i < r.len() && r[i] == d;
                if i < rest.len() {
                    assert(rest[i] == d);
                    assert(rest.contains(d));
                    let k = choose|k: int| 0 <= k < init.len() && init[k].state == PageState::RateLimited && init[k].domain@ == d;
                    assert(pages[k] == init[k]);
                } else {
                    assert(pages[pages.len() - 1] == pages.last());
                }
            }
            if exists|k: int| 0 <= k < pages.len() && pages[k].state == PageState::RateLimited && pages[k].domain@ == d {
                let k = choose|k: int| 0 <= k < pages.len() && pages[k].state == PageState::RateLimited && pages[k].domain@ == d;
                if k < init.len() {
                    assert(init[k] == pages[k]);
                    assert(rest.contains(d));
                    let i = choose|i: int| 0 <= i < rest.len() && rest[i] == d;
                    assert(r[i] == d);
                } else {
                    assert(pages[k] == pages.last());
                    if rest.contains(d) {
                        let i = choose|i: int| 0 <= i < rest.len() && rest[i] == d;
                        assert(r[i] == d);
                    } else {
                        assert(r[rest.len() as int] == d);
                    }
                }
            }
        }
    }
}

impl CrawlStore {
    /// The links leaving a page.
    pub fn get_outgoing_links(&self, page_id: i64) -> (r: Vec<LinkRecord>)
        ensures
            r@ == links_from(self.spec_links(), page_id),
    {
        let mut r: Vec<LinkRecord> = Vec::new();
        let mut i: usize = 0;
        while i < self.links.len()
            invariant
                0 <= i <= self.links.len(),
                r@ == links_from(self.links@.subrange(0, i as int), page_id),
            decreases self.links.len() - i,
        {
            proof { assert(self.links@.subrange(0, i + 1).drop_last() =~= self.links@.subrange(0, i as int)); }
            if self.links[i].from_page_id == page_id {
                r.push(self.links[i]);
            }
            i = i + 1;
        }
        assert(self.links@.subrange(0, self.links.len() as int) =~= self.links@);
        r
    }

    /// The links reaching a page.
    pub fn get_incoming_links(&self, page_id: i64) -> (r: Vec<LinkRecord>)
        ensures
            r@ == links_to(self.spec_links(), page_id),
    {
        let mut r: Vec<LinkRecord> = Vec::new();
        let mut i: usize = 0;
        while i < self.links.len()
            invariant
                0 <= i <= self.links.len(),
                r@ == links_to(self.links@.subrange(0, i as int), page_id),
            decreases self.links.len() - i,
        {
            proof { assert(self.links@.subrange(0, i + 1).drop_last() =~= self.links@.subrange(0, i as int)); }
            if self.links[i].to_page_id == page_id {
                r.push(self.links[i]);
            }
            i = i + 1;
        }
        assert(self.links@.subrange(0, self.links.len() as int) =~= self.links@);
        r
    }

    /// The distinct domains of pages in state RateLimited.
    pub fn get_rate_limited_domains(&self) -> (r: Vec<String>)
        ensures
            r@.map_values(|d: String| d@) == rate_limited_domains(self.spec_pages()),
            forall|i: int, j: int| 0 <= i < j < r@.len() ==> r@[i]@ != r@[j]@,
            forall|d: Seq<char>| #[trigger] rate_limited_domains(self.spec_pages()).contains(d)
                <==> exists|k: int| 0 <= k < self.spec_pages().len() && self.spec_pages()[k].state == PageState::RateLimited
                    && self.spec_pages()[k].domain@ == d,
    {
        let mut names: Vec<String> = Vec::new();
        let mut k: usize = 0;
        while k < self.pages.len()
            invariant
                0 <= k <= self.pages.len(),
                names@.map_values(|d: String| d@) == rate_limited_domains(self.pages@.subrange(0, k as int)),
            decreases self.pages.len() - k,
        {
            let ghost pre = self.pages@.subrange(0, k as int);
            proof {
                assert(self.pages@.subrange(0, k + 1).drop_last() =~= pre);
                assert(self.pages@.subrange(0, k + 1).last() == self.pages@[k as int]);
            }
            if self.pages[k].state == PageState::RateLimited {
                let mut seen = false;
                let mut j: usize = 0;
                let ghost nv = names@.map_values(|d: String| d@);
                while j < names.len()
                    invariant
                        0 <= j <= names.len(),
                        nv == names@.map_values(|d: String| d@),
                        k < self.pages.len(),
                        seen == exists|m: int| 0 <= m < j && nv[m] == self.pages@[k as int].domain@,
                    decreases names.len() - j,
                {
                    assert(nv[j as int] == names@[j as int]@);
                    if str_eq(names[j].as_str(), self.pages[k].domain.as_str()) {
                        seen = true;
                    } else {
                        proof {
                            if exists|m: int| 0 <= m < j + 1 && nv[m] == self.pages@[k as int].domain@ {
                                let m = choose|m: int| 0 <= m < j + 1 && nv[m] == self.pages@[k as int].domain@;
                                assert(m < j);
                            }
                        }
                    }
                    j = j + 1;
                }
                proof {
                    if nv.contains(self.pages@[k as int].domain@) {
                        let m = choose|m: int| 0 <= m < nv.len() && nv[m] == self.pages@[k as int].domain@;
                    }
                }
                if !seen {
                    let ghost before = names@;
                    names.push(self.pages[k].domain.clone());
                    assert(names@.map_values(|d: String| d@) =~= before.map_values(|d: String| d@).push(self.pages@[k as int].domain@));
                }
            }
            k = k + 1;
        }
        assert(self.pages@.subrange(0, self.pages.len() as int) =~= self.pages@);
        proof {
            lemma_rate_limited_domains(self.pages@);
            let nv = names@.map_values(|d: String| d@);
            assert forall|i: int, j: int| 0 <= i < j < names@.len() implies names@[i]@ != names@[j]@ by {
                assert(nv[i] == names@[i]@);
                assert(nv[j] == names@[j]@);
            }
        }
        names
    }
}

/// One more reference, stopping at the largest count.
pub open spec fn bump(c: u32) -> u32 {
    if c < u32::MAX { (c + 1) as u32 } else { c }
}

/// The first position of URL `u` among the counted URLs, or -1.
pub open spec fn url_pos(acc: Seq<(Seq<char>, u32)>, u: Seq<char>) -> int
    decreases acc.len(),
{
    if acc.len() == 0 {
        -1
    } else {
        let p = url_pos(acc.drop_last(), u);
        if p >= 0 { p } else if acc.last().0 == u { acc.len() - 1 } else { -1 }
    }
}

/// Each referenced URL once, in order of first appearance, with its number
/// of records.
pub open spec fn group_counts(records: Seq<ReferrerRecord>) -> Seq<(Seq<char>, u32)>
    decreases records.len(),
{
    if records.len() == 0 {
        Seq::empty()
    } else {
        let acc = group_counts(records.drop_last());
        let u = records.last().url@;
        let p = url_pos(acc, u);
        if p >= 0 { acc.update(p, (u, bump(acc[p].1))) } else { acc.push((u, 1u32)) }
    }
}

/// `x` placed after every entry whose count is not smaller.
pub open spec fn insert_by_count(s: Seq<(Seq<char>, u32)>, x: (Seq<char>, u32)) -> Seq<(Seq<char>, u32)>
    decreases s.len(),
{
    if s.len() == 0 {
        seq![x]
    } else if x.1 > s.last().1 {
        insert_by_count(s.drop_last(), x).push(s.last())
    } else {
        s.push(x)
    }
}

/// The entries by decreasing count; equal counts keep their order.
pub open spec fn sort_by_count(s: Seq<(Seq<char>, u32)>) -> Seq<(Seq<char>, u32)>
    decreases s.len(),
{
    if s.len() == 0 {
        Seq::empty()
    } else {
        insert_by_count(sort_by_count(s.drop_last()), s.last())
    }
}

proof fn lemma_url_pos(acc: Seq<(Seq<char>, u32)>, u: Seq<char>)
    ensures
        -1 <= url_pos(acc, u) < acc.len(),
        url_pos(acc, u) >= 0 ==> acc[url_pos(acc, u)].0 == u,
        forall|k: int| 0 <= k < acc.len() && (url_pos(acc, u) == -1 || k < url_pos(acc, u)) ==> #[trigger] acc[k].0 != u,
    decreases acc.len(),
{
    if acc.len() > 0 {
        lemma_url_pos(acc.drop_last(), u);
        assert forall|k: int| 0 <= k < acc.len() && (url_pos(acc, u) == -1 || k < url_pos(acc, u)) implies #[trigger] acc[k].0 != u by {
            if k < acc.len() - 1 {
                assert(acc.drop_last()[k] == acc[k]);
            }
        }
    }
}

/// The view of counted URLs.
pub open spec fn counts_view(v: Seq<(String, u32)>) -> Seq<(Seq<char>, u32)> {
    v.map_values(|p: (String, u32)| (p.0@, p.1))
}

/// Each referenced URL with its number of records, most referenced first
/// (ties in order of first appearance).
pub fn referrer_counts(records: &Vec<ReferrerRecord>) -> (r: Vec<(String, u32)>)
    ensures
        counts_view(r@) == sort_by_count(group_counts(records@)),
{
    let mut acc: Vec<(String, u32)> = Vec::new();
    let mut i: usize = 0;
    while i < records.len()
        invariant
            0 <= i <= records.len(),
            counts_view(acc@) == group_counts(records@.subrange(0, i as int)),
        decreases records.len() - i,
    {
        let ghost a0 = counts_view(acc@);
        let ghost u = records@[i as int].url@;
        proof {
            assert(records@.subrange(0, i + 1).drop_last() =~= records@.subrange(0, i as int));
            assert(records@.subrange(0, i + 1).last() == records@[i as int]);
            lemma_url_pos(a0, u);
        }
        let mut j: usize = 0;
        let mut found = false;
        while j < acc.len() && !found
            invariant
                0 <= j <= acc.len(),
                i < records.len(),
                a0 == counts_view(acc@),
                u == records@[i as int].url@,
                found ==> j < acc.len() && a0[j as int].0 == u,
                forall|k: int| 0 <= k < j ==> (#[trigger] a0[k]).0 != u,
            decreases acc.len() - j + (if found { 0int } else { 1int }),
        {
            assert(a0[j as int].0 == acc@[j as int].0@);
            if str_eq(acc[j].0.as_str(), records[i].url.as_str()) {
                found = true;
            } else {
                j = j + 1;
            }
        }
        if found {
            proof {
                if url_pos(a0, u) == -1 || j < url_pos(a0, u) {
                    assert(a0[j as int].0 != u);
                }
                assert(url_pos(a0, u) == j);
            }
            let c = acc[j].1;
            let nc: u32 = if c < u32::MAX { c + 1 } else { c };
            let name = acc[j].0.clone();
            acc.set(j, (name, nc));
            assert(counts_view(acc@) =~= a0.update(j as int, (u, bump(a0[j as int].1))));
        } else {
            proof {
                if url_pos(a0, u) >= 0 {
                    assert(a0[url_pos(a0, u)].0 == u);
                }
            }
            acc.push((records[i].url.clone(), 1));
            assert(counts_view(acc@) =~= a0.push((u, 1u32)));
        }
        i = i + 1;
    }
    assert(records@.subrange(0, records.len() as int) =~= records@);
    let ghost grouped = counts_view(acc@);
    let mut r: Vec<(String, u32)> = Vec::new();
    let mut k: usize = 0;
    while k < acc.len()
        invariant
            0 <= k <= acc.len(),
            grouped == counts_view(acc@),
            counts_view(r@) == sort_by_count(grouped.subrange(0, k as int)),
        decreases acc.len() - k,
    {
        let x = (acc[k].0.clone(), acc[k].1);
        let ghost xv = (x.0@, x.1);
        assert(xv == grouped[k as int]);
        let ghost sv = counts_view(r@);
        let mut j: usize = r.len();
        assert(sv.subrange(0, sv.len() as int) =~= sv);
        assert(insert_by_count(sv, xv) + sv.subrange(sv.len() as int, sv.len() as int) =~= insert_by_count(sv, xv));
        while j > 0 && x.1 > r[j - 1].1
            invariant
                0 <= j <= r.len(),
                counts_view(r@) == sv,
                xv == (x.0@, x.1),
                insert_by_count(sv, xv) == insert_by_count(sv.subrange(0, j as int), xv) + sv.subrange(j as int, sv.len() as int),
            decreases j,
        {
            proof {
                let pre = sv.subrange(0, j as int);
                assert(pre.drop_last() =~= sv.subrange(0, j - 1));
                assert(sv[j - 1].1 == r@[j - 1].1);
                assert(insert_by_count(sv.subrange(0, j - 1), xv).push(sv[j - 1]) + sv.subrange(j as int, sv.len() as int)
                    =~= insert_by_count(sv.subrange(0, j - 1), xv) + sv.subrange(j - 1, sv.len() as int));
            }
            j = j - 1;
        }
        proof {
            let pre = sv.subrange(0, j as int);
            if j > 0 {
                assert(sv[j - 1].1 == r@[j - 1].1);
            }
            assert(insert_by_count(pre, xv) =~= pre.push(xv));
        }
        r.insert(j, x);
        proof {
            assert(counts_view(r@) =~= sv.subrange(0, j as int).push(xv) + sv.subrange(j as int, sv.len() as int));
            assert(grouped.subrange(0, k + 1).drop_last() =~= grouped.subrange(0, k as int));
        }
        k = k + 1;
    }
    assert(grouped.subrange(0, acc.len() as int) =~= grouped);
    r
}

impl CrawlStore {
    /// Each blacklisted URL with its number of referrer records, most
    /// referenced first.
    pub fn get_blacklisted_urls(&self) -> (r: Vec<(String, u32)>)
        ensures
            counts_view(r@) == sort_by_count(group_counts(self.spec_blacklisted())),
    {
        referrer_counts(&self.blacklisted)
    }

    /// Each stubbed URL with its number of referrer records, most
    /// referenced first.
    pub fn get_stubbed_urls(&self) -> (r: Vec<(String, u32)>)
        ensures
            counts_view(r@) == sort_by_count(group_counts(self.spec_stubbed())),
    {
        referrer_counts(&self.stubbed)
    }
}

} // verus!
