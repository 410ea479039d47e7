//! The per-URL rules of a crawl: what a fetch outcome makes of a page, and
//! what a discovered link adds to the graph and the frontier.
use vstd::prelude::*;
use crate::classify::{classify_domain, spec_classify, DomainClassification};
use crate::config::Config;
use crate::fetch::FetchResult;
use crate::html::{parse_html, spec_links, spec_title};
use crate::query::opt_chars;
use crate::weburl::decimal;
use crate::page_state::PageState;
use crate::scheduler::QueuedUrl;
use crate::store::{page_index, depth_of, merge_depth, DepthRecord, has_link, lemma_has_link_count, sort_by_priority, spec_should_crawl, CrawlStore, RunRecord, RunStatus, StorageError};
use crate::text::ascii_lower;
use crate::weburl::{spec_normalize_outcome, spec_serialize, url_parse_of, UrlError};
use crate::weburl::{extract_domain, normalize_url};

verus! {

/// The frontier priority of a crawlable class: quality 0, discovered 10.
pub open spec fn spec_priority(c: DomainClassification) -> u32 {
    if c is Quality { 0 } else { 10 }
}

/// The frontier priority of a crawlable class (see `spec_priority`).
pub fn priority_for(c: DomainClassification) -> (r: u32)
    ensures
        r == spec_priority(c),
{
    match c {
        DomainClassification::Quality => 0,
        _ => 10,
    }
}

/// The page state a fetch outcome leads to.
pub open spec fn spec_outcome_state(r: FetchResult) -> PageState {
    match r {
        FetchResult::Success { .. } => PageState::Processed,
        FetchResult::ContentMismatch { .. } => PageState::ContentMismatch,
        FetchResult::HttpError { state, .. } => state,
        FetchResult::NetworkError { state, .. } => state,
        FetchResult::RedirectError { .. } => PageState::Failed,
        FetchResult::RedirectToTerminal { .. } => PageState::Failed,
    }
}

/// The page state a fetch outcome leads to (see `spec_outcome_state`).
pub fn outcome_state(r: &FetchResult) -> (s: PageState)
    ensures
        s == spec_outcome_state(*r),
{
    match r {
        FetchResult::Success { .. } => PageState::Processed,
        FetchResult::ContentMismatch { .. } => PageState::ContentMismatch,
        FetchResult::HttpError { state, .. } => *state,
        FetchResult::NetworkError { state, .. } => *state,
        FetchResult::RedirectError { .. } => PageState::Failed,
        FetchResult::RedirectToTerminal { .. } => PageState::Failed,
    }
}

/// Whether a fetch outcome marks the domain rate limited: an HTTP 429.
pub fn marks_rate_limited(r: &FetchResult) -> (b: bool)
    ensures
        b == (*r matches FetchResult::HttpError { status_code, .. } && status_code == 429),
{
    match r {
        FetchResult::HttpError { status_code, .. } => *status_code == 429,
        _ => false,
    }
}

/// `b` holds the rows of `a`, in place, and perhaps more after them.
pub open spec fn extends<T>(a: Seq<T>, b: Seq<T>) -> bool {
    a.len() <= b.len() && forall|k: int| 0 <= k < a.len() ==> #[trigger] b[k] == a[k]
}

/// The canonical URL text of a link and its domain, if it has a canonical form.
pub open spec fn link_target(href: Seq<char>) -> Option<(Seq<char>, Seq<char>)> {
    match url_parse_of(href) {
        Some(u) => match spec_normalize_outcome(u) {
            Ok(v) => Some((spec_serialize(v), ascii_lower(v.1->0))),
            Err(_) => None,
        },
        None => None,
    }
}

/// The depth of `p` from origin `o` once the depths of page `from` have
/// been carried over to page `to`: each origin of `from` at depth `d`
/// gives `to` depth `min(old, d + 1)` from that origin.
pub open spec fn propagated_depth(old: Seq<DepthRecord>, from: i64, to: i64, p: i64, o: Seq<char>) -> Option<u32> {
    match depth_of(old, from, o) {
        Some(d) => if p == to && d < u32::MAX {
            Some(merge_depth(depth_of(old, p, o), (d + 1) as u32))
        } else {
            depth_of(old, p, o)
        },
        None => depth_of(old, p, o),
    }
}

/// Some of the first `n` rows has origin `o`.
pub open spec fn origin_among(rows: Seq<DepthRecord>, n: int, o: Seq<char>) -> bool {
    exists|k: int| 0 <= k < n && rows[k].quality_origin@ == o
}

/// The domain of a link's target (empty where it has none).
pub open spec fn target_domain(href: Seq<char>) -> Seq<char> {
    match link_target(href) {
        Some((_, domain)) => domain,
        None => Seq::empty(),
    }
}

/// A class whose pages are crawled.
pub open spec fn crawlable(c: DomainClassification) -> bool {
    c is Quality || c is Discovered
}

/// How the configuration classifies the domain of a link target.
pub open spec fn target_class(config: Config, domain: Seq<char>) -> DomainClassification {
    spec_classify(domain, config.blacklist@, config.stub@, config.quality@)
}

/// What a discovered link led to.
#[derive(Debug, Clone, Copy, PartialEq, Eq, Structural)]
pub enum LinkOutcome {
    /// The link does not normalize to a crawlable URL; nothing was recorded.
    Dropped,
    /// The target's domain is blacklisted; the referrer was recorded.
    Blacklisted,
    /// The target's domain is stubbed; the referrer was recorded.
    Stubbed,
    /// The target page and the link are recorded; not queued.
    Recorded(i64),
    /// The target page and the link are recorded and the page was queued
    /// with this priority.
    Queued(i64, u32),
}

/// Handles one link found on page `from_id` (whose URL is `source_url`):
/// the target is normalized and classified; a blacklisted or stubbed target
/// is recorded as such; otherwise the page and link are stored, the
/// target's depths become the source's plus one, and a target still in
/// state Discovered that is within `max_depth` is queued.
pub fn handle_link(
    store: &mut CrawlStore,
    config: &Config,
    from_id: i64,
    source_url: &str,
    href: &str,
    run_id: i64,
    now: i64,
) -> (r: LinkOutcome)
    requires
        old(store).wf(),
    ensures
        final(store).wf(),
        extends(old(store).spec_pages(), final(store).spec_pages()),
        extends(old(store).spec_links(), final(store).spec_links()),
        final(store).spec_pages().len() <= old(store).spec_pages().len() + 1,
        link_target(href@) is None ==> r is Dropped,
        link_target(href@) is Some ==> {
            let (text, domain) = link_target(href@)->0;
            &&& (r is Blacklisted <==> target_class(*config, domain) is Blacklisted)
            &&& (r is Stubbed <==> target_class(*config, domain) is Stubbed)
            &&& r matches LinkOutcome::Recorded(id) ==> final(store).spec_pages()[id - 1].url@ == text
            &&& r matches LinkOutcome::Queued(id, p) ==> final(store).spec_pages()[id - 1].url@ == text
                && p == spec_priority(target_class(*config, domain))
        },
        r is Dropped ==> final(store).spec_pages() == old(store).spec_pages()
            && final(store).spec_links() == old(store).spec_links()
            && final(store).spec_frontier() == old(store).spec_frontier(),
        r is Blacklisted ==> final(store).spec_blacklisted().len() == old(store).spec_blacklisted().len() + 1
            && final(store).spec_pages() == old(store).spec_pages()
            && final(store).spec_links() == old(store).spec_links(),
        r is Stubbed ==> final(store).spec_stubbed().len() == old(store).spec_stubbed().len() + 1
            && final(store).spec_pages() == old(store).spec_pages()
            && final(store).spec_links() == old(store).spec_links(),
        link_target(href@) is Some && crawlable(target_class(*config, target_domain(href@)))
            && has_room(old(store).spec_pages().len(), 1) ==> (r is Recorded || r is Queued),
        !(r is Recorded || r is Queued) ==> final(store).spec_depths() == old(store).spec_depths(),
        !(r is Queued) ==> final(store).spec_frontier() == old(store).spec_frontier(),
        r matches LinkOutcome::Recorded(id) ==> 1 <= id <= final(store).spec_pages().len()
            && has_link(final(store).spec_links(), from_id, id)
            && final(store).spec_frontier() == old(store).spec_frontier()
            && !(spec_should_crawl(final(store).spec_depths(), id, config.crawler.max_depth)
                && final(store).spec_pages()[id - 1].state == PageState::Discovered)
            && forall|p: i64, o: Seq<char>| #[trigger] depth_of(final(store).spec_depths(), p, o)
                == propagated_depth(old(store).spec_depths(), from_id, id, p, o),
        r matches LinkOutcome::Queued(id, p) ==> {
            &&& 1 <= id <= final(store).spec_pages().len()
            &&& has_link(final(store).spec_links(), from_id, id)
            &&& final(store).spec_frontier().contains((id, p))
            &&& final(store).spec_pages()[id - 1].state == PageState::Discovered
            &&& spec_should_crawl(final(store).spec_depths(), id, config.crawler.max_depth)
            &&& (p == 0 || p == 10)
            &&& forall|k: int| 0 <= k < final(store).spec_frontier().len()
                ==> #[trigger] final(store).spec_frontier()[k] == (id, p) || old(store).spec_frontier().contains(final(store).spec_frontier()[k])
            &&& forall|q: i64, o: Seq<char>| #[trigger] depth_of(final(store).spec_depths(), q, o)
                == propagated_depth(old(store).spec_depths(), from_id, id, q, o)
        },
{
    let url = match normalize_url(href) {
        Ok(u) => u,
        Err(_) => return LinkOutcome::Dropped,
    };
    let domain = match extract_domain(&url) {
        Some(d) => d,
        None => return LinkOutcome::Dropped,
    };
    let target = url.as_str();
    let class = classify_domain(domain.as_str(), config);
    match class {
        DomainClassification::Blacklisted => {
            store.record_blacklisted(target.as_str(), source_url, run_id);
            return LinkOutcome::Blacklisted;
        },
        DomainClassification::Stubbed => {
            store.record_stubbed(target.as_str(), source_url, run_id);
            return LinkOutcome::Stubbed;
        },
        _ => {},
    }
    let to_id = match store.insert_or_get_page(target.as_str(), domain.as_str(), run_id, now) {
        Ok(id) => id,
        Err(_) => return LinkOutcome::Dropped,
    };
    proof {
        let j = choose|j: int| 0 <= j < store.spec_pages().len() && store.spec_pages()[j].url@ == target@;
    }
    let ghost target_page = store.spec_pages()[to_id - 1];
    store.insert_link(from_id, to_id, run_id);
    proof { lemma_has_link_count(store.spec_links(), from_id, to_id); }
    let depths = store.get_depths(from_id);
    let ghost d0 = store.spec_depths();
    assert(d0 == old(store).spec_depths());
    let mut i: usize = 0;
    while i < depths.len()
        invariant
            0 <= i <= depths.len(),
            d0 == old(store).spec_depths(),
            forall|k: int| 0 <= k < depths@.len()
                ==> depth_of(d0, from_id, (#[trigger] depths@[k]).quality_origin@) == Some(depths@[k].depth),
            forall|k: int, m: int| 0 <= k < m < depths@.len() ==> depths@[k].quality_origin@ != depths@[m].quality_origin@,
            forall|o: Seq<char>| #[trigger] depth_of(d0, from_id, o) is Some
                ==> exists|k: int| 0 <= k < depths@.len() && depths@[k].quality_origin@ == o,
            forall|p: i64, o: Seq<char>| #[trigger] depth_of(store.spec_depths(), p, o) == if p == to_id && origin_among(depths@, i as int, o) {
                propagated_depth(d0, from_id, to_id, p, o)
            } else {
                depth_of(d0, p, o)
            },
            old(store).spec_frontier() == store.spec_frontier(),
            store.wf(),
            1 <= to_id <= store.spec_pages().len(),
            has_link(store.spec_links(), from_id, to_id),
            store.spec_pages()[to_id - 1] == target_page,
            store.spec_pages().len() <= old(store).spec_pages().len() + 1,
            extends(old(store).spec_pages(), store.spec_pages()),
            extends(old(store).spec_links(), store.spec_links()),
        decreases depths.len() - i,
    {
        let d = &depths[i];
        let ghost before = store.spec_depths();
        let ghost oi = d.quality_origin@;
        proof {
            assert(depth_of(d0, from_id, oi) == Some(d.depth));
            assert(!origin_among(depths@, i as int, oi)) by {
                if origin_among(depths@, i as int, oi) {
                    let k = choose|k: int| 0 <= k < i && depths@[k].quality_origin@ == oi;
                }
            }
        }
        if d.depth < u32::MAX {
            store.upsert_depth(to_id, d.quality_origin.as_str(), d.depth + 1);
        }
        proof {
            assert forall|p: i64, o: Seq<char>| #[trigger] depth_of(store.spec_depths(), p, o) == if p == to_id && origin_among(depths@, i + 1, o) {
                propagated_depth(d0, from_id, to_id, p, o)
            } else {
                depth_of(d0, p, o)
            } by {
                if o == oi {
                    assert(origin_among(depths@, i + 1, o)) by {
                        assert(depths@[i as int].quality_origin@ == o);
                    }
                    assert(depth_of(before, p, o) == depth_of(d0, p, o));
                } else {
                    if origin_among(depths@, i + 1, o) {
                        let k = choose|k: int| 0 <= k < i + 1 && depths@[k].quality_origin@ == o;
                        assert(k < i);
                        assert(origin_among(depths@, i as int, o));
                    }
                    if origin_among(depths@, i as int, o) {
                        let k = choose|k: int| 0 <= k < i && depths@[k].quality_origin@ == o;
                        assert(origin_among(depths@, i + 1, o));
                    }
                }
            }
        }
        i = i + 1;
    }
    proof {
        assert forall|p: i64, o: Seq<char>| #[trigger] depth_of(store.spec_depths(), p, o)
            == propagated_depth(d0, from_id, to_id, p, o) by {
            if p == to_id && !origin_among(depths@, depths@.len() as int, o) {
                if depth_of(d0, from_id, o) is Some {
                    let k = choose|k: int| 0 <= k < depths@.len() && depths@[k].quality_origin@ == o;
                    assert(origin_among(depths@, depths@.len() as int, o));
                }
            }
        }
    }
    if !store.should_crawl(to_id, config.crawler.max_depth) {
        return LinkOutcome::Recorded(to_id);
    }
    let discovered = match store.get_page(to_id) {
        Some(p) => p.state == PageState::Discovered,
        None => false,
    };
    if !discovered {
        return LinkOutcome::Recorded(to_id);
    }
    let priority = priority_for(class);
    let ghost f0 = store.spec_frontier();
    match store.add_to_frontier(to_id, priority) {
        Ok(_) => {
            proof {
                if exists|k: int| 0 <= k < f0.len() && f0[k].0 == to_id {
                    let k = choose|k: int| 0 <= k < f0.len() && f0[k].0 == to_id
                        && store.spec_frontier() == f0.update(k, (to_id, priority));
                    assert(store.spec_frontier()[k] == (to_id, priority));
                } else {
                    assert(store.spec_frontier()[f0.len() as int] == (to_id, priority));
                }
            }
            LinkOutcome::Queued(to_id, priority)
        },
        Err(_) => LinkOutcome::Recorded(to_id),
    }
}

/// Why a crawl could not start.
#[derive(Debug, Clone, PartialEq, Eq)]
pub enum StartError {
    /// The store refused an operation.
    Storage(StorageError),
    /// A seed URL has no canonical form.
    Seed(UrlError),
}

/// The run a crawl continues, if any: the latest run when it is still
/// Running and a fresh start was not asked for.
pub open spec fn resumed_run(runs: Seq<RunRecord>, fresh: bool) -> Option<i64> {
    if !fresh && runs.len() > 0 && runs.last().status == RunStatus::Running {
        Some(runs.last().id)
    } else {
        None
    }
}

/// The frontier rows as queued URLs: same pages and priorities, in
/// priority order, each with its page's URL and domain.
pub open spec fn queue_matches(q: Seq<QueuedUrl>, store: &CrawlStore) -> bool {
    &&& q.map_values(|u: QueuedUrl| (u.page_id, u.priority)) == sort_by_priority(store.spec_frontier())
    &&& forall|i: int| 0 <= i < q.len() ==> {
        let id = (#[trigger] q[i]).page_id;
        &&& 1 <= id <= store.spec_pages().len()
        &&& q[i].url@ == store.spec_pages()[id - 1].url@
        &&& q[i].domain@ == store.spec_pages()[id - 1].domain@
    }
}

/// The frontier as queued URLs (see `queue_matches`).
fn queue_from_frontier(store: &CrawlStore) -> (r: Vec<QueuedUrl>)
    requires
        store.wf(),
    ensures
        queue_matches(r@, store),
{
    let rows = store.load_frontier();
    let ghost sorted = sort_by_priority(store.spec_frontier());
    assert(rows@ == sorted);
    let mut r: Vec<QueuedUrl> = Vec::new();
    let mut i: usize = 0;
    proof { crate::store::lemma_sort_by_priority_members(store.spec_frontier()); }
    while i < rows.len()
        invariant
            0 <= i <= rows.len(),
            rows@ == sorted,
            store.wf(),
            forall|k: int| 0 <= k < sorted.len() ==> store.spec_frontier().contains(#[trigger] sorted[k]),
            r.len() == i,
            r@.map_values(|u: QueuedUrl| (u.page_id, u.priority)) == sorted.subrange(0, i as int),
            forall|k: int| 0 <= k < r@.len() ==> {
                let id = (#[trigger] r@[k]).page_id;
                &&& 1 <= id <= store.spec_pages().len()
                &&& r@[k].url@ == store.spec_pages()[id - 1].url@
                &&& r@[k].domain@ == store.spec_pages()[id - 1].domain@
            },
        decreases rows.len() - i,
    {
        let (id, priority) = rows[i];
        proof {
            assert(store.spec_frontier().contains(sorted[i as int]));
            let j = choose|j: int| 0 <= j < store.spec_frontier().len() && store.spec_frontier()[j] == sorted[i as int];
            assert(1 <= store.spec_frontier()[j].0 <= store.spec_pages().len());
        }
        let page = store.get_page(id).unwrap();
        let q = QueuedUrl { url: page.url.clone(), domain: page.domain.clone(), priority, page_id: id };
        let ghost before = r@;
        r.push(q);
        proof {
            assert(r@.map_values(|u: QueuedUrl| (u.page_id, u.priority)) =~= sorted.subrange(0, i + 1));
        }
        i = i + 1;
    }
    assert(sorted.subrange(0, rows.len() as int) =~= sorted);
    r
}

/// The seeds of the quality entries, in order, each with its entry's domain.
pub open spec fn all_seeds(qs: Seq<crate::config::QualityEntry>) -> Seq<(Seq<char>, Seq<char>)>
    decreases qs.len(),
{
    if qs.len() == 0 {
        Seq::empty()
    } else {
        all_seeds(qs.drop_last()) + entry_seeds(qs.last())
    }
}

/// The seeds of one quality entry, each with the entry's domain.
pub open spec fn entry_seeds(q: crate::config::QualityEntry) -> Seq<(Seq<char>, Seq<char>)> {
    q.seeds@.map_values(|s: String| (s@, q.domain@))
}

/// Some seed has no canonical form.
pub open spec fn some_bad_seed(seeds: Seq<(Seq<char>, Seq<char>)>) -> bool {
    exists|i: int| 0 <= i < seeds.len() && link_target(#[trigger] seeds[i].0) is None
}

/// Room for `n` more rows in a table of `len` rows.
pub open spec fn has_room(len: nat, n: nat) -> bool {
    len + n < 0x7fff_ffff_ffff_fffe
}

fn seed_list(config: &Config) -> (r: Vec<(String, String)>)
    ensures
        r@.map_values(|p: (String, String)| (p.0@, p.1@)) == all_seeds(config.quality@),
{
    let mut r: Vec<(String, String)> = Vec::new();
    let mut e: usize = 0;
    while e < config.quality.len()
        invariant
            0 <= e <= config.quality.len(),
            r@.map_values(|p: (String, String)| (p.0@, p.1@)) == all_seeds(config.quality@.subrange(0, e as int)),
        decreases config.quality.len() - e,
    {
        let entry = &config.quality[e];
        let ghost base = r@.map_values(|p: (String, String)| (p.0@, p.1@));
        let mut k: usize = 0;
        while k < entry.seeds.len()
            invariant
                0 <= k <= entry.seeds.len(),
                e < config.quality.len(),
                entry == &config.quality@[e as int],
                r@.map_values(|p: (String, String)| (p.0@, p.1@)) == base + entry_seeds(*entry).subrange(0, k as int),
            decreases entry.seeds.len() - k,
        {
            let ghost before = r@;
            let ghost item = (entry.seeds@[k as int]@, entry.domain@);
            assert(entry_seeds(*entry)[k as int] == item);
            r.push((entry.seeds[k].clone(), entry.domain.clone()));
            assert(r@ == before.push(r@.last()));
            assert(r@.map_values(|p: (String, String)| (p.0@, p.1@))
                =~= before.map_values(|p: (String, String)| (p.0@, p.1@)).push(item));
            assert(r@.map_values(|p: (String, String)| (p.0@, p.1@))
                =~= base + entry_seeds(*entry).subrange(0, k + 1));
            k = k + 1;
        }
        proof {
            let pre = config.quality@.subrange(0, e + 1);
            assert(pre.drop_last() =~= config.quality@.subrange(0, e as int));
            assert(pre.last() == config.quality@[e as int]);
            assert(entry_seeds(*entry).subrange(0, entry.seeds@.len() as int) =~= entry_seeds(*entry));
        }
        e = e + 1;
    }
    assert(config.quality@.subrange(0, config.quality.len() as int) =~= config.quality@);
    r
}

/// What a seeded queue entry holds: the canonical seed URL at priority 0,
/// a stored page with that URL, depth 0 from the seed's origin, and a
/// frontier row at priority 0.
pub open spec fn seeded(q: QueuedUrl, seed: (Seq<char>, Seq<char>), store: &CrawlStore) -> bool {
    &&& match link_target(seed.0) {
        Some((text, domain)) => q.url@ == text && q.domain@ == domain,
        None => false,
    }
    &&& q.priority == 0
    &&& 1 <= q.page_id <= store.spec_pages().len()
    &&& store.spec_pages()[q.page_id - 1].url@ == q.url@
    &&& store.spec_frontier().contains((q.page_id, 0u32))
    &&& depth_of(store.spec_depths(), q.page_id, seed.1) == Some(0u32)
}

/// Starts or resumes a run and returns its id and the URLs to queue.
///
/// The latest run is resumed when it is still Running and `fresh` is false;
/// otherwise a new run is created, and with `fresh` the stored frontier is
/// cleared first. With `fresh`, every seed of every quality entry is then
/// normalized, stored at depth 0 from its entry's domain and queued with
/// priority 0, in order; the start fails with `Seed` exactly when some seed
/// has no canonical form. Without `fresh`, the stored frontier is queued as
/// it stands.
pub fn start_run(store: &mut CrawlStore, config: &Config, fresh: bool, config_hash: &str, now: i64)
    -> (r: Result<(i64, Vec<QueuedUrl>), StartError>)
    requires
        old(store).wf(),
    ensures
        final(store).wf(),
        resumed_run(old(store).spec_runs(), fresh) is Some ==> r is Ok
            && r->Ok_0.0 == resumed_run(old(store).spec_runs(), fresh)->0
            && final(store).spec_runs() == old(store).spec_runs()
            && final(store).spec_frontier() == old(store).spec_frontier()
            && queue_matches(r->Ok_0.1@, final(store)),
        resumed_run(old(store).spec_runs(), fresh) is None && has_room(old(store).spec_runs().len(), 1)
            && has_room(old(store).spec_pages().len(), all_seeds(config.quality@).len()) ==> {
            &&& (r is Err <==> fresh && some_bad_seed(all_seeds(config.quality@)))
            &&& (r is Err ==> r->Err_0 is Seed)
        },
        resumed_run(old(store).spec_runs(), fresh) is None && r is Ok ==> {
            &&& r->Ok_0.0 == old(store).spec_runs().len() + 1
            &&& final(store).spec_runs().len() == old(store).spec_runs().len() + 1
            &&& final(store).spec_runs().last().status == RunStatus::Running
            &&& final(store).spec_runs().last().config_hash@ == config_hash@
        },
        r is Ok && !fresh ==> queue_matches(r->Ok_0.1@, final(store)),
        r is Ok && fresh ==> {
            &&& r->Ok_0.1@.len() == all_seeds(config.quality@).len()
            &&& forall|i: int| 0 <= i < r->Ok_0.1@.len()
                ==> seeded(#[trigger] r->Ok_0.1@[i], all_seeds(config.quality@)[i], final(store))
        },
{
    let resume = if !fresh {
        match store.get_latest_run() {
            Some(run) => if run.status == RunStatus::Running { Some(run.id) } else { None },
            None => None,
        }
    } else {
        None
    };
    let run_id = match resume {
        Some(id) => {
            let q = queue_from_frontier(store);
            return Ok((id, q));
        },
        None => {
            if fresh {
                store.clear_frontier();
            }
            match store.create_run(config_hash, now) {
                Ok(id) => id,
                Err(e) => return Err(StartError::Storage(e)),
            }
        },
    };
    if !fresh {
        let q = queue_from_frontier(store);
        return Ok((run_id, q));
    }
    let seeds = seed_list(config);
    let ghost flat = all_seeds(config.quality@);
    let ghost runs_after = store.spec_runs();
    let ghost pages_start = store.spec_pages().len();
    let mut queue: Vec<QueuedUrl> = Vec::new();
    let mut i: usize = 0;
    while i < seeds.len()
        invariant
            0 <= i <= seeds.len(),
            seeds@.map_values(|p: (String, String)| (p.0@, p.1@)) == flat,
            flat == all_seeds(config.quality@),
            store.wf(),
            store.spec_runs() == runs_after,
            resumed_run(old(store).spec_runs(), fresh) is None,
            fresh,
            run_id == old(store).spec_runs().len() + 1,
            runs_after.len() == old(store).spec_runs().len() + 1,
            runs_after.last().status == RunStatus::Running,
            runs_after.last().config_hash@ == config_hash@,
            pages_start == old(store).spec_pages().len(),
            store.spec_pages().len() <= pages_start + i,
            queue.len() == i,
            forall|k: int| 0 <= k < i ==> seeded(#[trigger] queue@[k], flat[k], store),
        decreases seeds.len() - i,
    {
        assert(flat[i as int] == (seeds@[i as int].0@, seeds@[i as int].1@));
        let url = match normalize_url(seeds[i].0.as_str()) {
            Ok(u) => u,
            Err(err) => {
                assert(link_target(flat[i as int].0) is None);
                return Err(StartError::Seed(err));
            },
        };
        let domain = match extract_domain(&url) {
            Some(d) => d,
            None => return Err(StartError::Seed(UrlError::MissingDomain)),
        };
        let text = url.as_str();
        let ghost pages0 = store.spec_pages();
        let id = match store.insert_or_get_page(text.as_str(), domain.as_str(), run_id, now) {
            Ok(id) => id,
            Err(err) => return Err(StartError::Storage(err)),
        };
        proof {
            crate::store::lemma_url_identifies_page(store.spec_pages(), text@, id);
            assert forall|k: int| 0 <= k < i implies seeded(#[trigger] queue@[k], flat[k], store) by {
                assert(store.spec_pages()[queue@[k].page_id - 1] == pages0[queue@[k].page_id - 1]);
            }
        }
        let ghost depths0 = store.spec_depths();
        store.upsert_depth(id, seeds[i].1.as_str(), 0);
        proof {
            assert forall|k: int| 0 <= k < i implies seeded(#[trigger] queue@[k], flat[k], store) by {
                let q = queue@[k];
                if q.page_id == id && flat[k].1 == seeds@[i as int].1@ {
                } else {
                    assert(depth_of(store.spec_depths(), q.page_id, flat[k].1) == depth_of(depths0, q.page_id, flat[k].1));
                }
            }
        }
        let ghost f0 = store.spec_frontier();
        match store.add_to_frontier(id, 0) {
            Ok(_) => {},
            Err(err) => return Err(StartError::Storage(err)),
        }
        proof {
            if exists|k: int| 0 <= k < f0.len() && f0[k].0 == id {
                let k = choose|k: int| 0 <= k < f0.len() && f0[k].0 == id
                    && store.spec_frontier() == f0.update(k, (id, 0u32));
                assert(store.spec_frontier()[k] == (id, 0u32));
                assert forall|m: int| 0 <= m < i implies seeded(#[trigger] queue@[m], flat[m], store) by {
                    let n = choose|n: int| 0 <= n < f0.len() && f0[n] == (queue@[m].page_id, 0u32);
                    if n == k {
                        assert(queue@[m].page_id == id);
                    } else {
                        assert(store.spec_frontier()[n] == f0[n]);
                    }
                }
            } else {
                assert(store.spec_frontier()[f0.len() as int] == (id, 0u32));
                assert forall|m: int| 0 <= m < i implies seeded(#[trigger] queue@[m], flat[m], store) by {
                    let n = choose|n: int| 0 <= n < f0.len() && f0[n] == (queue@[m].page_id, 0u32);
                    assert(store.spec_frontier()[n] == f0[n]);
                }
            }
        }
        let ghost qprev = queue@;
        queue.push(QueuedUrl { url: text, domain, priority: 0, page_id: id });
        proof {
            assert forall|k: int| 0 <= k < i + 1 implies seeded(#[trigger] queue@[k], flat[k], store) by {
                if k < i {
                    assert(queue@[k] == qprev[k]);
                }
            }
        }
        i = i + 1;
    }
    proof {
        assert(!some_bad_seed(flat)) by {
            if some_bad_seed(flat) {
                let k = choose|k: int| 0 <= k < flat.len() && link_target(#[trigger] flat[k].0) is None;
                assert(seeded(queue@[k], flat[k], store));
            }
        }
    }
    Ok((run_id, queue))
}

/// A row found by URL keeps its place when the rows are extended.
proof fn lemma_page_index_extends(a: Seq<crate::store::PageRecord>, b: Seq<crate::store::PageRecord>)
    requires
        extends(a, b),
        crate::store::urls_unique(b),
    ensures
        forall|u: Seq<char>| #[trigger] page_index(a, u) is Some ==> page_index(b, u) == page_index(a, u),
{
    assert forall|u: Seq<char>| #[trigger] page_index(a, u) is Some implies page_index(b, u) == page_index(a, u) by {
        let i = choose|i: int| 0 <= i < a.len() && a[i].url@ == u;
        assert(b[i] == a[i]);
        crate::store::lemma_page_index(b, u, i);
    }
}

/// The link leads to a canonical URL on a crawled domain.
pub open spec fn crawl_target(config: Config, href: Seq<char>) -> bool {
    link_target(href) is Some && crawlable(target_class(config, target_domain(href)))
}

/// The canonical URL text of a link's target (empty where it has none).
pub open spec fn target_text(href: Seq<char>) -> Seq<char> {
    match link_target(href) {
        Some((text, _)) => text,
        None => Seq::empty(),
    }
}

/// Page `p` is where one of the crawlable links leads.
pub open spec fn is_link_page(pages: Seq<crate::store::PageRecord>, links: Seq<String>, config: Config, p: i64) -> bool {
    exists|i: int| 0 <= i < links.len() && crawl_target(config, links[i]@)
        && #[trigger] page_index(pages, target_text(links[i]@)) == Some(p - 1)
}

/// Handles every link found on page `from_id`, in order (see
/// `handle_link`), and returns the pages that were queued, with their
/// priorities, in the order they were queued. Every crawlable link gets a
/// page and a link from `from_id`; the pages it leads to get the depths of
/// `from_id` plus one (keeping smaller ones); nothing else changes depth;
/// the only new frontier rows are those returned.
#[verifier::rlimit(60)]
pub fn handle_links(
    store: &mut CrawlStore,
    config: &Config,
    from_id: i64,
    source_url: &str,
    links: &Vec<String>,
    run_id: i64,
    now: i64,
) -> (r: Vec<(i64, u32)>)
    requires
        old(store).wf(),
    ensures
        final(store).wf(),
        extends(old(store).spec_pages(), final(store).spec_pages()),
        extends(old(store).spec_links(), final(store).spec_links()),
        r@.len() <= links@.len(),
        forall|i: int| 0 <= i < r@.len() ==> {
            let (id, p) = #[trigger] r@[i];
            &&& 1 <= id <= final(store).spec_pages().len()
            &&& has_link(final(store).spec_links(), from_id, id)
            &&& is_link_page(final(store).spec_pages(), links@, *config, id)
            &&& (p == 0 || p == 10)
        },
        forall|k: int| 0 <= k < final(store).spec_frontier().len()
            ==> old(store).spec_frontier().contains(#[trigger] final(store).spec_frontier()[k])
                || r@.contains(final(store).spec_frontier()[k]),
        has_room(old(store).spec_pages().len(), links@.len()) ==> {
            &&& forall|i: int| 0 <= i < links@.len() && crawl_target(*config, #[trigger] links@[i]@) ==> {
                let t = page_index(final(store).spec_pages(), target_text(links@[i]@));
                &&& t is Some
                &&& has_link(final(store).spec_links(), from_id, (t->0 + 1) as i64)
            }
            &&& forall|p: i64, o: Seq<char>| #[trigger] depth_of(final(store).spec_depths(), p, o)
                == if is_link_page(final(store).spec_pages(), links@, *config, p) {
                    propagated_depth(old(store).spec_depths(), from_id, p, p, o)
                } else {
                    depth_of(old(store).spec_depths(), p, o)
                }
        },
{
    let mut queued: Vec<(i64, u32)> = Vec::new();
    let ghost d0 = store.spec_depths();
    let ghost f0 = store.spec_frontier();
    let ghost mut tids: Seq<i64> = Seq::empty();
    let mut i: usize = 0;
    while i < links.len()
        invariant
            0 <= i <= links.len(),
            store.wf(),
            d0 == old(store).spec_depths(),
            f0 == old(store).spec_frontier(),
            extends(old(store).spec_pages(), store.spec_pages()),
            extends(old(store).spec_links(), store.spec_links()),
            store.spec_pages().len() <= old(store).spec_pages().len() + i,
            queued@.len() <= i,
            forall|k: int| 0 <= k < queued@.len() ==> {
                let (id, p) = #[trigger] queued@[k];
                &&& 1 <= id <= store.spec_pages().len()
                &&& has_link(store.spec_links(), from_id, id)
                &&& tids.contains(id)
                &&& (p == 0 || p == 10)
            },
            forall|k: int| 0 <= k < store.spec_frontier().len()
                ==> f0.contains(#[trigger] store.spec_frontier()[k]) || queued@.contains(store.spec_frontier()[k]),
            forall|t: i64| #[trigger] tids.contains(t) ==> exists|j: int| 0 <= j < i && crawl_target(*config, links@[j]@)
                && #[trigger] page_index(store.spec_pages(), target_text(links@[j]@)) == Some(t - 1),
            forall|t: i64| #[trigger] tids.contains(t) ==> 1 <= t <= store.spec_pages().len()
                && has_link(store.spec_links(), from_id, t),
            has_room(old(store).spec_pages().len(), links@.len()) ==> forall|j: int| 0 <= j < i && crawl_target(*config, #[trigger] links@[j]@)
                ==> page_index(store.spec_pages(), target_text(links@[j]@)) is Some
                    && tids.contains((page_index(store.spec_pages(), target_text(links@[j]@))->0 + 1) as i64),
            forall|p: i64, o: Seq<char>| #[trigger] depth_of(store.spec_depths(), p, o)
                == if tids.contains(p) { propagated_depth(d0, from_id, p, p, o) } else { depth_of(d0, p, o) },
        decreases links.len() - i,
    {
        let ghost pages0 = store.spec_pages();
        let ghost links0 = store.spec_links();
        let ghost depths0 = store.spec_depths();
        let ghost fr0 = store.spec_frontier();
        let ghost tids0 = tids;
        let ghost q0 = queued@;
        proof {
            // The source page keeps its depths throughout.
            assert forall|o: Seq<char>| #[trigger] depth_of(depths0, from_id, o) == depth_of(d0, from_id, o) by {
                assert(depth_of(depths0, from_id, o) == if tids.contains(from_id) { propagated_depth(d0, from_id, from_id, from_id, o) } else { depth_of(d0, from_id, o) });
            }
        }
        let outcome = handle_link(store, config, from_id, source_url, links[i].as_str(), run_id, now);
        let ghost id: i64 = match outcome {
            LinkOutcome::Recorded(x) => x,
            LinkOutcome::Queued(x, _) => x,
            _ => 0,
        };
        let ghost hit = outcome is Recorded || outcome is Queued;
        proof {
            lemma_page_index_extends(pages0, store.spec_pages());
            if hit {
                tids = tids.push(id);
                assert(tids[tids0.len() as int] == id);
                assert forall|x: i64| tids0.contains(x) implies #[trigger] tids.contains(x) by {
                    let k = choose|k: int| 0 <= k < tids0.len() && tids0[k] == x;
                    assert(tids[k] == tids0[k]);
                }
                crate::store::lemma_page_index(store.spec_pages(), target_text(links@[i as int]@), (id - 1) as int);
                assert(crawl_target(*config, links@[i as int]@));
                assert(page_index(store.spec_pages(), target_text(links@[i as int]@)) == Some(id - 1));
            }
            assert forall|t: i64| #[trigger] tids.contains(t) implies 1 <= t <= store.spec_pages().len()
                && has_link(store.spec_links(), from_id, t) by {
                if tids0.contains(t) {
                    let j = choose|j: int| 0 <= j < links0.len() && links0[j].from_page_id == from_id && links0[j].to_page_id == t;
                    assert(store.spec_links()[j] == links0[j]);
                } else {
                    assert(t == id);
                }
            }
            assert forall|t: i64| #[trigger] tids.contains(t) implies exists|j: int| 0 <= j < i + 1 && crawl_target(*config, links@[j]@)
                && #[trigger] page_index(store.spec_pages(), target_text(links@[j]@)) == Some(t - 1) by {
                if tids0.contains(t) {
                    let j = choose|j: int| 0 <= j < i && crawl_target(*config, links@[j]@)
                        && page_index(pages0, target_text(links@[j]@)) == Some(t - 1);
                    assert(page_index(store.spec_pages(), target_text(links@[j]@)) == Some(t - 1));
                } else {
                    assert(t == id);
                }
            }
            if has_room(old(store).spec_pages().len(), links@.len()) {
                assert(has_room(pages0.len(), 1));
                assert forall|j: int| 0 <= j < i + 1 && crawl_target(*config, #[trigger] links@[j]@)
                    implies page_index(store.spec_pages(), target_text(links@[j]@)) is Some
                        && tids.contains((page_index(store.spec_pages(), target_text(links@[j]@))->0 + 1) as i64) by {
                    if j < i {
                        assert(page_index(pages0, target_text(links@[j]@)) is Some);
                        assert(tids0.contains((page_index(pages0, target_text(links@[j]@))->0 + 1) as i64));
                    } else {
                        assert(crawl_target(*config, links@[i as int]@));
                        assert(hit);
                        assert(tids.contains(id));
                    }
                }
            }
            assert forall|p: i64, o: Seq<char>| #[trigger] depth_of(store.spec_depths(), p, o)
                == if tids.contains(p) { propagated_depth(d0, from_id, p, p, o) } else { depth_of(d0, p, o) } by {
                assert(depth_of(depths0, p, o) == if tids0.contains(p) { propagated_depth(d0, from_id, p, p, o) } else { depth_of(d0, p, o) });
                assert(depth_of(depths0, from_id, o) == depth_of(d0, from_id, o));
                if hit {
                    assert(depth_of(store.spec_depths(), p, o) == propagated_depth(depths0, from_id, id, p, o));
                    if p == id {
                        assert(tids.contains(p));
                    } else {
                        assert(tids.contains(p) == tids0.contains(p)) by {
                            if tids.contains(p) {
                                let k = choose|k: int| 0 <= k < tids.len() && tids[k] == p;
                                assert(k < tids0.len());
                                assert(tids0[k] == p);
                            }
                        }
                    }
                } else {
                    assert(tids == tids0);
                }
            }
        }
        if let LinkOutcome::Queued(qid, qp) = outcome {
            queued.push((qid, qp));
        }
        proof {
            assert forall|k: int| 0 <= k < queued@.len() implies {
                let (qi, p) = #[trigger] queued@[k];
                &&& 1 <= qi <= store.spec_pages().len()
                &&& has_link(store.spec_links(), from_id, qi)
                &&& tids.contains(qi)
                &&& (p == 0 || p == 10)
            } by {
                if k < q0.len() {
                    assert(queued@[k] == q0[k]);
                    assert(tids0.contains(q0[k].0));
                    assert(tids.contains(q0[k].0));
                    let j = choose|j: int| 0 <= j < links0.len() && links0[j].from_page_id == from_id && links0[j].to_page_id == q0[k].0;
                    assert(store.spec_links()[j] == links0[j]);
                } else {
                    assert(tids.contains(id));
                }
            }
            assert forall|k: int| 0 <= k < store.spec_frontier().len()
                implies f0.contains(#[trigger] store.spec_frontier()[k]) || queued@.contains(store.spec_frontier()[k]) by {
                let row = store.spec_frontier()[k];
                if outcome is Queued {
                    if row == (id, outcome->Queued_1) {
                        assert(queued@[queued@.len() - 1] == row);
                    } else {
                        assert(fr0.contains(row));
                        let m = choose|m: int| 0 <= m < fr0.len() && fr0[m] == row;
                        if !f0.contains(row) {
                            assert(q0.contains(row));
                            let n = choose|n: int| 0 <= n < q0.len() && q0[n] == row;
                            assert(queued@[n] == row);
                        }
                    }
                } else {
                    assert(store.spec_frontier() == fr0);
                    assert(fr0[k] == row);
                    if !f0.contains(row) {
                        assert(q0.contains(row));
                        let n = choose|n: int| 0 <= n < q0.len() && q0[n] == row;
                        assert(queued@[n] == row);
                    }
                }
            }
        }
        i = i + 1;
    }
    proof {
        assert forall|t: i64| #[trigger] tids.contains(t) implies is_link_page(store.spec_pages(), links@, *config, t) by {
            let j = choose|j: int| 0 <= j < i && crawl_target(*config, links@[j]@)
                && page_index(store.spec_pages(), target_text(links@[j]@)) == Some(t - 1);
        }
        assert forall|k: int| 0 <= k < queued@.len() implies is_link_page(store.spec_pages(), links@, *config, (#[trigger] queued@[k]).0) by {
            assert(tids.contains(queued@[k].0));
        }
        if has_room(old(store).spec_pages().len(), links@.len()) {
            assert forall|t: i64| is_link_page(store.spec_pages(), links@, *config, t) implies #[trigger] tids.contains(t) by {
                let j = choose|j: int| 0 <= j < links@.len() && crawl_target(*config, links@[j]@)
                    && page_index(store.spec_pages(), target_text(links@[j]@)) == Some(t - 1);
                assert(tids.contains((page_index(store.spec_pages(), target_text(links@[j]@))->0 + 1) as i64));
            }
        }
    }
    queued
}

/// The page fields a fetch outcome writes: state, status code, content type
/// and message (the title of a fetched page comes from parsing it).
pub open spec fn spec_page_fields(r: FetchResult) -> (PageState, Option<u16>, Option<Seq<char>>, Option<Seq<char>>) {
    match r {
        FetchResult::Success { status_code, content_type, .. } =>
            (PageState::Processed, Some(status_code), Some(content_type@), None),
        FetchResult::ContentMismatch { content_type } =>
            (PageState::ContentMismatch, None, Some(content_type@), Some("Expected HTML, got "@ + content_type@)),
        FetchResult::RedirectToTerminal { terminal_url, reason } =>
            (PageState::Failed, None, None, Some("Redirect to "@ + terminal_url@ + ": "@ + reason@)),
        FetchResult::HttpError { status_code, state } =>
            (state, Some(status_code), None, Some("HTTP "@ + decimal(status_code as nat))),
        FetchResult::NetworkError { error, state } => (state, None, None, Some(error@)),
        FetchResult::RedirectError { error } => (PageState::Failed, None, None, Some(error@)),
    }
}

fn concat3(a: &str, b: &str, c: &str) -> (r: String)
    ensures
        r@ == a@ + b@ + c@,
{
    let mut r = String::from_str(a);
    r.append(b);
    r.append(c);
    r
}

/// The page fields a fetch outcome writes (see `spec_page_fields`).
pub fn page_outcome(result: &FetchResult) -> (r: (PageState, Option<u16>, Option<String>, Option<String>))
    ensures
        r.0 == spec_outcome_state(*result),
        (r.0, r.1, opt_chars(r.2), opt_chars(r.3)) == spec_page_fields(*result),
{
    let out: (PageState, Option<u16>, Option<String>, Option<String>) = match result {
        FetchResult::Success { status_code, content_type, .. } =>
            (PageState::Processed, Some(*status_code), Some(String::from_str(content_type.as_str())), None),
        FetchResult::ContentMismatch { content_type } =>
            (PageState::ContentMismatch, None, Some(String::from_str(content_type.as_str())),
                {
                    let mut m = String::from_str("Expected HTML, got ");
                    m.append(content_type.as_str());
                    Some(m)
                }),
        FetchResult::RedirectToTerminal { terminal_url, reason } => {
            let mut m = concat3("Redirect to ", terminal_url.as_str(), ": ");
            m.append(reason.as_str());
            (PageState::Failed, None, None, Some(m))
        },
        FetchResult::HttpError { status_code, state } => {
            let mut m = String::from_str("HTTP ");
            crate::weburl::push_decimal(&mut m, *status_code as u64);
            (*state, Some(*status_code), None, Some(m))
        },
        FetchResult::NetworkError { error, state } => (*state, None, None, Some(String::from_str(error.as_str()))),
        FetchResult::RedirectError { error } => (PageState::Failed, None, None, Some(String::from_str(error.as_str()))),
    };
    proof {
        let f = spec_page_fields(*result);
        assert(out.0 == f.0);
        assert(out.1 == f.1);
        assert(opt_chars(out.2) == f.2);
        assert(opt_chars(out.3) == f.3);
    }
    out
}

/// The message written on a page that robots.txt rules out.
pub open spec fn robots_message() -> Seq<char> {
    "Disallowed by robots.txt"@
}

/// The page record after `update_page_state` with these fields at `now`.
pub open spec fn page_after(p: crate::store::PageRecord, state: PageState, title: Option<Seq<char>>, status: Option<u16>,
    content_type: Option<Seq<char>>, message: Option<Seq<char>>, now: i64, q: crate::store::PageRecord) -> bool {
    &&& q.id == p.id && q.url == p.url && q.domain == p.domain
    &&& q.discovered_at == p.discovered_at && q.discovered_run == p.discovered_run && q.retry_count == p.retry_count
    &&& q.state == state && opt_chars(q.title) == title && q.status_code == status
    &&& opt_chars(q.content_type) == content_type && opt_chars(q.error_message) == message
    &&& q.visited_at == Some(now)
}

/// The first step of the pipeline: the page is being fetched.
pub fn begin_fetch(store: &mut CrawlStore, page_id: i64, now: i64)
    requires
        old(store).wf(),
        1 <= page_id <= old(store).spec_pages().len(),
    ensures
        final(store).wf(),
        final(store).spec_pages().len() == old(store).spec_pages().len(),
        page_after(old(store).spec_pages()[page_id - 1], PageState::Fetching, None, None, None, None, now,
            final(store).spec_pages()[page_id - 1]),
{
    let _ = store.update_page_state(page_id, PageState::Fetching, None, None, None, None, now);
}

/// The robots step: a disallowed page fails with "Disallowed by robots.txt"
/// and is not fetched; an allowed one goes on unchanged. Returns whether to fetch.
pub fn robots_step(store: &mut CrawlStore, page_id: i64, allowed: bool, now: i64) -> (r: bool)
    requires
        old(store).wf(),
        1 <= page_id <= old(store).spec_pages().len(),
    ensures
        final(store).wf(),
        r == allowed,
        allowed ==> final(store).spec_pages() == old(store).spec_pages(),
        final(store).spec_pages().len() == old(store).spec_pages().len(),
        !allowed ==> page_after(old(store).spec_pages()[page_id - 1], PageState::Failed, None, None, None,
            Some(robots_message()), now, final(store).spec_pages()[page_id - 1]),
{
    if !allowed {
        let _ = store.update_page_state(page_id, PageState::Failed, None, None, None,
            Some(String::from_str("Disallowed by robots.txt")), now);
    }
    allowed
}

/// What the last pipeline step hands back: the pages queued from the
/// fetched page's links, and whether the domain must be marked rate limited.
#[derive(Debug, Clone)]
pub struct FetchFinish {
    pub queued: Vec<(i64, u32)>,
    pub rate_limited: bool,
}

/// The last step of the pipeline: the page gets the fields of the fetch
/// outcome. A fetched page is parsed: its links are handled (see
/// `handle_links`), the pages queued from them enter state Queued, and the
/// page becomes Processed with its title. Any other outcome records no link.
pub fn finish_fetch(
    store: &mut CrawlStore,
    config: &Config,
    page_id: i64,
    result: &FetchResult,
    run_id: i64,
    now: i64,
) -> (r: FetchFinish)
    requires
        old(store).wf(),
        1 <= page_id <= old(store).spec_pages().len(),
    ensures
        final(store).wf(),
        r.rate_limited == (*result matches FetchResult::HttpError { status_code, .. } && status_code == 429),
        ({
            let (state, status, content_type, message) = spec_page_fields(*result);
            let title = match *result {
                FetchResult::Success { body, .. } => spec_title(body@),
                _ => None,
            };
            &&& 1 <= page_id <= final(store).spec_pages().len()
            &&& final(store).spec_pages()[page_id - 1].url == old(store).spec_pages()[page_id - 1].url
            &&& final(store).spec_pages()[page_id - 1].state == state
            &&& opt_chars(final(store).spec_pages()[page_id - 1].title) == title
            &&& final(store).spec_pages()[page_id - 1].status_code == status
            &&& opt_chars(final(store).spec_pages()[page_id - 1].content_type) == content_type
            &&& opt_chars(final(store).spec_pages()[page_id - 1].error_message) == message
        }),
        !(*result is Success) ==> r.queued@.len() == 0 && final(store).spec_links() == old(store).spec_links()
            && final(store).spec_frontier() == old(store).spec_frontier(),
        *result is Success ==> forall|i: int| 0 <= i < r.queued@.len() ==> {
            let (id, p) = #[trigger] r.queued@[i];
            &&& 1 <= id <= final(store).spec_pages().len()
            &&& has_link(final(store).spec_links(), page_id, id)
            &&& (p == 0 || p == 10)
        },
{
    let rate_limited = marks_rate_limited(result);
    let fields = page_outcome(result);
    let mut queued: Vec<(i64, u32)> = Vec::new();
    let mut title: Option<String> = None;
    let ghost url0 = store.spec_pages()[page_id - 1].url;
    match result {
        FetchResult::Success { final_url, body, .. } => {
            match parse_html(body.as_str(), final_url.as_str()) {
                Ok(parsed) => {
                    let page_url = match store.get_page(page_id) {
                        Some(p) => p.url.clone(),
                        None => String::new(),
                    };
                    queued = handle_links(store, config, page_id, page_url.as_str(), &parsed.links, run_id, now);
                    let mut k: usize = 0;
                    while k < queued.len()
                        invariant
                            0 <= k <= queued.len(),
                            store.wf(),
                            1 <= page_id <= store.spec_pages().len(),
                            store.spec_pages()[page_id - 1].url == url0,
                            forall|i: int| 0 <= i < queued@.len() ==> {
                                let (id, p) = #[trigger] queued@[i];
                                &&& 1 <= id <= store.spec_pages().len()
                                &&& has_link(store.spec_links(), page_id, id)
                                &&& (p == 0 || p == 10)
                            },
                        decreases queued.len() - k,
                    {
                        let ghost pg = store.spec_pages();
                        let _ = store.update_page_state(queued[k].0, PageState::Queued, None, None, None, None, now);
                        proof {
                            assert(store.spec_pages()[page_id - 1].url == pg[page_id - 1].url);
                        }
                        k = k + 1;
                    }
                    title = parsed.title;
                },
                Err(e) => {
                    let mut m = String::from_str("Parse error: ");
                    m.append(e.as_str());
                    let _ = store.update_page_state(page_id, PageState::Failed, None, fields.1, fields.2, Some(m), now);
                    return FetchFinish { queued, rate_limited };
                },
            }
        },
        _ => {},
    }
    let _ = store.update_page_state(page_id, fields.0, title, fields.1, fields.2, fields.3, now);
    FetchFinish { queued, rate_limited }
}

/// After `processed` pages: whether to report progress (every 10 pages) and
/// whether to save the domain states (every 50 pages).
pub fn progress_actions(processed: u64) -> (r: (bool, bool))
    ensures
        r.0 == (processed > 0 && processed % 10 == 0),
        r.1 == (processed > 0 && processed % 50 == 0),
{
    (processed > 0 && processed % 10 == 0, processed > 0 && processed % 50 == 0)
}

/// The end of a crawl whose frontier is exhausted: the domain states are
/// saved, then the run is completed.
pub fn finish_run(store: &mut CrawlStore, states: &Vec<(String, crate::domain_state::DomainState)>, run_id: i64, now: i64)
    -> (r: Result<(), StorageError>)
    requires
        old(store).wf(),
    ensures
        final(store).wf(),
        final(store).spec_domain_states().map_values(|d: (String, crate::domain_state::DomainState)| crate::store::persisted(d))
            == states@.map_values(|d: (String, crate::domain_state::DomainState)| crate::store::persisted(d)),
        1 <= run_id <= old(store).spec_runs().len() ==> r is Ok
            && final(store).spec_runs().len() == old(store).spec_runs().len()
            && final(store).spec_runs()[run_id - 1].status == RunStatus::Completed
            && final(store).spec_runs()[run_id - 1].finished_at == Some(now),
        !(1 <= run_id <= old(store).spec_runs().len()) ==> r == Err::<(), StorageError>(StorageError::RunNotFound(run_id)),
{
    store.save_domain_states(states);
    store.complete_run(run_id, now)
}

} // verus!
