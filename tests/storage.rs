use sumi_ripple::domain_state::DomainState;
use sumi_ripple::page_state::PageState;
use sumi_ripple::store::{get_schema_version, CrawlStore, RunStatus, StorageError};

const T0: i64 = 1_700_000_000_000;

#[test]
fn test_create_run() {
    let mut storage = CrawlStore::new();
    let run_id = storage.create_run("test_hash", T0).unwrap();
    assert!(run_id > 0);
}

#[test]
fn test_insert_page() {
    let mut storage = CrawlStore::new();
    let run_id = storage.create_run("test_hash", T0).unwrap();
    let page_id = storage.insert_or_get_page("https://example.com/", "example.com", run_id, T0).unwrap();
    assert!(page_id > 0);
}

#[test]
fn test_insert_duplicate_page() {
    let mut storage = CrawlStore::new();
    let run_id = storage.create_run("test_hash", T0).unwrap();
    let page_id1 = storage.insert_or_get_page("https://example.com/", "example.com", run_id, T0).unwrap();
    let page_id2 = storage.insert_or_get_page("https://example.com/", "example.com", run_id, T0).unwrap();
    assert_eq!(page_id1, page_id2);
    assert_eq!(storage.count_total_pages(), 1);
}

#[test]
fn test_update_page_state() {
    let mut storage = CrawlStore::new();
    let run_id = storage.create_run("test_hash", T0).unwrap();
    let page_id = storage.insert_or_get_page("https://example.com/", "example.com", run_id, T0).unwrap();
    storage
        .update_page_state(page_id, PageState::Processed, Some("Test Page".to_string()), Some(200), Some("text/html".to_string()), None, T0 + 5)
        .unwrap();
    let page = storage.get_page(page_id).unwrap();
    assert_eq!(page.state, PageState::Processed);
    assert_eq!(page.title, Some("Test Page".to_string()));
    assert_eq!(page.visited_at, Some(T0 + 5));
}

#[test]
fn update_unknown_page_fails() {
    let mut storage = CrawlStore::new();
    assert_eq!(storage.update_page_state(7, PageState::Failed, None, None, None, None, T0), Err(StorageError::PageNotFound(7)));
    assert_eq!(storage.increment_retry_count(7), Err(StorageError::PageNotFound(7)));
    assert_eq!(storage.add_to_frontier(7, 0), Err(StorageError::PageNotFound(7)));
}

#[test]
fn page_lookup_by_url_returns_inserted_row() {
    let mut storage = CrawlStore::new();
    let id = storage.insert_or_get_page("https://a.test/x", "a.test", 1, T0).unwrap();
    let page = storage.get_page_by_url("https://a.test/x").unwrap();
    assert_eq!(page.id, id);
    assert_eq!(page.url, "https://a.test/x");
    assert_eq!(page.domain, "a.test");
    assert_eq!(page.state, PageState::Discovered);
    assert!(storage.get_page_by_url("https://a.test/y").is_none());
}

#[test]
fn depth_keeps_minimum_per_origin() {
    let mut storage = CrawlStore::new();
    let id = storage.insert_or_get_page("https://a.test/", "a.test", 1, T0).unwrap();
    storage.upsert_depth(id, "a.test", 3);
    storage.upsert_depth(id, "a.test", 5);
    storage.upsert_depth(id, "a.test", 1);
    storage.upsert_depth(id, "a.test", 2);
    storage.upsert_depth(id, "b.test", 4);
    let depths = storage.get_depths(id);
    assert_eq!(depths.len(), 2);
    assert_eq!(depths[0].quality_origin, "a.test");
    assert_eq!(depths[0].depth, 1);
    assert_eq!(depths[1].quality_origin, "b.test");
    assert_eq!(depths[1].depth, 4);
    assert!(storage.should_crawl(id, 1));
    assert!(!storage.should_crawl(id, 0));
}

#[test]
fn link_inserted_twice_is_one_row() {
    let mut storage = CrawlStore::new();
    let a = storage.insert_or_get_page("https://a.test/", "a.test", 1, T0).unwrap();
    let b = storage.insert_or_get_page("https://a.test/b", "a.test", 1, T0).unwrap();
    storage.insert_link(a, b, 1);
    storage.insert_link(a, b, 2);
    assert_eq!(storage.count_links(), 1);
    storage.insert_link(b, a, 2);
    assert_eq!(storage.count_links(), 2);
}

#[test]
fn frontier_pops_lowest_priority_first() {
    let mut storage = CrawlStore::new();
    let a = storage.insert_or_get_page("https://a.test/1", "a.test", 1, T0).unwrap();
    let b = storage.insert_or_get_page("https://a.test/2", "a.test", 1, T0).unwrap();
    let c = storage.insert_or_get_page("https://a.test/3", "a.test", 1, T0).unwrap();
    storage.add_to_frontier(a, 10).unwrap();
    storage.add_to_frontier(b, 0).unwrap();
    storage.add_to_frontier(c, 10).unwrap();
    storage.add_to_frontier(a, 10).unwrap();
    assert_eq!(storage.frontier_len(), 3);
    assert_eq!(storage.load_frontier(), vec![(b, 0), (a, 10), (c, 10)]);
    assert_eq!(storage.pop_from_frontier(), Some(b));
    assert_eq!(storage.pop_from_frontier(), Some(a));
    assert_eq!(storage.pop_from_frontier(), Some(c));
    assert_eq!(storage.pop_from_frontier(), None);
    storage.add_to_frontier(a, 1).unwrap();
    storage.clear_frontier();
    assert_eq!(storage.frontier_len(), 0);
}

#[test]
fn runs_and_interrupted_pages() {
    let mut storage = CrawlStore::new();
    assert!(storage.get_latest_run().is_none());
    let run = storage.create_run("h", T0).unwrap();
    let a = storage.insert_or_get_page("https://a.test/", "a.test", run, T0).unwrap();
    let b = storage.insert_or_get_page("https://a.test/b", "a.test", run, T0).unwrap();
    storage.update_page_state(a, PageState::Fetching, None, None, None, None, T0).unwrap();
    storage.update_page_state(b, PageState::Processed, None, Some(200), None, None, T0).unwrap();
    assert_eq!(storage.get_interrupted_pages(), vec![a]);
    assert_eq!(storage.count_pages_by_state(PageState::Processed), 1);
    assert_eq!(storage.get_latest_run().unwrap().status, RunStatus::Running);
    storage.complete_run(run, T0 + 10).unwrap();
    let latest = storage.get_latest_run().unwrap();
    assert_eq!(latest.status, RunStatus::Completed);
    assert_eq!(latest.finished_at, Some(T0 + 10));
    assert_eq!(storage.update_run_status(99, RunStatus::Failed), Err(StorageError::RunNotFound(99)));
}

#[test]
fn referrer_records_append() {
    let mut storage = CrawlStore::new();
    storage.record_blacklisted("https://bad.test/", "https://a.test/", 1);
    storage.record_blacklisted("https://bad.test/", "https://a.test/", 1);
    storage.record_stubbed("https://stub.test/", "https://a.test/", 1);
    assert_eq!(storage.count_blacklisted(), 2);
    assert_eq!(storage.count_stubbed(), 1);
}

#[test]
fn test_domain_state_persistence() {
    let mut storage = CrawlStore::new();
    let mut state = DomainState::new();
    state.request_count = 42;
    state.rate_limited = true;
    state.record_request(77);
    state.update_robots("User-agent: *\nDisallow: /admin".to_string(), T0);
    storage.save_domain_states(&vec![("example.com".to_string(), state)]);
    let loaded = storage.load_domain_states();
    assert_eq!(loaded.len(), 1);
    assert_eq!(loaded[0].0, "example.com");
    assert_eq!(loaded[0].1.request_count, 43);
    assert!(loaded[0].1.rate_limited);
    assert!(loaded[0].1.robots_txt.is_some());
    assert_eq!(loaded[0].1.robots_fetched_at, Some(T0));
    assert!(loaded[0].1.last_request_time.is_none());
}

#[test]
fn retry_count_increments() {
    let mut storage = CrawlStore::new();
    let a = storage.insert_or_get_page("https://a.test/", "a.test", 1, T0).unwrap();
    storage.increment_retry_count(a).unwrap();
    storage.increment_retry_count(a).unwrap();
    assert_eq!(storage.get_page(a).unwrap().retry_count, 2);
}

#[test]
fn schema_version_is_one() {
    assert_eq!(get_schema_version(), 1);
}

#[test]
fn link_queries_and_rate_limited_domains() {
    let mut storage = CrawlStore::new();
    let a = storage.insert_or_get_page("https://a.test/", "a.test", 1, T0).unwrap();
    let b = storage.insert_or_get_page("https://b.test/", "b.test", 1, T0).unwrap();
    let c = storage.insert_or_get_page("https://c.test/", "c.test", 1, T0).unwrap();
    storage.insert_link(a, b, 1);
    storage.insert_link(a, c, 1);
    storage.insert_link(c, b, 1);
    let out: Vec<i64> = storage.get_outgoing_links(a).iter().map(|l| l.to_page_id).collect();
    assert_eq!(out, vec![b, c]);
    let inc: Vec<i64> = storage.get_incoming_links(b).iter().map(|l| l.from_page_id).collect();
    assert_eq!(inc, vec![a, c]);
    assert!(storage.get_rate_limited_domains().is_empty());
    let d = storage.insert_or_get_page("https://slow.test/", "slow.test", 1, T0).unwrap();
    let e = storage.insert_or_get_page("https://slow.test/e", "slow.test", 1, T0).unwrap();
    storage.update_page_state(d, PageState::RateLimited, None, Some(429), None, None, T0).unwrap();
    storage.update_page_state(e, PageState::RateLimited, None, Some(429), None, None, T0).unwrap();
    assert_eq!(storage.get_rate_limited_domains(), vec!["slow.test".to_string()]);
}

#[test]
fn referrer_urls_grouped_by_count() {
    let mut storage = CrawlStore::new();
    storage.record_blacklisted("https://bad.test/a", "https://x.test/", 1);
    storage.record_blacklisted("https://bad.test/b", "https://x.test/", 1);
    storage.record_blacklisted("https://bad.test/b", "https://y.test/", 1);
    storage.record_blacklisted("https://bad.test/c", "https://y.test/", 1);
    assert_eq!(
        storage.get_blacklisted_urls(),
        vec![("https://bad.test/b".to_string(), 2), ("https://bad.test/a".to_string(), 1), ("https://bad.test/c".to_string(), 1)]
    );
    storage.record_stubbed("https://stub.test/", "https://x.test/", 1);
    assert_eq!(storage.get_stubbed_urls(), vec![("https://stub.test/".to_string(), 1)]);
}
