use sumi_ripple::coordinator::{begin_fetch, finish_fetch, handle_link, handle_links, robots_step, start_run, LinkOutcome};
use sumi_ripple::summary::{format_markdown_summary, generate_summary};
use sumi_ripple::classify::{classify_domain, DomainClassification};
use sumi_ripple::config::{Config, CrawlerConfig, OutputConfig, QualityEntry, UserAgentConfig};
use sumi_ripple::fetch::{get_step, head_step, FetchResult, FetchStep};
use sumi_ripple::html::parse_html;
use sumi_ripple::page_state::PageState;
use sumi_ripple::robots::ParsedRobots;
use sumi_ripple::scheduler::{QueuedUrl, Scheduler};
use sumi_ripple::store::{CrawlStore, RunStatus};
use sumi_ripple::weburl::{extract_domain, normalize_url};

const T: i64 = 1_700_000_000_000;

fn scenario_config(max_depth: u32) -> Config {
    Config {
        crawler: CrawlerConfig { max_depth, max_concurrent_pages_open: 4, minimum_time_on_page: 100, max_domain_requests: 100 },
        user_agent: UserAgentConfig {
            crawler_name: "TestBot".to_string(),
            crawler_version: "1.0".to_string(),
            contact_url: "https://example.test/about".to_string(),
            contact_email: "bot@example.test".to_string(),
        },
        output: OutputConfig { database_path: "db".to_string(), summary_path: "summary.md".to_string() },
        quality: vec![QualityEntry { domain: "example.test".to_string(), seeds: vec!["https://example.test/".to_string()] }],
        blacklist: vec![],
        stub: vec![],
    }
}

/// Handles the links of a processed page with the library; returns the
/// ids of the pages queued.
fn discover(store: &mut CrawlStore, config: &Config, from: i64, base: &str, html: &str) -> Vec<i64> {
    let parsed = parse_html(html, base).unwrap();
    handle_links(store, config, from, base, &parsed.links, 1, T).into_iter().map(|(id, _)| id).collect()
}

#[test]
fn seed_only_crawl() {
    let config = scenario_config(3);
    let mut store = CrawlStore::new();
    let seed = normalize_url("https://example.test/").unwrap();
    assert_eq!(classify_domain("example.test", &config), DomainClassification::Quality);
    let root = store.insert_or_get_page(&seed.as_str(), "example.test", 1, T).unwrap();
    store.upsert_depth(root, "example.test", 0);
    let html = r#"<html><body><a href="https://example.test/a">A</a><a href="https://example.test/b">B</a></body></html>"#;
    let children = discover(&mut store, &config, root, "https://example.test/", html);
    store.update_page_state(root, PageState::Processed, None, Some(200), Some("text/html".to_string()), None, T).unwrap();
    for c in &children {
        store.update_page_state(*c, PageState::Processed, None, Some(200), Some("text/html".to_string()), None, T).unwrap();
    }
    assert_eq!(store.count_pages_by_state(PageState::Processed), 3);
    assert!(store.count_links() >= 2);
    let mut depths: Vec<u32> = Vec::new();
    for id in 1..=3 {
        for d in store.get_depths(id) {
            assert_eq!(d.quality_origin, "example.test");
            depths.push(d.depth);
        }
    }
    depths.sort();
    assert_eq!(depths, vec![0, 1, 1]);
}

#[test]
fn depth_limit_stops_at_max_depth() {
    let config = scenario_config(2);
    let mut store = CrawlStore::new();
    let root = store.insert_or_get_page("https://example.test/", "example.test", 1, T).unwrap();
    store.upsert_depth(root, "example.test", 0);
    let l1 = discover(&mut store, &config, root, "https://example.test/", r#"<a href="/l1">1</a>"#);
    assert_eq!(l1.len(), 1);
    let l2 = discover(&mut store, &config, l1[0], "https://example.test/l1", r#"<a href="/l2">2</a>"#);
    assert_eq!(l2.len(), 1);
    let l3 = discover(&mut store, &config, l2[0], "https://example.test/l2", r#"<a href="/l3">3</a>"#);
    assert!(l3.is_empty());
    let page = store.get_page_by_url("https://example.test/l3").unwrap();
    assert!(!store.should_crawl(page.id, 2));
}

#[test]
fn robots_disallowed_path() {
    let robots = ParsedRobots::from_content("User-agent: *\nDisallow: /admin");
    assert!(robots.is_allowed("/allowed", "TestBot"));
    assert!(!robots.is_allowed("/admin", "TestBot"));
    let mut store = CrawlStore::new();
    let admin = store.insert_or_get_page("https://example.test/admin", "example.test", 1, T).unwrap();
    store.update_page_state(admin, PageState::Failed, None, None, None, Some("Disallowed by robots.txt".to_string()), T).unwrap();
    let page = store.get_page(admin).unwrap();
    assert_eq!(page.state, PageState::Failed);
    assert!(page.error_message.as_ref().unwrap().contains("robots.txt"));
}

#[test]
fn content_type_mismatch() {
    match head_step("https://example.test/doc.pdf", 200, None, Some("application/pdf")) {
        FetchStep::Finish(FetchResult::ContentMismatch { content_type }) => assert_eq!(content_type, "application/pdf"),
        other => panic!("unexpected {:?}", other),
    }
    match get_step("https://example.test/doc.pdf", 200, None, Some("application/pdf")) {
        FetchStep::Finish(FetchResult::ContentMismatch { .. }) => {}
        other => panic!("unexpected {:?}", other),
    }
}

#[test]
fn rate_limited_domain() {
    let step = get_step("https://slow.test/", 429, None, None);
    assert!(matches!(step, FetchStep::Finish(FetchResult::HttpError { status_code: 429, state: PageState::RateLimited })));
    let config = scenario_config(3).crawler;
    let q = |path: &str, id: i64| QueuedUrl { url: format!("https://slow.test{}", path), domain: "slow.test".to_string(), priority: 0, page_id: id };
    let mut scheduler = Scheduler::new(config, "TestBot".to_string(), vec![q("/", 1), q("/a", 2)], vec![]);
    let first = scheduler.next_ready(0).unwrap();
    scheduler.record_request(&first.domain, 0);
    scheduler.mark_rate_limited("slow.test");
    assert!(scheduler.get_domain_state("slow.test").unwrap().rate_limited);
    assert!(scheduler.next_ready(1_000_000).is_none());
}

#[test]
fn resume_reuses_running_run() {
    let mut store = CrawlStore::new();
    let run = store.create_run("hash", T).unwrap();
    let a = store.insert_or_get_page("https://example.test/", "example.test", run, T).unwrap();
    let b = store.insert_or_get_page("https://example.test/b", "example.test", run, T).unwrap();
    store.update_page_state(a, PageState::Processed, None, Some(200), None, None, T).unwrap();
    store.add_to_frontier(b, 10).unwrap();
    // The process stops here; a new start looks at the latest run.
    let latest = store.get_latest_run().unwrap();
    assert_eq!(latest.status, RunStatus::Running);
    let resumed = latest.id;
    assert_eq!(resumed, run);
    assert_eq!(store.load_frontier(), vec![(b, 10)]);
    assert_eq!(store.pop_from_frontier(), Some(b));
    store.update_page_state(b, PageState::Processed, None, Some(200), None, None, T).unwrap();
    store.complete_run(resumed, T + 1).unwrap();
    assert_eq!(store.get_latest_run().unwrap().status, RunStatus::Completed);
    assert_eq!(store.count_pages_by_state(PageState::Processed), 2);
}

#[test]
fn normalization_is_idempotent_on_examples() {
    for input in [
        "http://WWW.EXAMPLE.COM/a/../b/?utm_source=test&z=1&a=2#frag",
        "https://example.com///path//to///page/",
        "https://example.com/page?b=2&a=1&b=0",
        "https://example.com",
    ] {
        let once = normalize_url(input).unwrap().as_str();
        let twice = normalize_url(&once).unwrap().as_str();
        assert_eq!(once, twice);
    }
}

#[test]
fn blacklist_wins_over_stub_and_quality() {
    let mut config = scenario_config(3);
    config.blacklist.push(sumi_ripple::config::DomainEntry { domain: "*.example.test".to_string() });
    config.stub.push(sumi_ripple::config::DomainEntry { domain: "example.test".to_string() });
    assert_eq!(classify_domain("example.test", &config), DomainClassification::Blacklisted);
    assert_eq!(classify_domain("sub.example.test", &config), DomainClassification::Blacklisted);
}

#[test]
fn start_run_seeds_fresh_and_resumes_running() {
    let config = scenario_config(3);
    let mut store = CrawlStore::new();
    let (run, queue) = start_run(&mut store, &config, true, "h", T).unwrap();
    assert_eq!(run, 1);
    assert_eq!(queue.len(), 1);
    assert_eq!(queue[0].url, "https://example.test/");
    assert_eq!(queue[0].priority, 0);
    assert_eq!(store.get_depths(queue[0].page_id)[0].depth, 0);
    // Not fresh, latest run still Running: it is resumed with its frontier.
    let (again, queue2) = start_run(&mut store, &config, false, "h", T).unwrap();
    assert_eq!(again, run);
    assert_eq!(queue2.len(), 1);
    assert_eq!(queue2[0].page_id, queue[0].page_id);
    // A completed run is not resumed.
    store.complete_run(run, T + 1).unwrap();
    let (third, _) = start_run(&mut store, &config, false, "h", T).unwrap();
    assert_eq!(third, 2);
}

#[test]
fn links_are_recorded_and_queued() {
    let mut config = scenario_config(1);
    config.blacklist.push(sumi_ripple::config::DomainEntry { domain: "bad.test".to_string() });
    config.stub.push(sumi_ripple::config::DomainEntry { domain: "stub.test".to_string() });
    let mut store = CrawlStore::new();
    let root = store.insert_or_get_page("https://example.test/", "example.test", 1, T).unwrap();
    store.upsert_depth(root, "example.test", 0);
    assert_eq!(handle_link(&mut store, &config, root, "https://example.test/", "https://bad.test/x", 1, T), LinkOutcome::Blacklisted);
    assert_eq!(handle_link(&mut store, &config, root, "https://example.test/", "https://stub.test/x", 1, T), LinkOutcome::Stubbed);
    assert_eq!(handle_link(&mut store, &config, root, "https://example.test/", "ftp://example.test/x", 1, T), LinkOutcome::Dropped);
    let links = vec!["https://example.test/a".to_string(), "https://other.test/b".to_string(), "https://example.test/a".to_string()];
    let queued = handle_links(&mut store, &config, root, "https://example.test/", &links, 1, T);
    assert_eq!(queued.len(), 3);
    assert_eq!(queued[0].1, 0);
    assert_eq!(queued[1].1, 10);
    assert_eq!(store.count_links(), 2);
    assert_eq!(store.count_blacklisted(), 1);
    assert_eq!(store.count_stubbed(), 1);
    let a = store.get_page_by_url("https://example.test/a").unwrap().id;
    assert_eq!(store.get_depths(a)[0].depth, 1);
    // A page two links away is past max_depth 1: recorded, not queued.
    match handle_link(&mut store, &config, a, "https://example.test/a", "https://example.test/deep", 1, T) {
        LinkOutcome::Recorded(_) => {}
        other => panic!("unexpected {:?}", other),
    }
}

#[test]
fn summary_from_store() {
    let mut store = CrawlStore::new();
    assert!(generate_summary(&store).is_err());
    let run = store.create_run("abc", 1000).unwrap();
    let a = store.insert_or_get_page("https://a.test/", "a.test", run, T).unwrap();
    let b = store.insert_or_get_page("https://b.test/", "b.test", run, T).unwrap();
    let c = store.insert_or_get_page("https://a.test/c", "a.test", run, T).unwrap();
    store.update_page_state(a, PageState::Processed, None, Some(200), None, None, T).unwrap();
    store.update_page_state(b, PageState::DeadLink, None, Some(404), None, None, T).unwrap();
    store.update_page_state(c, PageState::RateLimited, None, Some(429), None, None, T).unwrap();
    store.insert_link(a, b, run);
    store.complete_run(run, 61000).unwrap();
    let summary = generate_summary(&store).unwrap();
    assert_eq!(summary.run_id, run);
    assert_eq!(summary.status, "completed");
    assert_eq!(summary.started_at, "1000");
    assert_eq!(summary.duration_seconds, Some(60));
    assert_eq!(summary.total_pages, 3);
    assert_eq!(summary.unique_domains, 2);
    assert_eq!(summary.total_links, 1);
    assert_eq!(summary.total_errors, 2);
    assert_eq!(summary.error_summary, vec![(PageState::DeadLink, 1), (PageState::RateLimited, 1)]);
    let md = format_markdown_summary(&summary);
    assert!(md.contains("- **Duration**: 60 seconds (1.00 minutes)\n"));
    assert!(md.contains("- **Success Rate**: 33.33%\n"));
    assert!(md.contains("| DeadLink | 1 |"));
}

#[test]
fn pipeline_seed_only_crawl() {
    let config = scenario_config(3);
    let mut store = CrawlStore::new();
    let (run, queue) = start_run(&mut store, &config, true, "h", T).unwrap();
    let root = queue[0].page_id;
    begin_fetch(&mut store, root, T);
    assert_eq!(store.get_page(root).unwrap().state, PageState::Fetching);
    let page = FetchResult::Success {
        final_url: "https://example.test/".to_string(),
        status_code: 200,
        content_type: "text/html".to_string(),
        body: r#"<title>Home</title><a href="https://example.test/a">A</a><a href="https://example.test/b">B</a>"#.to_string(),
        title: None,
    };
    let done = finish_fetch(&mut store, &config, root, &page, run, T);
    assert_eq!(done.queued.len(), 2);
    assert!(!done.rate_limited);
    let rec = store.get_page(root).unwrap();
    assert_eq!(rec.state, PageState::Processed);
    assert_eq!(rec.title, Some("Home".to_string()));
    for (id, _) in &done.queued {
        assert_eq!(store.get_page(*id).unwrap().state, PageState::Queued);
        let leaf = FetchResult::Success {
            final_url: store.get_page(*id).unwrap().url.clone(),
            status_code: 200,
            content_type: "text/html".to_string(),
            body: "<p>leaf</p>".to_string(),
            title: None,
        };
        finish_fetch(&mut store, &config, *id, &leaf, run, T);
    }
    assert_eq!(store.count_pages_by_state(PageState::Processed), 3);
    assert!(store.count_links() >= 2);
    let mut depths: Vec<u32> = Vec::new();
    for id in 1..=3 {
        for d in store.get_depths(id) {
            assert_eq!(d.quality_origin, "example.test");
            depths.push(d.depth);
        }
    }
    depths.sort();
    assert_eq!(depths, vec![0, 1, 1]);
}

#[test]
fn pipeline_robots_content_and_rate_limit() {
    let config = scenario_config(3);
    let mut store = CrawlStore::new();
    let admin = store.insert_or_get_page("https://example.test/admin", "example.test", 1, T).unwrap();
    let robots = ParsedRobots::from_content("User-agent: *\nDisallow: /admin");
    let go = robots_step(&mut store, admin, robots.is_allowed("/admin", "TestBot"), T);
    assert!(!go);
    let rec = store.get_page(admin).unwrap();
    assert_eq!(rec.state, PageState::Failed);
    assert!(rec.error_message.as_ref().unwrap().contains("robots.txt"));

    let pdf = store.insert_or_get_page("https://example.test/doc.pdf", "example.test", 1, T).unwrap();
    let links_before = store.count_links();
    let done = finish_fetch(&mut store, &config, pdf, &FetchResult::ContentMismatch { content_type: "application/pdf".to_string() }, 1, T);
    assert!(done.queued.is_empty());
    assert_eq!(store.count_links(), links_before);
    let rec = store.get_page(pdf).unwrap();
    assert_eq!(rec.state, PageState::ContentMismatch);
    assert_eq!(rec.error_message, Some("Expected HTML, got application/pdf".to_string()));

    let slow = store.insert_or_get_page("https://slow.test/", "slow.test", 1, T).unwrap();
    let done = finish_fetch(&mut store, &config, slow, &FetchResult::HttpError { status_code: 429, state: PageState::RateLimited }, 1, T);
    assert!(done.rate_limited);
    let rec = store.get_page(slow).unwrap();
    assert_eq!(rec.state, PageState::RateLimited);
    assert_eq!(rec.status_code, Some(429));
    assert_eq!(rec.error_message, Some("HTTP 429".to_string()));
    assert_eq!(store.get_rate_limited_domains(), vec!["slow.test".to_string()]);
}
