use sumi_ripple::config::CrawlerConfig;
use sumi_ripple::domain_state::{effective_delay, DomainState};
use sumi_ripple::scheduler::{QueuedUrl, Scheduler};

fn pacing_config() -> CrawlerConfig {
    CrawlerConfig { max_depth: 3, max_concurrent_pages_open: 10, minimum_time_on_page: 1000, max_domain_requests: 100 }
}

fn scheduler_config() -> CrawlerConfig {
    CrawlerConfig { max_depth: 3, max_concurrent_pages_open: 10, minimum_time_on_page: 1000, max_domain_requests: 500 }
}

fn queued(domain: &str, path: &str, priority: u32, page_id: i64) -> QueuedUrl {
    QueuedUrl { url: format!("https://{}{}", domain, path), domain: domain.to_string(), priority, page_id }
}

const START: u64 = 1_000_000;

#[test]
fn test_new_domain_state() {
    let state = DomainState::new();
    assert_eq!(state.request_count, 0);
    assert!(state.last_request_time.is_none());
    assert!(!state.rate_limited);
    assert!(state.robots_txt.is_none());
    assert!(state.robots_fetched_at.is_none());
}

#[test]
fn test_can_request_initially() {
    let state = DomainState::new();
    assert!(state.can_request(&pacing_config(), START, "TestBot"));
}

#[test]
fn test_cannot_request_when_rate_limited() {
    let mut state = DomainState::new();
    state.rate_limited = true;
    assert!(!state.can_request(&pacing_config(), START, "TestBot"));
}

#[test]
fn test_cannot_request_when_limit_reached() {
    let mut state = DomainState::new();
    state.request_count = 100;
    assert!(!state.can_request(&pacing_config(), START, "TestBot"));
}

#[test]
fn test_cannot_request_too_soon() {
    let mut state = DomainState::new();
    state.last_request_time = Some(START);
    let config = pacing_config();
    assert!(!state.can_request(&config, START, "TestBot"));
    assert!(!state.can_request(&config, START + 500, "TestBot"));
}

#[test]
fn test_can_request_after_delay() {
    let mut state = DomainState::new();
    state.last_request_time = Some(START);
    assert!(state.can_request(&pacing_config(), START + 1100, "TestBot"));
}

#[test]
fn domain_state_test_record_request() {
    let mut state = DomainState::new();
    assert_eq!(state.request_count, 0);
    assert!(state.last_request_time.is_none());
    state.record_request(START);
    assert_eq!(state.request_count, 1);
    assert_eq!(state.last_request_time, Some(START));
    state.record_request(START);
    assert_eq!(state.request_count, 2);
}

#[test]
fn domain_state_test_mark_rate_limited() {
    let mut state = DomainState::new();
    assert!(!state.rate_limited);
    state.mark_rate_limited();
    assert!(state.rate_limited);
}

#[test]
fn test_clear_rate_limit() {
    let mut state = DomainState::new();
    state.rate_limited = true;
    state.clear_rate_limit();
    assert!(!state.rate_limited);
}

#[test]
fn test_has_exceeded_limit() {
    let mut state = DomainState::new();
    let config = pacing_config();
    assert!(!state.has_exceeded_limit(&config));
    state.request_count = 99;
    assert!(!state.has_exceeded_limit(&config));
    state.request_count = 100;
    assert!(state.has_exceeded_limit(&config));
    state.request_count = 101;
    assert!(state.has_exceeded_limit(&config));
}

#[test]
fn test_requests_remaining() {
    let mut state = DomainState::new();
    let config = pacing_config();
    assert_eq!(state.requests_remaining(&config), 100);
    state.request_count = 50;
    assert_eq!(state.requests_remaining(&config), 50);
    state.request_count = 100;
    assert_eq!(state.requests_remaining(&config), 0);
    state.request_count = 150;
    assert_eq!(state.requests_remaining(&config), 0);
}

#[test]
fn test_time_until_next_request() {
    let mut state = DomainState::new();
    let config = pacing_config();
    assert!(state.time_until_next_request(&config, START, "TestBot").is_none());
    state.last_request_time = Some(START);
    assert_eq!(state.time_until_next_request(&config, START, "TestBot"), Some(1000));
    assert_eq!(state.time_until_next_request(&config, START + 500, "TestBot"), Some(500));
    assert!(state.time_until_next_request(&config, START + 1100, "TestBot").is_none());
}

const DAY_MS: i64 = 24 * 3600 * 1000;
const NOW_WALL: i64 = 1_700_000_000_000;

#[test]
fn test_is_robots_stale_no_fetch() {
    let state = DomainState::new();
    assert!(state.is_robots_stale(NOW_WALL));
}

#[test]
fn test_is_robots_stale_recent() {
    let mut state = DomainState::new();
    state.robots_fetched_at = Some(NOW_WALL);
    assert!(!state.is_robots_stale(NOW_WALL));
}

#[test]
fn test_is_robots_stale_old() {
    let mut state = DomainState::new();
    state.robots_fetched_at = Some(NOW_WALL - DAY_MS - 3600 * 1000);
    assert!(state.is_robots_stale(NOW_WALL));
}

#[test]
fn robots_fresh_at_23_hours() {
    let mut state = DomainState::new();
    state.robots_fetched_at = Some(NOW_WALL - 23 * 3600 * 1000);
    assert!(!state.is_robots_stale(NOW_WALL));
}

#[test]
fn test_update_robots() {
    let mut state = DomainState::new();
    assert!(state.robots_txt.is_none());
    state.update_robots("User-agent: *\nDisallow: /admin".to_string(), NOW_WALL);
    assert!(state.robots_txt.is_some());
    assert!(state.robots_fetched_at.is_some());
    let robots = state.robots_txt.unwrap();
    assert_eq!(robots.content, "User-agent: *\nDisallow: /admin");
}

#[test]
fn test_default() {
    let state = DomainState::default();
    assert_eq!(state.request_count, 0);
    assert!(!state.rate_limited);
}

#[test]
fn test_effective_delay_uses_config() {
    let domain_state = DomainState::new();
    assert_eq!(effective_delay(&scheduler_config(), &domain_state, "TestBot"), 1000);
}

#[test]
fn test_effective_delay_with_robots_delay() {
    let mut domain_state = DomainState::new();
    domain_state.update_robots("User-agent: *\nCrawl-delay: 5\nDisallow: /admin".to_string(), NOW_WALL);
    assert_eq!(effective_delay(&scheduler_config(), &domain_state, "TestBot"), 5000);
}

#[test]
fn test_effective_delay_robots_smaller_than_config() {
    let mut domain_state = DomainState::new();
    domain_state.update_robots("User-agent: *\nCrawl-delay: 0.5".to_string(), NOW_WALL);
    assert_eq!(effective_delay(&scheduler_config(), &domain_state, "TestBot"), 1000);
}

#[test]
fn test_effective_delay_specific_user_agent() {
    let mut domain_state = DomainState::new();
    domain_state.update_robots("User-agent: TestBot\nCrawl-delay: 10\n\nUser-agent: *\nCrawl-delay: 2".to_string(), NOW_WALL);
    assert_eq!(effective_delay(&scheduler_config(), &domain_state, "TestBot"), 10000);
    assert_eq!(effective_delay(&scheduler_config(), &domain_state, "OtherBot"), 2000);
}

#[test]
fn robots_delay_paces_requests() {
    let mut state = DomainState::new();
    state.update_robots("User-agent: *\nCrawl-delay: 3".to_string(), NOW_WALL);
    state.record_request(START);
    let config = scheduler_config();
    assert!(!state.can_request(&config, START + 2000, "TestBot"));
    assert_eq!(state.time_until_next_request(&config, START + 2000, "TestBot"), Some(1000));
    assert!(state.can_request(&config, START + 3000, "TestBot"));
}

#[test]
fn test_new_scheduler() {
    let scheduler = Scheduler::new(scheduler_config(), "TestBot".to_string(), vec![], vec![]);
    assert_eq!(scheduler.frontier_size(), 0);
    assert!(scheduler.is_empty());
}

#[test]
fn test_add_to_frontier() {
    let mut scheduler = Scheduler::new(scheduler_config(), "TestBot".to_string(), vec![], vec![]);
    scheduler.add_to_frontier(queued("example.com", "/page", 0, 1));
    assert_eq!(scheduler.frontier_size(), 1);
    assert!(!scheduler.is_empty());
}

#[test]
fn scheduler_test_record_request() {
    let mut scheduler = Scheduler::new(scheduler_config(), "TestBot".to_string(), vec![], vec![]);
    scheduler.record_request("example.com", START);
    let state = scheduler.get_domain_state("example.com");
    assert!(state.is_some());
    assert_eq!(state.unwrap().request_count, 1);
}

#[test]
fn scheduler_test_mark_rate_limited() {
    let mut scheduler = Scheduler::new(scheduler_config(), "TestBot".to_string(), vec![], vec![]);
    scheduler.mark_rate_limited("example.com");
    let state = scheduler.get_domain_state("example.com");
    assert!(state.is_some());
    assert!(state.unwrap().rate_limited);
}

#[test]
fn test_next_url_from_frontier() {
    let mut scheduler = Scheduler::new(scheduler_config(), "TestBot".to_string(), vec![queued("example.com", "/page", 0, 1)], vec![]);
    assert_eq!(scheduler.frontier_size(), 1);
    assert!(scheduler.next_ready(START).is_some());
    assert_eq!(scheduler.frontier_size(), 0);
}

#[test]
fn test_next_url_empty_frontier() {
    let mut scheduler = Scheduler::new(scheduler_config(), "TestBot".to_string(), vec![], vec![]);
    assert!(scheduler.next_ready(START).is_none());
}

#[test]
fn dispatch_follows_priority_then_url() {
    let frontier = vec![
        queued("b.test", "/z", 10, 1),
        queued("a.test", "/b", 0, 2),
        queued("c.test", "/a", 0, 3),
        queued("a.test", "/a", 0, 4),
    ];
    let mut scheduler = Scheduler::new(scheduler_config(), "TestBot".to_string(), frontier, vec![]);
    assert_eq!(scheduler.next_ready(START).unwrap().page_id, 4);
    assert_eq!(scheduler.next_ready(START).unwrap().page_id, 2);
    assert_eq!(scheduler.next_ready(START).unwrap().page_id, 3);
    assert_eq!(scheduler.next_ready(START).unwrap().page_id, 1);
    assert!(scheduler.next_ready(START).is_none());
}

#[test]
fn paced_domain_is_skipped_until_ready() {
    let frontier = vec![queued("a.test", "/1", 0, 1), queued("a.test", "/2", 0, 2), queued("b.test", "/1", 5, 3)];
    let mut scheduler = Scheduler::new(scheduler_config(), "TestBot".to_string(), frontier, vec![]);
    let first = scheduler.next_ready(START).unwrap();
    assert_eq!(first.page_id, 1);
    scheduler.record_request("a.test", START);
    assert_eq!(scheduler.next_ready(START + 10).unwrap().page_id, 3);
    scheduler.record_request("b.test", START + 10);
    assert!(scheduler.next_ready(START + 20).is_none());
    assert_eq!(scheduler.next_ready(START + 1000).unwrap().page_id, 2);
}

#[test]
fn budget_stops_dispatch() {
    let config = CrawlerConfig { max_depth: 3, max_concurrent_pages_open: 10, minimum_time_on_page: 100, max_domain_requests: 2 };
    let frontier = vec![queued("a.test", "/1", 0, 1), queued("a.test", "/2", 0, 2), queued("a.test", "/3", 0, 3)];
    let mut scheduler = Scheduler::new(config, "TestBot".to_string(), frontier, vec![]);
    let mut now = START;
    let mut sent = 0;
    for _ in 0..5 {
        if let Some(q) = scheduler.next_ready(now) {
            scheduler.record_request(&q.domain, now);
            sent += 1;
        }
        now += 1000;
    }
    assert_eq!(sent, 2);
    assert_eq!(scheduler.get_domain_state("a.test").unwrap().request_count, 2);
    assert_eq!(scheduler.frontier_size(), 1);
}

#[test]
fn rate_limited_domain_is_never_dispatched() {
    let frontier = vec![queued("slow.test", "/1", 0, 1), queued("ok.test", "/1", 10, 2)];
    let mut scheduler = Scheduler::new(scheduler_config(), "TestBot".to_string(), frontier, vec![]);
    scheduler.mark_rate_limited("slow.test");
    assert_eq!(scheduler.next_ready(START).unwrap().page_id, 2);
    assert!(scheduler.next_ready(START + 100_000).is_none());
}

#[test]
fn pacing_wait_follows_soonest_domain() {
    let frontier = vec![queued("a.test", "/1", 0, 1), queued("b.test", "/1", 0, 2)];
    let mut scheduler = Scheduler::new(scheduler_config(), "TestBot".to_string(), frontier, vec![]);
    assert_eq!(scheduler.pacing_wait_ms(START), 10);
    scheduler.record_request("a.test", START);
    assert_eq!(scheduler.pacing_wait_ms(START), 10);
    scheduler.record_request("b.test", START + 950);
    assert_eq!(scheduler.pacing_wait_ms(START + 960), 50);
    assert_eq!(scheduler.pacing_wait_ms(START + 500), 110);
}
