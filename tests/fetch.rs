use sumi_ripple::config::UserAgentConfig;
use sumi_ripple::fetch::{
    enter_redirect, get_step, head_step, network_failure, should_retry, status_state, user_agent_string,
    FetchResult, FetchStep, RedirectChain, RetryPolicy,
};
use sumi_ripple::page_state::PageState;

#[test]
fn test_retry_policy_default() {
    let policy = RetryPolicy::default();
    assert_eq!(policy.max_retries, 3);
    assert_eq!(policy.base_delay_ms, 5000);
}

#[test]
fn test_retry_policy_delay_calculation() {
    let policy = RetryPolicy::default();
    assert_eq!(policy.delay_for_attempt(0), 5000);
    assert_eq!(policy.delay_for_attempt(1), 10000);
    assert_eq!(policy.delay_for_attempt(2), 20000);
    assert_eq!(policy.delay_for_attempt(3), 40000);
}

#[test]
fn test_is_retryable_5xx() {
    assert!(RetryPolicy::is_retryable(Some(500), false, false));
    assert!(RetryPolicy::is_retryable(Some(502), false, false));
    assert!(RetryPolicy::is_retryable(Some(503), false, false));
}

#[test]
fn test_is_not_retryable_4xx() {
    assert!(!RetryPolicy::is_retryable(Some(404), false, false));
    assert!(!RetryPolicy::is_retryable(Some(403), false, false));
    assert!(!RetryPolicy::is_retryable(Some(400), false, false));
}

#[test]
fn test_is_retryable_timeout() {
    assert!(RetryPolicy::is_retryable(None, true, false));
}

#[test]
fn test_is_retryable_connection() {
    assert!(RetryPolicy::is_retryable(None, false, true));
}

#[test]
fn status_table_maps_errors() {
    assert_eq!(status_state(404), PageState::DeadLink);
    assert_eq!(status_state(429), PageState::RateLimited);
    assert_eq!(status_state(403), PageState::Failed);
    assert_eq!(status_state(500), PageState::Failed);
}

#[test]
fn head_404_is_dead_link() {
    match head_step("https://example.test/x", 404, None, None) {
        FetchStep::Finish(FetchResult::HttpError { status_code, state }) => {
            assert_eq!(status_code, 404);
            assert_eq!(state, PageState::DeadLink);
        }
        other => panic!("unexpected {:?}", other),
    }
}

#[test]
fn head_pdf_is_content_mismatch() {
    match head_step("https://example.test/doc.pdf", 200, None, Some("application/pdf")) {
        FetchStep::Finish(FetchResult::ContentMismatch { content_type }) => {
            assert_eq!(content_type, "application/pdf");
        }
        other => panic!("unexpected {:?}", other),
    }
}

#[test]
fn head_html_and_5xx_go_to_get() {
    assert!(matches!(head_step("https://example.test/", 200, None, Some("text/html; charset=utf-8")), FetchStep::SendGet));
    assert!(matches!(head_step("https://example.test/", 503, None, None), FetchStep::SendGet));
    assert!(matches!(head_step("https://example.test/", 200, None, None), FetchStep::SendGet));
}

#[test]
fn relative_redirect_is_resolved() {
    match head_step("https://example.test/a/b", 301, Some("/c"), None) {
        FetchStep::Follow(target) => assert_eq!(target, "https://example.test/c"),
        other => panic!("unexpected {:?}", other),
    }
    match get_step("https://example.test/a/b", 302, Some("https://other.test/z"), None) {
        FetchStep::Follow(target) => assert_eq!(target, "https://other.test/z"),
        other => panic!("unexpected {:?}", other),
    }
}

#[test]
fn redirect_without_location_is_error() {
    assert!(matches!(get_step("https://example.test/", 302, None, None), FetchStep::Finish(FetchResult::RedirectError { .. })));
}

#[test]
fn get_429_is_rate_limited_and_body_read_on_html() {
    match get_step("https://example.test/", 429, None, None) {
        FetchStep::Finish(FetchResult::HttpError { status_code, state }) => {
            assert_eq!(status_code, 429);
            assert_eq!(state, PageState::RateLimited);
        }
        other => panic!("unexpected {:?}", other),
    }
    assert!(matches!(get_step("https://example.test/", 200, None, Some("text/html")), FetchStep::ReadBody));
}

#[test]
fn redirect_chain_detects_loop_and_length() {
    let mut chain = RedirectChain::new();
    assert!(chain.add_url("https://a.test/"));
    assert!(chain.has_visited("https://a.test/"));
    assert!(!chain.add_url("https://a.test/"));
    assert!(!chain.is_too_long());
    let mut c2 = RedirectChain::new();
    for i in 0..10 {
        assert!(enter_redirect(&mut c2, &format!("https://a.test/{}", i)).is_none());
    }
    assert!(matches!(enter_redirect(&mut c2, "https://a.test/10"), Some(FetchResult::RedirectError { .. })));
    assert!(matches!(enter_redirect(&mut c2, "https://a.test/0"), Some(FetchResult::RedirectError { .. })));
}

#[test]
fn transport_failures_map_to_states() {
    assert!(matches!(network_failure(true, false, None, String::new()), FetchResult::NetworkError { state: PageState::Unreachable, .. }));
    assert!(matches!(network_failure(false, true, None, String::new()), FetchResult::NetworkError { state: PageState::Unreachable, .. }));
    assert!(matches!(network_failure(false, false, Some(404), String::new()), FetchResult::HttpError { state: PageState::DeadLink, .. }));
    assert!(matches!(network_failure(false, false, None, "tls".to_string()), FetchResult::NetworkError { state: PageState::Failed, .. }));
}

#[test]
fn retry_only_transient_failures_within_budget() {
    let policy = RetryPolicy::default();
    let server = FetchResult::HttpError { status_code: 503, state: PageState::Failed };
    let client = FetchResult::HttpError { status_code: 404, state: PageState::DeadLink };
    assert!(should_retry(&server, 0, &policy));
    assert!(!should_retry(&server, 3, &policy));
    assert!(!should_retry(&client, 0, &policy));
    assert!(!should_retry(&FetchResult::RedirectError { error: String::new() }, 0, &policy));
    let timeout = FetchResult::NetworkError { error: "Request timeout".to_string(), state: PageState::Unreachable };
    let other = FetchResult::NetworkError { error: "tls".to_string(), state: PageState::Failed };
    assert!(should_retry(&timeout, 2, &policy));
    assert!(!should_retry(&other, 0, &policy));
}

#[test]
fn user_agent_header_format() {
    let config = UserAgentConfig {
        crawler_name: "TestCrawler".to_string(),
        crawler_version: "1.0".to_string(),
        contact_url: "https://example.com/about".to_string(),
        contact_email: "admin@example.com".to_string(),
    };
    assert_eq!(user_agent_string(&config), "TestCrawler/1.0 (+https://example.com/about; admin@example.com)");
}
