use sumi_ripple::robots::{CachedRobots, ParsedRobots};
    #[test]
    fn test_allow_all() {
        let robots = ParsedRobots::allow_all();
        assert!(robots.is_allowed("/any/path", "TestBot"));
        assert!(robots.is_allowed("/admin", "TestBot"));
    }

    #[test]
    fn test_parse_disallow_all() {
        let content = "User-agent: *\nDisallow: /";
        let robots = ParsedRobots::from_content(content);
        assert!(!robots.is_allowed("/", "TestBot"));
        assert!(!robots.is_allowed("/page", "TestBot"));
    }

    #[test]
    fn test_parse_disallow_specific() {
        let content = "User-agent: *\nDisallow: /admin";
        let robots = ParsedRobots::from_content(content);
        assert!(robots.is_allowed("/", "TestBot"));
        assert!(robots.is_allowed("/page", "TestBot"));
        assert!(!robots.is_allowed("/admin", "TestBot"));
        assert!(!robots.is_allowed("/admin/users", "TestBot"));
    }

    #[test]
    fn test_parse_allow_and_disallow() {
        let content = "User-agent: *\nDisallow: /private\nAllow: /private/public";
        let robots = ParsedRobots::from_content(content);
        assert!(robots.is_allowed("/", "TestBot"));
        assert!(!robots.is_allowed("/private", "TestBot"));
        assert!(robots.is_allowed("/private/public", "TestBot"));
    }

    #[test]
    fn test_parse_specific_user_agent() {
        let content = "User-agent: BadBot\nDisallow: /\n\nUser-agent: *\nAllow: /";
        let robots = ParsedRobots::from_content(content);
        assert!(robots.is_allowed("/page", "GoodBot"));
        assert!(!robots.is_allowed("/page", "BadBot"));
    }

    #[test]
    fn test_invalid_robots_txt() {
        let content = "This is not valid robots.txt {{{";
        let robots = ParsedRobots::from_content(content);
        // Should fall back to allow_all behavior
        assert!(robots.is_allowed("/any/path", "TestBot"));
    }

    #[test]
    fn test_empty_robots_txt() {
        let content = "";
        let robots = ParsedRobots::from_content(content);
        assert!(robots.is_allowed("/any/path", "TestBot"));
    }

    #[test]
    fn test_crawl_delay_wildcard() {
        let content = "User-agent: *\nCrawl-delay: 10\nDisallow: /admin";
        let robots = ParsedRobots::from_content(content);
        assert_eq!(robots.crawl_delay_ms("TestBot"), Some(10000));
        assert_eq!(robots.crawl_delay_ms("AnyBot"), Some(10000));
    }

    #[test]
    fn test_crawl_delay_specific_agent() {
        let content = "User-agent: TestBot\nCrawl-delay: 5\n\nUser-agent: *\nCrawl-delay: 10";
        let robots = ParsedRobots::from_content(content);
        assert_eq!(robots.crawl_delay_ms("TestBot"), Some(5000));
        assert_eq!(robots.crawl_delay_ms("OtherBot"), Some(10000));
    }

    #[test]
    fn test_crawl_delay_no_delay() {
        let content = "User-agent: *\nDisallow: /admin";
        let robots = ParsedRobots::from_content(content);
        assert_eq!(robots.crawl_delay_ms("TestBot"), None);
    }

    #[test]
    fn test_crawl_delay_decimal() {
        let content = "User-agent: *\nCrawl-delay: 2.5";
        let robots = ParsedRobots::from_content(content);
        assert_eq!(robots.crawl_delay_ms("TestBot"), Some(2500));
    }

    #[test]
    fn test_crawl_delay_allow_all() {
        let robots = ParsedRobots::allow_all();
        assert_eq!(robots.crawl_delay_ms("TestBot"), None);
    }

    #[test]
    fn test_crawl_delay_case_insensitive() {
        let content = "User-agent: TestBot\ncrawl-delay: 7";
        let robots = ParsedRobots::from_content(content);
        assert_eq!(robots.crawl_delay_ms("testbot"), Some(7000));
        assert_eq!(robots.crawl_delay_ms("TESTBOT"), Some(7000));
    }

    #[test]
    fn test_crawl_delay_multiple_user_agents() {
        let content = "User-agent: BotA\nUser-agent: BotB\nCrawl-delay: 3";
        let robots = ParsedRobots::from_content(content);
        assert_eq!(robots.crawl_delay_ms("BotA"), Some(3000));
        assert_eq!(robots.crawl_delay_ms("BotB"), Some(3000));
        assert_eq!(robots.crawl_delay_ms("BotC"), None);
    }

const NOW_MS: i64 = 1_700_000_000_000;
const HOUR_MS: i64 = 3600 * 1000;

#[test]
fn test_new_cache_not_stale() {
    let cache = CachedRobots::new(ParsedRobots::allow_all(), NOW_MS);
    assert!(!cache.is_stale(NOW_MS));
}

#[test]
fn test_cache_is_stale() {
    let mut cache = CachedRobots::new(ParsedRobots::allow_all(), NOW_MS);
    cache.fetched_at = NOW_MS - 25 * HOUR_MS;
    assert!(cache.is_stale(NOW_MS));
}

#[test]
fn test_cache_not_stale_at_23_hours() {
    let mut cache = CachedRobots::new(ParsedRobots::allow_all(), NOW_MS);
    cache.fetched_at = NOW_MS - 23 * HOUR_MS;
    assert!(!cache.is_stale(NOW_MS));
}

#[test]
fn test_age() {
    let mut cache = CachedRobots::new(ParsedRobots::allow_all(), NOW_MS);
    cache.fetched_at = NOW_MS - 12 * HOUR_MS;
    let hours = cache.age(NOW_MS) / HOUR_MS;
    assert!(hours >= 11 && hours <= 13);
}

#[test]
fn test_is_allowed_delegates_to_content() {
    let cache = CachedRobots::new(ParsedRobots::allow_all(), NOW_MS);
    assert!(cache.is_allowed("/any/path", "TestBot"));
}

#[test]
fn test_crawl_delay_delegates_to_content() {
    let cache = CachedRobots::new(ParsedRobots::allow_all(), NOW_MS);
    assert_eq!(cache.crawl_delay_ms("TestBot"), None);
}

#[test]
fn overlong_line_allows_without_matcher() {
    let mut body = "User-agent: *\nDisallow: /\n".to_string();
    body.push_str(&"a".repeat(16663));
    body.push_str("\u{e9}\u{e9}\n");
    let robots = ParsedRobots::from_content(&body);
    assert!(robots.is_allowed("/page", "TestBot"));
    assert!(sumi_ripple::robots::has_short_lines("User-agent: *\nDisallow: /"));
    assert!(!sumi_ripple::robots::has_short_lines(&"b".repeat(4166)));
}
