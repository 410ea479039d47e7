use std::collections::HashMap;
use sumi_ripple::page_state::PageState;
use sumi_ripple::summary::{format_markdown_summary, CrawlStatistics, CrawlSummary};
    

    fn create_test_summary() -> CrawlSummary {
        let mut summary = CrawlSummary::new();
        summary.run_id = 1;
        summary.started_at = "2024-01-01T00:00:00Z".to_string();
        summary.finished_at = Some("2024-01-01T01:00:00Z".to_string());
        summary.duration_seconds = Some(3600);
        summary.status = "completed".to_string();
        summary.config_hash = "abc123".to_string();
        summary.total_pages = 1000;
        summary.unique_domains = 50;
        summary.total_links = 5000;
        summary.pages_processed = 900;
        summary.pages_failed = 100;
        summary.total_errors = 100;
        summary
    }

    #[test]
    fn test_format_markdown_summary() {
        let summary = create_test_summary();
        let markdown = format_markdown_summary(&summary);

        assert!(markdown.contains("# Sumi-Ripple Crawl Summary"));
        assert!(markdown.contains("Run ID"));
        assert!(markdown.contains("Overall Statistics"));
        assert!(markdown.contains("Total Pages"));
    }

    #[test]
    fn test_markdown_contains_statistics() {
        let summary = create_test_summary();
        let markdown = format_markdown_summary(&summary);

        assert!(markdown.contains("1000")); // Total pages
        assert!(markdown.contains("50")); // Unique domains
        assert!(markdown.contains("5000")); // Total links
    }

    #[test]
    fn test_markdown_with_depth_breakdown() {
        let mut summary = create_test_summary();
        summary.depth_breakdown.push((0, 100));
        summary.depth_breakdown.push((1, 200));
        summary.depth_breakdown.push((2, 300));

        let markdown = format_markdown_summary(&summary);

        assert!(markdown.contains("Depth Breakdown"));
        assert!(markdown.contains("| 0 | 100 |"));
        assert!(markdown.contains("| 1 | 200 |"));
        assert!(markdown.contains("| 2 | 300 |"));
    }

    #[test]
    fn test_markdown_with_discovered_domains() {
        let mut summary = create_test_summary();
        summary.discovered_domains = vec!["example.com".to_string(), "test.org".to_string()];

        let markdown = format_markdown_summary(&summary);

        assert!(markdown.contains("Discovered Domains"));
        assert!(markdown.contains("example.com"));
        assert!(markdown.contains("test.org"));
    }
    #[test]
    fn test_crawl_summary_new() {
        let summary = CrawlSummary::new();
        assert_eq!(summary.total_pages, 0);
        assert_eq!(summary.unique_domains, 0);
    }

    #[test]
    fn test_total_terminal_pages() {
        let mut summary = CrawlSummary::new();
        summary.pages_processed = 100;
        summary.pages_failed = 10;
        summary.pages_blacklisted = 5;

        assert_eq!(summary.total_terminal_pages(), 115);
    }

    #[test]
    fn test_success_rate() {
        let mut summary = CrawlSummary::new();
        summary.pages_processed = 80;
        summary.pages_failed = 20;

        let rate = summary.success_rate_hundredths() as f64 / 100.0;
        assert!((rate - 80.0).abs() < 0.01);
    }

    #[test]
    fn test_success_rate_zero_pages() {
        let summary = CrawlSummary::new();
        assert_eq!(summary.success_rate_hundredths() as f64 / 100.0, 0.0);
    }

    #[test]
    fn test_error_rate() {
        let mut summary = CrawlSummary::new();
        summary.pages_processed = 90;
        summary.pages_failed = 5;
        summary.pages_dead_link = 3;
        summary.pages_unreachable = 2;
        summary.total_errors = 10;

        let rate = summary.error_rate_hundredths() as f64 / 100.0;
        assert!((rate - 10.0).abs() < 0.01);
    }
    #[test]
    fn test_crawl_statistics_creation() {
        let mut pages_by_state = HashMap::new();
        pages_by_state.insert(PageState::Processed, 100);
        pages_by_state.insert(PageState::Discovered, 50);

        let stats = CrawlStatistics {
            total_pages: 150,
            pages_by_state,
            unique_domains: 10,
            total_links: 500,
            error_summary: HashMap::new(),
            rate_limited_domains: vec![],
        };

        assert_eq!(stats.total_pages, 150);
        assert_eq!(stats.unique_domains, 10);
        assert_eq!(stats.total_links, 500);
    }
