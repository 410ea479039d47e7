use sumi_ripple::classify::{classify_domain, matches_wildcard, DomainClassification};
use sumi_ripple::config::{Config, CrawlerConfig, DomainEntry, OutputConfig, QualityEntry, UserAgentConfig};
use sumi_ripple::weburl::{extract_domain, ParsedUrl};
    #[test]
    fn test_exact_match() {
        assert!(matches_wildcard("example.com", "example.com"));
        assert!(matches_wildcard("blog.example.com", "blog.example.com"));
    }

    #[test]
    fn test_exact_no_match() {
        assert!(!matches_wildcard("example.com", "other.com"));
        assert!(!matches_wildcard("example.com", "blog.example.com"));
        assert!(!matches_wildcard("blog.example.com", "example.com"));
    }

    #[test]
    fn test_wildcard_matches_bare_domain() {
        assert!(matches_wildcard("*.example.com", "example.com"));
        assert!(matches_wildcard("*.github.com", "github.com"));
    }

    #[test]
    fn test_wildcard_matches_single_subdomain() {
        assert!(matches_wildcard("*.example.com", "blog.example.com"));
        assert!(matches_wildcard("*.example.com", "api.example.com"));
        assert!(matches_wildcard("*.example.com", "www.example.com"));
    }

    #[test]
    fn test_wildcard_matches_nested_subdomains() {
        assert!(matches_wildcard("*.example.com", "api.v2.example.com"));
        assert!(matches_wildcard(
            "*.example.com",
            "deep.nested.sub.example.com"
        ));
    }

    #[test]
    fn test_wildcard_no_match_different_domain() {
        assert!(!matches_wildcard("*.example.com", "example.org"));
        assert!(!matches_wildcard("*.example.com", "notexample.com"));
        assert!(!matches_wildcard("*.example.com", "examplexcom"));
    }

    #[test]
    fn test_wildcard_no_match_partial() {
        // Should not match if it's just part of the domain name
        assert!(!matches_wildcard("*.example.com", "myexample.com"));
        assert!(!matches_wildcard("*.example.com", "example.com.org"));
    }

    #[test]
    fn test_case_sensitivity() {
        // Domains should be normalized to lowercase before this function,
        // but the function itself is case-sensitive
        assert!(matches_wildcard("example.com", "example.com"));
        assert!(!matches_wildcard("example.com", "EXAMPLE.COM"));
        assert!(!matches_wildcard("example.com", "Example.COM"));
    }

    #[test]
    fn test_empty_strings() {
        assert!(!matches_wildcard("*.example.com", ""));
        assert!(!matches_wildcard("", "example.com"));
        assert!(matches_wildcard("", ""));
    }

    #[test]
    fn test_wildcard_with_tld_only() {
        assert!(matches_wildcard("*.com", "com"));
        assert!(matches_wildcard("*.com", "example.com"));
        assert!(matches_wildcard("*.com", "blog.example.com"));
    }

    #[test]
    fn test_complex_patterns() {
        let pattern = "*.github.io";

        assert!(matches_wildcard(pattern, "github.io"));
        assert!(matches_wildcard(pattern, "username.github.io"));
        assert!(matches_wildcard(pattern, "org.github.io"));
        assert!(!matches_wildcard(pattern, "github.com"));
    }

    #[test]
    fn test_multiple_dots_in_base() {
        let pattern = "*.co.uk";

        assert!(matches_wildcard(pattern, "co.uk"));
        assert!(matches_wildcard(pattern, "example.co.uk"));
        assert!(matches_wildcard(pattern, "blog.example.co.uk"));
        assert!(!matches_wildcard(pattern, "co.jp"));
    }
    

    fn create_test_config() -> Config {
        Config {
            crawler: CrawlerConfig {
                max_depth: 3,
                max_concurrent_pages_open: 10,
                minimum_time_on_page: 1000,
                max_domain_requests: 500,
            },
            user_agent: UserAgentConfig {
                crawler_name: "TestCrawler".to_string(),
                crawler_version: "1.0".to_string(),
                contact_url: "https://example.com/about".to_string(),
                contact_email: "admin@example.com".to_string(),
            },
            output: OutputConfig {
                database_path: "./test.db".to_string(),
                summary_path: "./summary.md".to_string(),
            },
            quality: vec![QualityEntry {
                domain: "quality.com".to_string(),
                seeds: vec!["https://quality.com/".to_string()],
            }],
            blacklist: vec![DomainEntry {
                domain: "bad.com".to_string(),
            }],
            stub: vec![DomainEntry {
                domain: "stub.com".to_string(),
            }],
        }
    }

    #[test]
    fn test_classify_quality_domain() {
        let config = create_test_config();
        assert_eq!(
            classify_domain("quality.com", &config),
            DomainClassification::Quality
        );
    }

    #[test]
    fn test_classify_blacklisted_domain() {
        let config = create_test_config();
        assert_eq!(
            classify_domain("bad.com", &config),
            DomainClassification::Blacklisted
        );
    }

    #[test]
    fn test_classify_stubbed_domain() {
        let config = create_test_config();
        assert_eq!(
            classify_domain("stub.com", &config),
            DomainClassification::Stubbed
        );
    }

    #[test]
    fn test_classify_discovered_domain() {
        let config = create_test_config();
        assert_eq!(
            classify_domain("random.com", &config),
            DomainClassification::Discovered
        );
    }

    #[test]
    fn test_priority_blacklist_over_stub() {
        let mut config = create_test_config();
        config.blacklist.push(DomainEntry {
            domain: "conflict.com".to_string(),
        });
        config.stub.push(DomainEntry {
            domain: "conflict.com".to_string(),
        });

        assert_eq!(
            classify_domain("conflict.com", &config),
            DomainClassification::Blacklisted
        );
    }

    #[test]
    fn test_priority_blacklist_over_quality() {
        let mut config = create_test_config();
        config.blacklist.push(DomainEntry {
            domain: "conflict.com".to_string(),
        });
        config.quality.push(QualityEntry {
            domain: "conflict.com".to_string(),
            seeds: vec!["https://conflict.com/".to_string()],
        });

        assert_eq!(
            classify_domain("conflict.com", &config),
            DomainClassification::Blacklisted
        );
    }

    #[test]
    fn test_priority_stub_over_quality() {
        let mut config = create_test_config();
        config.stub.push(DomainEntry {
            domain: "conflict.com".to_string(),
        });
        config.quality.push(QualityEntry {
            domain: "conflict.com".to_string(),
            seeds: vec!["https://conflict.com/".to_string()],
        });

        assert_eq!(
            classify_domain("conflict.com", &config),
            DomainClassification::Stubbed
        );
    }

    #[test]
    fn test_wildcard_classification() {
        let mut config = create_test_config();
        config.blacklist.push(DomainEntry {
            domain: "*.bad.com".to_string(),
        });

        assert_eq!(
            classify_domain("bad.com", &config),
            DomainClassification::Blacklisted
        );
        assert_eq!(
            classify_domain("sub.bad.com", &config),
            DomainClassification::Blacklisted
        );
        assert_eq!(
            classify_domain("deep.sub.bad.com", &config),
            DomainClassification::Blacklisted
        );
    }

    #[test]
    fn test_should_crawl() {
        assert!(DomainClassification::Quality.should_crawl());
        assert!(DomainClassification::Discovered.should_crawl());
        assert!(!DomainClassification::Blacklisted.should_crawl());
        assert!(!DomainClassification::Stubbed.should_crawl());
    }

    #[test]
    fn mod_test_is_terminal() {
        assert!(!DomainClassification::Quality.is_terminal());
        assert!(!DomainClassification::Discovered.is_terminal());
        assert!(DomainClassification::Blacklisted.is_terminal());
        assert!(DomainClassification::Stubbed.is_terminal());
    }
    #[test]
    fn test_extract_simple_domain() {
        let url = ParsedUrl::parse("https://example.com/").unwrap();
        assert_eq!(extract_domain(&url), Some("example.com".to_string()));
    }

    #[test]
    fn test_extract_subdomain() {
        let url = ParsedUrl::parse("https://blog.example.com/post").unwrap();
        assert_eq!(extract_domain(&url), Some("blog.example.com".to_string()));
    }

    #[test]
    fn test_extract_nested_subdomain() {
        let url = ParsedUrl::parse("https://api.v2.example.com/endpoint").unwrap();
        assert_eq!(extract_domain(&url), Some("api.v2.example.com".to_string()));
    }

    #[test]
    fn test_extract_with_port() {
        let url = ParsedUrl::parse("https://example.com:8080/").unwrap();
        assert_eq!(extract_domain(&url), Some("example.com".to_string()));
    }

    #[test]
    fn test_extract_uppercase_converted_to_lowercase() {
        let url = ParsedUrl::parse("https://EXAMPLE.COM/").unwrap();
        assert_eq!(extract_domain(&url), Some("example.com".to_string()));
    }

    #[test]
    fn test_extract_mixed_case() {
        let url = ParsedUrl::parse("https://Example.COM/").unwrap();
        assert_eq!(extract_domain(&url), Some("example.com".to_string()));
    }

    #[test]
    fn test_extract_with_path_and_query() {
        let url = ParsedUrl::parse("https://example.com/path/to/page?query=value").unwrap();
        assert_eq!(extract_domain(&url), Some("example.com".to_string()));
    }

    #[test]
    fn test_extract_with_fragment() {
        let url = ParsedUrl::parse("https://example.com/page#section").unwrap();
        assert_eq!(extract_domain(&url), Some("example.com".to_string()));
    }
