use sumi_ripple::config::{Config, CrawlerConfig, DomainEntry, OutputConfig, QualityEntry, UserAgentConfig};
use sumi_ripple::validation::{compute_config_hash, load_config_with_hash, validate, ConfigError};

fn valid_config() -> Config {
    Config {
        crawler: CrawlerConfig { max_depth: 3, max_concurrent_pages_open: 10, minimum_time_on_page: 1000, max_domain_requests: 500 },
        user_agent: UserAgentConfig {
            crawler_name: "TestCrawler".to_string(),
            crawler_version: "1.0".to_string(),
            contact_url: "https://example.com/about".to_string(),
            contact_email: "admin@example.com".to_string(),
        },
        output: OutputConfig { database_path: "./test.db".to_string(), summary_path: "./summary.md".to_string() },
        quality: vec![QualityEntry { domain: "quality.com".to_string(), seeds: vec!["https://quality.com/".to_string()] }],
        blacklist: vec![DomainEntry { domain: "*.bad.com".to_string() }],
        stub: vec![DomainEntry { domain: "stub.com".to_string() }],
    }
}

#[test]
fn test_compute_config_hash() {
    let hash = compute_config_hash("test content");
    assert_eq!(hash.len(), 64);
    assert_eq!(hash, "6ae8a75555209fd6c44157c0aed8016e763ff435a19cf186f76863140143ff72");
}

#[test]
fn test_different_content_different_hash() {
    assert_ne!(compute_config_hash("content 1"), compute_config_hash("content 2"));
}

#[test]
fn empty_content_hash() {
    assert_eq!(compute_config_hash(""), "e3b0c44298fc1c149afbf4c8996fb92427ae41e4649b934ca495991b7852b855");
}

#[test]
fn valid_config_passes_and_is_hashed() {
    let (config, hash) = load_config_with_hash(valid_config(), "x").unwrap();
    assert_eq!(config.crawler.max_depth, 3);
    assert_eq!(hash, compute_config_hash("x"));
    assert!(validate(&valid_config()).is_ok());
}

#[test]
fn test_load_config_with_validation_error() {
    let mut config = valid_config();
    config.crawler.max_concurrent_pages_open = 0;
    assert!(matches!(validate(&config), Err(ConfigError::Validation(_))));
    assert!(matches!(load_config_with_hash(config, "x"), Err(ConfigError::Validation(_))));
}

#[test]
fn each_refusal_has_its_kind() {
    let mut c = valid_config();
    c.crawler.minimum_time_on_page = 99;
    assert!(matches!(validate(&c), Err(ConfigError::Validation(_))));
    let mut c = valid_config();
    c.crawler.max_concurrent_pages_open = 101;
    assert!(matches!(validate(&c), Err(ConfigError::Validation(_))));
    let mut c = valid_config();
    c.user_agent.crawler_name = "bad name".to_string();
    assert!(matches!(validate(&c), Err(ConfigError::Validation(_))));
    let mut c = valid_config();
    c.user_agent.contact_url = "not a url".to_string();
    assert!(matches!(validate(&c), Err(ConfigError::InvalidUrl(_))));
    let mut c = valid_config();
    c.user_agent.contact_email = "nobody".to_string();
    assert!(matches!(validate(&c), Err(ConfigError::Validation(_))));
    let mut c = valid_config();
    c.output.summary_path = String::new();
    assert!(matches!(validate(&c), Err(ConfigError::Validation(_))));
    let mut c = valid_config();
    c.quality[0].seeds = vec!["http://quality.com/".to_string()];
    assert!(matches!(validate(&c), Err(ConfigError::Validation(_))));
    let mut c = valid_config();
    c.quality[0].seeds = vec![];
    assert!(matches!(validate(&c), Err(ConfigError::Validation(_))));
    let mut c = valid_config();
    c.quality[0].seeds = vec!["::".to_string()];
    assert!(matches!(validate(&c), Err(ConfigError::InvalidUrl(_))));
    let mut c = valid_config();
    c.stub.push(DomainEntry { domain: "-bad.com".to_string() });
    assert!(matches!(validate(&c), Err(ConfigError::InvalidPattern(_))));
    let mut c = valid_config();
    c.blacklist.push(DomainEntry { domain: "a..b".to_string() });
    assert!(matches!(validate(&c), Err(ConfigError::InvalidPattern(_))));
}
