//! Crawl configuration as the engine consumes it.
use vstd::prelude::*;

verus! {

/// The whole configuration.
#[derive(Debug, Clone)]
pub struct Config {
    pub crawler: CrawlerConfig,
    pub user_agent: UserAgentConfig,
    pub output: OutputConfig,
    pub quality: Vec<QualityEntry>,
    pub blacklist: Vec<DomainEntry>,
    pub stub: Vec<DomainEntry>,
}

/// Crawl limits and pacing.
#[derive(Debug, Clone, Copy)]
pub struct CrawlerConfig {
    /// Maximum depth from a seed.
    pub max_depth: u32,
    /// Maximum number of pages fetched at once.
    pub max_concurrent_pages_open: u32,
    /// Minimum time between two requests to one domain, in milliseconds.
    pub minimum_time_on_page: u64,
    /// Maximum number of requests to one domain in a run.
    pub max_domain_requests: u32,
}

/// How the crawler identifies itself.
#[derive(Debug, Clone)]
pub struct UserAgentConfig {
    pub crawler_name: String,
    pub crawler_version: String,
    pub contact_url: String,
    pub contact_email: String,
}

/// Where results are written.
#[derive(Debug, Clone)]
pub struct OutputConfig {
    pub database_path: String,
    pub summary_path: String,
}

/// A quality domain pattern and its seed URLs.
#[derive(Debug, Clone)]
pub struct QualityEntry {
    pub domain: String,
    pub seeds: Vec<String>,
}

/// A blacklist or stub domain pattern.
#[derive(Debug, Clone)]
pub struct DomainEntry {
    pub domain: String,
}

} // verus!
