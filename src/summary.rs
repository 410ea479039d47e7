//! Crawl statistics and the markdown summary of a run.
use vstd::prelude::*;
use std::collections::HashMap;
use crate::page_state::PageState;
use crate::store::{distinct_domains, error_page_count, ids_with_state, rate_limited_domains, counts_view, sort_by_count, group_counts, spec_run_status_string, CrawlStore, RunStatus};
use crate::text::push_char;
use crate::weburl::{decimal, digit_char};

verus! {

/// Why output could not be produced.
#[derive(Debug, Clone, PartialEq, Eq)]
pub enum OutputError {
    Write(String),
    Format(String),
    Io(String),
    Storage(String),
}

/// A processed page as reported to an output handler.
#[derive(Debug, Clone)]
pub struct ProcessedPage {
    pub url: String,
    pub domain: String,
    pub title: Option<String>,
    pub status_code: Option<u16>,
    pub content_type: Option<String>,
    pub state: PageState,
    pub depths: Vec<(String, u32)>,
}

/// A failed page as reported to an output handler.
#[derive(Debug, Clone)]
pub struct CrawlError {
    pub url: String,
    pub state: PageState,
    pub message: String,
    pub retry_count: u32,
}

/// Counts read from storage.
#[derive(Debug, Clone)]
pub struct CrawlStatistics {
    pub total_pages: u64,
    pub pages_by_state: HashMap<PageState, u64>,
    pub unique_domains: u64,
    pub total_links: u64,
    pub error_summary: HashMap<PageState, u64>,
    pub rate_limited_domains: Vec<String>,
}

/// A sink for crawl results, implemented by users of the crawler.
pub trait OutputHandler {
    fn record_page(&self, page: &ProcessedPage) -> Result<(), OutputError>;

    fn record_link(&self, from: &str, to: &str) -> Result<(), OutputError>;

    fn record_blacklisted(&self, url: &str, referrer: &str) -> Result<(), OutputError>;

    fn record_stubbed(&self, url: &str, referrer: &str) -> Result<(), OutputError>;

    fn record_error(&self, error: &CrawlError) -> Result<(), OutputError>;

    fn generate_summary(&self) -> Result<CrawlSummary, OutputError>;

    fn finalize(&self, status: RunStatus) -> Result<(), OutputError>;
}

/// Everything the markdown summary reports.
#[derive(Debug, Clone)]
pub struct CrawlSummary {
    pub run_id: i64,
    pub started_at: String,
    pub finished_at: Option<String>,
    pub duration_seconds: Option<u64>,
    pub status: String,
    pub config_hash: String,
    pub total_pages: u64,
    pub unique_domains: u64,
    pub total_links: u64,
    pub total_errors: u64,
    pub pages_discovered: u64,
    pub pages_queued: u64,
    pub pages_processed: u64,
    pub pages_blacklisted: u64,
    pub pages_stubbed: u64,
    pub pages_dead_link: u64,
    pub pages_unreachable: u64,
    pub pages_rate_limited: u64,
    pub pages_failed: u64,
    pub pages_depth_exceeded: u64,
    pub pages_request_limit_hit: u64,
    pub pages_content_mismatch: u64,
    /// Pages per depth, by increasing depth.
    pub depth_breakdown: Vec<(u32, u64)>,
    pub discovered_domains: Vec<String>,
    pub top_blacklisted: Vec<(String, u32)>,
    pub top_stubbed: Vec<(String, u32)>,
    pub error_summary: Vec<(PageState, u64)>,
    pub rate_limited_domains: Vec<String>,
    pub quality_domains: Vec<String>,
}

/// The pages in terminal states.
pub open spec fn spec_terminal_pages(s: CrawlSummary) -> int {
    s.pages_processed + s.pages_blacklisted + s.pages_stubbed + s.pages_dead_link + s.pages_unreachable
        + s.pages_rate_limited + s.pages_failed + s.pages_depth_exceeded + s.pages_request_limit_hit
        + s.pages_content_mismatch
}

/// `part / whole` as a percentage in hundredths, rounded half up; 0 when `whole` is 0.
pub open spec fn percent_hundredths(part: nat, whole: nat) -> nat {
    if whole == 0 {
        0
    } else {
        (part * 20000 + whole) / (2 * whole)
    }
}

impl CrawlSummary {
    /// A summary with every count zero and every list empty.
    pub fn new() -> (r: CrawlSummary)
        ensures
            r.run_id == 0 && r.total_pages == 0 && r.unique_domains == 0 && r.total_links == 0 && r.total_errors == 0,
            spec_terminal_pages(r) == 0,
            r.pages_discovered == 0 && r.pages_queued == 0,
            r.finished_at is None && r.duration_seconds is None,
            r.started_at@.len() == 0 && r.status@.len() == 0 && r.config_hash@.len() == 0,
            r.depth_breakdown@.len() == 0 && r.discovered_domains@.len() == 0 && r.top_blacklisted@.len() == 0,
            r.top_stubbed@.len() == 0 && r.error_summary@.len() == 0 && r.rate_limited_domains@.len() == 0,
            r.quality_domains@.len() == 0,
    {
        CrawlSummary {
            run_id: 0,
            started_at: String::new(),
            finished_at: None,
            duration_seconds: None,
            status: String::new(),
            config_hash: String::new(),
            total_pages: 0,
            unique_domains: 0,
            total_links: 0,
            total_errors: 0,
            pages_discovered: 0,
            pages_queued: 0,
            pages_processed: 0,
            pages_blacklisted: 0,
            pages_stubbed: 0,
            pages_dead_link: 0,
            pages_unreachable: 0,
            pages_rate_limited: 0,
            pages_failed: 0,
            pages_depth_exceeded: 0,
            pages_request_limit_hit: 0,
            pages_content_mismatch: 0,
            depth_breakdown: Vec::new(),
            discovered_domains: Vec::new(),
            top_blacklisted: Vec::new(),
            top_stubbed: Vec::new(),
            error_summary: Vec::new(),
            rate_limited_domains: Vec::new(),
            quality_domains: Vec::new(),
        }
    }

    /// The number of pages in terminal states.
    pub fn total_terminal_pages(&self) -> (r: u64)
        requires
            spec_terminal_pages(*self) <= u64::MAX,
        ensures
            r == spec_terminal_pages(*self),
    {
        self.pages_processed + self.pages_blacklisted + self.pages_stubbed + self.pages_dead_link
            + self.pages_unreachable + self.pages_rate_limited + self.pages_failed + self.pages_depth_exceeded
            + self.pages_request_limit_hit + self.pages_content_mismatch
    }

    /// Processed pages as a percentage of terminal pages, in hundredths.
    pub fn success_rate_hundredths(&self) -> (r: u128)
        requires
            spec_terminal_pages(*self) <= u64::MAX,
        ensures
            r == percent_hundredths(self.pages_processed as nat, spec_terminal_pages(*self) as nat),
    {
        percent(self.pages_processed, self.total_terminal_pages())
    }

    /// Errors as a percentage of terminal pages, in hundredths.
    pub fn error_rate_hundredths(&self) -> (r: u128)
        requires
            spec_terminal_pages(*self) <= u64::MAX,
        ensures
            r == percent_hundredths(self.total_errors as nat, spec_terminal_pages(*self) as nat),
    {
        percent(self.total_errors, self.total_terminal_pages())
    }
}

fn percent(part: u64, whole: u64) -> (r: u128)
    ensures
        r == percent_hundredths(part as nat, whole as nat),
{
    if whole == 0 {
        return 0;
    }
    let p = part as u128;
    let w = whole as u128;
    assert(p * 20000 + w <= 0xffff_ffff_ffff_ffff_ffff_ffff_ffff_ffff) by (nonlinear_arith)
        requires p <= 0xffff_ffff_ffff_ffff, w <= 0xffff_ffff_ffff_ffff;
    (p * 20000 + w) / (2 * w)
}

/// Decimal digits of a signed number.
pub open spec fn signed_decimal(i: int) -> Seq<char> {
    if i < 0 { seq!['-'] + decimal((-i) as nat) } else { decimal(i as nat) }
}

/// Hundredths written with two decimals: `12.05`.
pub open spec fn two_decimals(h: nat) -> Seq<char> {
    decimal(h / 100) + seq!['.', digit_char((h % 100) / 10), digit_char(h % 10)]
}

/// `- **label**: value` and a line break.
pub open spec fn item(label: Seq<char>, value: Seq<char>) -> Seq<char> {
    "- **"@ + label + "**: "@ + value + "\n"@
}

/// The run section.
pub open spec fn spec_run_section(s: CrawlSummary) -> Seq<char> {
    "## Run Information\n\n"@
        + item("Run ID"@, signed_decimal(s.run_id as int))
        + item("Started"@, s.started_at@)
        + finished_item(s)
        + duration_item(s)
        + item("Status"@, s.status@)
        + item("Config Hash"@, s.config_hash@) + "\n"@
}

/// The overall statistics section.
pub open spec fn spec_stats_section(s: CrawlSummary) -> Seq<char> {
    let t = spec_terminal_pages(s) as nat;
    "## Overall Statistics\n\n"@
        + item("Total Pages"@, decimal(s.total_pages as nat))
        + item("Unique Domains"@, decimal(s.unique_domains as nat))
        + item("Total Links"@, decimal(s.total_links as nat))
        + item("Total Errors"@, decimal(s.total_errors as nat))
        + item("Success Rate"@, two_decimals(percent_hundredths(s.pages_processed as nat, t)) + "%"@)
        + item("Error Rate"@, two_decimals(percent_hundredths(s.total_errors as nat, t)) + "%"@) + "\n"@
}

/// `| label | n |` and a line break.
pub open spec fn row(label: Seq<char>, n: nat) -> Seq<char> {
    "| "@ + label + " | "@ + decimal(n) + " |\n"@
}

/// The page state table.
pub open spec fn spec_state_section(s: CrawlSummary) -> Seq<char> {
    "## Page State Breakdown\n\n| State | Count |\n|-------|-------|\n"@
        + row("Processed"@, s.pages_processed as nat)
        + row("Discovered"@, s.pages_discovered as nat)
        + row("Queued"@, s.pages_queued as nat)
        + row("Blacklisted"@, s.pages_blacklisted as nat)
        + row("Stubbed"@, s.pages_stubbed as nat)
        + row("Dead Link (404)"@, s.pages_dead_link as nat)
        + row("Unreachable"@, s.pages_unreachable as nat)
        + row("Rate Limited"@, s.pages_rate_limited as nat)
        + row("Failed"@, s.pages_failed as nat)
        + row("Depth Exceeded"@, s.pages_depth_exceeded as nat)
        + row("Request Limit Hit"@, s.pages_request_limit_hit as nat)
        + row("Content Mismatch"@, s.pages_content_mismatch as nat) + "\n"@
}

/// One table row per depth.
pub open spec fn depth_rows(d: Seq<(u32, u64)>) -> Seq<char>
    decreases d.len(),
{
    if d.len() == 0 {
        Seq::empty()
    } else {
        depth_rows(d.drop_last()) + row(decimal(d.last().0 as nat), d.last().1 as nat)
    }
}

/// One bullet per name.
pub open spec fn bullets(names: Seq<String>) -> Seq<char>
    decreases names.len(),
{
    if names.len() == 0 {
        Seq::empty()
    } else {
        bullets(names.drop_last()) + "- "@ + names.last()@ + "\n"@
    }
}

/// One table row per URL and count.
pub open spec fn url_rows(u: Seq<(String, u32)>) -> Seq<char>
    decreases u.len(),
{
    if u.len() == 0 {
        Seq::empty()
    } else {
        url_rows(u.drop_last()) + row(u.last().0@, u.last().1 as nat)
    }
}

/// The name of a state as the error table shows it.
pub open spec fn state_name(s: PageState) -> Seq<char> {
    match s {
        PageState::Discovered => "Discovered"@,
        PageState::Queued => "Queued"@,
        PageState::Fetching => "Fetching"@,
        PageState::Processed => "Processed"@,
        PageState::Blacklisted => "Blacklisted"@,
        PageState::Stubbed => "Stubbed"@,
        PageState::DeadLink => "DeadLink"@,
        PageState::Unreachable => "Unreachable"@,
        PageState::RateLimited => "RateLimited"@,
        PageState::Failed => "Failed"@,
        PageState::DepthExceeded => "DepthExceeded"@,
        PageState::RequestLimitHit => "RequestLimitHit"@,
        PageState::ContentMismatch => "ContentMismatch"@,
    }
}

/// One table row per state and count.
pub open spec fn error_rows(e: Seq<(PageState, u64)>) -> Seq<char>
    decreases e.len(),
{
    if e.len() == 0 {
        Seq::empty()
    } else {
        error_rows(e.drop_last()) + row(state_name(e.last().0), e.last().1 as nat)
    }
}

/// The depth table, if any depth is counted.
pub open spec fn depth_section(s: CrawlSummary) -> Seq<char> {
    if s.depth_breakdown@.len() == 0 { Seq::empty() } else {
        "## Depth Breakdown\n\n| Depth | Pages |\n|-------|-------|\n"@ + depth_rows(s.depth_breakdown@) + "\n"@
    }
}

/// The quality domains, if any.
pub open spec fn quality_section(s: CrawlSummary) -> Seq<char> {
    if s.quality_domains@.len() == 0 { Seq::empty() } else {
        "## Quality Domains Crawled\n\n"@ + bullets(s.quality_domains@) + "\n"@
    }
}

/// The first 50 discovered domains and how many more there are, if any.
pub open spec fn discovered_section(s: CrawlSummary) -> Seq<char> {
    let dd = s.discovered_domains@;
    if dd.len() == 0 { Seq::empty() } else {
        "## Discovered Domains\n\nTotal discovered: "@ + decimal(dd.len()) + "\n\n"@
            + bullets(dd.subrange(0, if dd.len() > 50 { 50 } else { dd.len() as int }))
            + if dd.len() > 50 { "\n... and "@ + decimal((dd.len() - 50) as nat) + " more\n\n"@ } else { "\n"@ }
    }
}

/// A table of the first 20 URLs and their counts, under a title, if any.
pub open spec fn url_section(title: Seq<char>, u: Seq<(String, u32)>) -> Seq<char> {
    if u.len() == 0 { Seq::empty() } else {
        title + "\n\n| URL | References |\n|-----|------------|\n"@
            + url_rows(u.subrange(0, if u.len() > 20 { 20 } else { u.len() as int }))
            + "\n"@
    }
}

/// The error table, if any error is counted.
pub open spec fn error_section(s: CrawlSummary) -> Seq<char> {
    if s.error_summary@.len() == 0 { Seq::empty() } else {
        "## Error Summary\n\n| Error Type | Count |\n|------------|-------|\n"@ + error_rows(s.error_summary@) + "\n"@
    }
}

/// The rate-limited domains, if any.
pub open spec fn rate_limited_section(s: CrawlSummary) -> Seq<char> {
    if s.rate_limited_domains@.len() == 0 { Seq::empty() } else {
        "## Rate-Limited Domains\n\nTotal: "@ + decimal(s.rate_limited_domains@.len()) + "\n\n"@
            + bullets(s.rate_limited_domains@) + "\n"@
    }
}

/// The optional sections, each present only when its list is not empty.
pub open spec fn spec_list_sections(s: CrawlSummary) -> Seq<char> {
    depth_section(s) + quality_section(s) + discovered_section(s)
        + url_section("## Top 20 Blacklisted URLs"@, s.top_blacklisted@)
        + url_section("## Top 20 Stubbed URLs"@, s.top_stubbed@)
        + error_section(s) + rate_limited_section(s)
}

/// The markdown summary of a run.
pub open spec fn spec_markdown(s: CrawlSummary) -> Seq<char> {
    "# Sumi-Ripple Crawl Summary\n\n"@ + spec_run_section(s) + spec_stats_section(s) + spec_state_section(s)
        + spec_list_sections(s)
}

fn app(out: &mut String, t: &str)
    ensures
        final(out)@ == old(out)@ + t@,
{
    out.append(t);
}

fn digit128(d: u128) -> (c: char)
    requires
        d < 10,
    ensures
        c == digit_char(d as nat),
{
    if d == 0 { '0' } else if d == 1 { '1' } else if d == 2 { '2' } else if d == 3 { '3' }
    else if d == 4 { '4' } else if d == 5 { '5' } else if d == 6 { '6' } else if d == 7 { '7' }
    else if d == 8 { '8' } else { '9' }
}

fn app_dec(out: &mut String, n: u128)
    ensures
        final(out)@ == old(out)@ + decimal(n as nat),
    decreases n,
{
    if n < 10 {
        push_char(out, digit128(n));
        assert(old(out)@ + decimal(n as nat) =~= old(out)@.push(digit_char(n as nat)));
    } else {
        app_dec(out, n / 10);
        push_char(out, digit128(n % 10));
        assert(old(out)@ + decimal(n as nat) =~= (old(out)@ + decimal((n / 10) as nat)).push(digit_char((n % 10) as nat)));
    }
}

fn app_signed(out: &mut String, i: i64)
    ensures
        final(out)@ == old(out)@ + signed_decimal(i as int),
{
    if i < 0 {
        push_char(out, '-');
        let m: u128 = (0 - (i as i128)) as u128;
        app_dec(out, m);
        assert(old(out)@ + signed_decimal(i as int) =~= old(out)@.push('-') + decimal(m as nat));
    } else {
        app_dec(out, i as u128);
    }
}

fn app_two_decimals(out: &mut String, h: u128)
    ensures
        final(out)@ == old(out)@ + two_decimals(h as nat),
{
    app_dec(out, h / 100);
    push_char(out, '.');
    push_char(out, digit128((h % 100) / 10));
    push_char(out, digit128(h % 10));
    assert(final(out)@ =~= old(out)@ + two_decimals(h as nat)) by {
        assert(out@ =~= old(out)@ + decimal((h / 100) as nat) + seq!['.', digit_char(((h % 100) / 10) as nat), digit_char((h % 10) as nat)]);
    }
}

fn app_item_start(out: &mut String, label: &str)
    ensures
        final(out)@ == old(out)@ + "- **"@ + label@ + "**: "@,
{
    app(out, "- **");
    app(out, label);
    app(out, "**: ");
}

fn app_item(out: &mut String, label: &str, value: &str)
    ensures
        final(out)@ == old(out)@ + item(label@, value@),
{
    let ghost o = out@;
    app_item_start(out, label);
    app(out, value);
    app(out, "\n");
    assert(out@ =~= o + item(label@, value@));
}

fn app_item_num(out: &mut String, label: &str, n: u64)
    ensures
        final(out)@ == old(out)@ + item(label@, decimal(n as nat)),
{
    let ghost o = out@;
    app_item_start(out, label);
    app_dec(out, n as u128);
    app(out, "\n");
    assert(out@ =~= o + item(label@, decimal(n as nat)));
}

fn app_item_rate(out: &mut String, label: &str, h: u128)
    ensures
        final(out)@ == old(out)@ + item(label@, two_decimals(h as nat) + "%"@),
{
    let ghost o = out@;
    app_item_start(out, label);
    app_two_decimals(out, h);
    app(out, "%");
    app(out, "\n");
    assert(out@ =~= o + item(label@, two_decimals(h as nat) + "%"@));
}

fn app_row(out: &mut String, label: &str, n: u64)
    ensures
        final(out)@ == old(out)@ + row(label@, n as nat),
{
    let ghost o = out@;
    app(out, "| ");
    app(out, label);
    app(out, " | ");
    app_dec(out, n as u128);
    app(out, " |\n");
    assert(out@ =~= o + row(label@, n as nat));
}

fn app_row_num(out: &mut String, label: u32, n: u64)
    ensures
        final(out)@ == old(out)@ + row(decimal(label as nat), n as nat),
{
    let ghost o = out@;
    app(out, "| ");
    app_dec(out, label as u128);
    app(out, " | ");
    app_dec(out, n as u128);
    app(out, " |\n");
    assert(out@ =~= o + row(decimal(label as nat), n as nat));
}

/// The finished line, if the run finished.
pub open spec fn finished_item(s: CrawlSummary) -> Seq<char> {
    match s.finished_at { Some(f) => item("Finished"@, f@), None => Seq::empty() }
}

/// The duration line, if known.
pub open spec fn duration_item(s: CrawlSummary) -> Seq<char> {
    match s.duration_seconds {
        Some(d) => item("Duration"@, decimal(d as nat) + " seconds ("@ + two_decimals((d as nat * 200 + 60) / 120) + " minutes)"@),
        None => Seq::empty(),
    }
}

fn app_duration(out: &mut String, s: &CrawlSummary)
    ensures
        final(out)@ == old(out)@ + duration_item(*s),
{
    match s.duration_seconds {
        Some(d) => {
            app_item_start(out, "Duration");
            app_dec(out, d as u128);
            app(out, " seconds (");
            app_two_decimals(out, ((d as u128) * 200 + 60) / 120);
            app(out, " minutes)");
            app(out, "\n");
            assert(out@ =~= old(out)@ + duration_item(*s));
        },
        None => {
            assert(out@ =~= old(out)@ + duration_item(*s));
        },
    }
}

fn app_run_section(out: &mut String, s: &CrawlSummary)
    ensures
        final(out)@ == old(out)@ + spec_run_section(*s),
{
    let ghost o = out@;
    app(out, "## Run Information\n\n");
    let ghost a = out@;
    app_item_start(out, "Run ID");
    app_signed(out, s.run_id);
    app(out, "\n");
    assert(out@ =~= a + item("Run ID"@, signed_decimal(s.run_id as int)));
    app_item(out, "Started", s.started_at.as_str());
    let ghost b = out@;
    match &s.finished_at {
        Some(f) => app_item(out, "Finished", f.as_str()),
        None => {},
    }
    assert(out@ =~= b + finished_item(*s));
    app_duration(out, s);
    app_item(out, "Status", s.status.as_str());
    app_item(out, "Config Hash", s.config_hash.as_str());
    app(out, "\n");
    assert(out@ =~= o + spec_run_section(*s));
}

fn app_stats_section(out: &mut String, s: &CrawlSummary)
    requires
        spec_terminal_pages(*s) <= u64::MAX,
    ensures
        final(out)@ == old(out)@ + spec_stats_section(*s),
{
    let ghost o = out@;
    app(out, "## Overall Statistics\n\n");
    app_item_num(out, "Total Pages", s.total_pages);
    app_item_num(out, "Unique Domains", s.unique_domains);
    app_item_num(out, "Total Links", s.total_links);
    app_item_num(out, "Total Errors", s.total_errors);
    app_item_rate(out, "Success Rate", s.success_rate_hundredths());
    app_item_rate(out, "Error Rate", s.error_rate_hundredths());
    app(out, "\n");
    assert(out@ =~= o + spec_stats_section(*s));
}

fn app_state_section(out: &mut String, s: &CrawlSummary)
    ensures
        final(out)@ == old(out)@ + spec_state_section(*s),
{
    let ghost o = out@;
    app(out, "## Page State Breakdown\n\n| State | Count |\n|-------|-------|\n");
    app_row(out, "Processed", s.pages_processed);
    app_row(out, "Discovered", s.pages_discovered);
    app_row(out, "Queued", s.pages_queued);
    app_row(out, "Blacklisted", s.pages_blacklisted);
    app_row(out, "Stubbed", s.pages_stubbed);
    app_row(out, "Dead Link (404)", s.pages_dead_link);
    app_row(out, "Unreachable", s.pages_unreachable);
    app_row(out, "Rate Limited", s.pages_rate_limited);
    app_row(out, "Failed", s.pages_failed);
    app_row(out, "Depth Exceeded", s.pages_depth_exceeded);
    app_row(out, "Request Limit Hit", s.pages_request_limit_hit);
    app_row(out, "Content Mismatch", s.pages_content_mismatch);
    app(out, "\n");
    assert(out@ =~= o + spec_state_section(*s));
}

fn app_state_name(out: &mut String, st: PageState)
    ensures
        final(out)@ == old(out)@ + state_name(st),
{
    let t = match st {
        PageState::Discovered => "Discovered",
        PageState::Queued => "Queued",
        PageState::Fetching => "Fetching",
        PageState::Processed => "Processed",
        PageState::Blacklisted => "Blacklisted",
        PageState::Stubbed => "Stubbed",
        PageState::DeadLink => "DeadLink",
        PageState::Unreachable => "Unreachable",
        PageState::RateLimited => "RateLimited",
        PageState::Failed => "Failed",
        PageState::DepthExceeded => "DepthExceeded",
        PageState::RequestLimitHit => "RequestLimitHit",
        PageState::ContentMismatch => "ContentMismatch",
    };
    app(out, t);
}

fn app_depth_rows(out: &mut String, d: &Vec<(u32, u64)>)
    ensures
        final(out)@ == old(out)@ + depth_rows(d@),
{
    let mut i: usize = 0;
    assert(old(out)@ + depth_rows(d@.subrange(0, 0)) =~= old(out)@);
    while i < d.len()
        invariant
            0 <= i <= d.len(),
            out@ == old(out)@ + depth_rows(d@.subrange(0, i as int)),
        decreases d.len() - i,
    {
        let ghost before = out@;
        app_row_num(out, d[i].0, d[i].1);
        proof {
            let sub = d@.subrange(0, i + 1);
            assert(sub.drop_last() =~= d@.subrange(0, i as int));
            assert(out@ =~= old(out)@ + depth_rows(sub));
        }
        i = i + 1;
    }
    assert(d@.subrange(0, d.len() as int) =~= d@);
}

fn app_bullets(out: &mut String, names: &Vec<String>, n: usize)
    requires
        n <= names.len(),
    ensures
        final(out)@ == old(out)@ + bullets(names@.subrange(0, n as int)),
{
    let mut i: usize = 0;
    assert(old(out)@ + bullets(names@.subrange(0, 0)) =~= old(out)@);
    while i < n
        invariant
            0 <= i <= n <= names.len(),
            out@ == old(out)@ + bullets(names@.subrange(0, i as int)),
        decreases n - i,
    {
        let ghost before = out@;
        app(out, "- ");
        app(out, names[i].as_str());
        app(out, "\n");
        proof {
            let sub = names@.subrange(0, i + 1);
            assert(sub.drop_last() =~= names@.subrange(0, i as int));
            assert(out@ =~= old(out)@ + bullets(sub));
        }
        i = i + 1;
    }
}

fn app_url_rows(out: &mut String, u: &Vec<(String, u32)>, n: usize)
    requires
        n <= u.len(),
    ensures
        final(out)@ == old(out)@ + url_rows(u@.subrange(0, n as int)),
{
    let mut i: usize = 0;
    assert(old(out)@ + url_rows(u@.subrange(0, 0)) =~= old(out)@);
    while i < n
        invariant
            0 <= i <= n <= u.len(),
            out@ == old(out)@ + url_rows(u@.subrange(0, i as int)),
        decreases n - i,
    {
        app_row(out, u[i].0.as_str(), u[i].1 as u64);
        proof {
            let sub = u@.subrange(0, i + 1);
            assert(sub.drop_last() =~= u@.subrange(0, i as int));
            assert(out@ =~= old(out)@ + url_rows(sub));
        }
        i = i + 1;
    }
}

fn app_error_rows(out: &mut String, e: &Vec<(PageState, u64)>)
    ensures
        final(out)@ == old(out)@ + error_rows(e@),
{
    let mut i: usize = 0;
    assert(old(out)@ + error_rows(e@.subrange(0, 0)) =~= old(out)@);
    while i < e.len()
        invariant
            0 <= i <= e.len(),
            out@ == old(out)@ + error_rows(e@.subrange(0, i as int)),
        decreases e.len() - i,
    {
        let ghost before = out@;
        app(out, "| ");
        app_state_name(out, e[i].0);
        app(out, " | ");
        app_dec(out, e[i].1 as u128);
        app(out, " |\n");
        proof {
            let sub = e@.subrange(0, i + 1);
            assert(sub.drop_last() =~= e@.subrange(0, i as int));
            assert(out@ =~= before + row(state_name(e@[i as int].0), e@[i as int].1 as nat));
            assert(out@ =~= old(out)@ + error_rows(sub));
        }
        i = i + 1;
    }
    assert(e@.subrange(0, e.len() as int) =~= e@);
}

fn app_depth_section(out: &mut String, s: &CrawlSummary)
    ensures
        final(out)@ == old(out)@ + depth_section(*s),
{
    if s.depth_breakdown.len() > 0 {
        app(out, "## Depth Breakdown\n\n| Depth | Pages |\n|-------|-------|\n");
        app_depth_rows(out, &s.depth_breakdown);
        app(out, "\n");
        assert(out@ =~= old(out)@ + depth_section(*s));
    } else {
        assert(out@ =~= old(out)@ + depth_section(*s));
    }
}

fn app_quality_section(out: &mut String, s: &CrawlSummary)
    ensures
        final(out)@ == old(out)@ + quality_section(*s),
{
    if s.quality_domains.len() > 0 {
        app(out, "## Quality Domains Crawled\n\n");
        app_bullets(out, &s.quality_domains, s.quality_domains.len());
        assert(s.quality_domains@.subrange(0, s.quality_domains.len() as int) =~= s.quality_domains@);
        app(out, "\n");
        assert(out@ =~= old(out)@ + quality_section(*s));
    } else {
        assert(out@ =~= old(out)@ + quality_section(*s));
    }
}

fn app_discovered_section(out: &mut String, s: &CrawlSummary)
    ensures
        final(out)@ == old(out)@ + discovered_section(*s),
{
    let dn = s.discovered_domains.len();
    if dn > 0 {
        app(out, "## Discovered Domains\n\nTotal discovered: ");
        app_dec(out, dn as u128);
        app(out, "\n\n");
        let shown: usize = if dn > 50 { 50 } else { dn };
        let ghost mid = out@;
        app_bullets(out, &s.discovered_domains, shown);
        let ghost after = out@;
        if dn > 50 {
            app(out, "\n... and ");
            app_dec(out, (dn - 50) as u128);
            app(out, " more\n\n");
            assert(out@ =~= after + ("\n... and "@ + decimal((dn - 50) as nat) + " more\n\n"@));
        } else {
            app(out, "\n");
        }
        assert(out@ =~= old(out)@ + discovered_section(*s));
    } else {
        assert(out@ =~= old(out)@ + discovered_section(*s));
    }
}

fn app_url_section(out: &mut String, title: &str, u: &Vec<(String, u32)>)
    ensures
        final(out)@ == old(out)@ + url_section(title@, u@),
{
    let n = u.len();
    if n > 0 {
        app(out, title);
        app(out, "\n\n| URL | References |\n|-----|------------|\n");
        app_url_rows(out, u, if n > 20 { 20 } else { n });
        app(out, "\n");
        assert(out@ =~= old(out)@ + url_section(title@, u@));
    } else {
        assert(out@ =~= old(out)@ + url_section(title@, u@));
    }
}

fn app_error_section(out: &mut String, s: &CrawlSummary)
    ensures
        final(out)@ == old(out)@ + error_section(*s),
{
    if s.error_summary.len() > 0 {
        app(out, "## Error Summary\n\n| Error Type | Count |\n|------------|-------|\n");
        app_error_rows(out, &s.error_summary);
        app(out, "\n");
        assert(out@ =~= old(out)@ + error_section(*s));
    } else {
        assert(out@ =~= old(out)@ + error_section(*s));
    }
}

fn app_rate_limited_section(out: &mut String, s: &CrawlSummary)
    ensures
        final(out)@ == old(out)@ + rate_limited_section(*s),
{
    let rn = s.rate_limited_domains.len();
    if rn > 0 {
        app(out, "## Rate-Limited Domains\n\nTotal: ");
        app_dec(out, rn as u128);
        app(out, "\n\n");
        app_bullets(out, &s.rate_limited_domains, rn);
        assert(s.rate_limited_domains@.subrange(0, rn as int) =~= s.rate_limited_domains@);
        app(out, "\n");
        assert(out@ =~= old(out)@ + rate_limited_section(*s));
    } else {
        assert(out@ =~= old(out)@ + rate_limited_section(*s));
    }
}

fn app_list_sections(out: &mut String, s: &CrawlSummary)
    ensures
        final(out)@ == old(out)@ + spec_list_sections(*s),
{
    let ghost o = out@;
    app_depth_section(out, s);
    app_quality_section(out, s);
    app_discovered_section(out, s);
    app_url_section(out, "## Top 20 Blacklisted URLs", &s.top_blacklisted);
    app_url_section(out, "## Top 20 Stubbed URLs", &s.top_stubbed);
    app_error_section(out, s);
    app_rate_limited_section(out, s);
    assert(out@ =~= o + spec_list_sections(*s));
}

/// The markdown summary of a run (see `spec_markdown`).
pub fn format_markdown_summary(summary: &CrawlSummary) -> (r: String)
    requires
        spec_terminal_pages(*summary) <= u64::MAX,
    ensures
        r@ == spec_markdown(*summary),
{
    let mut md = String::new();
    app(&mut md, "# Sumi-Ripple Crawl Summary\n\n");
    app_run_section(&mut md, summary);
    app_stats_section(&mut md, summary);
    app_state_section(&mut md, summary);
    app_list_sections(&mut md, summary);
    assert(md@ =~= spec_markdown(*summary));
    md
}

/// The terminal error states, in declaration order.
pub open spec fn error_states() -> Seq<PageState> {
    seq![
        PageState::DeadLink,
        PageState::Unreachable,
        PageState::RateLimited,
        PageState::Failed,
        PageState::DepthExceeded,
        PageState::RequestLimitHit,
        PageState::ContentMismatch,
    ]
}

/// Each of `states` with its page count, where the count is not zero.
pub open spec fn state_counts(pages: Seq<crate::store::PageRecord>, states: Seq<PageState>) -> Seq<(PageState, u64)>
    decreases states.len(),
{
    if states.len() == 0 {
        Seq::empty()
    } else {
        let rest = state_counts(pages, states.drop_last());
        let n = ids_with_state(pages, states.last()).len();
        if n > 0 { rest.push((states.last(), n as u64)) } else { rest }
    }
}

fn signed_text(i: i64) -> (r: String)
    ensures
        r@ == signed_decimal(i as int),
{
    let mut out = String::new();
    app_signed(&mut out, i);
    assert(out@ =~= signed_decimal(i as int));
    out
}

/// The summary of the latest run: its metadata (times as milliseconds of
/// the wall clock), page counts by state, links, distinct domains, the
/// error table, the domains of rate-limited pages, and the blacklisted and
/// stubbed URLs by number of references. The depth table and the domain
/// lists are left empty.
pub fn generate_summary(store: &CrawlStore) -> (r: Result<CrawlSummary, OutputError>)
    requires
        store.wf(),
    ensures
        store.spec_runs().len() == 0 <==> r is Err,
        r is Ok ==> ({
            let s = r->Ok_0;
            let run = store.spec_runs().last();
            let pages = store.spec_pages();
            &&& s.run_id == run.id
            &&& s.started_at@ == signed_decimal(run.started_at as int)
            &&& s.status@ == spec_run_status_string(run.status)
            &&& s.config_hash@ == run.config_hash@
            &&& s.total_pages == pages.len()
            &&& s.total_links == store.spec_links().len()
            &&& s.unique_domains == distinct_domains(pages)
            &&& s.total_errors == error_page_count(pages)
            &&& s.pages_discovered == ids_with_state(pages, PageState::Discovered).len()
            &&& s.pages_queued == ids_with_state(pages, PageState::Queued).len()
            &&& s.pages_processed == ids_with_state(pages, PageState::Processed).len()
            &&& s.pages_blacklisted == ids_with_state(pages, PageState::Blacklisted).len()
            &&& s.pages_stubbed == ids_with_state(pages, PageState::Stubbed).len()
            &&& s.pages_dead_link == ids_with_state(pages, PageState::DeadLink).len()
            &&& s.pages_unreachable == ids_with_state(pages, PageState::Unreachable).len()
            &&& s.pages_rate_limited == ids_with_state(pages, PageState::RateLimited).len()
            &&& s.pages_failed == ids_with_state(pages, PageState::Failed).len()
            &&& s.pages_depth_exceeded == ids_with_state(pages, PageState::DepthExceeded).len()
            &&& s.pages_request_limit_hit == ids_with_state(pages, PageState::RequestLimitHit).len()
            &&& s.pages_content_mismatch == ids_with_state(pages, PageState::ContentMismatch).len()
            &&& s.error_summary@ == state_counts(pages, error_states())
            &&& counts_view(s.top_blacklisted@) == sort_by_count(group_counts(store.spec_blacklisted()))
            &&& counts_view(s.top_stubbed@) == sort_by_count(group_counts(store.spec_stubbed()))
            &&& s.rate_limited_domains@.map_values(|d: String| d@) == rate_limited_domains(store.spec_pages())
            &&& match run.finished_at {
                Some(f) => s.finished_at is Some && s.finished_at->0@ == signed_decimal(f as int)
                    && s.duration_seconds == if f >= run.started_at { Some(((f - run.started_at) / 1000) as u64) } else { None },
                None => s.finished_at is None && s.duration_seconds is None,
            }
        }),
{
    let run = match store.get_latest_run() {
        Some(run) => run,
        None => return Err(OutputError::Storage(String::from_str("No crawl runs found"))),
    };
    let mut summary = CrawlSummary::new();
    summary.run_id = run.id;
    summary.started_at = signed_text(run.started_at);
    match run.finished_at {
        Some(f) => {
            summary.finished_at = Some(signed_text(f));
            summary.duration_seconds = if f >= run.started_at {
                Some(((f as i128 - run.started_at as i128) / 1000) as u64)
            } else {
                None
            };
        },
        None => {},
    }
    summary.status = String::from_str(run.status.to_db_string());
    summary.config_hash = run.config_hash.clone();
    summary.total_pages = store.count_total_pages();
    summary.total_links = store.count_links();
    summary.unique_domains = store.count_unique_domains();
    summary.total_errors = store.count_error_pages();
    summary.pages_discovered = store.count_pages_by_state(PageState::Discovered);
    summary.pages_queued = store.count_pages_by_state(PageState::Queued);
    summary.pages_processed = store.count_pages_by_state(PageState::Processed);
    summary.pages_blacklisted = store.count_pages_by_state(PageState::Blacklisted);
    summary.pages_stubbed = store.count_pages_by_state(PageState::Stubbed);
    summary.pages_dead_link = store.count_pages_by_state(PageState::DeadLink);
    summary.pages_unreachable = store.count_pages_by_state(PageState::Unreachable);
    summary.pages_rate_limited = store.count_pages_by_state(PageState::RateLimited);
    summary.pages_failed = store.count_pages_by_state(PageState::Failed);
    summary.pages_depth_exceeded = store.count_pages_by_state(PageState::DepthExceeded);
    summary.pages_request_limit_hit = store.count_pages_by_state(PageState::RequestLimitHit);
    summary.pages_content_mismatch = store.count_pages_by_state(PageState::ContentMismatch);
    let states: Vec<PageState> = vec![
        PageState::DeadLink,
        PageState::Unreachable,
        PageState::RateLimited,
        PageState::Failed,
        PageState::DepthExceeded,
        PageState::RequestLimitHit,
        PageState::ContentMismatch,
    ];
    assert(states@ =~= error_states());
    let mut errors: Vec<(PageState, u64)> = Vec::new();
    let mut i: usize = 0;
    while i < states.len()
        invariant
            0 <= i <= states.len(),
            states@ == error_states(),
            errors@ == state_counts(store.spec_pages(), states@.subrange(0, i as int)),
        decreases states.len() - i,
    {
        proof {
            assert(states@.subrange(0, i + 1).drop_last() =~= states@.subrange(0, i as int));
            assert(states@.subrange(0, i + 1).last() == states@[i as int]);
        }
        let n = store.count_pages_by_state(states[i]);
        if n > 0 {
            errors.push((states[i], n));
        }
        i = i + 1;
    }
    assert(states@.subrange(0, 7) =~= states@);
    summary.error_summary = errors;
    let names = store.get_rate_limited_domains();
    summary.rate_limited_domains = names;
    summary.top_blacklisted = store.get_blacklisted_urls();
    summary.top_stubbed = store.get_stubbed_urls();
    Ok(summary)
}


} // verus!
