//! Per-domain request accounting and pacing.
//!
//! Pacing times are milliseconds of a monotonic clock; robots fetch times are
//! milliseconds of the wall clock since the Unix epoch.
use vstd::prelude::*;
use crate::config::CrawlerConfig;
use crate::robots::{spec_crawl_delay, ParsedRobots};
use crate::text::ascii_lower;

verus! {

/// A robots.txt body and when it was fetched (wall clock, milliseconds).
#[derive(Debug, Clone)]
pub struct CachedRobots {
    pub content: String,
    pub fetched_at: i64,
}

/// How long a fetched robots.txt stays fresh: 24 hours, in milliseconds.
pub const ROBOTS_TTL_MS: i64 = 86400000;

/// What the crawler knows of one domain during a run.
#[derive(Debug, Clone)]
pub struct DomainState {
    /// Requests made to the domain in this run.
    pub request_count: u32,
    /// When the last request was made (monotonic clock); not kept across runs.
    pub last_request_time: Option<u64>,
    /// Set once the domain answered 429; stays set for the run.
    pub rate_limited: bool,
    /// The cached robots.txt, if fetched.
    pub robots_txt: Option<CachedRobots>,
    /// When robots.txt was fetched (wall clock).
    pub robots_fetched_at: Option<i64>,
}

/// The robots crawl delay for an agent, in milliseconds, if a cached body gives one.
pub open spec fn robots_delay_ms(state: DomainState, user_agent: Seq<char>) -> Option<u64> {
    match state.robots_txt {
        Some(c) => if c.content@.len() == 0 {
            None
        } else {
            spec_crawl_delay(c.content@, user_agent)
        },
        None => None,
    }
}

/// `max(minimum time on page, robots crawl delay or 0)`, in milliseconds.
pub open spec fn spec_effective_delay(config: CrawlerConfig, state: DomainState, user_agent: Seq<char>) -> u64 {
    match robots_delay_ms(state, user_agent) {
        Some(d) => if d > config.minimum_time_on_page { d } else { config.minimum_time_on_page },
        None => config.minimum_time_on_page,
    }
}

/// Milliseconds from `last` to `now`, zero if the clock reads earlier.
pub open spec fn elapsed(last: u64, now: u64) -> u64 {
    if now >= last { (now - last) as u64 } else { 0 }
}

/// Not rate limited, under the request budget, and the effective delay has
/// passed since the last request.
pub open spec fn spec_can_request(state: DomainState, config: CrawlerConfig, now: u64, user_agent: Seq<char>) -> bool {
    &&& !state.rate_limited
    &&& state.request_count < config.max_domain_requests
    &&& match state.last_request_time {
        Some(last) => elapsed(last, now) >= spec_effective_delay(config, state, user_agent),
        None => true,
    }
}

/// The wait left before the next request, where there is one.
pub open spec fn spec_time_until_next(state: DomainState, config: CrawlerConfig, now: u64, user_agent: Seq<char>) -> Option<u64> {
    match state.last_request_time {
        Some(last) => {
            let delay = spec_effective_delay(config, state, user_agent);
            if elapsed(last, now) < delay {
                Some((delay - elapsed(last, now)) as u64)
            } else {
                None
            }
        },
        None => None,
    }
}

/// The effective pacing delay for a domain, in milliseconds.
pub fn effective_delay(config: &CrawlerConfig, domain_state: &DomainState, user_agent: &str) -> (r: u64)
    ensures
        r == spec_effective_delay(*config, *domain_state, user_agent@),
{
    let robots = match &domain_state.robots_txt {
        Some(c) => ParsedRobots::from_content(c.content.as_str()).crawl_delay_ms(user_agent),
        None => None,
    };
    match robots {
        Some(d) => if d > config.minimum_time_on_page { d } else { config.minimum_time_on_page },
        None => config.minimum_time_on_page,
    }
}

impl DomainState {
    /// A domain not yet requested.
    pub fn new() -> (r: DomainState)
        ensures
            r.request_count == 0,
            r.last_request_time is None,
            !r.rate_limited,
            r.robots_txt is None,
            r.robots_fetched_at is None,
    {
        DomainState {
            request_count: 0,
            last_request_time: None,
            rate_limited: false,
            robots_txt: None,
            robots_fetched_at: None,
        }
    }

    /// Whether a request may be made now (see `spec_can_request`).
    pub fn can_request(&self, config: &CrawlerConfig, now: u64, user_agent: &str) -> (r: bool)
        ensures
            r == spec_can_request(*self, *config, now, user_agent@),
    {
        if self.rate_limited {
            return false;
        }
        if self.request_count >= config.max_domain_requests {
            return false;
        }
        match self.last_request_time {
            Some(last) => {
                let delay = effective_delay(config, self, user_agent);
                let gone = if now >= last { now - last } else { 0 };
                gone >= delay
            },
            None => true,
        }
    }

    /// Counts a request made at `now`.
    pub fn record_request(&mut self, now: u64)
        requires
            old(self).request_count < u32::MAX,
        ensures
            final(self).request_count == old(self).request_count + 1,
            final(self).last_request_time == Some(now),
            final(self).rate_limited == old(self).rate_limited,
            final(self).robots_txt == old(self).robots_txt,
            final(self).robots_fetched_at == old(self).robots_fetched_at,
    {
        self.request_count = self.request_count + 1;
        self.last_request_time = Some(now);
    }

    /// Marks the domain rate limited for the rest of the run.
    pub fn mark_rate_limited(&mut self)
        ensures
            *final(self) == (DomainState { rate_limited: true, ..*old(self) }),
    {
        self.rate_limited = true;
    }

    /// Clears the rate-limited mark.
    pub fn clear_rate_limit(&mut self)
        ensures
            *final(self) == (DomainState { rate_limited: false, ..*old(self) }),
    {
        self.rate_limited = false;
    }

    /// Whether the request budget is spent.
    pub fn has_exceeded_limit(&self, config: &CrawlerConfig) -> (r: bool)
        ensures
            r == (self.request_count >= config.max_domain_requests),
    {
        self.request_count >= config.max_domain_requests
    }

    /// Requests left in the budget (zero once spent).
    pub fn requests_remaining(&self, config: &CrawlerConfig) -> (r: u32)
        ensures
            r == if self.request_count >= config.max_domain_requests {
                0
            } else {
                (config.max_domain_requests - self.request_count) as u32
            },
    {
        if self.request_count >= config.max_domain_requests {
            0
        } else {
            config.max_domain_requests - self.request_count
        }
    }

    /// The wait left before the next request (see `spec_time_until_next`).
    pub fn time_until_next_request(&self, config: &CrawlerConfig, now: u64, user_agent: &str) -> (r: Option<u64>)
        ensures
            r == spec_time_until_next(*self, *config, now, user_agent@),
    {
        match self.last_request_time {
            Some(last) => {
                let delay = effective_delay(config, self, user_agent);
                let gone = if now >= last { now - last } else { 0 };
                if gone < delay {
                    Some(delay - gone)
                } else {
                    None
                }
            },
            None => None,
        }
    }

    /// Whether robots.txt must be fetched again: never fetched, or fetched
    /// more than 24 hours before `now` (wall clock, milliseconds).
    pub fn is_robots_stale(&self, now: i64) -> (r: bool)
        ensures
            r == match self.robots_fetched_at {
                Some(t) => now as int - t as int > ROBOTS_TTL_MS as int,
                None => true,
            },
    {
        match self.robots_fetched_at {
            Some(t) => (now as i128) - (t as i128) > ROBOTS_TTL_MS as i128,
            None => true,
        }
    }

    /// Caches a robots.txt body fetched at `now` (wall clock).
    pub fn update_robots(&mut self, content: String, now: i64)
        ensures
            final(self).robots_txt == Some(CachedRobots { content, fetched_at: now }),
            final(self).robots_fetched_at == Some(now),
            final(self).request_count == old(self).request_count,
            final(self).last_request_time == old(self).last_request_time,
            final(self).rate_limited == old(self).rate_limited,
    {
        self.robots_txt = Some(CachedRobots { content, fetched_at: now });
        self.robots_fetched_at = Some(now);
    }
}

/// A request that `can_request` admits leaves the count within the budget:
/// when every request is admitted first, a run never makes more than
/// `max_domain_requests` requests to one domain, and once the budget is
/// reached no further request is admitted.
pub proof fn lemma_request_budget(state: DomainState, config: CrawlerConfig, now: u64, user_agent: Seq<char>)
    ensures
        spec_can_request(state, config, now, user_agent) ==> state.request_count + 1 <= config.max_domain_requests,
        state.request_count >= config.max_domain_requests ==> !spec_can_request(state, config, now, user_agent),
{
}

/// Two admitted requests to one domain are separated by at least the
/// effective delay: if the last request was at `last` and a request is
/// admitted at `now`, then `now >= last + effective_delay` (for a valid
/// configuration, whose minimum time on page is at least 100 ms).
pub proof fn lemma_pacing(state: DomainState, config: CrawlerConfig, now: u64, user_agent: Seq<char>)
    requires
        config.minimum_time_on_page >= 100,
        spec_can_request(state, config, now, user_agent),
        state.last_request_time is Some,
    ensures
        now >= state.last_request_time->0 + spec_effective_delay(config, state, user_agent),
{
    let last = state.last_request_time->0;
    if now < last {
        assert(elapsed(last, now) == 0);
    }
}

impl Default for DomainState {
    /// A domain not yet requested.
    fn default() -> (r: DomainState)
        ensures
            r.request_count == 0,
            r.last_request_time is None,
            !r.rate_limited,
            r.robots_txt is None,
            r.robots_fetched_at is None,
    {
        DomainState::new()
    }
}

} // verus!
