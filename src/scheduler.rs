//! The frontier and per-domain pacing: which queued URL is dispatched next.
use vstd::prelude::*;
use crate::config::CrawlerConfig;
use crate::domain_state::{spec_can_request, spec_time_until_next, DomainState};
use crate::query::{chars_lt, seq_lt};
use crate::text::{chars_of, str_eq};

verus! {

/// A URL waiting in the frontier.
#[derive(Debug, Clone)]
pub struct QueuedUrl {
    /// The normalized URL.
    pub url: String,
    pub domain: String,
    /// Lower is dispatched earlier.
    pub priority: u32,
    pub page_id: i64,
}

/// `a` is dispatched before `b`: lower priority first, then URL order.
pub open spec fn dispatch_before(a: QueuedUrl, b: QueuedUrl) -> bool {
    a.priority < b.priority || (a.priority == b.priority && seq_lt(a.url@, b.url@))
}

/// A domain never requested.
pub open spec fn fresh_state(s: DomainState) -> bool {
    s.request_count == 0 && s.last_request_time is None && !s.rate_limited && s.robots_txt is None
        && s.robots_fetched_at is None
}

/// The position of a domain's state, if it has one.
pub open spec fn state_index(states: Seq<(String, DomainState)>, domain: Seq<char>) -> Option<int> {
    if exists|i: int| 0 <= i < states.len() && states[i].0@ == domain {
        Some(choose|i: int| 0 <= i < states.len() && states[i].0@ == domain)
    } else {
        None
    }
}

/// No two states belong to one domain.
pub open spec fn domains_unique(states: Seq<(String, DomainState)>) -> bool {
    forall|i: int, j: int| 0 <= i < states.len() && 0 <= j < states.len() && i != j ==> states[i].0@ != states[j].0@
}

/// Whether a URL of `domain` may be requested now: by its state, or as a
/// domain never requested.
pub open spec fn domain_ready(states: Seq<(String, DomainState)>, config: CrawlerConfig, domain: Seq<char>, now: u64, agent: Seq<char>) -> bool {
    match state_index(states, domain) {
        Some(i) => spec_can_request(states[i].1, config, now, agent),
        None => config.max_domain_requests >= 1,
    }
}

/// The shortest wait among queued URLs, capped at 100 ms, or `None` when one
/// of them may be requested already (or its domain has no state yet).
pub open spec fn shortest_wait(f: Seq<QueuedUrl>, states: Seq<(String, DomainState)>, config: CrawlerConfig, now: u64, agent: Seq<char>) -> Option<u64>
    decreases f.len(),
{
    if f.len() == 0 {
        Some(100)
    } else {
        match shortest_wait(f.drop_last(), states, config, now, agent) {
            None => None,
            Some(m) => match state_index(states, f.last().domain@) {
                None => None,
                Some(i) => match spec_time_until_next(states[i].1, config, now, agent) {
                    None => None,
                    Some(w) => Some(if w < m { w } else { m }),
                },
            },
        }
    }
}

/// Only the state at `i` changed (or was added at the end), and its name is `domain`.
pub open spec fn only_state_changed(old: Seq<(String, DomainState)>, new: Seq<(String, DomainState)>, i: int, domain: Seq<char>) -> bool {
    &&& (new.len() == old.len() || new.len() == old.len() + 1)
    &&& 0 <= i < new.len()
    &&& new[i].0@ == domain
    &&& (i >= old.len() ==> i == old.len())
    &&& forall|j: int| 0 <= j < new.len() && j != i ==> j < old.len() && #[trigger] new[j] == old[j]
}

/// The state a domain had before, or a fresh one.
pub open spec fn prior_state(states: Seq<(String, DomainState)>, domain: Seq<char>) -> DomainState {
    match state_index(states, domain) {
        Some(k) => states[k].1,
        None => DomainState {
            request_count: 0,
            last_request_time: None,
            rate_limited: false,
            robots_txt: None,
            robots_fetched_at: None,
        },
    }
}

/// The frontier, the per-domain states and the settings they are judged by.
pub struct Scheduler {
    frontier: Vec<QueuedUrl>,
    domain_states: Vec<(String, DomainState)>,
    config: CrawlerConfig,
    user_agent: String,
}

proof fn lemma_state_index(states: Seq<(String, DomainState)>, domain: Seq<char>, i: int)
    requires
        domains_unique(states),
        0 <= i < states.len(),
        states[i].0@ == domain,
    ensures
        state_index(states, domain) == Some(i),
{
    let j = choose|j: int| 0 <= j < states.len() && states[j].0@ == domain;
    assert(j == i);
}

impl Scheduler {
    /// The queued URLs, in no particular order.
    pub closed spec fn spec_frontier(&self) -> Seq<QueuedUrl> {
        self.frontier@
    }

    /// The domain states.
    pub closed spec fn spec_states(&self) -> Seq<(String, DomainState)> {
        self.domain_states@
    }

    /// The crawl settings.
    pub closed spec fn spec_config(&self) -> CrawlerConfig {
        self.config
    }

    /// The user agent that robots delays are read for.
    pub closed spec fn spec_agent(&self) -> Seq<char> {
        self.user_agent@
    }

    /// One state per domain.
    pub open spec fn wf(&self) -> bool {
        domains_unique(self.spec_states())
    }

    /// A scheduler over an initial frontier and the domain states of an
    /// earlier run (later duplicates of a domain are ignored).
    pub fn new(config: CrawlerConfig, user_agent: String, initial_frontier: Vec<QueuedUrl>, initial_domain_states: Vec<(String, DomainState)>) -> (r: Scheduler)
        ensures
            r.wf(),
            r.spec_frontier() == initial_frontier@,
            r.spec_config() == config,
            r.spec_agent() == user_agent@,
            forall|i: int| 0 <= i < r.spec_states().len() ==> initial_domain_states@.contains(#[trigger] r.spec_states()[i]),
            forall|i: int| 0 <= i < initial_domain_states@.len()
                ==> #[trigger] state_index(r.spec_states(), initial_domain_states@[i].0@) is Some,
    {
        let mut states: Vec<(String, DomainState)> = Vec::new();
        let mut source = initial_domain_states;
        let ghost all = source@;
        while source.len() > 0
            invariant
                domains_unique(states@),
                forall|i: int| 0 <= i < states@.len() ==> all.contains(#[trigger] states@[i]),
                forall|i: int| 0 <= i < source@.len() ==> all.contains(#[trigger] source@[i]),
                source@.len() <= all.len(),
                source@ == all.subrange(0, source@.len() as int),
                forall|k: int| source@.len() <= k < all.len()
                    ==> #[trigger] state_index(states@, all[k].0@) is Some,
            decreases source.len(),
        {
            let ghost before = source@;
            let ghost states_before = states@;
            let entry = source.pop().unwrap();
            assert(before[before.len() - 1] == entry);
            assert(all.contains(entry));
            let mut found = false;
            let mut j: usize = 0;
            while j < states.len()
                invariant
                    0 <= j <= states.len(),
                    !found ==> forall|k: int| 0 <= k < j ==> (#[trigger] states@[k]).0@ != entry.0@,
                    found ==> exists|k: int| 0 <= k < states@.len() && states@[k].0@ == entry.0@,
                decreases states.len() - j,
            {
                if str_eq(states[j].0.as_str(), entry.0.as_str()) {
                    found = true;
                }
                j = j + 1;
            }
            if !found {
                let ghost s0 = states@;
                states.push(entry);
                proof {
                    assert forall|a: int, b: int| 0 <= a < states@.len() && 0 <= b < states@.len() && a != b
                        implies states@[a].0@ != states@[b].0@ by {
                        if a == s0.len() {
                            assert(states@[b] == s0[b]);
                        } else if b == s0.len() {
                            assert(states@[a] == s0[a]);
                        } else {
                            assert(states@[a] == s0[a]);
                            assert(states@[b] == s0[b]);
                        }
                    }
                    assert forall|i: int| 0 <= i < states@.len() implies all.contains(#[trigger] states@[i]) by {
                        if i < s0.len() {
                            assert(states@[i] == s0[i]);
                        }
                    }
                }
            }
            proof {
                assert forall|i: int| 0 <= i < source@.len() implies all.contains(#[trigger] source@[i]) by {
                    assert(source@[i] == before[i]);
                }
                assert(source@ == before.drop_last());
                assert(source@ =~= all.subrange(0, source@.len() as int));
                assert(entry == all[source@.len() as int]);
                assert forall|k: int| source@.len() <= k < all.len()
                    implies #[trigger] state_index(states@, all[k].0@) is Some by {
                    if k == source@.len() {
                        if found {
                            let j = choose|j: int| 0 <= j < states@.len() && states@[j].0@ == entry.0@;
                            assert(states@[j].0@ == all[k].0@);
                        } else {
                            let j = states@.len() - 1;
                            assert(states@[j] == entry);
                            assert(states@[j].0@ == all[k].0@);
                        }
                    } else {
                        assert(state_index(states_before, all[k].0@) is Some);
                        let j = choose|j: int| 0 <= j < states_before.len() && states_before[j].0@ == all[k].0@;
                        assert(states@[j] == states_before[j]);
                        assert(states@[j].0@ == all[k].0@);
                    }
                }
            }
        }
        proof {
            assert(source@.len() == 0);
        }
        Scheduler { frontier: initial_frontier, domain_states: states, config, user_agent }
    }

    fn find_domain(&self, domain: &str) -> (r: Option<usize>)
        requires
            self.wf(),
        ensures
            match r {
                Some(i) => state_index(self.spec_states(), domain@) == Some(i as int),
                None => state_index(self.spec_states(), domain@) is None,
            },
    {
        let mut i: usize = 0;
        while i < self.domain_states.len()
            invariant
                0 <= i <= self.domain_states.len(),
                self.wf(),
                forall|j: int| 0 <= j < i ==> (#[trigger] self.domain_states@[j]).0@ != domain@,
            decreases self.domain_states.len() - i,
        {
            if str_eq(self.domain_states[i].0.as_str(), domain) {
                proof { lemma_state_index(self.domain_states@, domain@, i as int); }
                return Some(i);
            }
            i = i + 1;
        }
        None
    }

    /// Queues a URL.
    pub fn add_to_frontier(&mut self, url: QueuedUrl)
        ensures
            final(self).spec_frontier() == old(self).spec_frontier().push(url),
            final(self).spec_states() == old(self).spec_states(),
            final(self).spec_config() == old(self).spec_config(),
            final(self).spec_agent() == old(self).spec_agent(),
    {
        self.frontier.push(url);
    }

    /// The number of queued URLs.
    pub fn frontier_size(&self) -> (r: usize)
        ensures
            r == self.spec_frontier().len(),
    {
        self.frontier.len()
    }

    /// Whether nothing is queued.
    pub fn is_empty(&self) -> (r: bool)
        ensures
            r == (self.spec_frontier().len() == 0),
    {
        self.frontier.len() == 0
    }

    /// The state of a domain, if it has one.
    pub fn get_domain_state(&self, domain: &str) -> (r: Option<&DomainState>)
        requires
            self.wf(),
        ensures
            match state_index(self.spec_states(), domain@) {
                Some(i) => r is Some && *r->0 == self.spec_states()[i].1,
                None => r is None,
            },
    {
        match self.find_domain(domain) {
            Some(i) => Some(&self.domain_states[i].1),
            None => None,
        }
    }

    /// All domain states.
    pub fn get_all_domain_states(&self) -> (r: &Vec<(String, DomainState)>)
        ensures
            r@ == self.spec_states(),
    {
        &self.domain_states
    }

    /// The index of the domain's state, created fresh if it has none.
    fn state_for(&mut self, domain: &str) -> (r: usize)
        requires
            old(self).wf(),
        ensures
            final(self).wf(),
            r < final(self).spec_states().len(),
            final(self).spec_states()[r as int].0@ == domain@,
            state_index(final(self).spec_states(), domain@) == Some(r as int),
            final(self).spec_frontier() == old(self).spec_frontier(),
            final(self).spec_config() == old(self).spec_config(),
            final(self).spec_agent() == old(self).spec_agent(),
            match state_index(old(self).spec_states(), domain@) {
                Some(i) => final(self).spec_states() == old(self).spec_states() && r == i,
                None => final(self).spec_states().drop_last() == old(self).spec_states()
                    && r == old(self).spec_states().len() && fresh_state(final(self).spec_states()[r as int].1),
            },
    {
        match self.find_domain(domain) {
            Some(i) => i,
            None => {
                let ghost s0 = self.domain_states@;
                self.domain_states.push((String::from_str(domain), DomainState::new()));
                proof {
                    assert(self.domain_states@.drop_last() =~= s0);
                    assert forall|a: int, b: int| 0 <= a < self.domain_states@.len() && 0 <= b < self.domain_states@.len() && a != b
                        implies self.domain_states@[a].0@ != self.domain_states@[b].0@ by {
                        if a == s0.len() {
                            assert(self.domain_states@[b] == s0[b]);
                        } else if b == s0.len() {
                            assert(self.domain_states@[a] == s0[a]);
                        } else {
                            assert(self.domain_states@[a] == s0[a]);
                            assert(self.domain_states@[b] == s0[b]);
                        }
                    }
                    lemma_state_index(self.domain_states@, domain@, s0.len() as int);
                }
                self.domain_states.len() - 1
            },
        }
    }

    /// Counts a request to `domain` at `now` (the count stops at its maximum value).
    pub fn record_request(&mut self, domain: &str, now: u64)
        requires
            old(self).wf(),
        ensures
            final(self).wf(),
            final(self).spec_frontier() == old(self).spec_frontier(),
            final(self).spec_config() == old(self).spec_config(),
            state_index(final(self).spec_states(), domain@) is Some,
            ({
                let i = state_index(final(self).spec_states(), domain@)->0;
                let s = final(self).spec_states()[i].1;
                let before = match state_index(old(self).spec_states(), domain@) {
                    Some(k) => old(self).spec_states()[k].1.request_count as int,
                    None => 0,
                };
                &&& s.last_request_time == Some(now)
                &&& s.request_count == if before < u32::MAX { before + 1 } else { before }
                &&& s.rate_limited == prior_state(old(self).spec_states(), domain@).rate_limited
                &&& s.robots_txt == prior_state(old(self).spec_states(), domain@).robots_txt
                &&& s.robots_fetched_at == prior_state(old(self).spec_states(), domain@).robots_fetched_at
                &&& only_state_changed(old(self).spec_states(), final(self).spec_states(), i, domain@)
            }),
    {
        let i = self.state_for(domain);
        let count = self.domain_states[i].1.request_count;
        if count < u32::MAX {
            self.domain_states[i].1.request_count = count + 1;
        }
        self.domain_states[i].1.last_request_time = Some(now);
        proof {
            let s1 = self.domain_states@;
            assert forall|a: int, b: int| 0 <= a < s1.len() && 0 <= b < s1.len() && a != b implies s1[a].0@ != s1[b].0@ by {}
            lemma_state_index(s1, domain@, i as int);
        }
    }

    /// Marks `domain` rate limited for the rest of the run.
    pub fn mark_rate_limited(&mut self, domain: &str)
        requires
            old(self).wf(),
        ensures
            final(self).wf(),
            final(self).spec_frontier() == old(self).spec_frontier(),
            final(self).spec_config() == old(self).spec_config(),
            state_index(final(self).spec_states(), domain@) is Some,
            ({
                let i = state_index(final(self).spec_states(), domain@)->0;
                let s = final(self).spec_states()[i].1;
                let p = prior_state(old(self).spec_states(), domain@);
                &&& s.rate_limited
                &&& s.request_count == p.request_count
                &&& s.last_request_time == p.last_request_time
                &&& s.robots_txt == p.robots_txt
                &&& s.robots_fetched_at == p.robots_fetched_at
                &&& only_state_changed(old(self).spec_states(), final(self).spec_states(), i, domain@)
            }),
    {
        let i = self.state_for(domain);
        self.domain_states[i].1.rate_limited = true;
        proof {
            let s1 = self.domain_states@;
            lemma_state_index(s1, domain@, i as int);
        }
    }

    /// Caches a robots.txt body for `domain`, fetched at `now` (wall clock).
    pub fn update_robots(&mut self, domain: &str, content: String, now: i64)
        requires
            old(self).wf(),
        ensures
            final(self).wf(),
            final(self).spec_frontier() == old(self).spec_frontier(),
            final(self).spec_config() == old(self).spec_config(),
            state_index(final(self).spec_states(), domain@) is Some,
            ({
                let s = final(self).spec_states()[state_index(final(self).spec_states(), domain@)->0].1;
                &&& s.robots_txt is Some
                &&& s.robots_txt->0.content@ == content@
                &&& s.robots_txt->0.fetched_at == now
                &&& s.robots_fetched_at == Some(now)
                &&& s.request_count == prior_state(old(self).spec_states(), domain@).request_count
                &&& s.last_request_time == prior_state(old(self).spec_states(), domain@).last_request_time
                &&& s.rate_limited == prior_state(old(self).spec_states(), domain@).rate_limited
                &&& only_state_changed(old(self).spec_states(), final(self).spec_states(),
                    state_index(final(self).spec_states(), domain@)->0, domain@)
            }),
    {
        let i = self.state_for(domain);
        let ghost cv = content@;
        self.domain_states[i].1.update_robots(content, now);
        proof {
            let s1 = self.domain_states@;
            lemma_state_index(s1, domain@, i as int);
        }
    }

    /// How long to sleep before looking for a ready URL again, in
    /// milliseconds: 10 when some queued URL is ready already, else the
    /// shortest remaining wait (at most 100) plus 10.
    pub fn pacing_wait_ms(&self, now: u64) -> (r: u64)
        requires
            self.wf(),
        ensures
            r == match shortest_wait(self.spec_frontier(), self.spec_states(), self.spec_config(), now, self.spec_agent()) {
                None => 10,
                Some(m) => m + 10,
            },
    {
        let mut min_wait: u64 = 100;
        let mut i: usize = 0;
        while i < self.frontier.len()
            invariant
                0 <= i <= self.frontier.len(),
                self.wf(),
                min_wait <= 100,
                shortest_wait(self.frontier@.subrange(0, i as int), self.domain_states@, self.config, now, self.user_agent@) == Some(min_wait),
            decreases self.frontier.len() - i,
        {
            proof {
                assert(self.frontier@.subrange(0, i + 1).drop_last() =~= self.frontier@.subrange(0, i as int));
                assert(self.frontier@.subrange(0, i + 1).last() == self.frontier@[i as int]);
            }
            match self.find_domain(self.frontier[i].domain.as_str()) {
                None => {
                    proof { lemma_shortest_wait_none(self.frontier@, self.domain_states@, self.config, now, self.user_agent@, i as int); }
                    return 10;
                },
                Some(k) => {
                    match self.domain_states[k].1.time_until_next_request(&self.config, now, self.user_agent.as_str()) {
                        None => {
                            proof { lemma_shortest_wait_none(self.frontier@, self.domain_states@, self.config, now, self.user_agent@, i as int); }
                            return 10;
                        },
                        Some(w) => {
                            if w < min_wait {
                                min_wait = w;
                            }
                        },
                    }
                },
            }
            i = i + 1;
        }
        assert(self.frontier@.subrange(0, self.frontier.len() as int) =~= self.frontier@);
        min_wait + 10
    }

    /// Whether a URL of `domain` may be requested now.
    fn ready(&self, domain: &str, now: u64) -> (r: bool)
        requires
            self.wf(),
        ensures
            r == domain_ready(self.spec_states(), self.spec_config(), domain@, now, self.spec_agent()),
    {
        match self.find_domain(domain) {
            Some(i) => self.domain_states[i].1.can_request(&self.config, now, self.user_agent.as_str()),
            None => self.config.max_domain_requests >= 1,
        }
    }

    /// Removes and returns the next URL to dispatch at `now`: among queued
    /// URLs whose domain may be requested, the one with the lowest priority,
    /// ties broken by URL order. `None` when no queued URL is ready.
    pub fn next_ready(&mut self, now: u64) -> (r: Option<QueuedUrl>)
        requires
            old(self).wf(),
        ensures
            final(self).wf(),
            final(self).spec_states() == old(self).spec_states(),
            final(self).spec_config() == old(self).spec_config(),
            final(self).spec_agent() == old(self).spec_agent(),
            r is None ==> final(self).spec_frontier() == old(self).spec_frontier()
                && forall|j: int| 0 <= j < old(self).spec_frontier().len()
                    ==> !domain_ready(old(self).spec_states(), old(self).spec_config(), (#[trigger] old(self).spec_frontier()[j]).domain@, now, old(self).spec_agent()),
            r is Some ==> exists|k: int| {
                &&& 0 <= k < old(self).spec_frontier().len()
                &&& r->0 == old(self).spec_frontier()[k]
                &&& domain_ready(old(self).spec_states(), old(self).spec_config(), r->0.domain@, now, old(self).spec_agent())
                &&& final(self).spec_frontier() == old(self).spec_frontier().remove(k)
                &&& forall|j: int| 0 <= j < old(self).spec_frontier().len()
                    && domain_ready(old(self).spec_states(), old(self).spec_config(), (#[trigger] old(self).spec_frontier()[j]).domain@, now, old(self).spec_agent())
                    ==> !dispatch_before(old(self).spec_frontier()[j], r->0)
            },
    {
        let ghost f0 = self.frontier@;
        let mut best: Option<usize> = None;
        let mut i: usize = 0;
        while i < self.frontier.len()
            invariant
                0 <= i <= self.frontier.len(),
                self.frontier@ == f0,
                self.wf(),
                *self == *old(self),
                match best {
                    Some(b) => b < i && domain_ready(self.spec_states(), self.spec_config(), f0[b as int].domain@, now, self.spec_agent())
                        && forall|j: int| 0 <= j < i && domain_ready(self.spec_states(), self.spec_config(), (#[trigger] f0[j]).domain@, now, self.spec_agent())
                            ==> !dispatch_before(f0[j], f0[b as int]),
                    None => forall|j: int| 0 <= j < i ==> !domain_ready(self.spec_states(), self.spec_config(), (#[trigger] f0[j]).domain@, now, self.spec_agent()),
                },
            decreases self.frontier.len() - i,
        {
            proof { lemma_seq_lt_irreflexive(f0[i as int].url@); }
            if self.ready(self.frontier[i].domain.as_str(), now) {
                match best {
                    None => {
                        best = Some(i);
                    },
                    Some(b) => {
                        let earlier = self.frontier[i].priority < self.frontier[b].priority
                            || (self.frontier[i].priority == self.frontier[b].priority
                                && chars_lt(&chars_of(self.frontier[i].url.as_str()), &chars_of(self.frontier[b].url.as_str())));
                        if earlier {
                            proof { lemma_dispatch_order(f0, b as int, i as int); }
                            best = Some(i);
                        }
                    },
                }
            }
            i = i + 1;
        }
        let ghost st = self.spec_states();
        let ghost cf = self.spec_config();
        let ghost ag = self.spec_agent();
        assert(st == old(self).spec_states() && cf == old(self).spec_config() && ag == old(self).spec_agent());
        assert(f0 == old(self).spec_frontier());
        match best {
            None => None,
            Some(b) => {
                assert(forall|j: int| 0 <= j < f0.len() && domain_ready(st, cf, (#[trigger] f0[j]).domain@, now, ag)
                    ==> !dispatch_before(f0[j], f0[b as int]));
                let q = self.frontier.remove(b);
                proof {
                    assert(q == f0[b as int]);
                    assert(self.spec_frontier() == f0.remove(b as int));
                }
                Some(q)
            },
        }
    }
}

/// Once the wait is `None` on a prefix, it stays `None` on the whole frontier.
proof fn lemma_shortest_wait_none(f: Seq<QueuedUrl>, states: Seq<(String, DomainState)>, config: CrawlerConfig, now: u64, agent: Seq<char>, i: int)
    requires
        0 <= i < f.len(),
        shortest_wait(f.subrange(0, i + 1), states, config, now, agent) is None,
    ensures
        shortest_wait(f, states, config, now, agent) is None,
    decreases f.len() - i,
{
    if i + 1 < f.len() {
        let g = f.subrange(0, i + 2);
        assert(g.drop_last() =~= f.subrange(0, i + 1));
        lemma_shortest_wait_none(f, states, config, now, agent, i + 1);
    } else {
        assert(f.subrange(0, i + 1) =~= f);
    }
}

/// Dispatch order is a strict order on (priority, URL): when `i` comes
/// before `b`, nothing that does not come before `b` comes before `i`.
proof fn lemma_dispatch_order(f: Seq<QueuedUrl>, b: int, i: int)
    requires
        0 <= b < f.len(),
        0 <= i < f.len(),
        dispatch_before(f[i], f[b]),
    ensures
        forall|j: int| 0 <= j < f.len() && !dispatch_before(#[trigger] f[j], f[b]) ==> !dispatch_before(f[j], f[i]),
{
    assert forall|j: int| 0 <= j < f.len() && !dispatch_before(#[trigger] f[j], f[b]) implies !dispatch_before(f[j], f[i]) by {
        if dispatch_before(f[j], f[i]) {
            lemma_seq_lt_transitive(f[j].url@, f[i].url@, f[b].url@);
        }
    }
}

/// No string sorts before itself.
pub proof fn lemma_seq_lt_irreflexive(a: Seq<char>)
    ensures
        !seq_lt(a, a),
    decreases a.len(),
{
    if a.len() > 0 {
        lemma_seq_lt_irreflexive(a.subrange(1, a.len() as int));
    }
}

/// Character order on strings is transitive.
pub proof fn lemma_seq_lt_transitive(a: Seq<char>, b: Seq<char>, c: Seq<char>)
    requires
        seq_lt(a, b),
        seq_lt(b, c),
    ensures
        seq_lt(a, c),
    decreases a.len(),
{
    if a.len() > 0 && b.len() > 0 && c.len() > 0 && a[0] == b[0] && b[0] == c[0] {
        lemma_seq_lt_transitive(a.subrange(1, a.len() as int), b.subrange(1, b.len() as int), c.subrange(1, c.len() as int));
    }
}

/// Once a domain's request count reaches `max_domain_requests`, none of its
/// URLs is ready, so `next_ready` never dispatches one.
pub proof fn lemma_budget_stops_dispatch(
    states: Seq<(String, DomainState)>,
    config: CrawlerConfig,
    domain: Seq<char>,
    now: u64,
    agent: Seq<char>,
)
    requires
        state_index(states, domain) is Some,
        states[state_index(states, domain)->0].1.request_count >= config.max_domain_requests,
    ensures
        !domain_ready(states, config, domain, now, agent),
{
}

/// A domain marked rate limited has no ready URL, at any time: `next_ready`
/// never dispatches it, and since no scheduler operation clears the mark
/// (each leaves the flag of every state as it was, or sets it), this holds
/// for the rest of the run.
pub proof fn lemma_rate_limited_not_ready(
    states: Seq<(String, DomainState)>,
    config: CrawlerConfig,
    domain: Seq<char>,
    now: u64,
    agent: Seq<char>,
)
    requires
        state_index(states, domain) is Some,
        states[state_index(states, domain)->0].1.rate_limited,
    ensures
        !domain_ready(states, config, domain, now, agent),
{
}

} // verus!
