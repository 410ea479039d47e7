//! Wildcard domain patterns and the classification of domains.
use vstd::prelude::*;
use crate::config::{Config, DomainEntry, QualityEntry};
use crate::text::{chars_of, chars_eq, ends_with, seq_ends_with, seq_starts_with, starts_with};

verus! {

/// The two characters that open a wildcard pattern.
pub open spec fn wildcard_prefix() -> Seq<char> {
    seq!['*', '.']
}

/// Whether `candidate` matches `pattern`: exactly, or, for `*.X`, `X` itself
/// or any name that ends in `.X`.
pub open spec fn spec_matches_wildcard(pattern: Seq<char>, candidate: Seq<char>) -> bool {
    if seq_starts_with(pattern, wildcard_prefix()) {
        let base = pattern.subrange(2, pattern.len() as int);
        candidate == base || seq_ends_with(candidate, seq!['.'] + base)
    } else {
        candidate == pattern
    }
}

/// Whether `candidate` matches `pattern` (see `spec_matches_wildcard`).
pub fn matches_wildcard(pattern: &str, candidate: &str) -> (r: bool)
    ensures
        r == spec_matches_wildcard(pattern@, candidate@),
{
    let p = chars_of(pattern);
    let c = chars_of(candidate);
    let prefix: Vec<char> = vec!['*', '.'];
    assert(prefix@ =~= wildcard_prefix());
    if starts_with(&p, &prefix) {
        let mut base: Vec<char> = Vec::new();
        let mut dotted: Vec<char> = vec!['.'];
        let mut i: usize = 2;
        while i < p.len()
            invariant
                2 <= i <= p.len(),
                base@ == p@.subrange(2, i as int),
                dotted@ == seq!['.'] + p@.subrange(2, i as int),
            decreases p.len() - i,
        {
            base.push(p[i]);
            dotted.push(p[i]);
            proof {
                assert(p@.subrange(2, i + 1) =~= p@.subrange(2, i as int).push(p@[i as int]));
                assert(seq!['.'] + p@.subrange(2, i + 1) =~= (seq!['.'] + p@.subrange(2, i as int)).push(p@[i as int]));
            }
            i = i + 1;
        }
        chars_eq(&c, &base) || ends_with(&c, &dotted)
    } else {
        chars_eq(&c, &p)
    }
}

/// How a domain is treated by the crawl.
#[derive(Debug, Clone, Copy, PartialEq, Eq, Hash, Structural)]
pub enum DomainClassification {
    /// A configured origin: crawled.
    Quality,
    /// Recorded as a referrer target, never visited.
    Blacklisted,
    /// Noted, never visited.
    Stubbed,
    /// Found during the crawl: crawled.
    Discovered,
}

impl DomainClassification {
    /// True for Quality and Discovered.
    pub fn should_crawl(&self) -> (r: bool)
        ensures
            r == (*self is Quality || *self is Discovered),
    {
        matches!(self, DomainClassification::Quality | DomainClassification::Discovered)
    }

    /// True for Blacklisted and Stubbed.
    pub fn is_terminal(&self) -> (r: bool)
        ensures
            r == (*self is Blacklisted || *self is Stubbed),
    {
        matches!(self, DomainClassification::Blacklisted | DomainClassification::Stubbed)
    }
}

/// Some entry of the list matches the domain.
pub open spec fn any_entry_matches(entries: Seq<DomainEntry>, domain: Seq<char>) -> bool {
    exists|i: int| 0 <= i < entries.len() && spec_matches_wildcard(entries[i].domain@, domain)
}

/// Some quality entry matches the domain.
pub open spec fn any_quality_matches(entries: Seq<QualityEntry>, domain: Seq<char>) -> bool {
    exists|i: int| 0 <= i < entries.len() && spec_matches_wildcard(entries[i].domain@, domain)
}

/// Blacklist first, then stub list, then quality list, else discovered.
pub open spec fn spec_classify(
    domain: Seq<char>,
    blacklist: Seq<DomainEntry>,
    stub: Seq<DomainEntry>,
    quality: Seq<QualityEntry>,
) -> DomainClassification {
    if any_entry_matches(blacklist, domain) {
        DomainClassification::Blacklisted
    } else if any_entry_matches(stub, domain) {
        DomainClassification::Stubbed
    } else if any_quality_matches(quality, domain) {
        DomainClassification::Quality
    } else {
        DomainClassification::Discovered
    }
}

fn list_matches(entries: &Vec<DomainEntry>, domain: &str) -> (r: bool)
    ensures
        r == any_entry_matches(entries@, domain@),
{
    let mut i: usize = 0;
    while i < entries.len()
        invariant
            0 <= i <= entries.len(),
            forall|j: int|
                0 <= j < i ==> !spec_matches_wildcard(#[trigger] entries@[j].domain@, domain@),
        decreases entries.len() - i,
    {
        if matches_wildcard(entries[i].domain.as_str(), domain) {
            return true;
        }
        i = i + 1;
    }
    false
}

fn quality_matches(entries: &Vec<QualityEntry>, domain: &str) -> (r: bool)
    ensures
        r == any_quality_matches(entries@, domain@),
{
    let mut i: usize = 0;
    while i < entries.len()
        invariant
            0 <= i <= entries.len(),
            forall|j: int|
                0 <= j < i ==> !spec_matches_wildcard(#[trigger] entries@[j].domain@, domain@),
        decreases entries.len() - i,
    {
        if matches_wildcard(entries[i].domain.as_str(), domain) {
            return true;
        }
        i = i + 1;
    }
    false
}

/// Classifies `domain` against the configured lists, blacklist first.
pub fn classify_domain(domain: &str, config: &Config) -> (r: DomainClassification)
    ensures
        r == spec_classify(domain@, config.blacklist@, config.stub@, config.quality@),
{
    if list_matches(&config.blacklist, domain) {
        DomainClassification::Blacklisted
    } else if list_matches(&config.stub, domain) {
        DomainClassification::Stubbed
    } else if quality_matches(&config.quality, domain) {
        DomainClassification::Quality
    } else {
        DomainClassification::Discovered
    }
}

/// A domain that any blacklist entry matches is classified Blacklisted,
/// whatever the stub and quality lists hold.
pub proof fn lemma_blacklist_wins(
    domain: Seq<char>,
    blacklist: Seq<DomainEntry>,
    stub: Seq<DomainEntry>,
    quality: Seq<QualityEntry>,
    i: int,
)
    requires
        0 <= i < blacklist.len(),
        spec_matches_wildcard(blacklist[i].domain@, domain),
    ensures
        spec_classify(domain, blacklist, stub, quality) == DomainClassification::Blacklisted,
{
}

/// A stub match wins over a quality match when no blacklist entry matches.
pub proof fn lemma_stub_over_quality(
    domain: Seq<char>,
    blacklist: Seq<DomainEntry>,
    stub: Seq<DomainEntry>,
    quality: Seq<QualityEntry>,
    i: int,
)
    requires
        !any_entry_matches(blacklist, domain),
        0 <= i < stub.len(),
        spec_matches_wildcard(stub[i].domain@, domain),
    ensures
        spec_classify(domain, blacklist, stub, quality) == DomainClassification::Stubbed,
{
}

} // verus!
