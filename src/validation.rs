//! Checks on a configuration before any network work begins, and the
//! configuration hash that identifies a run's settings.
use vstd::prelude::*;
use vstd::string::StringSliceAdditionalSpecFns;
use crate::config::{Config, CrawlerConfig, DomainEntry, OutputConfig, QualityEntry, UserAgentConfig};
use crate::text::{chars_of, contains, contains_char, seq_contains, seq_starts_with, starts_with};
use crate::weburl::{https, url_parse_of, ParsedUrl};

verus! {

/// Why a configuration is refused.
#[derive(Debug, Clone, PartialEq, Eq)]
pub enum ConfigError {
    /// The file could not be read.
    Io(String),
    /// The file is not valid TOML for a configuration.
    Parse(String),
    /// A value is out of range or malformed.
    Validation(String),
    /// A URL does not parse.
    InvalidUrl(String),
    /// A domain pattern is malformed.
    InvalidPattern(String),
}

/// The kind of a refusal, without its message.
#[derive(Debug, Clone, Copy, PartialEq, Eq, Structural)]
pub enum ConfigFault {
    Io,
    Parse,
    Validation,
    InvalidUrl,
    InvalidPattern,
}

/// The kind of an error.
pub open spec fn fault_of(e: ConfigError) -> ConfigFault {
    match e {
        ConfigError::Io(_) => ConfigFault::Io,
        ConfigError::Parse(_) => ConfigFault::Parse,
        ConfigError::Validation(_) => ConfigFault::Validation,
        ConfigError::InvalidUrl(_) => ConfigFault::InvalidUrl,
        ConfigError::InvalidPattern(_) => ConfigFault::InvalidPattern,
    }
}

/// The outcome of a check: `None` for success, else the kind of the first refusal.
pub open spec fn outcome(r: Result<(), ConfigError>) -> Option<ConfigFault> {
    match r {
        Ok(_) => None,
        Err(e) => Some(fault_of(e)),
    }
}

/// What `char::is_alphanumeric` says of a character.
pub uninterp spec fn alphanumeric(c: char) -> bool;

/// An ASCII letter or digit.
pub open spec fn ascii_alphanumeric(c: char) -> bool {
    ('a' <= c && c <= 'z') || ('A' <= c && c <= 'Z') || ('0' <= c && c <= '9')
}

/// Relies on `char::is_alphanumeric`: alphabetic or numeric; on ASCII
/// exactly the letters and digits.
#[verifier::external_body]
fn is_alphanumeric(c: char) -> (r: bool)
    ensures
        r == alphanumeric(c),
        c <= '\x7f' ==> (r == ascii_alphanumeric(c)),
{
    c.is_alphanumeric()
}

/// Appends `s`.
fn push_text(out: &mut String, s: &str)
    ensures
        final(out)@ == old(out)@ + s@,
{
    out.append(s);
}

/// `a` followed by `b` and `c`.
fn message(a: &str, b: &str, c: &str) -> (r: String)
    ensures
        r@ == a@ + b@ + c@,
{
    let mut r = String::from_str(a);
    push_text(&mut r, b);
    push_text(&mut r, c);
    r
}

/// A domain name: letters, digits, `.` and `-`; neither first nor last
/// character is `.` or `-`; no `..`; at least one `.`.
pub open spec fn valid_domain_string(d: Seq<char>) -> bool {
    &&& d.len() > 0
    &&& forall|i: int| 0 <= i < d.len() ==> (alphanumeric(#[trigger] d[i]) || d[i] == '.' || d[i] == '-')
    &&& d[0] != '.' && d[0] != '-'
    &&& d.last() != '.' && d.last() != '-'
    &&& !seq_contains(d, seq!['.', '.'])
    &&& d.contains('.')
}

/// A domain name, or `*.` followed by one.
pub open spec fn valid_domain_pattern(p: Seq<char>) -> bool {
    if seq_starts_with(p, seq!['*', '.']) {
        valid_domain_string(p.subrange(2, p.len() as int))
    } else {
        valid_domain_string(p)
    }
}

/// An address with exactly one `@`, text on both sides, and a `.` after it.
pub open spec fn valid_email(e: Seq<char>) -> bool {
    exists|k: int| {
        &&& 0 < k < e.len() - 1
        &&& e[k] == '@'
        &&& forall|j: int| 0 <= j < e.len() && j != k ==> e[j] != '@'
        &&& e.subrange(k + 1, e.len() as int).contains('.')
    }
}

fn domain_chars_ok(d: &Vec<char>) -> (r: bool)
    ensures
        r == forall|i: int| 0 <= i < d@.len() ==> (alphanumeric(#[trigger] d@[i]) || d@[i] == '.' || d@[i] == '-'),
{
    let mut i: usize = 0;
    while i < d.len()
        invariant
            0 <= i <= d.len(),
            forall|j: int| 0 <= j < i ==> (alphanumeric(#[trigger] d@[j]) || d@[j] == '.' || d@[j] == '-'),
        decreases d.len() - i,
    {
        let c = d[i];
        if !(is_alphanumeric(c) || c == '.' || c == '-') {
            return false;
        }
        i = i + 1;
    }
    true
}

fn check_domain_string(d: &Vec<char>) -> (r: Result<(), ConfigError>)
    ensures
        r is Ok <==> valid_domain_string(d@),
        r is Err ==> fault_of(r->Err_0) == ConfigFault::InvalidPattern,
{
    let text = crate::text::string_of(d);
    if d.len() == 0 {
        return Err(ConfigError::InvalidPattern(String::from_str("Domain cannot be empty")));
    }
    if !domain_chars_ok(d) {
        return Err(ConfigError::InvalidPattern(message("Domain '", text.as_str(), "' contains invalid characters")));
    }
    let last = d[d.len() - 1];
    if d[0] == '.' || d[0] == '-' || last == '.' || last == '-' {
        return Err(ConfigError::InvalidPattern(message("Domain '", text.as_str(), "' cannot start or end with '.' or '-'")));
    }
    let dots: Vec<char> = vec!['.', '.'];
    assert(dots@ =~= seq!['.', '.']);
    if contains(d, &dots) {
        return Err(ConfigError::InvalidPattern(message("Domain '", text.as_str(), "' cannot contain consecutive dots")));
    }
    if !contains_char(d, '.') {
        return Err(ConfigError::InvalidPattern(message("Domain '", text.as_str(), "' must contain at least one dot")));
    }
    Ok(())
}

/// Checks a domain pattern (see `valid_domain_pattern`).
pub fn validate_domain_pattern(pattern: &str) -> (r: Result<(), ConfigError>)
    ensures
        r is Ok <==> valid_domain_pattern(pattern@),
        r is Err ==> fault_of(r->Err_0) == ConfigFault::InvalidPattern,
{
    let p = chars_of(pattern);
    if p.len() == 0 {
        return Err(ConfigError::InvalidPattern(String::from_str("Domain pattern cannot be empty")));
    }
    let star: Vec<char> = vec!['*', '.'];
    assert(star@ =~= seq!['*', '.']);
    if starts_with(&p, &star) {
        let mut base: Vec<char> = Vec::new();
        let mut i: usize = 2;
        while i < p.len()
            invariant
                2 <= i <= p.len(),
                base@ == p@.subrange(2, i as int),
            decreases p.len() - i,
        {
            base.push(p[i]);
            proof { assert(p@.subrange(2, i + 1) =~= p@.subrange(2, i as int).push(p@[i as int])); }
            i = i + 1;
        }
        check_domain_string(&base)
    } else {
        check_domain_string(&p)
    }
}

/// Checks a contact address (see `valid_email`).
pub fn validate_email(email: &str) -> (r: Result<(), ConfigError>)
    ensures
        r is Ok <==> valid_email(email@),
        r is Err ==> fault_of(r->Err_0) == ConfigFault::Validation,
{
    let e = chars_of(email);
    if e.len() == 0 {
        return Err(ConfigError::Validation(String::from_str("contact_email cannot be empty")));
    }
    let mut count: usize = 0;
    let mut at: usize = 0;
    let mut i: usize = 0;
    while i < e.len()
        invariant
            0 <= i <= e.len(),
            count <= i,
            count == 0 ==> forall|j: int| 0 <= j < i ==> e@[j] != '@',
            count == 1 ==> at < i && e@[at as int] == '@' && forall|j: int| 0 <= j < i && j != at ==> e@[j] != '@',
            count >= 2 ==> exists|a: int, b: int| 0 <= a < b < i && e@[a] == '@' && e@[b] == '@',
        decreases e.len() - i,
    {
        if e[i] == '@' {
            if count == 1 {
                assert(0 <= at < i && e@[at as int] == '@' && e@[i as int] == '@');
            }
            if count == 0 {
                at = i;
            }
            if count < 2 {
                count = count + 1;
            }
        }
        i = i + 1;
    }
    let bad = message("Invalid email format: '", email, "'");
    if count != 1 || at == 0 || at == e.len() - 1 {
        proof {
            if valid_email(e@) {
                let k = choose|k: int| 0 < k < e@.len() - 1 && e@[k] == '@'
                    && (forall|j: int| 0 <= j < e@.len() && j != k ==> e@[j] != '@')
                    && e@.subrange(k + 1, e@.len() as int).contains('.');
                if count >= 2 {
                    let (a, b) = choose|a: int, b: int| 0 <= a < b < e@.len() && e@[a] == '@' && e@[b] == '@';
                    assert(a == k || b == k);
                }
                assert(count != 0);
            }
        }
        return Err(ConfigError::Validation(bad));
    }
    let mut domain: Vec<char> = Vec::new();
    let mut j: usize = at + 1;
    while j < e.len()
        invariant
            at + 1 <= j <= e.len(),
            domain@ == e@.subrange(at + 1, j as int),
        decreases e.len() - j,
    {
        domain.push(e[j]);
        proof { assert(e@.subrange(at + 1, j + 1) =~= e@.subrange(at + 1, j as int).push(e@[j as int])); }
        j = j + 1;
    }
    if !contains_char(&domain, '.') {
        proof {
            if valid_email(e@) {
                let k = choose|k: int| 0 < k < e@.len() - 1 && e@[k] == '@'
                    && (forall|j: int| 0 <= j < e@.len() && j != k ==> e@[j] != '@')
                    && e@.subrange(k + 1, e@.len() as int).contains('.');
                assert(k == at);
            }
        }
        return Err(ConfigError::Validation(message("Invalid email domain: '", email, "'")));
    }
    Ok(())
}

/// The first refusal of the crawler limits, if any.
pub open spec fn crawler_fault(c: CrawlerConfig) -> Option<ConfigFault> {
    if c.max_concurrent_pages_open < 1 || c.max_concurrent_pages_open > 100 || c.minimum_time_on_page < 100
        || c.max_domain_requests < 1 {
        Some(ConfigFault::Validation)
    } else {
        None
    }
}

/// A crawler name: non-empty, letters, digits and `-` only.
pub open spec fn valid_crawler_name(n: Seq<char>) -> bool {
    n.len() > 0 && forall|i: int| 0 <= i < n.len() ==> (alphanumeric(#[trigger] n[i]) || n[i] == '-')
}

/// The first refusal of the user-agent settings, if any.
pub open spec fn user_agent_fault(u: UserAgentConfig) -> Option<ConfigFault> {
    if !valid_crawler_name(u.crawler_name@) {
        Some(ConfigFault::Validation)
    } else if url_parse_of(u.contact_url@) is None {
        Some(ConfigFault::InvalidUrl)
    } else if !valid_email(u.contact_email@) {
        Some(ConfigFault::Validation)
    } else {
        None
    }
}

/// The first refusal of the output settings, if any.
pub open spec fn output_fault(o: OutputConfig) -> Option<ConfigFault> {
    if o.database_path@.len() == 0 || o.summary_path@.len() == 0 {
        Some(ConfigFault::Validation)
    } else {
        None
    }
}

/// The first refusal among seed URLs, if any: one that does not parse, or
/// whose scheme is not `https`.
pub open spec fn seeds_fault(seeds: Seq<String>) -> Option<ConfigFault>
    decreases seeds.len(),
{
    if seeds.len() == 0 {
        None
    } else {
        match url_parse_of(seeds[0]@) {
            None => Some(ConfigFault::InvalidUrl),
            Some(u) => if u.0 != https() {
                Some(ConfigFault::Validation)
            } else {
                seeds_fault(seeds.subrange(1, seeds.len() as int))
            },
        }
    }
}

/// The first refusal of one quality entry, if any.
pub open spec fn quality_entry_fault(q: QualityEntry) -> Option<ConfigFault> {
    if !valid_domain_pattern(q.domain@) {
        Some(ConfigFault::InvalidPattern)
    } else if q.seeds@.len() == 0 {
        Some(ConfigFault::Validation)
    } else {
        seeds_fault(q.seeds@)
    }
}

/// The first refusal among quality entries, if any.
pub open spec fn quality_fault(qs: Seq<QualityEntry>) -> Option<ConfigFault>
    decreases qs.len(),
{
    if qs.len() == 0 {
        None
    } else if quality_entry_fault(qs[0]) is Some {
        quality_entry_fault(qs[0])
    } else {
        quality_fault(qs.subrange(1, qs.len() as int))
    }
}

/// The first malformed pattern among domain entries, if any.
pub open spec fn patterns_fault(ds: Seq<DomainEntry>) -> Option<ConfigFault> {
    if forall|i: int| 0 <= i < ds.len() ==> valid_domain_pattern(#[trigger] ds[i].domain@) {
        None
    } else {
        Some(ConfigFault::InvalidPattern)
    }
}

/// The first refusal of a configuration, checked in order: crawler limits,
/// user agent, output paths, quality entries, blacklist, stub list.
pub open spec fn config_fault(c: Config) -> Option<ConfigFault> {
    if crawler_fault(c.crawler) is Some {
        crawler_fault(c.crawler)
    } else if user_agent_fault(c.user_agent) is Some {
        user_agent_fault(c.user_agent)
    } else if output_fault(c.output) is Some {
        output_fault(c.output)
    } else if quality_fault(c.quality@) is Some {
        quality_fault(c.quality@)
    } else if patterns_fault(c.blacklist@) is Some {
        patterns_fault(c.blacklist@)
    } else {
        patterns_fault(c.stub@)
    }
}

fn validate_crawler_config(config: &CrawlerConfig) -> (r: Result<(), ConfigError>)
    ensures
        outcome(r) == crawler_fault(*config),
{
    if config.max_concurrent_pages_open < 1 || config.max_concurrent_pages_open > 100 {
        return Err(ConfigError::Validation(String::from_str("max_concurrent_pages_open must be between 1 and 100")));
    }
    if config.minimum_time_on_page < 100 {
        return Err(ConfigError::Validation(String::from_str("minimum_time_on_page must be >= 100ms")));
    }
    if config.max_domain_requests < 1 {
        return Err(ConfigError::Validation(String::from_str("max_domain_requests must be >= 1")));
    }
    Ok(())
}

fn name_chars_ok(n: &Vec<char>) -> (r: bool)
    ensures
        r == forall|i: int| 0 <= i < n@.len() ==> (alphanumeric(#[trigger] n@[i]) || n@[i] == '-'),
{
    let mut i: usize = 0;
    while i < n.len()
        invariant
            0 <= i <= n.len(),
            forall|j: int| 0 <= j < i ==> (alphanumeric(#[trigger] n@[j]) || n@[j] == '-'),
        decreases n.len() - i,
    {
        if !(is_alphanumeric(n[i]) || n[i] == '-') {
            return false;
        }
        i = i + 1;
    }
    true
}

fn validate_user_agent_config(config: &UserAgentConfig) -> (r: Result<(), ConfigError>)
    ensures
        outcome(r) == user_agent_fault(*config),
{
    let name = chars_of(config.crawler_name.as_str());
    if name.len() == 0 {
        return Err(ConfigError::Validation(String::from_str("crawler_name cannot be empty")));
    }
    if !name_chars_ok(&name) {
        return Err(ConfigError::Validation(message(
            "crawler_name must contain only alphanumeric characters and hyphens, got '",
            config.crawler_name.as_str(),
            "'",
        )));
    }
    match ParsedUrl::parse(config.contact_url.as_str()) {
        Ok(_) => {},
        Err(e) => return Err(ConfigError::InvalidUrl(message("Invalid contact_url: ", e.as_str(), ""))),
    }
    validate_email(config.contact_email.as_str())
}

fn validate_output_config(config: &OutputConfig) -> (r: Result<(), ConfigError>)
    ensures
        outcome(r) == output_fault(*config),
{
    if config.database_path.as_str().unicode_len() == 0 {
        return Err(ConfigError::Validation(String::from_str("database_path cannot be empty")));
    }
    if config.summary_path.as_str().unicode_len() == 0 {
        return Err(ConfigError::Validation(String::from_str("summary_path cannot be empty")));
    }
    Ok(())
}

fn validate_seeds(seeds: &Vec<String>) -> (r: Result<(), ConfigError>)
    ensures
        outcome(r) == seeds_fault(seeds@),
{
    let mut i: usize = 0;
    assert(seeds@.subrange(0, seeds.len() as int) =~= seeds@);
    while i < seeds.len()
        invariant
            0 <= i <= seeds.len(),
            seeds_fault(seeds@) == seeds_fault(seeds@.subrange(i as int, seeds.len() as int)),
        decreases seeds.len() - i,
    {
        let ghost rest = seeds@.subrange(i as int, seeds.len() as int);
        assert(rest[0] == seeds@[i as int]);
        assert(rest.subrange(1, rest.len() as int) =~= seeds@.subrange(i + 1, seeds.len() as int));
        match ParsedUrl::parse(seeds[i].as_str()) {
            Ok(u) => {
                let scheme = chars_of(u.scheme.as_str());
                let is_https = scheme.len() == 5 && scheme[0] == 'h' && scheme[1] == 't' && scheme[2] == 't'
                    && scheme[3] == 'p' && scheme[4] == 's';
                proof {
                    if is_https {
                        assert(scheme@ =~= https());
                    }
                    if scheme@ == https() {
                        assert(scheme@[0] == 'h' && scheme@[1] == 't' && scheme@[2] == 't' && scheme@[3] == 'p' && scheme@[4] == 's');
                    }
                }
                if !is_https {
                    return Err(ConfigError::Validation(message("Seed URL '", seeds[i].as_str(), "' must use HTTPS scheme")));
                }
            },
            Err(e) => {
                return Err(ConfigError::InvalidUrl(message("Invalid seed URL: ", e.as_str(), "")));
            },
        }
        i = i + 1;
    }
    Ok(())
}

fn validate_quality_domains(domains: &Vec<QualityEntry>) -> (r: Result<(), ConfigError>)
    ensures
        outcome(r) == quality_fault(domains@),
{
    let mut i: usize = 0;
    assert(domains@.subrange(0, domains.len() as int) =~= domains@);
    while i < domains.len()
        invariant
            0 <= i <= domains.len(),
            quality_fault(domains@) == quality_fault(domains@.subrange(i as int, domains.len() as int)),
        decreases domains.len() - i,
    {
        let ghost rest = domains@.subrange(i as int, domains.len() as int);
        assert(rest[0] == domains@[i as int]);
        assert(rest.subrange(1, rest.len() as int) =~= domains@.subrange(i + 1, domains.len() as int));
        let entry = &domains[i];
        match validate_domain_pattern(entry.domain.as_str()) {
            Ok(_) => {},
            Err(e) => return Err(e),
        }
        if entry.seeds.len() == 0 {
            return Err(ConfigError::Validation(message("Quality domain '", entry.domain.as_str(), "' must have at least one seed URL")));
        }
        match validate_seeds(&entry.seeds) {
            Ok(_) => {},
            Err(e) => return Err(e),
        }
        i = i + 1;
    }
    Ok(())
}

fn validate_patterns(domains: &Vec<DomainEntry>) -> (r: Result<(), ConfigError>)
    ensures
        outcome(r) == patterns_fault(domains@),
{
    let mut i: usize = 0;
    while i < domains.len()
        invariant
            0 <= i <= domains.len(),
            forall|j: int| 0 <= j < i ==> valid_domain_pattern(#[trigger] domains@[j].domain@),
        decreases domains.len() - i,
    {
        match validate_domain_pattern(domains[i].domain.as_str()) {
            Ok(_) => {},
            Err(e) => return Err(e),
        }
        i = i + 1;
    }
    Ok(())
}

/// Checks a whole configuration; the error is the first refusal found, in
/// the order of `config_fault`.
pub fn validate(config: &Config) -> (r: Result<(), ConfigError>)
    ensures
        outcome(r) == config_fault(*config),
{
    match validate_crawler_config(&config.crawler) {
        Ok(_) => {},
        Err(e) => return Err(e),
    }
    match validate_user_agent_config(&config.user_agent) {
        Ok(_) => {},
        Err(e) => return Err(e),
    }
    match validate_output_config(&config.output) {
        Ok(_) => {},
        Err(e) => return Err(e),
    }
    match validate_quality_domains(&config.quality) {
        Ok(_) => {},
        Err(e) => return Err(e),
    }
    match validate_patterns(&config.blacklist) {
        Ok(_) => {},
        Err(e) => return Err(e),
    }
    validate_patterns(&config.stub)
}

/// The SHA-256 digest of a byte sequence.
pub uninterp spec fn sha256_of(data: Seq<u8>) -> Seq<u8>;

/// Relies on `sha2::Sha256::digest`: the 32-byte SHA-256 digest of the data.
#[verifier::external_body]
fn sha256(data: &[u8]) -> (r: Vec<u8>)
    ensures
        r@ == sha256_of(data@),
        r@.len() == 32,
{
    <sha2::Sha256 as sha2::Digest>::digest(data).to_vec()
}

/// The lower-case hexadecimal digit for `n < 16`.
pub open spec fn hex_digit(n: u8) -> char {
    if n < 10 {
        (('0' as u8) + n) as char
    } else {
        (('a' as u8) + n - 10) as char
    }
}

/// Two lower-case hexadecimal digits per byte, high digit first.
pub open spec fn hex_string(b: Seq<u8>) -> Seq<char>
    decreases b.len(),
{
    if b.len() == 0 {
        Seq::empty()
    } else {
        hex_string(b.drop_last()).push(hex_digit(b.last() / 16)).push(hex_digit(b.last() % 16))
    }
}

/// Relies on `hex::encode`: two lower-case hexadecimal digits per byte, high
/// digit first.
#[verifier::external_body]
fn hex_encode(data: &Vec<u8>) -> (r: String)
    ensures
        r@ == hex_string(data@),
{
    hex::encode(data)
}

/// The hash that identifies a configuration text: its SHA-256 digest in
/// lower-case hexadecimal.
pub fn compute_config_hash(content: &str) -> (r: String)
    ensures
        r@ == hex_string(sha256_of(content.spec_bytes())),
        r@.len() == 64,
{
    let digest = sha256(content.as_bytes());
    proof { lemma_hex_length(digest@); }
    hex_encode(&digest)
}

/// A hex string of `n` bytes has `2 n` digits.
pub proof fn lemma_hex_length(b: Seq<u8>)
    ensures
        hex_string(b).len() == 2 * b.len(),
    decreases b.len(),
{
    if b.len() > 0 {
        lemma_hex_length(b.drop_last());
    }
}

/// A configuration, checked, with the hash of the text it was read from.
pub fn load_config_with_hash(config: Config, content: &str) -> (r: Result<(Config, String), ConfigError>)
    ensures
        config_fault(config) is Some ==> r is Err && fault_of(r->Err_0) == config_fault(config)->0,
        config_fault(config) is None ==> r is Ok && r->Ok_0.0 == config
            && r->Ok_0.1@ == hex_string(sha256_of(content.spec_bytes())),
{
    match validate(&config) {
        Ok(_) => {},
        Err(e) => return Err(e),
    }
    let hash = compute_config_hash(content);
    Ok((config, hash))
}

} // verus!
