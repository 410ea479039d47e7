//! Parsed URLs as plain values, and their canonical form.
use vstd::prelude::*;
use crate::path::{lemma_normalize_path_idempotent, normalize_path, spec_normalize_path};
use crate::query::{lemma_normalize_query_idempotent, normalize_query, opt_chars, spec_normalize_query};
use crate::text::{ascii_lower, chars_of, push_char, seq_starts_with, string_of, string_of_range, to_ascii_lower};

verus! {

/// The parts of a URL that the crawler reads, as the `url` crate parses
/// them: the scheme, the host, an explicit non-default port, the path, the
/// query (without `?`) and the fragment (without `#`).
#[derive(Debug, Clone)]
pub struct ParsedUrl {
    pub scheme: String,
    pub host: Option<String>,
    pub port: Option<u16>,
    pub path: String,
    pub query: Option<String>,
    pub fragment: Option<String>,
}

/// The value of a URL: scheme, host, port, path, query, fragment.
pub type UrlValue = (Seq<char>, Option<Seq<char>>, Option<u16>, Seq<char>, Option<Seq<char>>, Option<Seq<char>>);

/// The characters of an optional string.
pub open spec fn opt_view(o: Option<String>) -> Option<Seq<char>> {
    match o {
        Some(s) => Some(s@),
        None => None,
    }
}

impl View for ParsedUrl {
    type V = (Seq<char>, Option<Seq<char>>, Option<u16>, Seq<char>, Option<Seq<char>>, Option<Seq<char>>);

    open spec fn view(&self) -> Self::V {
        (self.scheme@, opt_view(self.host), self.port, self.path@, opt_view(self.query), opt_view(self.fragment))
    }
}

/// What `url::Url::parse` makes of a text, read back through its accessors
/// (`scheme`, `host_str`, `port`, `path`, `query`, `fragment`); `None` where
/// it refuses the text.
pub uninterp spec fn url_parse_of(s: Seq<char>) -> Option<(Seq<char>, Option<Seq<char>>, Option<u16>, Seq<char>, Option<Seq<char>>, Option<Seq<char>>)>;

/// Relies on `url::Url::parse` and the accessors of `url::Url`: the parts of
/// the parsed URL, or the parser's message.
#[verifier::external_body]
fn parse_parts(s: &str) -> (r: Result<ParsedUrl, String>)
    ensures
        match r {
            Ok(u) => url_parse_of(s@) == Some(u@),
            Err(_) => url_parse_of(s@) is None,
        },
{
    let u = ::url::Url::parse(s).map_err(|e| e.to_string())?;
    Ok(ParsedUrl {
        scheme: u.scheme().to_string(),
        host: u.host_str().map(|h| h.to_string()),
        port: u.port(),
        path: u.path().to_string(),
        query: u.query().map(|q| q.to_string()),
        fragment: u.fragment().map(|f| f.to_string()),
    })
}

/// The decimal digits of `n`.
pub open spec fn decimal(n: nat) -> Seq<char>
    decreases n,
{
    if n < 10 {
        seq![digit_char(n)]
    } else {
        decimal(n / 10).push(digit_char(n % 10))
    }
}

/// The digit character for `d < 10`.
pub open spec fn digit_char(d: nat) -> char {
    if d == 0 { '0' } else if d == 1 { '1' } else if d == 2 { '2' } else if d == 3 { '3' }
    else if d == 4 { '4' } else if d == 5 { '5' } else if d == 6 { '6' } else if d == 7 { '7' }
    else if d == 8 { '8' } else { '9' }
}

fn digit(d: u64) -> (c: char)
    requires
        d < 10,
    ensures
        c == digit_char(d as nat),
{
    if d == 0 { '0' } else if d == 1 { '1' } else if d == 2 { '2' } else if d == 3 { '3' }
    else if d == 4 { '4' } else if d == 5 { '5' } else if d == 6 { '6' } else if d == 7 { '7' }
    else if d == 8 { '8' } else { '9' }
}

/// Appends the decimal digits of `n`.
pub fn push_decimal(out: &mut String, n: u64)
    ensures
        final(out)@ == old(out)@ + decimal(n as nat),
    decreases n,
{
    if n < 10 {
        push_char(out, digit(n));
        assert(old(out)@ + decimal(n as nat) =~= old(out)@.push(digit_char(n as nat)));
    } else {
        push_decimal(out, n / 10);
        push_char(out, digit(n % 10));
        assert(old(out)@ + decimal(n as nat) =~= (old(out)@ + decimal((n / 10) as nat)).push(digit_char((n % 10) as nat)));
    }
}

fn push_str(out: &mut String, s: &str)
    ensures
        final(out)@ == old(out)@ + s@,
{
    out.append(s);
}

/// The text of a URL value: `scheme:`, then `//host[:port]` where there is a
/// host, the path, `?query`, `#fragment`.
pub open spec fn spec_serialize(u: UrlValue) -> Seq<char> {
    let authority = match u.1 {
        Some(h) => seq!['/', '/'] + h + match u.2 {
            Some(p) => seq![':'] + decimal(p as nat),
            None => Seq::empty(),
        },
        None => Seq::empty(),
    };
    let query = match u.4 {
        Some(q) => seq!['?'] + q,
        None => Seq::empty(),
    };
    let fragment = match u.5 {
        Some(f) => seq!['#'] + f,
        None => Seq::empty(),
    };
    u.0 + seq![':'] + authority + u.3 + query + fragment
}

impl ParsedUrl {
    /// Parses `s` with the `url` crate; the error carries the parser's message.
    pub fn parse(s: &str) -> (r: Result<ParsedUrl, String>)
        ensures
            match r {
                Ok(u) => url_parse_of(s@) == Some(u@),
                Err(_) => url_parse_of(s@) is None,
            },
    {
        parse_parts(s)
    }

    /// The URL as text (see `spec_serialize`).
    pub fn as_str(&self) -> (r: String)
        ensures
            r@ == spec_serialize(self@),
    {
        let mut out = String::new();
        push_str(&mut out, self.scheme.as_str());
        push_char(&mut out, ':');
        let ghost a = out@;
        match &self.host {
            Some(h) => {
                push_char(&mut out, '/');
                push_char(&mut out, '/');
                push_str(&mut out, h.as_str());
                match self.port {
                    Some(p) => {
                        push_char(&mut out, ':');
                        push_decimal(&mut out, p as u64);
                    },
                    None => {},
                }
            },
            None => {},
        }
        let ghost b = out@;
        push_str(&mut out, self.path.as_str());
        match &self.query {
            Some(q) => {
                push_char(&mut out, '?');
                push_str(&mut out, q.as_str());
            },
            None => {},
        }
        match &self.fragment {
            Some(f) => {
                push_char(&mut out, '#');
                push_str(&mut out, f.as_str());
            },
            None => {},
        }
        assert(out@ =~= spec_serialize(self@));
        out
    }
}

/// The host of a URL in lower case, if it has one.
///
/// Hosts that the `url` crate yields are ASCII (internationalized names
/// arrive in their ASCII form), so lower-casing them is ASCII lower-casing.
pub fn extract_domain(url: &ParsedUrl) -> (r: Option<String>)
    ensures
        match url.host {
            Some(h) => r is Some && r->0@ == ascii_lower(h@),
            None => r is None,
        },
{
    match &url.host {
        Some(h) => {
            let lower = to_ascii_lower(&chars_of(h.as_str()));
            Some(string_of(&lower))
        },
        None => None,
    }
}

/// Why a URL has no canonical form.
#[derive(Debug, Clone, PartialEq, Eq)]
pub enum UrlError {
    /// The parser refused the text; its message.
    Parse(String),
    /// The scheme is neither `http` nor `https`; the scheme.
    InvalidScheme(String),
    /// The URL has no host.
    MissingDomain,
    /// The host is empty once canonical.
    Malformed(String),
}

/// The scheme `http`.
pub open spec fn http() -> Seq<char> {
    seq!['h', 't', 't', 'p']
}

/// The scheme `https`.
pub open spec fn https() -> Seq<char> {
    seq!['h', 't', 't', 'p', 's']
}

/// The host prefix `www.`.
pub open spec fn www_dot() -> Seq<char> {
    seq!['w', 'w', 'w', '.']
}

/// The host without one leading `www.`.
pub open spec fn strip_www(h: Seq<char>) -> Seq<char> {
    if seq_starts_with(h, www_dot()) {
        h.subrange(4, h.len() as int)
    } else {
        h
    }
}

/// The host in lower case, without a leading `www.`.
pub open spec fn canonical_host(h: Seq<char>) -> Seq<char> {
    strip_www(ascii_lower(h))
}

/// The canonical URL value: canonical host, canonical path, canonical query
/// (none where no parameter survives), no fragment; scheme and port kept.
pub open spec fn spec_normalize_value(u: UrlValue) -> UrlValue {
    (
        u.0,
        match u.1 {
            Some(h) => Some(canonical_host(h)),
            None => None,
        },
        u.2,
        spec_normalize_path(u.3),
        match u.4 {
            Some(q) => spec_normalize_query(q),
            None => None,
        },
        None,
    )
}

/// What `normalize_url` makes of a parsed value: the error, or the canonical value.
pub open spec fn spec_normalize_outcome(u: UrlValue) -> Result<UrlValue, ()> {
    if !(u.0 == http() || u.0 == https()) {
        Err(())
    } else {
        match u.1 {
            None => Err(()),
            Some(h) => if canonical_host(h).len() == 0 {
                Err(())
            } else {
                Ok(spec_normalize_value(u))
            },
        }
    }
}

fn is_scheme(s: &Vec<char>, secure: bool) -> (r: bool)
    ensures
        r == (s@ == if secure { https() } else { http() }),
{
    let n: usize = if secure { 5 } else { 4 };
    let r = s.len() == n && s[0] == 'h' && s[1] == 't' && s[2] == 't' && s[3] == 'p'
        && (!secure || s[4] == 's');
    proof {
        let t = if secure { https() } else { http() };
        if r {
            assert(s@ =~= t);
        }
        if s@ == t {
            assert(s@[0] == 'h' && s@[1] == 't' && s@[2] == 't' && s@[3] == 'p');
            if secure {
                assert(s@[4] == 's');
            }
        }
    }
    r
}

/// The canonical host: ASCII lower case, one leading `www.` removed.
pub fn normalize_host(host: &str) -> (r: String)
    ensures
        r@ == canonical_host(host@),
{
    let lower = to_ascii_lower(&chars_of(host));
    let www = lower.len() >= 4 && lower[0] == 'w' && lower[1] == 'w' && lower[2] == 'w' && lower[3] == '.';
    proof {
        if www {
            assert(lower@.subrange(0, 4) =~= www_dot());
        }
        if seq_starts_with(lower@, www_dot()) {
            assert(lower@.subrange(0, 4)[0] == 'w');
            assert(lower@.subrange(0, 4)[1] == 'w');
            assert(lower@.subrange(0, 4)[2] == 'w');
            assert(lower@.subrange(0, 4)[3] == '.');
        }
    }
    if www {
        string_of_range(&lower, 4, lower.len())
    } else {
        string_of(&lower)
    }
}

/// The canonical form of a URL: the text is parsed, only `http` and `https`
/// are accepted, the host is lower-cased and loses a leading `www.`, the
/// path is resolved, the fragment dropped, tracking query parameters
/// removed and the rest sorted by key.
pub fn normalize_url(url_str: &str) -> (r: Result<ParsedUrl, UrlError>)
    ensures
        match url_parse_of(url_str@) {
            None => r is Err && r->Err_0 is Parse,
            Some(u) => {
                &&& !(u.0 == http() || u.0 == https()) ==> r is Err && r->Err_0 is InvalidScheme
                &&& (u.0 == http() || u.0 == https()) && u.1 is None ==> r is Err && r->Err_0 is MissingDomain
                &&& (u.0 == http() || u.0 == https()) && u.1 is Some && canonical_host(u.1->0).len() == 0
                    ==> r is Err && r->Err_0 is Malformed
                &&& spec_normalize_outcome(u) is Ok ==> r is Ok && r->Ok_0@ == spec_normalize_outcome(u)->Ok_0
            },
        },
{
    let parsed = match ParsedUrl::parse(url_str) {
        Ok(u) => u,
        Err(msg) => return Err(UrlError::Parse(msg)),
    };
    let scheme = chars_of(parsed.scheme.as_str());
    if !is_scheme(&scheme, false) && !is_scheme(&scheme, true) {
        return Err(UrlError::InvalidScheme(parsed.scheme));
    }
    let host = match &parsed.host {
        Some(h) => normalize_host(h.as_str()),
        None => return Err(UrlError::MissingDomain),
    };
    if host.as_str().unicode_len() == 0 {
        return Err(UrlError::Malformed(host));
    }
    let path = normalize_path(parsed.path.as_str());
    let query = match &parsed.query {
        Some(q) => normalize_query(q.as_str()),
        None => None,
    };
    let r = ParsedUrl {
        scheme: parsed.scheme,
        host: Some(host),
        port: parsed.port,
        path,
        query,
        fragment: None,
    };
    proof {
        assert(opt_view(r.query) == opt_chars(r.query));
    }
    Ok(r)
}

/// The canonical host, canonicalized again, is unchanged unless it still
/// begins with `www.` (as `www.www.example.com` does).
pub proof fn lemma_canonical_host_idempotent(h: Seq<char>)
    requires
        !seq_starts_with(canonical_host(h), www_dot()),
    ensures
        canonical_host(canonical_host(h)) == canonical_host(h),
{
    let l = ascii_lower(h);
    let c = canonical_host(h);
    assert(ascii_lower(c) =~= c) by {
        assert forall|i: int| 0 <= i < c.len() implies ascii_lower(c)[i] == c[i] by {
            if seq_starts_with(l, www_dot()) {
                assert(c[i] == l[i + 4]);
            } else {
                assert(c[i] == l[i]);
            }
        }
    }
}

/// Normalization is idempotent on URL values: normalizing a URL value
/// that normalization produced gives it back, provided its host does not
/// still begin with `www.` (a host such as `www.www.example.com` loses one
/// `www.` per pass). This speaks of the parsed value; that re-parsing the
/// serialized text yields the same value is the `url` crate's matter.
pub proof fn lemma_normalize_idempotent(u: UrlValue)
    requires
        spec_normalize_outcome(u) is Ok,
        !seq_starts_with(canonical_host(u.1->0), www_dot()),
    ensures
        spec_normalize_outcome(spec_normalize_outcome(u)->Ok_0) == spec_normalize_outcome(u),
{
    let v = spec_normalize_value(u);
    lemma_canonical_host_idempotent(u.1->0);
    lemma_normalize_path_idempotent(u.3);
    match u.4 {
        Some(q) => lemma_normalize_query_idempotent(q),
        None => {},
    }
    assert(spec_normalize_value(v) == v);
}

} // verus!
