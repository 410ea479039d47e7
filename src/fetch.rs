//! The fetcher's decisions: the redirect chain, the retry policy, and what
//! each HTTP answer means for a page. The caller performs the requests and
//! hands each answer to these functions.
use vstd::prelude::*;
use crate::page_state::PageState;
use crate::text::{chars_of, contains, seq_contains, seq_starts_with, starts_with, str_eq};

verus! {

/// The outcome of fetching one URL.
#[derive(Debug, Clone)]
pub enum FetchResult {
    /// The page was fetched.
    Success { final_url: String, status_code: u16, content_type: String, body: String, title: Option<String> },
    /// The content is not HTML.
    ContentMismatch { content_type: String },
    /// A redirect led to a blacklisted or stubbed URL.
    RedirectToTerminal { terminal_url: String, reason: String },
    /// The server answered with an error status.
    HttpError { status_code: u16, state: PageState },
    /// The request failed in transport.
    NetworkError { error: String, state: PageState },
    /// The redirects looped or were too many, or a target was unusable.
    RedirectError { error: String },
}

/// The URLs visited while following one fetch's redirects.
#[derive(Debug)]
pub struct RedirectChain {
    pub max_redirects: u32,
    pub visited: Vec<String>,
}

impl RedirectChain {
    /// The URLs visited so far, each once.
    pub open spec fn spec_visited(&self) -> Seq<Seq<char>> {
        self.visited@.map_values(|s: String| s@)
    }

    /// No URL is recorded twice.
    pub open spec fn wf(&self) -> bool {
        forall|i: int, j: int| 0 <= i < j < self.spec_visited().len() ==> self.spec_visited()[i] != self.spec_visited()[j]
    }

    /// An empty chain allowing 10 redirects.
    pub fn new() -> (r: RedirectChain)
        ensures
            r.wf(),
            r.max_redirects == 10,
            r.spec_visited().len() == 0,
    {
        let r = RedirectChain { max_redirects: 10, visited: Vec::new() };
        assert(r.spec_visited() =~= Seq::<Seq<char>>::empty());
        r
    }

    /// Whether `url` was visited.
    pub fn has_visited(&self, url: &str) -> (r: bool)
        ensures
            r == self.spec_visited().contains(url@),
    {
        let mut i: usize = 0;
        while i < self.visited.len()
            invariant
                0 <= i <= self.visited.len(),
                forall|j: int| 0 <= j < i ==> #[trigger] self.spec_visited()[j] != url@,
            decreases self.visited.len() - i,
        {
            if str_eq(self.visited[i].as_str(), url) {
                assert(self.spec_visited()[i as int] == url@);
                return true;
            }
            i = i + 1;
        }
        false
    }

    /// Records `url`; false if it was already visited (a loop).
    pub fn add_url(&mut self, url: &str) -> (r: bool)
        requires
            old(self).wf(),
        ensures
            final(self).wf(),
            final(self).max_redirects == old(self).max_redirects,
            r == !old(self).spec_visited().contains(url@),
            r ==> final(self).spec_visited() == old(self).spec_visited().push(url@),
            !r ==> final(self).spec_visited() == old(self).spec_visited(),
    {
        if self.has_visited(url) {
            return false;
        }
        let ghost v0 = self.spec_visited();
        self.visited.push(String::from_str(url));
        assert(self.spec_visited() =~= v0.push(url@));
        true
    }

    /// Whether more URLs were visited than redirects allowed.
    pub fn is_too_long(&self) -> (r: bool)
        ensures
            r == (self.spec_visited().len() > self.max_redirects),
    {
        self.visited.len() as u64 > self.max_redirects as u64
    }
}

/// How often and how long to retry.
#[derive(Debug, Clone, Copy, PartialEq, Eq, Structural)]
pub struct RetryPolicy {
    pub max_retries: u32,
    /// The first wait, in milliseconds; each further wait doubles.
    pub base_delay_ms: u64,
}

/// Two to the power `n`.
pub open spec fn pow2(n: nat) -> nat
    decreases n,
{
    if n == 0 { 1 } else { 2 * pow2((n - 1) as nat) }
}

impl Default for RetryPolicy {
    /// Three retries, 5 s base delay.
    fn default() -> (r: RetryPolicy)
        ensures
            r.max_retries == 3,
            r.base_delay_ms == 5000,
    {
        RetryPolicy { max_retries: 3, base_delay_ms: 5000 }
    }
}

impl RetryPolicy {
    /// The wait before retry number `attempt + 1`: `base * 2^attempt` ms.
    pub fn delay_for_attempt(&self, attempt: u32) -> (r: u64)
        requires
            self.base_delay_ms * pow2(attempt as nat) <= u64::MAX,
        ensures
            r == self.base_delay_ms * pow2(attempt as nat),
    {
        let mut r: u64 = self.base_delay_ms;
        let mut i: u32 = 0;
        assert(pow2(0) == 1);
        assert(self.base_delay_ms * pow2(0) == self.base_delay_ms);
        while i < attempt
            invariant
                0 <= i <= attempt,
                r == self.base_delay_ms * pow2(i as nat),
                self.base_delay_ms * pow2(attempt as nat) <= u64::MAX,
            decreases attempt - i,
        {
            proof {
                lemma_pow2_mono((i + 1) as nat, attempt as nat);
                assert(self.base_delay_ms * pow2((i + 1) as nat) == 2 * (self.base_delay_ms * pow2(i as nat))) by (nonlinear_arith)
                    requires pow2((i + 1) as nat) == 2 * pow2(i as nat);
                assert(self.base_delay_ms * pow2((i + 1) as nat) <= self.base_delay_ms * pow2(attempt as nat)) by (nonlinear_arith)
                    requires pow2((i + 1) as nat) <= pow2(attempt as nat);
            }
            r = r * 2;
            i = i + 1;
        }
        r
    }

    /// Whether a failure is worth retrying: a timeout, a refused connection,
    /// or a 5xx status.
    pub fn is_retryable(status: Option<u16>, is_timeout: bool, is_connect: bool) -> (r: bool)
        ensures
            r == (is_timeout || is_connect || (status is Some && 500 <= status->0 <= 599)),
    {
        if is_timeout || is_connect {
            return true;
        }
        match status {
            Some(s) => 500 <= s && s <= 599,
            None => false,
        }
    }
}

proof fn lemma_pow2_mono(a: nat, b: nat)
    requires
        a <= b,
    ensures
        pow2(a) <= pow2(b),
    decreases b,
{
    if a < b {
        lemma_pow2_mono(a, (b - 1) as nat);
    }
}

/// The page state for an error status: 404 dead link, 429 rate limited,
/// anything else failed.
pub open spec fn spec_status_state(status: u16) -> PageState {
    if status == 404 {
        PageState::DeadLink
    } else if status == 429 {
        PageState::RateLimited
    } else {
        PageState::Failed
    }
}

/// The page state for an error status (see `spec_status_state`).
pub fn status_state(status: u16) -> (r: PageState)
    ensures
        r == spec_status_state(status),
{
    if status == 404 {
        PageState::DeadLink
    } else if status == 429 {
        PageState::RateLimited
    } else {
        PageState::Failed
    }
}

/// The text `text/html`.
pub open spec fn text_html() -> Seq<char> {
    seq!['t', 'e', 'x', 't', '/', 'h', 't', 'm', 'l']
}

/// A content type that rules the page out: present, and not HTML.
pub open spec fn spec_is_mismatch(content_type: Seq<char>) -> bool {
    content_type.len() > 0 && !seq_contains(content_type, text_html())
}

/// Whether a content type rules the page out (see `spec_is_mismatch`).
pub fn is_content_mismatch(content_type: &str) -> (r: bool)
    ensures
        r == spec_is_mismatch(content_type@),
{
    let ct = chars_of(content_type);
    let html: Vec<char> = vec!['t', 'e', 'x', 't', '/', 'h', 't', 'm', 'l'];
    assert(html@ =~= text_html());
    ct.len() > 0 && !contains(&ct, &html)
}

/// The result of joining a reference to a base URL with the `url` crate,
/// serialized; `None` where either does not parse.
pub uninterp spec fn url_join_of(base: Seq<char>, reference: Seq<char>) -> Option<Seq<char>>;

/// Relies on `url::Url::parse` and `url::Url::join`: the reference resolved
/// against the base, serialized.
#[verifier::external_body]
pub(crate) fn join_url(base: &str, reference: &str) -> (r: Option<String>)
    ensures
        match r {
            Some(s) => url_join_of(base@, reference@) == Some(s@),
            None => url_join_of(base@, reference@) is None,
        },
{
    let b = ::url::Url::parse(base).ok()?;
    b.join(reference).ok().map(|u| u.to_string())
}

/// The prefix `http://`.
pub open spec fn http_prefix() -> Seq<char> {
    seq!['h', 't', 't', 'p', ':', '/', '/']
}

/// The prefix `https://`.
pub open spec fn https_prefix() -> Seq<char> {
    seq!['h', 't', 't', 'p', 's', ':', '/', '/']
}

/// Where a redirect leads: an absolute `http(s)://` location as it stands,
/// else the location joined to the current URL.
pub open spec fn spec_redirect_target(current: Seq<char>, location: Seq<char>) -> Option<Seq<char>> {
    if seq_starts_with(location, http_prefix()) || seq_starts_with(location, https_prefix()) {
        Some(location)
    } else {
        url_join_of(current, location)
    }
}

/// What to do with an answer.
#[derive(Debug, Clone)]
pub enum FetchStep {
    /// Follow a redirect to this URL.
    Follow(String),
    /// The fetch ends with this result.
    Finish(FetchResult),
    /// The HEAD answer allows the GET.
    SendGet,
    /// The GET answer is a page: read its body.
    ReadBody,
}

fn redirect_step(current: &str, location: Option<&str>) -> (r: FetchStep)
    ensures
        match location {
            None => r is Finish && r->Finish_0 is RedirectError,
            Some(l) => match spec_redirect_target(current@, l@) {
                Some(t) => r is Follow && r->Follow_0@ == t,
                None => r is Finish && r->Finish_0 is RedirectError,
            },
        },
{
    match location {
        None => FetchStep::Finish(FetchResult::RedirectError {
            error: String::from_str("Redirect response without Location header"),
        }),
        Some(l) => {
            let lc = chars_of(l);
            let plain_prefix: Vec<char> = vec!['h', 't', 't', 'p', ':', '/', '/'];
            let secure_prefix: Vec<char> = vec!['h', 't', 't', 'p', 's', ':', '/', '/'];
            assert(plain_prefix@ =~= http_prefix());
            assert(secure_prefix@ =~= https_prefix());
            if starts_with(&lc, &plain_prefix) || starts_with(&lc, &secure_prefix) {
                FetchStep::Follow(String::from_str(l))
            } else {
                match join_url(current, l) {
                    Some(t) => FetchStep::Follow(t),
                    None => FetchStep::Finish(FetchResult::RedirectError {
                        error: String::from_str("Invalid redirect URL"),
                    }),
                }
            }
        },
    }
}

/// The decision on a HEAD answer for `current`: a 3xx is followed, a 4xx
/// ends the fetch with the mapped state, a 2xx whose content type is not
/// HTML ends it as a mismatch; otherwise the GET is sent.
pub fn head_step(current: &str, status: u16, location: Option<&str>, content_type: Option<&str>) -> (r: FetchStep)
    ensures
        300 <= status <= 399 ==> match location {
            None => r is Finish && r->Finish_0 is RedirectError,
            Some(l) => match spec_redirect_target(current@, l@) {
                Some(t) => r is Follow && r->Follow_0@ == t,
                None => r is Finish && r->Finish_0 is RedirectError,
            },
        },
        400 <= status <= 499 ==> r == FetchStep::Finish((FetchResult::HttpError { status_code: status, state: spec_status_state(status) })),
        200 <= status <= 299 && content_type is Some && spec_is_mismatch(content_type->0@)
            ==> r is Finish && r->Finish_0 is ContentMismatch && r->Finish_0->ContentMismatch_content_type@ == content_type->0@,
        !(300 <= status <= 499) && !(200 <= status <= 299 && content_type is Some && spec_is_mismatch(content_type->0@))
            ==> r is SendGet,
{
    if 300 <= status && status <= 399 {
        return redirect_step(current, location);
    }
    if 400 <= status && status <= 499 {
        return FetchStep::Finish(FetchResult::HttpError { status_code: status, state: status_state(status) });
    }
    if 200 <= status && status <= 299 {
        match content_type {
            Some(ct) => {
                if is_content_mismatch(ct) {
                    return FetchStep::Finish(FetchResult::ContentMismatch { content_type: String::from_str(ct) });
                }
            },
            None => {},
        }
    }
    FetchStep::SendGet
}

/// The decision on a GET answer for `current`: a 3xx is followed, any other
/// non-2xx ends the fetch with the mapped state, a 2xx whose content type is
/// not HTML ends it as a mismatch; otherwise the body is read.
pub fn get_step(current: &str, status: u16, location: Option<&str>, content_type: Option<&str>) -> (r: FetchStep)
    ensures
        300 <= status <= 399 ==> match location {
            None => r is Finish && r->Finish_0 is RedirectError,
            Some(l) => match spec_redirect_target(current@, l@) {
                Some(t) => r is Follow && r->Follow_0@ == t,
                None => r is Finish && r->Finish_0 is RedirectError,
            },
        },
        !(200 <= status <= 399) ==> r == FetchStep::Finish((FetchResult::HttpError { status_code: status, state: spec_status_state(status) })),
        200 <= status <= 299 && content_type is Some && spec_is_mismatch(content_type->0@)
            ==> r is Finish && r->Finish_0 is ContentMismatch && r->Finish_0->ContentMismatch_content_type@ == content_type->0@,
        200 <= status <= 299 && !(content_type is Some && spec_is_mismatch(content_type->0@)) ==> r is ReadBody,
{
    if 300 <= status && status <= 399 {
        return redirect_step(current, location);
    }
    if !(200 <= status && status <= 299) {
        return FetchStep::Finish(FetchResult::HttpError { status_code: status, state: status_state(status) });
    }
    match content_type {
        Some(ct) => {
            if is_content_mismatch(ct) {
                return FetchStep::Finish(FetchResult::ContentMismatch { content_type: String::from_str(ct) });
            }
        },
        None => {},
    }
    FetchStep::ReadBody
}

/// Records `url` in the chain before it is requested; the error that ends
/// the fetch if it closes a loop or makes the chain too long.
pub fn enter_redirect(chain: &mut RedirectChain, url: &str) -> (r: Option<FetchResult>)
    requires
        old(chain).wf(),
    ensures
        final(chain).wf(),
        old(chain).spec_visited().contains(url@) ==> r is Some && r->0 is RedirectError,
        !old(chain).spec_visited().contains(url@) ==> final(chain).spec_visited() == old(chain).spec_visited().push(url@)
            && (r is Some <==> old(chain).spec_visited().len() + 1 > old(chain).max_redirects)
            && (r is Some ==> r->0 is RedirectError),
{
    if !chain.add_url(url) {
        return Some(FetchResult::RedirectError { error: String::from_str("Redirect loop detected") });
    }
    if chain.is_too_long() {
        return Some(FetchResult::RedirectError { error: String::from_str("Too many redirects") });
    }
    None
}

/// The result for a transport failure: timeouts and refused connections
/// leave the page unreachable, an error carrying a status maps as that
/// status, anything else fails it.
pub fn network_failure(is_timeout: bool, is_connect: bool, status: Option<u16>, message: String) -> (r: FetchResult)
    ensures
        is_timeout || is_connect ==> r is NetworkError && r->NetworkError_state == PageState::Unreachable,
        !(is_timeout || is_connect) && status is Some ==> r == (FetchResult::HttpError { status_code: status->0, state: spec_status_state(status->0) }),
        !(is_timeout || is_connect) && status is None ==> r is NetworkError && r->NetworkError_state == PageState::Failed,
{
    if is_timeout {
        FetchResult::NetworkError { error: String::from_str("Request timeout"), state: PageState::Unreachable }
    } else if is_connect {
        FetchResult::NetworkError { error: String::from_str("Connection refused"), state: PageState::Unreachable }
    } else {
        match status {
            Some(s) => FetchResult::HttpError { status_code: s, state: status_state(s) },
            None => FetchResult::NetworkError { error: message, state: PageState::Failed },
        }
    }
}

/// An HTTP error with a 5xx status, or a timeout or refused connection
/// (the transport failures that leave a page unreachable).
pub open spec fn retryable_result(result: FetchResult) -> bool {
    match result {
        FetchResult::HttpError { status_code, .. } => 500 <= status_code <= 599,
        FetchResult::NetworkError { state, .. } => state == PageState::Unreachable,
        _ => false,
    }
}

/// Whether to try again after `result` at attempt `attempt` (counted from 0):
/// an HTTP error with a 5xx status, a timeout or a refused connection, while
/// attempts remain.
pub fn should_retry(result: &FetchResult, attempt: u32, policy: &RetryPolicy) -> (r: bool)
    ensures
        r == (attempt < policy.max_retries && retryable_result(*result)),
{
    if attempt >= policy.max_retries {
        return false;
    }
    match result {
        FetchResult::HttpError { status_code, .. } => RetryPolicy::is_retryable(Some(*status_code), false, false),
        FetchResult::NetworkError { state, .. } => *state == PageState::Unreachable,
        _ => false,
    }
}

/// The user-agent header: `Name/Version (+ContactURL; ContactEmail)`.
pub open spec fn spec_user_agent(name: Seq<char>, version: Seq<char>, url: Seq<char>, email: Seq<char>) -> Seq<char> {
    name + seq!['/'] + version + seq![' ', '(', '+'] + url + seq![';', ' '] + email + seq![')']
}

/// The user-agent header for a configuration (see `spec_user_agent`).
pub fn user_agent_string(config: &crate::config::UserAgentConfig) -> (r: String)
    ensures
        r@ == spec_user_agent(config.crawler_name@, config.crawler_version@, config.contact_url@, config.contact_email@),
{
    let mut r = String::from_str(config.crawler_name.as_str());
    crate::text::push_char(&mut r, '/');
    r.append(config.crawler_version.as_str());
    crate::text::push_char(&mut r, ' ');
    crate::text::push_char(&mut r, '(');
    crate::text::push_char(&mut r, '+');
    r.append(config.contact_url.as_str());
    crate::text::push_char(&mut r, ';');
    crate::text::push_char(&mut r, ' ');
    r.append(config.contact_email.as_str());
    crate::text::push_char(&mut r, ')');
    assert(r@ =~= spec_user_agent(config.crawler_name@, config.crawler_version@, config.contact_url@, config.contact_email@));
    r
}

} // verus!
