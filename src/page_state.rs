//! The lifecycle states of a crawled page.
use vstd::prelude::*;
use crate::text::str_eq;

verus! {

/// The state of one page in the crawl.
#[derive(Debug, Clone, Copy, PartialEq, Eq, Hash, Structural)]
pub enum PageState {
    /// Known, not yet queued.
    Discovered,
    /// Waiting in the frontier.
    Queued,
    /// Being fetched.
    Fetching,
    /// Fetched and parsed.
    Processed,
    /// On a blacklisted domain: the referrer is recorded, the page is skipped.
    Blacklisted,
    /// On a stubbed domain: noted, never visited.
    Stubbed,
    /// The server answered 404.
    DeadLink,
    /// The host could not be reached.
    Unreachable,
    /// The server answered 429, or the domain is rate limited.
    RateLimited,
    /// Any other failure.
    Failed,
    /// Deeper than the configured maximum depth.
    DepthExceeded,
    /// The domain's request budget is spent.
    RequestLimitHit,
    /// The content type is not HTML.
    ContentMismatch,
}

/// Discovered, Queued and Fetching.
pub open spec fn spec_is_active(s: PageState) -> bool {
    s is Discovered || s is Queued || s is Fetching
}

/// Blacklisted and Stubbed.
pub open spec fn spec_is_skipped(s: PageState) -> bool {
    s is Blacklisted || s is Stubbed
}

/// The terminal error states.
pub open spec fn spec_is_error(s: PageState) -> bool {
    s is DeadLink || s is Unreachable || s is RateLimited || s is Failed
        || s is DepthExceeded || s is RequestLimitHit || s is ContentMismatch
}

/// The text under which a state is stored.
pub open spec fn spec_db_string(s: PageState) -> Seq<char> {
    match s {
        PageState::Discovered => "discovered"@,
        PageState::Queued => "queued"@,
        PageState::Fetching => "fetching"@,
        PageState::Processed => "processed"@,
        PageState::Blacklisted => "blacklisted"@,
        PageState::Stubbed => "stubbed"@,
        PageState::DeadLink => "dead_link"@,
        PageState::Unreachable => "unreachable"@,
        PageState::RateLimited => "rate_limited"@,
        PageState::Failed => "failed"@,
        PageState::DepthExceeded => "depth_exceeded"@,
        PageState::RequestLimitHit => "request_limit_hit"@,
        PageState::ContentMismatch => "content_mismatch"@,
    }
}

/// The state stored under a text, if any.
pub open spec fn spec_from_db_string(t: Seq<char>) -> Option<PageState> {
    if t == "discovered"@ {
        Some(PageState::Discovered)
    } else if t == "queued"@ {
        Some(PageState::Queued)
    } else if t == "fetching"@ {
        Some(PageState::Fetching)
    } else if t == "processed"@ {
        Some(PageState::Processed)
    } else if t == "blacklisted"@ {
        Some(PageState::Blacklisted)
    } else if t == "stubbed"@ {
        Some(PageState::Stubbed)
    } else if t == "dead_link"@ {
        Some(PageState::DeadLink)
    } else if t == "unreachable"@ {
        Some(PageState::Unreachable)
    } else if t == "rate_limited"@ {
        Some(PageState::RateLimited)
    } else if t == "failed"@ {
        Some(PageState::Failed)
    } else if t == "depth_exceeded"@ {
        Some(PageState::DepthExceeded)
    } else if t == "request_limit_hit"@ {
        Some(PageState::RequestLimitHit)
    } else if t == "content_mismatch"@ {
        Some(PageState::ContentMismatch)
    } else {
        None
    }
}

/// The thirteen states, in declaration order.
pub open spec fn spec_all_states() -> Seq<PageState> {
    seq![
        PageState::Discovered,
        PageState::Queued,
        PageState::Fetching,
        PageState::Processed,
        PageState::Blacklisted,
        PageState::Stubbed,
        PageState::DeadLink,
        PageState::Unreachable,
        PageState::RateLimited,
        PageState::Failed,
        PageState::DepthExceeded,
        PageState::RequestLimitHit,
        PageState::ContentMismatch,
    ]
}

impl PageState {
    /// True for every state but the three active ones.
    pub fn is_terminal(&self) -> (r: bool)
        ensures
            r == !spec_is_active(*self),
    {
        !self.is_active()
    }

    /// True for Discovered, Queued and Fetching.
    pub fn is_active(&self) -> (r: bool)
        ensures
            r == spec_is_active(*self),
    {
        matches!(self, PageState::Discovered | PageState::Queued | PageState::Fetching)
    }

    /// True for Processed only.
    pub fn is_success(&self) -> (r: bool)
        ensures
            r == (*self is Processed),
    {
        matches!(self, PageState::Processed)
    }

    /// True for Blacklisted and Stubbed.
    pub fn is_skipped(&self) -> (r: bool)
        ensures
            r == spec_is_skipped(*self),
    {
        matches!(self, PageState::Blacklisted | PageState::Stubbed)
    }

    /// True for the seven terminal error states.
    pub fn is_error(&self) -> (r: bool)
        ensures
            r == spec_is_error(*self),
    {
        matches!(
            self,
            PageState::DeadLink | PageState::Unreachable | PageState::RateLimited
                | PageState::Failed | PageState::DepthExceeded | PageState::RequestLimitHit
                | PageState::ContentMismatch
        )
    }

    /// The text under which the state is stored.
    pub fn to_db_string(&self) -> (r: &'static str)
        ensures
            r@ == spec_db_string(*self),
    {
        match self {
            PageState::Discovered => "discovered",
            PageState::Queued => "queued",
            PageState::Fetching => "fetching",
            PageState::Processed => "processed",
            PageState::Blacklisted => "blacklisted",
            PageState::Stubbed => "stubbed",
            PageState::DeadLink => "dead_link",
            PageState::Unreachable => "unreachable",
            PageState::RateLimited => "rate_limited",
            PageState::Failed => "failed",
            PageState::DepthExceeded => "depth_exceeded",
            PageState::RequestLimitHit => "request_limit_hit",
            PageState::ContentMismatch => "content_mismatch",
        }
    }

    /// The same text as `to_db_string`, as a `String`.
    pub fn to_string(&self) -> (r: String)
        ensures
            r@ == spec_db_string(*self),
    {
        String::from_str(self.to_db_string())
    }

    /// The state stored under `s`, or `None` for any other text.
    pub fn from_db_string(s: &str) -> (r: Option<PageState>)
        ensures
            r == spec_from_db_string(s@),
    {
        let names = PageState::all_states();
        let mut i: usize = 0;
        while i < names.len()
            invariant
                names@ == spec_all_states(),
                0 <= i <= names.len(),
                forall|j: int| 0 <= j < i ==> spec_db_string(#[trigger] names@[j]) != s@,
            decreases names.len() - i,
        {
            let name = names[i].to_db_string();
            if str_eq(name, s) {
                proof { lemma_from_db_string_inverts(names@[i as int]); }
                return Some(names[i]);
            }
            i = i + 1;
        }
        proof { lemma_from_db_string_none(s@); }
        None
    }

    /// All thirteen states, each once.
    pub fn all_states() -> (r: Vec<PageState>)
        ensures
            r@ == spec_all_states(),
    {
        vec![
            PageState::Discovered,
            PageState::Queued,
            PageState::Fetching,
            PageState::Processed,
            PageState::Blacklisted,
            PageState::Stubbed,
            PageState::DeadLink,
            PageState::Unreachable,
            PageState::RateLimited,
            PageState::Failed,
            PageState::DepthExceeded,
            PageState::RequestLimitHit,
            PageState::ContentMismatch,
        ]
    }
}

/// Distinct states are stored under distinct texts.
pub proof fn lemma_db_string_injective(a: PageState, b: PageState)
    ensures
        spec_db_string(a) == spec_db_string(b) ==> a == b,
{
    reveal_strlit("discovered");
    reveal_strlit("queued");
    reveal_strlit("fetching");
    reveal_strlit("processed");
    reveal_strlit("blacklisted");
    reveal_strlit("stubbed");
    reveal_strlit("dead_link");
    reveal_strlit("unreachable");
    reveal_strlit("rate_limited");
    reveal_strlit("failed");
    reveal_strlit("depth_exceeded");
    reveal_strlit("request_limit_hit");
    reveal_strlit("content_mismatch");
    if spec_db_string(a) == spec_db_string(b) {
        assert(spec_db_string(a).len() == spec_db_string(b).len());
        assert(spec_db_string(a)[0] == spec_db_string(b)[0]);
    }
}

/// The stored text of a state reads back as that state.
pub proof fn lemma_from_db_string_inverts(s: PageState)
    ensures
        spec_from_db_string(spec_db_string(s)) == Some(s),
{
    lemma_db_string_injective(s, PageState::Discovered);
    lemma_db_string_injective(s, PageState::Queued);
    lemma_db_string_injective(s, PageState::Fetching);
    lemma_db_string_injective(s, PageState::Processed);
    lemma_db_string_injective(s, PageState::Blacklisted);
    lemma_db_string_injective(s, PageState::Stubbed);
    lemma_db_string_injective(s, PageState::DeadLink);
    lemma_db_string_injective(s, PageState::Unreachable);
    lemma_db_string_injective(s, PageState::RateLimited);
    lemma_db_string_injective(s, PageState::Failed);
    lemma_db_string_injective(s, PageState::DepthExceeded);
    lemma_db_string_injective(s, PageState::RequestLimitHit);
    lemma_db_string_injective(s, PageState::ContentMismatch);
}

/// A text that is no state's stored text reads back as nothing.
proof fn lemma_from_db_string_none(t: Seq<char>)
    requires
        forall|j: int| 0 <= j < 13 ==> spec_db_string(#[trigger] spec_all_states()[j]) != t,
    ensures
        spec_from_db_string(t) is None,
{
    assert(spec_db_string(spec_all_states()[0]) != t);
    assert(spec_db_string(spec_all_states()[1]) != t);
    assert(spec_db_string(spec_all_states()[2]) != t);
    assert(spec_db_string(spec_all_states()[3]) != t);
    assert(spec_db_string(spec_all_states()[4]) != t);
    assert(spec_db_string(spec_all_states()[5]) != t);
    assert(spec_db_string(spec_all_states()[6]) != t);
    assert(spec_db_string(spec_all_states()[7]) != t);
    assert(spec_db_string(spec_all_states()[8]) != t);
    assert(spec_db_string(spec_all_states()[9]) != t);
    assert(spec_db_string(spec_all_states()[10]) != t);
    assert(spec_db_string(spec_all_states()[11]) != t);
    assert(spec_db_string(spec_all_states()[12]) != t);
}

/// Every state is one of the thirteen listed by `all_states`, and the
/// thirteen are pairwise distinct.
pub proof fn lemma_states_enumerated(s: PageState)
    ensures
        spec_all_states().contains(s),
        spec_all_states().len() == 13,
        forall|i: int, j: int|
            0 <= i < j < 13 ==> spec_all_states()[i] != spec_all_states()[j],
{
    match s {
        PageState::Discovered => assert(spec_all_states()[0] == s),
        PageState::Queued => assert(spec_all_states()[1] == s),
        PageState::Fetching => assert(spec_all_states()[2] == s),
        PageState::Processed => assert(spec_all_states()[3] == s),
        PageState::Blacklisted => assert(spec_all_states()[4] == s),
        PageState::Stubbed => assert(spec_all_states()[5] == s),
        PageState::DeadLink => assert(spec_all_states()[6] == s),
        PageState::Unreachable => assert(spec_all_states()[7] == s),
        PageState::RateLimited => assert(spec_all_states()[8] == s),
        PageState::Failed => assert(spec_all_states()[9] == s),
        PageState::DepthExceeded => assert(spec_all_states()[10] == s),
        PageState::RequestLimitHit => assert(spec_all_states()[11] == s),
        PageState::ContentMismatch => assert(spec_all_states()[12] == s),
    }
}


} // verus!
