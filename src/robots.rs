//! robots.txt content: access rules through the `robotstxt` crate, and the
//! `Crawl-delay` directive read group by group.
use vstd::prelude::*;
use crate::path::{split_fold, split_on};
use crate::text::{chars_of, contains, contains_char, seq_contains, string_of};

verus! {

/// The verdict of `robotstxt::DefaultMatcher::one_agent_allowed_by_robots`
/// for a robots.txt body, a user agent and a URL.
pub uninterp spec fn robots_verdict(body: Seq<char>, agent: Seq<char>, url: Seq<char>) -> bool;

/// The longest line, in characters, that the matcher is handed: its parser
/// measures overlong lines (beyond 16663 bytes) in a way that can cut a
/// character in two, and 4165 characters stay below that in every encoding.
pub const MAX_LINE_CHARS: usize = 4165;

/// Every `\n`-separated line of the body has at most `MAX_LINE_CHARS` characters.
pub open spec fn lines_short(body: Seq<char>) -> bool {
    forall|i: int| 0 <= i < split_on(body, '\n').len() ==> (#[trigger] split_on(body, '\n')[i]).len() <= MAX_LINE_CHARS
}

/// What `str::to_lowercase` makes of a text.
pub uninterp spec fn lower_of(s: Seq<char>) -> Seq<char>;

/// Relies on `str::to_lowercase`: the text in lower case (Unicode rules).
#[verifier::external_body]
fn lowercase(s: &str) -> (r: String)
    ensures
        r@ == lower_of(s@),
{
    s.to_lowercase()
}

/// The characters of `v` in lower case (see `lower_of`).
fn lower_chars(v: &Vec<char>) -> (r: Vec<char>)
    ensures
        r@ == lower_of(v@),
{
    chars_of(lowercase(string_of(v).as_str()).as_str())
}

/// Relies on `robotstxt::DefaultMatcher::one_agent_allowed_by_robots`:
/// whether the body lets the agent fetch the URL.
#[verifier::external_body]
fn matcher_allows(body: &str, agent: &str, url: &str) -> (r: bool)
    requires
        lines_short(body@),
    ensures
        r == robots_verdict(body@, agent@, url@),
{
    let mut matcher = robotstxt::DefaultMatcher::default();
    matcher.one_agent_allowed_by_robots(body, agent, url)
}

/// Whether every line of the body is short (see `lines_short`).
pub fn has_short_lines(body: &str) -> (r: bool)
    ensures
        r == lines_short(body@),
{
    let cs = chars_of(body);
    let mut run: usize = 0;
    let mut i: usize = 0;
    while i < cs.len()
        invariant
            0 <= i <= cs.len(),
            cs@ == body@,
            run == split_fold(cs@.subrange(0, i as int), '\n').1.len(),
            run <= MAX_LINE_CHARS,
            forall|k: int| 0 <= k < split_fold(cs@.subrange(0, i as int), '\n').0.len()
                ==> (#[trigger] split_fold(cs@.subrange(0, i as int), '\n').0[k]).len() <= MAX_LINE_CHARS,
        decreases cs.len() - i,
    {
        proof {
            assert(cs@.subrange(0, i + 1).drop_last() =~= cs@.subrange(0, i as int));
        }
        if cs[i] == '\n' {
            run = 0;
            proof {
                let f = split_fold(cs@.subrange(0, i as int), '\n');
                let g = split_fold(cs@.subrange(0, i + 1), '\n');
                assert(g.0 == f.0.push(f.1));
                assert forall|k: int| 0 <= k < g.0.len() implies (#[trigger] g.0[k]).len() <= MAX_LINE_CHARS by {
                    if k < f.0.len() {
                        assert(g.0[k] == f.0[k]);
                    }
                }
            }
        } else {
            if run == MAX_LINE_CHARS {
                proof {
                    let g = split_fold(cs@.subrange(0, i + 1), '\n');
                    assert(cs@.subrange(0, i + 1) =~= cs@.subrange(0, i + 1));
                    lemma_piece_stays_long(cs@, i + 1);
                }
                return false;
            }
            run = run + 1;
        }
        i = i + 1;
    }
    assert(cs@.subrange(0, cs.len() as int) =~= cs@);
    proof {
        let f = split_fold(cs@, '\n');
        let l = split_on(cs@, '\n');
        assert forall|k: int| 0 <= k < l.len() implies (#[trigger] l[k]).len() <= MAX_LINE_CHARS by {
            if k < f.0.len() {
                assert(l[k] == f.0[k]);
            }
        }
    }
    true
}

/// A piece under way that is already too long makes the whole body fail
/// the bound.
proof fn lemma_piece_stays_long(s: Seq<char>, i: int)
    requires
        0 <= i <= s.len(),
        split_fold(s.subrange(0, i), '\n').1.len() > MAX_LINE_CHARS,
    ensures
        !lines_short(s),
    decreases s.len() - i,
{
    let f = split_fold(s.subrange(0, i), '\n');
    if i == s.len() {
        assert(s.subrange(0, i) =~= s);
        let l = split_on(s, '\n');
        assert(l[l.len() - 1] == f.1);
    } else {
        assert(s.subrange(0, i + 1).drop_last() =~= s.subrange(0, i));
        if s[i] == '\n' {
            let g = split_fold(s.subrange(0, i + 1), '\n');
            assert(g.0 == f.0.push(f.1));
            lemma_finished_piece_stays(s, i + 1, f.0.len() as int);
        } else {
            lemma_piece_stays_long(s, i + 1);
        }
    }
}

/// A finished piece stays among the pieces of every longer prefix.
proof fn lemma_finished_piece_stays(s: Seq<char>, i: int, k: int)
    requires
        0 <= i <= s.len(),
        0 <= k < split_fold(s.subrange(0, i), '\n').0.len(),
        split_fold(s.subrange(0, i), '\n').0[k].len() > MAX_LINE_CHARS,
    ensures
        !lines_short(s),
    decreases s.len() - i,
{
    let f = split_fold(s.subrange(0, i), '\n');
    if i == s.len() {
        assert(s.subrange(0, i) =~= s);
        let l = split_on(s, '\n');
        assert(l[k] == f.0[k]);
    } else {
        assert(s.subrange(0, i + 1).drop_last() =~= s.subrange(0, i));
        let g = split_fold(s.subrange(0, i + 1), '\n');
        assert(g.0[k] == f.0[k]);
        lemma_finished_piece_stays(s, i + 1, k);
    }
}


/// The whitespace that surrounds directives.
pub open spec fn is_space(c: char) -> bool {
    c == ' ' || c == '\t' || c == '\n' || c == '\r' || c == '\x0b' || c == '\x0c'
}

/// `s` without leading whitespace.
pub open spec fn trim_start(s: Seq<char>) -> Seq<char>
    decreases s.len(),
{
    if s.len() > 0 && is_space(s[0]) {
        trim_start(s.subrange(1, s.len() as int))
    } else {
        s
    }
}

/// `s` without trailing whitespace.
pub open spec fn trim_end(s: Seq<char>) -> Seq<char>
    decreases s.len(),
{
    if s.len() > 0 && is_space(s.last()) {
        trim_end(s.drop_last())
    } else {
        s
    }
}

/// `s` without surrounding whitespace.
pub open spec fn trim(s: Seq<char>) -> Seq<char> {
    trim_end(trim_start(s))
}

fn space(c: char) -> (r: bool)
    ensures
        r == is_space(c),
{
    c == ' ' || c == '\t' || c == '\n' || c == '\r' || c == '\x0b' || c == '\x0c'
}

/// `s` without surrounding whitespace.
pub fn trim_chars(s: &Vec<char>) -> (r: Vec<char>)
    ensures
        r@ == trim(s@),
{
    let n = s.len();
    let mut i: usize = 0;
    assert(s@.subrange(0, n as int) =~= s@);
    while i < n && space(s[i])
        invariant
            0 <= i <= n == s.len(),
            trim_start(s@) == trim_start(s@.subrange(i as int, n as int)),
        decreases n - i,
    {
        proof {
            let t = s@.subrange(i as int, n as int);
            assert(t.subrange(1, t.len() as int) =~= s@.subrange(i + 1, n as int));
        }
        i = i + 1;
    }
    let mut j: usize = n;
    proof {
        let t = s@.subrange(i as int, n as int);
        if i < n {
            assert(t[0] == s@[i as int]);
        }
        assert(trim_start(t) == t);
    }
    while j > i && space(s[j - 1])
        invariant
            0 <= i <= j <= n == s.len(),
            trim(s@) == trim_end(s@.subrange(i as int, j as int)),
        decreases j,
    {
        proof {
            let t = s@.subrange(i as int, j as int);
            assert(t.drop_last() =~= s@.subrange(i as int, j - 1));
        }
        j = j - 1;
    }
    let mut r: Vec<char> = Vec::new();
    let mut k: usize = i;
    while k < j
        invariant
            i <= k <= j <= s.len(),
            r@ == s@.subrange(i as int, k as int),
        decreases j - k,
    {
        r.push(s[k]);
        proof { assert(s@.subrange(i as int, k + 1) =~= s@.subrange(i as int, k as int).push(s@[k as int])); }
        k = k + 1;
    }
    proof {
        let t = s@.subrange(i as int, j as int);
        if j > i {
            assert(t.last() == s@[j - 1]);
        }
        assert(trim_end(t) == t);
    }
    r
}

/// The text before and after the first `sep` in `s`.
pub open spec fn split_first(s: Seq<char>, sep: char) -> (Seq<char>, Seq<char>)
    decreases s.len(),
{
    if s.len() == 0 {
        (Seq::empty(), Seq::empty())
    } else if s[0] == sep {
        (Seq::empty(), s.subrange(1, s.len() as int))
    } else {
        let (k, v) = split_first(s.subrange(1, s.len() as int), sep);
        (seq![s[0]] + k, v)
    }
}

proof fn lemma_split_first(s: Seq<char>, sep: char, k: int)
    requires
        0 <= k <= s.len(),
        forall|j: int| 0 <= j < k ==> s[j] != sep,
        k < s.len() ==> s[k] == sep,
    ensures
        split_first(s, sep) == (s.subrange(0, k), if k < s.len() { s.subrange(k + 1, s.len() as int) } else { Seq::<char>::empty() }),
    decreases s.len(),
{
    if s.len() == 0 {
        assert(s.subrange(0, k) =~= Seq::<char>::empty());
    } else if s[0] == sep {
        assert(s.subrange(0, k) =~= Seq::<char>::empty());
    } else {
        let t = s.subrange(1, s.len() as int);
        lemma_split_first(t, sep, k - 1);
        assert(seq![s[0]] + t.subrange(0, k - 1) =~= s.subrange(0, k));
        if k < s.len() {
            assert(t.subrange(k, t.len() as int) =~= s.subrange(k + 1, s.len() as int));
        }
    }
}

/// The text before and after the first `sep`.
pub fn split_first_chars(s: &Vec<char>, sep: char) -> (r: (Vec<char>, Vec<char>))
    ensures
        (r.0@, r.1@) == split_first(s@, sep),
{
    let mut k: usize = 0;
    while k < s.len() && s[k] != sep
        invariant
            0 <= k <= s.len(),
            forall|j: int| 0 <= j < k ==> s@[j] != sep,
        decreases s.len() - k,
    {
        k = k + 1;
    }
    let mut key: Vec<char> = Vec::new();
    let mut value: Vec<char> = Vec::new();
    let mut i: usize = 0;
    while i < k
        invariant
            0 <= i <= k <= s.len(),
            key@ == s@.subrange(0, i as int),
        decreases k - i,
    {
        key.push(s[i]);
        proof { assert(s@.subrange(0, i + 1) =~= s@.subrange(0, i as int).push(s@[i as int])); }
        i = i + 1;
    }
    if k < s.len() {
        let mut j: usize = k + 1;
        while j < s.len()
            invariant
                k + 1 <= j <= s.len(),
                value@ == s@.subrange(k + 1, j as int),
            decreases s.len() - j,
        {
            value.push(s[j]);
            proof { assert(s@.subrange(k + 1, j + 1) =~= s@.subrange(k + 1, j as int).push(s@[j as int])); }
            j = j + 1;
        }
    }
    proof { lemma_split_first(s@, sep, k as int); }
    (key, value)
}

/// A decimal digit.
pub open spec fn is_digit(c: char) -> bool {
    '0' <= c && c <= '9'
}

/// Every character is a decimal digit.
pub open spec fn all_digits(s: Seq<char>) -> bool {
    forall|i: int| 0 <= i < s.len() ==> is_digit(#[trigger] s[i])
}

/// The number that a run of digits denotes.
pub open spec fn digits_value(s: Seq<char>) -> nat
    decreases s.len(),
{
    if s.len() == 0 {
        0
    } else {
        digits_value(s.drop_last()) * 10 + ((s.last() as nat) - ('0' as nat)) as nat
    }
}

/// Ten to the power `n`.
pub open spec fn pow10(n: nat) -> nat
    decreases n,
{
    if n == 0 {
        1
    } else {
        10 * pow10((n - 1) as nat)
    }
}

/// Milliseconds from the digits after the decimal point (beyond the third
/// digit they are dropped).
pub open spec fn frac_ms(f: Seq<char>) -> nat {
    let n: nat = if f.len() >= 3 { 3 } else { f.len() };
    digits_value(f.subrange(0, n as int)) * pow10((3 - n) as nat)
}

/// A `Crawl-delay` value in milliseconds: decimal seconds, digits with at
/// most one `.`, at least one digit, at most fifteen before the point.
pub open spec fn spec_delay_ms(v: Seq<char>) -> Option<u64> {
    let has_dot = v.contains('.');
    let ip = if has_dot { split_first(v, '.').0 } else { v };
    let fp = if has_dot { split_first(v, '.').1 } else { Seq::<char>::empty() };
    if all_digits(ip) && all_digits(fp) && ip.len() + fp.len() > 0 && ip.len() <= 15 {
        Some((digits_value(ip) * 1000 + frac_ms(fp)) as u64)
    } else {
        None
    }
}

proof fn lemma_digits_bound(s: Seq<char>)
    requires
        all_digits(s),
    ensures
        digits_value(s) < pow10(s.len()),
    decreases s.len(),
{
    if s.len() > 0 {
        assert(is_digit(s[s.len() - 1]));
        assert(all_digits(s.drop_last()));
        lemma_digits_bound(s.drop_last());
        let d = digits_value(s.drop_last());
        let p = pow10((s.len() - 1) as nat);
        assert(d * 10 + 9 < 10 * p) by (nonlinear_arith)
            requires d < p;
    }
}

proof fn lemma_pow10_mono(a: nat, b: nat)
    requires
        a <= b,
    ensures
        pow10(a) <= pow10(b),
    decreases b,
{
    if a < b {
        lemma_pow10_mono(a, (b - 1) as nat);
    }
}

/// The value of the digits `s[0..n]`.
fn digits_u64(s: &Vec<char>, n: usize) -> (r: u64)
    requires
        n <= s.len(),
        n <= 18,
        all_digits(s@.subrange(0, n as int)),
    ensures
        r as nat == digits_value(s@.subrange(0, n as int)),
{
    let mut acc: u64 = 0;
    let mut i: usize = 0;
    proof { lemma_pow10_mono(n as nat, 18); }
    proof { reveal_with_fuel(pow10, 19); }
    assert(pow10(18) == 1000000000000000000);
    while i < n
        invariant
            0 <= i <= n <= s.len(),
            n <= 18,
            pow10(n as nat) <= 1000000000000000000,
            all_digits(s@.subrange(0, n as int)),
            acc as nat == digits_value(s@.subrange(0, i as int)),
        decreases n - i,
    {
        proof {
            assert(s@.subrange(0, i + 1).drop_last() =~= s@.subrange(0, i as int));
            assert(s@.subrange(0, n as int)[i as int] == s@[i as int]);
            assert(all_digits(s@.subrange(0, i + 1)));
            lemma_digits_bound(s@.subrange(0, i + 1));
            lemma_pow10_mono((i + 1) as nat, n as nat);
        }
        let d = (s[i] as u32 - '0' as u32) as u64;
        acc = acc * 10 + d;
        i = i + 1;
    }
    acc
}

fn all_digit_chars(s: &Vec<char>) -> (r: bool)
    ensures
        r == all_digits(s@),
{
    let mut i: usize = 0;
    while i < s.len()
        invariant
            0 <= i <= s.len(),
            forall|j: int| 0 <= j < i ==> is_digit(#[trigger] s@[j]),
        decreases s.len() - i,
    {
        if !('0' <= s[i] && s[i] <= '9') {
            return false;
        }
        i = i + 1;
    }
    true
}

/// A `Crawl-delay` value in milliseconds (see `spec_delay_ms`).
pub fn parse_delay_ms(v: &Vec<char>) -> (r: Option<u64>)
    ensures
        r == spec_delay_ms(v@),
{
    let has_dot = contains_char(v, '.');
    let parts = split_first_chars(v, '.');
    proof {
        if !has_dot {
            assert forall|j: int| 0 <= j < v@.len() implies v@[j] != '.' by {
                if v@[j] == '.' {
                    assert(v@.contains('.'));
                }
            }
            lemma_split_first(v@, '.', v@.len() as int);
            assert(v@.subrange(0, v@.len() as int) =~= v@);
        }
    }
    let ip: Vec<char> = parts.0;
    let fp: Vec<char> = if has_dot { parts.1 } else { Vec::new() };
    assert(fp@ == if has_dot { split_first(v@, '.').1 } else { Seq::<char>::empty() });
    if !all_digit_chars(&ip) || !all_digit_chars(&fp) || (ip.len() == 0 && fp.len() == 0) || ip.len() > 15 {
        return None;
    }
    assert(ip@.subrange(0, ip.len() as int) =~= ip@);
    let whole = digits_u64(&ip, ip.len());
    let n: usize = if fp.len() >= 3 { 3 } else { fp.len() };
    assert forall|j: int| 0 <= j < n implies is_digit(#[trigger] fp@.subrange(0, n as int)[j]) by {
        assert(fp@.subrange(0, n as int)[j] == fp@[j]);
    }
    let f = digits_u64(&fp, n);
    proof {
        lemma_digits_bound(ip@);
        lemma_pow10_mono(ip@.len(), 15);
        reveal_with_fuel(pow10, 16);
        lemma_digits_bound(fp@.subrange(0, n as int));
        reveal_with_fuel(pow10, 4);
    }
    let scale: u64 = if n == 3 { 1 } else if n == 2 { 10 } else if n == 1 { 100 } else { 1000 };
    proof { reveal_with_fuel(pow10, 4); }
    assert(scale as nat == pow10((3 - n) as nat));
    assert(f * scale < 1000) by (nonlinear_arith)
        requires
            (n == 3 && scale == 1 && f < 1000) || (n == 2 && scale == 10 && f < 100)
                || (n == 1 && scale == 100 && f < 10) || (n == 0 && scale == 1000 && f < 1);
    Some(whole * 1000 + f * scale)
}

/// The directive name `user-agent`.
pub open spec fn user_agent_key() -> Seq<char> {
    seq!['u', 's', 'e', 'r', '-', 'a', 'g', 'e', 'n', 't']
}

/// The directive name `crawl-delay`.
pub open spec fn crawl_delay_key() -> Seq<char> {
    seq!['c', 'r', 'a', 'w', 'l', '-', 'd', 'e', 'l', 'a', 'y']
}

/// Some agent of the group is `*` or occurs in our (lower-case) agent.
pub open spec fn group_applies(group: Seq<Seq<char>>, agent: Seq<char>) -> bool {
    exists|i: int| 0 <= i < group.len() && (group[i] == seq!['*'] || seq_contains(agent, group[i]))
}

/// What the scan carries: the agents of the open group, the delay for our
/// agent, the delay for `*`.
pub type DelayScan = (Seq<Seq<char>>, Option<u64>, Option<u64>);

/// One line of robots.txt applied to the scan. `User-agent` lines join the
/// open group; a `Crawl-delay` line gives its value to the group (to `*` if
/// the group names `*`, else to our agent, if the group applies to us) and
/// closes the group; other lines change nothing.
pub open spec fn delay_step(st: DelayScan, line: Seq<char>, agent: Seq<char>) -> DelayScan {
    let t = trim(line);
    if t.len() == 0 || t[0] == '#' || !t.contains(':') {
        st
    } else {
        let key = lower_of(trim(split_first(t, ':').0));
        let value = trim(split_first(t, ':').1);
        if key == user_agent_key() {
            (st.0.push(lower_of(value)), st.1, st.2)
        } else if key == crawl_delay_key() {
            let d = spec_delay_ms(value);
            if d is Some && group_applies(st.0, agent) {
                if st.0.contains(seq!['*']) {
                    (Seq::empty(), st.1, d)
                } else {
                    (Seq::empty(), d, st.2)
                }
            } else {
                (Seq::empty(), st.1, st.2)
            }
        } else {
            st
        }
    }
}

/// The lines applied in order, from an empty scan.
pub open spec fn delay_scan(lines: Seq<Seq<char>>, agent: Seq<char>) -> DelayScan
    decreases lines.len(),
{
    if lines.len() == 0 {
        (Seq::empty(), None, None)
    } else {
        delay_step(delay_scan(lines.drop_last(), agent), lines.last(), agent)
    }
}

/// The crawl delay for an agent, in milliseconds: the agent's own delay if
/// one applies, else the delay for `*`, else none. Agents are compared in
/// lower case.
pub open spec fn spec_crawl_delay(body: Seq<char>, agent: Seq<char>) -> Option<u64> {
    let st = delay_scan(split_on(body, '\n'), lower_of(agent));
    if st.1 is Some {
        st.1
    } else {
        st.2
    }
}

fn is_key(k: &Vec<char>, lit: &[char]) -> (r: bool)
    ensures
        r == (k@ == lit@),
{
    if k.len() != lit.len() {
        return false;
    }
    let mut i: usize = 0;
    while i < k.len()
        invariant
            k.len() == lit@.len(),
            0 <= i <= k.len(),
            forall|j: int| 0 <= j < i ==> k@[j] == lit@[j],
        decreases k.len() - i,
    {
        if k[i] != lit[i] {
            return false;
        }
        i = i + 1;
    }
    assert(k@ =~= lit@);
    true
}

fn applies(group: &Vec<Vec<char>>, agent: &Vec<char>) -> (r: bool)
    ensures
        r == group_applies(group.deep_view(), agent@),
{
    let star: Vec<char> = vec!['*'];
    assert(star@ =~= seq!['*']);
    let mut i: usize = 0;
    while i < group.len()
        invariant
            0 <= i <= group.len(),
            star@ == seq!['*'],
            forall|j: int| 0 <= j < i ==> !(group.deep_view()[j] == seq!['*'] || seq_contains(agent@, #[trigger] group.deep_view()[j])),
        decreases group.len() - i,
    {
        assert(group.deep_view()[i as int] == group@[i as int]@);
        if crate::text::chars_eq(&group[i], &star) || contains(agent, &group[i]) {
            return true;
        }
        i = i + 1;
    }
    false
}

fn names_star(group: &Vec<Vec<char>>) -> (r: bool)
    ensures
        r == group.deep_view().contains(seq!['*']),
{
    let star: Vec<char> = vec!['*'];
    assert(star@ =~= seq!['*']);
    let mut i: usize = 0;
    while i < group.len()
        invariant
            0 <= i <= group.len(),
            star@ == seq!['*'],
            forall|j: int| 0 <= j < i ==> #[trigger] group.deep_view()[j] != seq!['*'],
        decreases group.len() - i,
    {
        assert(group.deep_view()[i as int] == group@[i as int]@);
        if crate::text::chars_eq(&group[i], &star) {
            assert(group.deep_view()[i as int] == seq!['*']);
            return true;
        }
        i = i + 1;
    }
    false
}

/// Applies one line to the scan state.
fn scan_line(
    group: &mut Vec<Vec<char>>,
    own: &mut Option<u64>,
    wildcard: &mut Option<u64>,
    line: &Vec<char>,
    agent: &Vec<char>,
)
    ensures
        (final(group).deep_view(), *final(own), *final(wildcard))
            == delay_step((old(group).deep_view(), *old(own), *old(wildcard)), line@, agent@),
{
    let t = trim_chars(line);
    if t.len() == 0 || t[0] == '#' || !contains_char(&t, ':') {
        return;
    }
    let kv = split_first_chars(&t, ':');
    let key = lower_chars(&trim_chars(&kv.0));
    let value = trim_chars(&kv.1);
    let ua: [char; 10] = ['u', 's', 'e', 'r', '-', 'a', 'g', 'e', 'n', 't'];
    let cd: [char; 11] = ['c', 'r', 'a', 'w', 'l', '-', 'd', 'e', 'l', 'a', 'y'];
    assert(ua@ =~= user_agent_key());
    assert(cd@ =~= crawl_delay_key());
    if is_key(&key, &ua) {
        let lower = lower_chars(&value);
        let ghost g = group.deep_view();
        let ghost lv = lower@;
        assert(lower.deep_view() =~= lv);
        group.push(lower);
        assert(group.deep_view() =~= g.push(lv));
    } else if is_key(&key, &cd) {
        let d = parse_delay_ms(&value);
        if d.is_some() && applies(group, agent) {
            if names_star(group) {
                *wildcard = d;
            } else {
                *own = d;
            }
        }
        *group = Vec::new();
        assert(group.deep_view() =~= Seq::<Seq<char>>::empty());
    }
}

/// A robots.txt body, or the verdict that everything is allowed (no body
/// could be fetched).
#[derive(Debug, Clone)]
pub struct ParsedRobots {
    content: String,
    allow_all: bool,
}

impl ParsedRobots {
    /// The body as fetched.
    pub closed spec fn spec_content(&self) -> Seq<char> {
        self.content@
    }

    /// Whether everything is allowed regardless of the body.
    pub closed spec fn spec_allow_all(&self) -> bool {
        self.allow_all
    }

    /// Rules read from a fetched body.
    pub fn from_content(content: &str) -> (r: ParsedRobots)
        ensures
            r.spec_content() == content@,
            !r.spec_allow_all(),
    {
        ParsedRobots { content: String::from_str(content), allow_all: false }
    }

    /// Rules that allow everything, with an empty body.
    pub fn allow_all() -> (r: ParsedRobots)
        ensures
            r.spec_content() == Seq::<char>::empty(),
            r.spec_allow_all(),
    {
        ParsedRobots { content: String::new(), allow_all: true }
    }

    /// The body.
    pub fn content(&self) -> (r: String)
        ensures
            r@ == self.spec_content(),
    {
        String::from_str(self.content.as_str())
    }

    /// Whether `user_agent` may fetch `url`: always where everything is
    /// allowed, the body is empty, or a line of it is longer than
    /// `MAX_LINE_CHARS` (such a body is treated as unreadable, like a failed
    /// fetch); else as the `robotstxt` matcher decides.
    pub fn is_allowed(&self, url: &str, user_agent: &str) -> (r: bool)
        ensures
            r == (self.spec_allow_all() || self.spec_content().len() == 0 || !lines_short(self.spec_content())
                || robots_verdict(self.spec_content(), user_agent@, url@)),
    {
        if self.allow_all || self.content.as_str().unicode_len() == 0 || !has_short_lines(self.content.as_str()) {
            return true;
        }
        matcher_allows(self.content.as_str(), user_agent, url)
    }

    /// The crawl delay for `user_agent`, in milliseconds (see
    /// `spec_crawl_delay`); none where everything is allowed.
    pub fn crawl_delay_ms(&self, user_agent: &str) -> (r: Option<u64>)
        ensures
            r == if self.spec_allow_all() || self.spec_content().len() == 0 {
                None
            } else {
                spec_crawl_delay(self.spec_content(), user_agent@)
            },
    {
        if self.allow_all || self.content.as_str().unicode_len() == 0 {
            return None;
        }
        let body = chars_of(self.content.as_str());
        let agent = chars_of(lowercase(user_agent).as_str());
        let mut group: Vec<Vec<char>> = Vec::new();
        let mut own: Option<u64> = None;
        let mut wildcard: Option<u64> = None;
        let mut line: Vec<char> = Vec::new();
        let mut i: usize = 0;
        assert(group.deep_view() =~= Seq::<Seq<char>>::empty());
        while i < body.len()
            invariant
                0 <= i <= body.len(),
                agent@ == lower_of(user_agent@),
                (group.deep_view(), own, wildcard) == delay_scan(split_fold(body@.subrange(0, i as int), '\n').0, agent@),
                line@ == split_fold(body@.subrange(0, i as int), '\n').1,
            decreases body.len() - i,
        {
            let c = body[i];
            proof {
                assert(body@.subrange(0, i + 1).drop_last() =~= body@.subrange(0, i as int));
            }
            if c == '\n' {
                scan_line(&mut group, &mut own, &mut wildcard, &line, &agent);
                line = Vec::new();
                proof {
                    let d = split_fold(body@.subrange(0, i as int), '\n').0;
                    let l = split_fold(body@.subrange(0, i as int), '\n').1;
                    assert(d.push(l).drop_last() =~= d);
                }
            } else {
                line.push(c);
            }
            i = i + 1;
        }
        assert(body@.subrange(0, body.len() as int) =~= body@);
        scan_line(&mut group, &mut own, &mut wildcard, &line, &agent);
        proof {
            let f = split_fold(body@, '\n');
            assert(f.0.push(f.1).drop_last() =~= f.0);
        }
        if own.is_some() {
            own
        } else {
            wildcard
        }
    }
}

/// Whether `user_agent` may fetch `url` under `robots`.
pub fn is_allowed(robots: &ParsedRobots, url: &str, user_agent: &str) -> (r: bool)
    ensures
        r == (robots.spec_allow_all() || robots.spec_content().len() == 0 || !lines_short(robots.spec_content())
            || robots_verdict(robots.spec_content(), user_agent@, url@)),
{
    robots.is_allowed(url, user_agent)
}

/// Parsed robots rules and when they were fetched (wall clock, milliseconds).
#[derive(Debug, Clone)]
pub struct CachedRobots {
    pub content: ParsedRobots,
    pub fetched_at: i64,
}

/// How long cached rules stay fresh: 24 hours, in milliseconds.
pub const CACHE_TTL_MS: i64 = 86400000;

/// The time from `then` to `now`, in milliseconds.
pub open spec fn spec_age(then: i64, now: i64) -> int {
    now as int - then as int
}

impl CachedRobots {
    /// Rules fetched at `now`.
    pub fn new(content: ParsedRobots, now: i64) -> (r: CachedRobots)
        ensures
            r.content == content,
            r.fetched_at == now,
    {
        CachedRobots { content, fetched_at: now }
    }

    /// Whether the rules are older than 24 hours at `now`.
    pub fn is_stale(&self, now: i64) -> (r: bool)
        ensures
            r == (spec_age(self.fetched_at, now) > CACHE_TTL_MS),
    {
        (now as i128) - (self.fetched_at as i128) > CACHE_TTL_MS as i128
    }

    /// The age of the rules at `now`, in milliseconds (saturating at the
    /// bounds of `i64`).
    pub fn age(&self, now: i64) -> (r: i64)
        ensures
            i64::MIN <= spec_age(self.fetched_at, now) <= i64::MAX ==> r == spec_age(self.fetched_at, now),
    {
        let d = (now as i128) - (self.fetched_at as i128);
        if d > i64::MAX as i128 {
            i64::MAX
        } else if d < i64::MIN as i128 {
            i64::MIN
        } else {
            d as i64
        }
    }

    /// Whether the cached rules let `user_agent` fetch `url`.
    pub fn is_allowed(&self, url: &str, user_agent: &str) -> (r: bool)
        ensures
            r == (self.content.spec_allow_all() || self.content.spec_content().len() == 0
                || !lines_short(self.content.spec_content())
                || robots_verdict(self.content.spec_content(), user_agent@, url@)),
    {
        self.content.is_allowed(url, user_agent)
    }

    /// The cached crawl delay for `user_agent`, in milliseconds.
    pub fn crawl_delay_ms(&self, user_agent: &str) -> (r: Option<u64>)
        ensures
            r == if self.content.spec_allow_all() || self.content.spec_content().len() == 0 {
                None
            } else {
                spec_crawl_delay(self.content.spec_content(), user_agent@)
            },
    {
        self.content.crawl_delay_ms(user_agent)
    }
}

} // verus!
