//! Query canonicalization: tracking parameters dropped, the rest sorted by key.
use vstd::prelude::*;
use crate::path::{lemma_split_fold_clean, lemma_split_fold_plain, split_fold, split_on};
use crate::text::{chars_of, push_char, seq_starts_with};

verus! {

/// A query parameter: key and value, as they stand in the query text.
pub type Param = (Seq<char>, Seq<char>);

/// The key and value of one `key=value` piece: split at the first `=`; a
/// piece without `=` has an empty value.
pub open spec fn split_param(s: Seq<char>) -> (Seq<char>, Seq<char>)
    decreases s.len(),
{
    if s.len() == 0 {
        (Seq::empty(), Seq::empty())
    } else if s[0] == '=' {
        (Seq::empty(), s.subrange(1, s.len() as int))
    } else {
        let (k, v) = split_param(s.subrange(1, s.len() as int));
        (seq![s[0]] + k, v)
    }
}

/// The non-empty `&`-separated pieces of a query, as parameters.
pub open spec fn params_of(pieces: Seq<Seq<char>>) -> Seq<Param>
    decreases pieces.len(),
{
    if pieces.len() == 0 {
        Seq::empty()
    } else if pieces.last().len() == 0 {
        params_of(pieces.drop_last())
    } else {
        params_of(pieces.drop_last()).push(split_param(pieces.last()))
    }
}

/// The query parameters that identify a visitor rather than a page:
/// `utm_*`, `fbclid`, `gclid`, `mc_eid`, `ref`, `source`.
pub open spec fn spec_is_tracking_param(key: Seq<char>) -> bool {
    seq_starts_with(key, seq!['u', 't', 'm', '_'])
        || key == seq!['f', 'b', 'c', 'l', 'i', 'd']
        || key == seq!['g', 'c', 'l', 'i', 'd']
        || key == seq!['m', 'c', '_', 'e', 'i', 'd']
        || key == seq!['r', 'e', 'f']
        || key == seq!['s', 'o', 'u', 'r', 'c', 'e']
}

/// The parameters whose key is not a tracking key, in order.
pub open spec fn drop_tracking(ps: Seq<Param>) -> Seq<Param>
    decreases ps.len(),
{
    if ps.len() == 0 {
        Seq::empty()
    } else if spec_is_tracking_param(ps.last().0) {
        drop_tracking(ps.drop_last())
    } else {
        drop_tracking(ps.drop_last()).push(ps.last())
    }
}

/// `a` sorts strictly before `b`, character by character.
pub open spec fn seq_lt(a: Seq<char>, b: Seq<char>) -> bool
    decreases a.len(),
{
    if b.len() == 0 {
        false
    } else if a.len() == 0 {
        true
    } else if a[0] != b[0] {
        a[0] < b[0]
    } else {
        seq_lt(a.subrange(1, a.len() as int), b.subrange(1, b.len() as int))
    }
}

/// `x` inserted into `s` after every element whose key is not greater.
pub open spec fn insert_by_key(s: Seq<Param>, x: Param) -> Seq<Param>
    decreases s.len(),
{
    if s.len() == 0 {
        seq![x]
    } else if seq_lt(x.0, s.last().0) {
        insert_by_key(s.drop_last(), x).push(s.last())
    } else {
        s.push(x)
    }
}

/// The parameters sorted by key; parameters with equal keys keep their order.
pub open spec fn sort_by_key(s: Seq<Param>) -> Seq<Param>
    decreases s.len(),
{
    if s.len() == 0 {
        Seq::empty()
    } else {
        insert_by_key(sort_by_key(s.drop_last()), s.last())
    }
}

/// `k=v` pieces joined by `&`.
pub open spec fn render_params(ps: Seq<Param>) -> Seq<char>
    decreases ps.len(),
{
    if ps.len() == 0 {
        Seq::empty()
    } else if ps.len() == 1 {
        ps[0].0 + seq!['='] + ps[0].1
    } else {
        render_params(ps.drop_last()) + seq!['&'] + ps.last().0 + seq!['='] + ps.last().1
    }
}

/// The surviving parameters of a query, sorted by key.
pub open spec fn spec_query_params(q: Seq<char>) -> Seq<Param> {
    sort_by_key(drop_tracking(params_of(split_on(q, '&'))))
}

/// The canonical query: the surviving parameters rendered, or none at all.
pub open spec fn spec_normalize_query(q: Seq<char>) -> Option<Seq<char>> {
    let ps = spec_query_params(q);
    if ps.len() == 0 {
        None
    } else {
        Some(render_params(ps))
    }
}

fn eq_chars(a: &Vec<char>, lit: &[char]) -> (r: bool)
    ensures
        r == (a@ == lit@),
{
    if a.len() != lit.len() {
        return false;
    }
    let mut i: usize = 0;
    while i < a.len()
        invariant
            a.len() == lit@.len(),
            0 <= i <= a.len(),
            forall|j: int| 0 <= j < i ==> a@[j] == lit@[j],
        decreases a.len() - i,
    {
        if a[i] != lit[i] {
            return false;
        }
        i = i + 1;
    }
    assert(a@ =~= lit@);
    true
}

fn tracking_key(key: &Vec<char>) -> (r: bool)
    ensures
        r == spec_is_tracking_param(key@),
{
    let utm = key.len() >= 4 && key[0] == 'u' && key[1] == 't' && key[2] == 'm' && key[3] == '_';
    proof {
        let p = seq!['u', 't', 'm', '_'];
        if utm {
            assert(key@.subrange(0, 4) =~= p);
        }
        if seq_starts_with(key@, p) {
            assert(key@.subrange(0, 4)[0] == 'u');
            assert(key@.subrange(0, 4)[1] == 't');
            assert(key@.subrange(0, 4)[2] == 'm');
            assert(key@.subrange(0, 4)[3] == '_');
        }
    }
    let a: [char; 6] = ['f', 'b', 'c', 'l', 'i', 'd'];
    let b: [char; 5] = ['g', 'c', 'l', 'i', 'd'];
    let c: [char; 6] = ['m', 'c', '_', 'e', 'i', 'd'];
    let d: [char; 3] = ['r', 'e', 'f'];
    let e: [char; 6] = ['s', 'o', 'u', 'r', 'c', 'e'];
    assert(a@ =~= seq!['f', 'b', 'c', 'l', 'i', 'd']);
    assert(b@ =~= seq!['g', 'c', 'l', 'i', 'd']);
    assert(c@ =~= seq!['m', 'c', '_', 'e', 'i', 'd']);
    assert(d@ =~= seq!['r', 'e', 'f']);
    assert(e@ =~= seq!['s', 'o', 'u', 'r', 'c', 'e']);
    utm || eq_chars(key, &a)
        || eq_chars(key, &b)
        || eq_chars(key, &c)
        || eq_chars(key, &d)
        || eq_chars(key, &e)
}

/// Whether `key` is a tracking parameter (see `spec_is_tracking_param`).
pub fn is_tracking_param(key: &str) -> (r: bool)
    ensures
        r == spec_is_tracking_param(key@),
{
    tracking_key(&chars_of(key))
}

} // verus!

verus! {

/// The key and value of a piece, split at the first `=`.
fn split_piece(s: &Vec<char>) -> (r: (Vec<char>, Vec<char>))
    ensures
        (r.0@, r.1@) == split_param(s@),
{
    let mut k: usize = 0;
    while k < s.len() && s[k] != '='
        invariant
            0 <= k <= s.len(),
            forall|j: int| 0 <= j < k ==> s@[j] != '=',
        decreases s.len() - k,
    {
        k = k + 1;
    }
    let mut key: Vec<char> = Vec::new();
    let mut value: Vec<char> = Vec::new();
    let mut i: usize = 0;
    while i < k
        invariant
            0 <= i <= k <= s.len(),
            key@ == s@.subrange(0, i as int),
        decreases k - i,
    {
        key.push(s[i]);
        proof { assert(s@.subrange(0, i + 1) =~= s@.subrange(0, i as int).push(s@[i as int])); }
        i = i + 1;
    }
    if k < s.len() {
        let mut j: usize = k + 1;
        while j < s.len()
            invariant
                k + 1 <= j <= s.len(),
                value@ == s@.subrange(k + 1, j as int),
            decreases s.len() - j,
        {
            value.push(s[j]);
            proof { assert(s@.subrange(k + 1, j + 1) =~= s@.subrange(k + 1, j as int).push(s@[j as int])); }
            j = j + 1;
        }
    }
    proof { lemma_split_param(s@, k as int); }
    (key, value)
}

/// `split_param` cuts at the first `=`, at index `k` (or keeps the whole
/// piece as key where there is none).
proof fn lemma_split_param(s: Seq<char>, k: int)
    requires
        0 <= k <= s.len(),
        forall|j: int| 0 <= j < k ==> s[j] != '=',
        k < s.len() ==> s[k] == '=',
    ensures
        split_param(s) == (s.subrange(0, k), if k < s.len() { s.subrange(k + 1, s.len() as int) } else { Seq::<char>::empty() }),
    decreases s.len(),
{
    if s.len() == 0 {
        assert(s.subrange(0, k) =~= Seq::<char>::empty());
    } else if s[0] == '=' {
        assert(s.subrange(0, k) =~= Seq::<char>::empty());
    } else {
        let t = s.subrange(1, s.len() as int);
        lemma_split_param(t, k - 1);
        assert(seq![s[0]] + t.subrange(0, k - 1) =~= s.subrange(0, k));
        if k < s.len() {
            assert(t.subrange(k, t.len() as int) =~= s.subrange(k + 1, s.len() as int));
        }
    }
}

/// Whether `a` sorts strictly before `b`.
pub fn chars_lt(a: &Vec<char>, b: &Vec<char>) -> (r: bool)
    ensures
        r == seq_lt(a@, b@),
{
    let mut i: usize = 0;
    assert(a@.subrange(0, a.len() as int) =~= a@);
    assert(b@.subrange(0, b.len() as int) =~= b@);
    while i < a.len() && i < b.len() && a[i] == b[i]
        invariant
            0 <= i <= a.len(),
            i <= b.len(),
            seq_lt(a@, b@) == seq_lt(a@.subrange(i as int, a.len() as int), b@.subrange(i as int, b.len() as int)),
        decreases a.len() - i,
    {
        proof {
            let sa = a@.subrange(i as int, a.len() as int);
            let sb = b@.subrange(i as int, b.len() as int);
            assert(sa.subrange(1, sa.len() as int) =~= a@.subrange(i + 1, a.len() as int));
            assert(sb.subrange(1, sb.len() as int) =~= b@.subrange(i + 1, b.len() as int));
        }
        i = i + 1;
    }
    if i == b.len() {
        false
    } else if i == a.len() {
        true
    } else {
        a[i] < b[i]
    }
}

/// The parameters held in a vector, as values.
pub open spec fn params_view(v: Seq<(Vec<char>, Vec<char>)>) -> Seq<Param> {
    v.map_values(|p: (Vec<char>, Vec<char>)| (p.0@, p.1@))
}

/// Inserts `x` at its stable place by key into a vector sorted by key.
fn insert_sorted(v: &mut Vec<(Vec<char>, Vec<char>)>, x: (Vec<char>, Vec<char>))
    ensures
        params_view(final(v)@) == insert_by_key(params_view(old(v)@), (x.0@, x.1@)),
{
    let ghost s = params_view(v@);
    let ghost xv = (x.0@, x.1@);
    let mut j: usize = v.len();
    assert(s.subrange(0, s.len() as int) =~= s);
    assert(insert_by_key(s, xv) + s.subrange(s.len() as int, s.len() as int) =~= insert_by_key(s, xv));
    let mut go = j > 0 && chars_lt(&x.0, &v[j - 1].0);
    while go
        invariant
            0 <= j <= v.len(),
            params_view(v@) == s,
            xv == (x.0@, x.1@),
            go ==> j > 0 && seq_lt(xv.0, s[j - 1].0),
            !go ==> j == 0 || !seq_lt(xv.0, s[j - 1].0),
            insert_by_key(s, xv) == insert_by_key(s.subrange(0, j as int), xv) + s.subrange(j as int, s.len() as int),
        decreases j,
    {
        proof {
            let pre = s.subrange(0, j as int);
            assert(pre.drop_last() =~= s.subrange(0, j - 1));
            assert(pre.last() == s[j - 1]);
            assert(s[j - 1].0 == v@[j - 1].0@);
            assert(seq_lt(xv.0, pre.last().0));
            assert(insert_by_key(pre, xv) == insert_by_key(pre.drop_last(), xv).push(pre.last()));
            assert(insert_by_key(s.subrange(0, j - 1), xv).push(s[j - 1]) + s.subrange(j as int, s.len() as int)
                =~= insert_by_key(s.subrange(0, j - 1), xv) + s.subrange(j - 1, s.len() as int));
        }
        j = j - 1;
        go = j > 0 && chars_lt(&x.0, &v[j - 1].0);
    }
    proof {
        let pre = s.subrange(0, j as int);
        if j > 0 {
            assert(pre.last() == s[j - 1]);
            assert(s[j - 1].0 == v@[j - 1].0@);
        }
        assert(insert_by_key(pre, xv) =~= pre.push(xv));
    }
    v.insert(j, x);
    assert(params_view(v@) =~= s.subrange(0, j as int).push(xv) + s.subrange(j as int, s.len() as int));
}

} // verus!

verus! {

/// Adds one `&`-separated piece to the sorted surviving parameters.
fn add_piece(sorted: &mut Vec<(Vec<char>, Vec<char>)>, piece: Vec<char>, Ghost(done): Ghost<Seq<Seq<char>>>)
    requires
        params_view(old(sorted)@) == sort_by_key(drop_tracking(params_of(done))),
    ensures
        params_view(final(sorted)@) == sort_by_key(drop_tracking(params_of(done.push(piece@)))),
{
    assert(done.push(piece@).drop_last() =~= done);
    if piece.len() == 0 {
        return;
    }
    let kv = split_piece(&piece);
    let ghost p = (kv.0@, kv.1@);
    let ghost ps = params_of(done);
    assert(params_of(done.push(piece@)) == ps.push(p));
    assert(ps.push(p).drop_last() =~= ps);
    if tracking_key(&kv.0) {
        assert(drop_tracking(ps.push(p)) == drop_tracking(ps));
    } else {
        let ghost t = drop_tracking(ps);
        assert(drop_tracking(ps.push(p)) == t.push(p));
        assert(t.push(p).drop_last() =~= t);
        insert_sorted(sorted, kv);
    }
}

/// The surviving parameters of a query, sorted by key, as vectors.
fn sorted_params(query: &str) -> (r: Vec<(Vec<char>, Vec<char>)>)
    ensures
        params_view(r@) == spec_query_params(query@),
{
    let cs = chars_of(query);
    let mut sorted: Vec<(Vec<char>, Vec<char>)> = Vec::new();
    let mut cur: Vec<char> = Vec::new();
    let mut i: usize = 0;
    assert(params_view(sorted@) =~= Seq::<Param>::empty());
    while i < cs.len()
        invariant
            0 <= i <= cs.len(),
            cs@ == query@,
            params_view(sorted@) == sort_by_key(drop_tracking(params_of(split_fold(cs@.subrange(0, i as int), '&').0))),
            cur@ == split_fold(cs@.subrange(0, i as int), '&').1,
        decreases cs.len() - i,
    {
        let c = cs[i];
        proof {
            assert(cs@.subrange(0, i + 1).drop_last() =~= cs@.subrange(0, i as int));
        }
        if c == '&' {
            let piece = cur;
            cur = Vec::new();
            add_piece(&mut sorted, piece, Ghost(split_fold(cs@.subrange(0, i as int), '&').0));
        } else {
            cur.push(c);
        }
        i = i + 1;
    }
    assert(cs@.subrange(0, cs.len() as int) =~= cs@);
    add_piece(&mut sorted, cur, Ghost(split_fold(cs@, '&').0));
    sorted
}

/// Appends the characters of `v`.
fn push_chars(out: &mut String, v: &Vec<char>)
    ensures
        final(out)@ == old(out)@ + v@,
{
    let mut i: usize = 0;
    while i < v.len()
        invariant
            0 <= i <= v.len(),
            out@ == old(out)@ + v@.subrange(0, i as int),
        decreases v.len() - i,
    {
        push_char(out, v[i]);
        proof {
            assert(old(out)@ + v@.subrange(0, i + 1) =~= (old(out)@ + v@.subrange(0, i as int)).push(v@[i as int]));
        }
        i = i + 1;
    }
    assert(v@.subrange(0, v.len() as int) =~= v@);
}

/// `k=v` pieces joined by `&`.
fn render_query(ps: &Vec<(Vec<char>, Vec<char>)>) -> (r: String)
    ensures
        r@ == render_params(params_view(ps@)),
{
    let mut out = String::new();
    let mut i: usize = 0;
    while i < ps.len()
        invariant
            0 <= i <= ps.len(),
            out@ == render_params(params_view(ps@).subrange(0, i as int)),
        decreases ps.len() - i,
    {
        let ghost before = out@;
        if i > 0 {
            push_char(&mut out, '&');
        }
        push_chars(&mut out, &ps[i].0);
        push_char(&mut out, '=');
        push_chars(&mut out, &ps[i].1);
        proof {
            let pv = params_view(ps@);
            let sub = pv.subrange(0, i + 1);
            assert(sub.drop_last() =~= pv.subrange(0, i as int));
            assert(sub.last() == (ps@[i as int].0@, ps@[i as int].1@));
            if i == 0 {
                assert(out@ =~= render_params(sub));
            } else {
                assert(out@ =~= render_params(sub));
            }
        }
        i = i + 1;
    }
    assert(params_view(ps@).subrange(0, ps.len() as int) =~= params_view(ps@));
    out
}

/// The pairs of strings held in a vector, as values.
pub open spec fn string_params_view(v: Seq<(String, String)>) -> Seq<Param> {
    v.map_values(|p: (String, String)| (p.0@, p.1@))
}

/// The query's parameters without tracking parameters, sorted by key (equal
/// keys keep their order); keys and values as they stand in the query.
pub fn filter_and_sort_query_params(query: &str) -> (r: Vec<(String, String)>)
    ensures
        string_params_view(r@) == spec_query_params(query@),
{
    let ps = sorted_params(query);
    let mut r: Vec<(String, String)> = Vec::new();
    let mut i: usize = 0;
    while i < ps.len()
        invariant
            0 <= i <= ps.len(),
            r.len() == i,
            string_params_view(r@) == params_view(ps@).subrange(0, i as int),
        decreases ps.len() - i,
    {
        let k = crate::text::string_of(&ps[i].0);
        let v = crate::text::string_of(&ps[i].1);
        let ghost before = r@;
        assert((k@, v@) == params_view(ps@)[i as int]);
        r.push((k, v));
        proof {
            assert(string_params_view(r@) =~= params_view(ps@).subrange(0, i + 1));
        }
        i = i + 1;
    }
    assert(params_view(ps@).subrange(0, ps.len() as int) =~= params_view(ps@));
    r
}

/// The canonical query (see `spec_normalize_query`).
pub fn normalize_query(query: &str) -> (r: Option<String>)
    ensures
        opt_chars(r) == spec_normalize_query(query@),
{
    let ps = sorted_params(query);
    if ps.len() == 0 {
        None
    } else {
        Some(render_query(&ps))
    }
}

/// The characters of an optional string.
pub open spec fn opt_chars(o: Option<String>) -> Option<Seq<char>> {
    match o {
        Some(s) => Some(s@),
        None => None,
    }
}

/// No key holds `=` or `&`, no value holds `&`, no key is a tracking key.
pub open spec fn clean_params(ps: Seq<Param>) -> bool {
    forall|i: int| 0 <= i < ps.len() ==> {
        &&& !(#[trigger] ps[i]).0.contains('=')
        &&& !ps[i].0.contains('&')
        &&& !ps[i].1.contains('&')
        &&& !spec_is_tracking_param(ps[i].0)
    }
}

/// Keys never decrease from one parameter to the next.
pub open spec fn key_sorted(ps: Seq<Param>) -> bool {
    forall|i: int| 0 <= i < ps.len() - 1 ==> !seq_lt(#[trigger] ps[i + 1].0, ps[i].0)
}

/// The `key=value` piece of a parameter.
pub open spec fn piece_of(p: Param) -> Seq<char> {
    p.0 + seq!['='] + p.1
}

proof fn lemma_seq_lt_asymmetric(a: Seq<char>, b: Seq<char>)
    requires
        seq_lt(a, b),
    ensures
        !seq_lt(b, a),
    decreases a.len(),
{
    if a.len() > 0 && b.len() > 0 && a[0] == b[0] {
        lemma_seq_lt_asymmetric(a.subrange(1, a.len() as int), b.subrange(1, b.len() as int));
    }
}

proof fn lemma_no_char_sub(s: Seq<char>, c: char, a: int, b: int)
    requires
        !s.contains(c),
        0 <= a <= b <= s.len(),
    ensures
        !s.subrange(a, b).contains(c),
{
    if s.subrange(a, b).contains(c) {
        let i = choose|i: int| 0 <= i < b - a && s.subrange(a, b)[i] == c;
        assert(s[a + i] == c);
    }
}

/// The key of a piece has no `=`; key and value are parts of the piece.
proof fn lemma_split_param_parts(s: Seq<char>)
    ensures
        !split_param(s).0.contains('='),
        !s.contains('&') ==> !split_param(s).0.contains('&') && !split_param(s).1.contains('&'),
    decreases s.len(),
{
    if s.len() > 0 {
        let t = s.subrange(1, s.len() as int);
        if s[0] == '=' {
            assert(!Seq::<char>::empty().contains('='));
            if !s.contains('&') {
                lemma_no_char_sub(s, '&', 1, s.len() as int);
                assert(!Seq::<char>::empty().contains('&'));
            }
        } else {
            lemma_split_param_parts(t);
            let k = seq![s[0]] + split_param(t).0;
            assert(!k.contains('=')) by {
                if k.contains('=') {
                    let i = choose|i: int| 0 <= i < k.len() && k[i] == '=';
                    if i > 0 {
                        assert(split_param(t).0[i - 1] == '=');
                    }
                }
            }
            if !s.contains('&') {
                lemma_no_char_sub(s, '&', 1, s.len() as int);
                lemma_split_param_parts(t);
                assert(s[0] != '&') by {
                    assert(s.contains(s[0]));
                }
                assert(!k.contains('&')) by {
                    if k.contains('&') {
                        let i = choose|i: int| 0 <= i < k.len() && k[i] == '&';
                        if i > 0 {
                            assert(split_param(t).0[i - 1] == '&');
                        }
                    }
                }
            }
        }
    }
}

/// The parameters of pieces without `&` have clean keys and values.
proof fn lemma_params_of_clean(pieces: Seq<Seq<char>>)
    requires
        forall|i: int| 0 <= i < pieces.len() ==> !(#[trigger] pieces[i]).contains('&'),
    ensures
        forall|i: int| 0 <= i < params_of(pieces).len() ==> {
            &&& !(#[trigger] params_of(pieces)[i]).0.contains('=')
            &&& !params_of(pieces)[i].0.contains('&')
            &&& !params_of(pieces)[i].1.contains('&')
        },
    decreases pieces.len(),
{
    if pieces.len() > 0 {
        let init = pieces.drop_last();
        assert forall|i: int| 0 <= i < init.len() implies !(#[trigger] init[i]).contains('&') by {
            assert(init[i] == pieces[i]);
        }
        lemma_params_of_clean(init);
        assert(!pieces.last().contains('&')) by {
            assert(pieces[pieces.len() - 1] == pieces.last());
        }
        lemma_split_param_parts(pieces.last());
        let ps = params_of(pieces);
        let earlier = params_of(init);
        assert forall|i: int| 0 <= i < ps.len() implies {
            &&& !(#[trigger] ps[i]).0.contains('=')
            &&& !ps[i].0.contains('&')
            &&& !ps[i].1.contains('&')
        } by {
            if i < earlier.len() {
                assert(ps[i] == earlier[i]);
            }
        }
    }
}

/// Dropping tracking parameters keeps the others, in order, and only them.
proof fn lemma_drop_tracking(ps: Seq<Param>)
    ensures
        forall|i: int| 0 <= i < drop_tracking(ps).len() ==> ps.contains(#[trigger] drop_tracking(ps)[i])
            && !spec_is_tracking_param(drop_tracking(ps)[i].0),
        (forall|i: int| 0 <= i < ps.len() ==> !spec_is_tracking_param(#[trigger] ps[i].0)) ==> drop_tracking(ps) == ps,
    decreases ps.len(),
{
    if ps.len() > 0 {
        let init = ps.drop_last();
        lemma_drop_tracking(init);
        let d = drop_tracking(ps);
        let d0 = drop_tracking(init);
        assert forall|i: int| 0 <= i < d.len() implies ps.contains(#[trigger] d[i]) && !spec_is_tracking_param(d[i].0) by {
            if i < d0.len() {
                assert(d[i] == d0[i]);
                let k = choose|k: int| 0 <= k < init.len() && init[k] == d0[i];
                assert(ps[k] == init[k]);
            } else {
                assert(d[i] == ps.last());
                assert(ps[ps.len() - 1] == ps.last());
            }
        }
        if forall|i: int| 0 <= i < ps.len() ==> !spec_is_tracking_param(#[trigger] ps[i].0) {
            assert forall|i: int| 0 <= i < init.len() implies !spec_is_tracking_param(#[trigger] init[i].0) by {
                assert(init[i] == ps[i]);
            }
            assert(!spec_is_tracking_param(ps[ps.len() - 1].0));
            assert(init.push(ps.last()) =~= ps);
        }
    }
}

/// Inserting into a key-sorted sequence keeps it sorted, adds exactly `x`,
/// and ends with `x` or with the old last element.
proof fn lemma_insert_sorted(s: Seq<Param>, x: Param)
    requires
        key_sorted(s),
    ensures
        key_sorted(insert_by_key(s, x)),
        insert_by_key(s, x).len() == s.len() + 1,
        insert_by_key(s, x).last() == x || (s.len() > 0 && insert_by_key(s, x).last() == s.last()),
        forall|i: int| 0 <= i < insert_by_key(s, x).len() ==> (#[trigger] insert_by_key(s, x)[i] == x || s.contains(insert_by_key(s, x)[i])),
    decreases s.len(),
{
    let r = insert_by_key(s, x);
    if s.len() == 0 {
    } else if seq_lt(x.0, s.last().0) {
        let init = s.drop_last();
        assert forall|i: int| 0 <= i < init.len() - 1 implies !seq_lt(#[trigger] init[i + 1].0, init[i].0) by {
            assert(init[i + 1] == s[i + 1]);
            assert(init[i] == s[i]);
        }
        lemma_insert_sorted(init, x);
        let r0 = insert_by_key(init, x);
        assert forall|i: int| 0 <= i < r.len() - 1 implies !seq_lt(#[trigger] r[i + 1].0, r[i].0) by {
            if i < r0.len() - 1 {
                assert(r[i] == r0[i]);
                assert(r[i + 1] == r0[i + 1]);
            } else {
                assert(r[i] == r0.last());
                assert(r[i + 1] == s.last());
                if r0.last() == x {
                    lemma_seq_lt_asymmetric(x.0, s.last().0);
                } else {
                    assert(init.len() > 0);
                    assert(s[s.len() - 2] == init.last());
                    assert(!seq_lt(s[s.len() - 2 + 1].0, s[s.len() - 2].0));
                }
            }
        }
        assert forall|i: int| 0 <= i < r.len() implies (#[trigger] r[i] == x || s.contains(r[i])) by {
            if i < r0.len() {
                assert(r[i] == r0[i]);
                if r0[i] != x {
                    let k = choose|k: int| 0 <= k < init.len() && init[k] == r0[i];
                    assert(s[k] == init[k]);
                }
            } else {
                assert(s[s.len() - 1] == s.last());
            }
        }
    } else {
        assert forall|i: int| 0 <= i < r.len() - 1 implies !seq_lt(#[trigger] r[i + 1].0, r[i].0) by {
            if i < s.len() - 1 {
                assert(r[i] == s[i]);
                assert(r[i + 1] == s[i + 1]);
            }
        }
        assert forall|i: int| 0 <= i < r.len() implies (#[trigger] r[i] == x || s.contains(r[i])) by {
            if i < s.len() {
                assert(r[i] == s[i]);
            }
        }
    }
}

/// Sorting yields a key-sorted sequence of the same elements; a sorted
/// sequence sorts to itself.
proof fn lemma_sort_by_key(s: Seq<Param>)
    ensures
        key_sorted(sort_by_key(s)),
        sort_by_key(s).len() == s.len(),
        forall|i: int| 0 <= i < sort_by_key(s).len() ==> s.contains(#[trigger] sort_by_key(s)[i]),
        key_sorted(s) ==> sort_by_key(s) == s,
    decreases s.len(),
{
    if s.len() > 0 {
        let init = s.drop_last();
        lemma_sort_by_key(init);
        let t = sort_by_key(init);
        lemma_insert_sorted(t, s.last());
        let r = sort_by_key(s);
        assert forall|i: int| 0 <= i < r.len() implies s.contains(#[trigger] r[i]) by {
            if r[i] == s.last() {
                assert(s[s.len() - 1] == s.last());
            } else {
                let k = choose|k: int| 0 <= k < t.len() && t[k] == r[i];
                let m = choose|m: int| 0 <= m < init.len() && init[m] == t[k];
                assert(s[m] == init[m]);
            }
        }
        if key_sorted(s) {
            assert forall|i: int| 0 <= i < init.len() - 1 implies !seq_lt(#[trigger] init[i + 1].0, init[i].0) by {
                assert(init[i + 1] == s[i + 1]);
                assert(init[i] == s[i]);
            }
            assert(t == init);
            if init.len() > 0 {
                assert(init.last() == s[s.len() - 2]);
                assert(!seq_lt(s[s.len() - 2 + 1].0, s[s.len() - 2].0));
            }
            assert(init.push(s.last()) =~= s);
        }
    }
}

/// `k=v` splits back into `(k, v)` when the key has no `=`.
proof fn lemma_split_param_piece(k: Seq<char>, v: Seq<char>)
    requires
        !k.contains('='),
    ensures
        split_param(k + seq!['='] + v) == (k, v),
    decreases k.len(),
{
    let s = k + seq!['='] + v;
    if k.len() == 0 {
        assert(s[0] == '=');
        assert(s.subrange(1, s.len() as int) =~= v);
    } else {
        let k1 = k.subrange(1, k.len() as int);
        lemma_no_char_sub(k, '=', 1, k.len() as int);
        lemma_split_param_piece(k1, v);
        assert(s[0] == k[0]);
        assert(k[0] != '=') by {
            assert(k.contains(k[0]));
        }
        assert(s.subrange(1, s.len() as int) =~= k1 + seq!['='] + v);
        assert(seq![k[0]] + k1 =~= k);
    }
}

/// A piece of clean parameters holds no `&`.
proof fn lemma_piece_clean(p: Param)
    requires
        !p.0.contains('&'),
        !p.1.contains('&'),
    ensures
        !piece_of(p).contains('&'),
{
    let s = piece_of(p);
    if s.contains('&') {
        let i = choose|i: int| 0 <= i < s.len() && s[i] == '&';
        if i < p.0.len() {
            assert(p.0[i] == '&');
        } else if i > p.0.len() {
            assert(p.1[i - p.0.len() - 1] == '&');
        }
    }
}

/// Splitting rendered parameters at `&` gives their pieces.
proof fn lemma_split_rendered(ps: Seq<Param>)
    requires
        ps.len() > 0,
        clean_params(ps),
    ensures
        split_on(render_params(ps), '&') == ps.map_values(|p: Param| piece_of(p)),
    decreases ps.len(),
{
    let last = ps.last();
    assert(clean_params(ps) ==> !ps[ps.len() - 1].0.contains('&') && !ps[ps.len() - 1].1.contains('&'));
    lemma_piece_clean(last);
    if ps.len() == 1 {
        assert(render_params(ps) == piece_of(ps[0]));
        lemma_split_fold_plain(Seq::<char>::empty(), piece_of(last), '&');
        assert(Seq::<char>::empty() + piece_of(last) =~= piece_of(last));
        assert(split_fold(Seq::<char>::empty(), '&') == (Seq::<Seq<char>>::empty(), Seq::<char>::empty()));
        assert(ps.map_values(|p: Param| piece_of(p)) =~= seq![piece_of(last)]);
    } else {
        let init = ps.drop_last();
        assert(clean_params(init)) by {
            assert forall|i: int| 0 <= i < init.len() implies {
                &&& !(#[trigger] init[i]).0.contains('=')
                &&& !init[i].0.contains('&')
                &&& !init[i].1.contains('&')
                &&& !spec_is_tracking_param(init[i].0)
            } by {
                assert(init[i] == ps[i]);
            }
        }
        lemma_split_rendered(init);
        let prefix = render_params(init).push('&');
        assert(render_params(ps) =~= prefix + piece_of(last));
        lemma_split_fold_plain(prefix, piece_of(last), '&');
        assert(prefix.drop_last() =~= render_params(init));
        assert(Seq::<char>::empty() + piece_of(last) =~= piece_of(last));
        let f = split_fold(render_params(init), '&');
        assert(split_fold(prefix, '&') == (f.0.push(f.1), Seq::<char>::empty()));
        assert(ps.map_values(|p: Param| piece_of(p)) =~= init.map_values(|p: Param| piece_of(p)).push(piece_of(last)));
    }
}

/// Reading back the pieces of clean parameters gives the parameters.
proof fn lemma_params_of_pieces(ps: Seq<Param>)
    requires
        clean_params(ps),
    ensures
        params_of(ps.map_values(|p: Param| piece_of(p))) == ps,
    decreases ps.len(),
{
    let pieces = ps.map_values(|p: Param| piece_of(p));
    if ps.len() > 0 {
        let init = ps.drop_last();
        assert(clean_params(init)) by {
            assert forall|i: int| 0 <= i < init.len() implies {
                &&& !(#[trigger] init[i]).0.contains('=')
                &&& !init[i].0.contains('&')
                &&& !init[i].1.contains('&')
                &&& !spec_is_tracking_param(init[i].0)
            } by {
                assert(init[i] == ps[i]);
            }
        }
        lemma_params_of_pieces(init);
        assert(pieces.drop_last() =~= init.map_values(|p: Param| piece_of(p)));
        assert(pieces.last() == piece_of(ps.last()));
        assert(!ps[ps.len() - 1].0.contains('='));
        lemma_split_param_piece(ps.last().0, ps.last().1);
        assert(piece_of(ps.last()).len() > 0);
        assert(init.push(ps.last()) =~= ps);
    }
}

/// The surviving parameters of any query are clean and sorted by key.
proof fn lemma_query_params_clean(q: Seq<char>)
    ensures
        clean_params(spec_query_params(q)),
        key_sorted(spec_query_params(q)),
{
    let pieces = split_on(q, '&');
    lemma_split_fold_clean(q, '&');
    assert forall|i: int| 0 <= i < pieces.len() implies !(#[trigger] pieces[i]).contains('&') by {
        if i < split_fold(q, '&').0.len() {
            assert(pieces[i] == split_fold(q, '&').0[i]);
        }
    }
    lemma_params_of_clean(pieces);
    let ps = params_of(pieces);
    let d = drop_tracking(ps);
    lemma_drop_tracking(ps);
    lemma_sort_by_key(d);
    let r = sort_by_key(d);
    assert forall|i: int| 0 <= i < r.len() implies {
        &&& !(#[trigger] r[i]).0.contains('=')
        &&& !r[i].0.contains('&')
        &&& !r[i].1.contains('&')
        &&& !spec_is_tracking_param(r[i].0)
    } by {
        let k = choose|k: int| 0 <= k < d.len() && d[k] == r[i];
        let m = choose|m: int| 0 <= m < ps.len() && ps[m] == d[k];
    }
}

/// Query canonicalization is idempotent: the canonical query, canonicalized
/// again, is unchanged.
pub proof fn lemma_normalize_query_idempotent(q: Seq<char>)
    ensures
        match spec_normalize_query(q) {
            Some(q1) => spec_normalize_query(q1) == Some(q1),
            None => true,
        },
{
    let ps = spec_query_params(q);
    if ps.len() > 0 {
        lemma_query_params_clean(q);
        let q1 = render_params(ps);
        lemma_split_rendered(ps);
        lemma_params_of_pieces(ps);
        lemma_drop_tracking(ps);
        assert forall|i: int| 0 <= i < ps.len() implies !spec_is_tracking_param(#[trigger] ps[i].0) by {}
        lemma_sort_by_key(ps);
        assert(spec_query_params(q1) == ps);
    }
}

} // verus!
