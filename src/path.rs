//! Path canonicalization: dot segments resolved, empty segments dropped.
use vstd::prelude::*;
use crate::text::{chars_of, push_char};

verus! {

/// Splitting `s` at `sep`, left to right: the finished pieces and the piece
/// under way.
pub open spec fn split_fold(s: Seq<char>, sep: char) -> (Seq<Seq<char>>, Seq<char>)
    decreases s.len(),
{
    if s.len() == 0 {
        (Seq::empty(), Seq::empty())
    } else {
        let (d, c) = split_fold(s.drop_last(), sep);
        if s.last() == sep {
            (d.push(c), Seq::empty())
        } else {
            (d, c.push(s.last()))
        }
    }
}

/// The pieces of `s` between occurrences of `sep` (as `str::split` gives them).
pub open spec fn split_on(s: Seq<char>, sep: char) -> Seq<Seq<char>> {
    split_fold(s, sep).0.push(split_fold(s, sep).1)
}

/// The segment `.`.
pub open spec fn dot() -> Seq<char> {
    seq!['.']
}

/// The segment `..`.
pub open spec fn dot_dot() -> Seq<char> {
    seq!['.', '.']
}

/// One segment applied to the resolved segments so far: empty and `.` are
/// dropped, `..` removes the last segment if there is one.
pub open spec fn resolve_step(stack: Seq<Seq<char>>, seg: Seq<char>) -> Seq<Seq<char>> {
    if seg.len() == 0 || seg == dot() {
        stack
    } else if seg == dot_dot() {
        if stack.len() > 0 {
            stack.drop_last()
        } else {
            stack
        }
    } else {
        stack.push(seg)
    }
}

/// The segments applied in order.
pub open spec fn resolve_segments(segs: Seq<Seq<char>>) -> Seq<Seq<char>>
    decreases segs.len(),
{
    if segs.len() == 0 {
        Seq::empty()
    } else {
        resolve_step(resolve_segments(segs.drop_last()), segs.last())
    }
}

/// `/seg` for each segment, in order.
pub open spec fn render_segments(segs: Seq<Seq<char>>) -> Seq<char>
    decreases segs.len(),
{
    if segs.len() == 0 {
        Seq::empty()
    } else {
        render_segments(segs.drop_last()) + seq!['/'] + segs.last()
    }
}

/// The canonical path: the resolved segments each after a `/`, or `/` alone
/// where none remain.
pub open spec fn spec_normalize_path(p: Seq<char>) -> Seq<char> {
    let r = resolve_segments(split_on(p, '/'));
    if r.len() == 0 {
        seq!['/']
    } else {
        render_segments(r)
    }
}

fn resolve_push(stack: &mut Vec<Vec<char>>, seg: Vec<char>)
    ensures
        final(stack).deep_view() == resolve_step(old(stack).deep_view(), seg@),
{
    let ghost old_dv = stack.deep_view();
    let is_dot = seg.len() == 1 && seg[0] == '.';
    let is_dot_dot = seg.len() == 2 && seg[0] == '.' && seg[1] == '.';
    proof {
        if seg@ == dot() {
            assert(seg@[0] == '.');
        }
        if is_dot {
            assert(seg@ =~= dot());
        }
        if seg@ == dot_dot() {
            assert(seg@[0] == '.' && seg@[1] == '.');
        }
        if is_dot_dot {
            assert(seg@ =~= dot_dot());
        }
    }
    if seg.len() == 0 || is_dot {
    } else if is_dot_dot {
        if stack.len() > 0 {
            stack.pop();
            assert(stack.deep_view() =~= old_dv.drop_last());
        }
    } else {
        let ghost sv = seg@;
        assert(seg.deep_view() =~= sv);
        stack.push(seg);
        assert(stack.deep_view() =~= old_dv.push(sv));
    }
}

/// Appends `/seg` for each segment.
fn render_into(out: &mut String, segs: &Vec<Vec<char>>)
    ensures
        final(out)@ == old(out)@ + render_segments(segs.deep_view()),
{
    let mut i: usize = 0;
    while i < segs.len()
        invariant
            0 <= i <= segs.len(),
            out@ == old(out)@ + render_segments(segs.deep_view().subrange(0, i as int)),
        decreases segs.len() - i,
    {
        let ghost before = out@;
        push_char(out, '/');
        let seg = &segs[i];
        let mut j: usize = 0;
        while j < seg.len()
            invariant
                0 <= j <= seg.len(),
                out@ == before.push('/') + seg@.subrange(0, j as int),
            decreases seg.len() - j,
        {
            push_char(out, seg[j]);
            proof {
                assert(before.push('/') + seg@.subrange(0, j + 1) =~= (before.push('/') + seg@.subrange(0, j as int)).push(seg@[j as int]));
            }
            j = j + 1;
        }
        proof {
            let dv = segs.deep_view();
            assert(dv.subrange(0, i + 1).drop_last() =~= dv.subrange(0, i as int));
            assert(dv[i as int] == seg@);
            assert(seg@.subrange(0, seg@.len() as int) =~= seg@);
            assert(out@ =~= old(out)@ + render_segments(dv.subrange(0, i + 1)));
        }
        i = i + 1;
    }
    assert(segs.deep_view().subrange(0, segs.len() as int) =~= segs.deep_view());
}

/// The canonical form of a path (see `spec_normalize_path`).
pub fn normalize_path(path: &str) -> (r: String)
    ensures
        r@ == spec_normalize_path(path@),
{
    let cs = chars_of(path);
    let mut stack: Vec<Vec<char>> = Vec::new();
    let mut cur: Vec<char> = Vec::new();
    let mut i: usize = 0;
    while i < cs.len()
        invariant
            0 <= i <= cs.len(),
            cs@ == path@,
            stack.deep_view() == resolve_segments(split_fold(cs@.subrange(0, i as int), '/').0),
            cur@ == split_fold(cs@.subrange(0, i as int), '/').1,
        decreases cs.len() - i,
    {
        let c = cs[i];
        proof {
            assert(cs@.subrange(0, i + 1).drop_last() =~= cs@.subrange(0, i as int));
        }
        if c == '/' {
            let seg = cur;
            cur = Vec::new();
            resolve_push(&mut stack, seg);
            proof {
                let d = split_fold(cs@.subrange(0, i as int), '/').0;
                assert(d.push(seg@).drop_last() =~= d);
            }
        } else {
            cur.push(c);
        }
        i = i + 1;
    }
    let ghost fold = split_fold(cs@, '/');
    assert(cs@.subrange(0, cs.len() as int) =~= cs@);
    resolve_push(&mut stack, cur);
    proof {
        assert(split_on(path@, '/').drop_last() =~= fold.0);
    }
    let mut out = String::new();
    if stack.len() == 0 {
        push_char(&mut out, '/');
        assert(out@ =~= seq!['/']);
    } else {
        render_into(&mut out, &stack);
        assert(out@ =~= render_segments(stack.deep_view()));
    }
    out
}

/// A segment that survives resolution: non-empty, not `.` or `..`, no `/`.
pub open spec fn regular_segment(seg: Seq<char>) -> bool {
    seg.len() > 0 && seg != dot() && seg != dot_dot() && !seg.contains('/')
}

/// Appending text without the separator extends the piece under way.
pub proof fn lemma_split_fold_plain(s: Seq<char>, t: Seq<char>, sep: char)
    requires
        !t.contains(sep),
    ensures
        split_fold(s + t, sep) == (split_fold(s, sep).0, split_fold(s, sep).1 + t),
    decreases t.len(),
{
    if t.len() == 0 {
        assert(s + t =~= s);
        assert(split_fold(s, sep).1 + t =~= split_fold(s, sep).1);
    } else {
        let t0 = t.drop_last();
        assert(!t0.contains(sep)) by {
            if t0.contains(sep) {
                let i = choose|i: int| 0 <= i < t0.len() && t0[i] == sep;
                assert(t[i] == sep);
            }
        }
        lemma_split_fold_plain(s, t0, sep);
        assert((s + t).drop_last() =~= s + t0);
        assert((s + t).last() == t.last());
        assert(t.last() != sep) by {
            assert(t[t.len() - 1] == t.last());
        }
        assert(split_fold(s, sep).1 + t =~= (split_fold(s, sep).1 + t0).push(t.last()));
    }
}

/// Pieces made by splitting never hold the separator.
pub proof fn lemma_split_fold_clean(s: Seq<char>, sep: char)
    ensures
        !split_fold(s, sep).1.contains(sep),
        forall|i: int| 0 <= i < split_fold(s, sep).0.len() ==> !(#[trigger] split_fold(s, sep).0[i]).contains(sep),
    decreases s.len(),
{
    if s.len() > 0 {
        lemma_split_fold_clean(s.drop_last(), sep);
        let (d, c) = split_fold(s.drop_last(), sep);
        if s.last() != sep {
            assert(!c.push(s.last()).contains(sep)) by {
                if c.push(s.last()).contains(sep) {
                    let i = choose|i: int| 0 <= i < c.push(s.last()).len() && c.push(s.last())[i] == sep;
                    if i < c.len() {
                        assert(c[i] == sep);
                    }
                }
            }
        } else {
            assert forall|i: int| 0 <= i < d.push(c).len() implies !(#[trigger] d.push(c)[i]).contains(sep) by {
                if i < d.len() {
                    assert(d.push(c)[i] == d[i]);
                }
            }
            assert(!Seq::<char>::empty().contains(sep));
        }
    }
}

/// Resolution yields regular segments only, when no input segment holds `/`.
proof fn lemma_resolve_regular(segs: Seq<Seq<char>>)
    requires
        forall|i: int| 0 <= i < segs.len() ==> !(#[trigger] segs[i]).contains('/'),
    ensures
        forall|i: int| 0 <= i < resolve_segments(segs).len() ==> regular_segment(#[trigger] resolve_segments(segs)[i]),
    decreases segs.len(),
{
    if segs.len() > 0 {
        let init = segs.drop_last();
        assert forall|i: int| 0 <= i < init.len() implies !(#[trigger] init[i]).contains('/') by {
            assert(init[i] == segs[i]);
        }
        lemma_resolve_regular(init);
        let r0 = resolve_segments(init);
        let seg = segs.last();
        assert(!seg.contains('/')) by {
            assert(segs[segs.len() - 1] == seg);
        }
        let r = resolve_segments(segs);
        assert forall|i: int| 0 <= i < r.len() implies regular_segment(#[trigger] r[i]) by {
            if seg.len() == 0 || seg == dot() {
            } else if seg == dot_dot() {
                if r0.len() > 0 {
                    assert(r[i] == r0[i]);
                }
            } else {
                if i < r0.len() {
                    assert(r[i] == r0[i]);
                }
            }
        }
    }
}

/// Splitting a rendered path gives an empty first piece, then the segments.
proof fn lemma_split_render(r: Seq<Seq<char>>)
    requires
        r.len() > 0,
        forall|i: int| 0 <= i < r.len() ==> regular_segment(#[trigger] r[i]),
    ensures
        split_fold(render_segments(r), '/') == (seq![Seq::<char>::empty()] + r.drop_last(), r.last()),
    decreases r.len(),
{
    let init = r.drop_last();
    let prefix = render_segments(init).push('/');
    assert(render_segments(r) == render_segments(init) + seq!['/'] + r.last());
    assert(render_segments(init) + seq!['/'] =~= prefix);
    assert(regular_segment(r[r.len() - 1]));
    lemma_split_fold_plain(prefix, r.last(), '/');
    assert(prefix.drop_last() =~= render_segments(init));
    if init.len() == 0 {
        assert(render_segments(init) =~= Seq::<char>::empty());
        assert(prefix =~= seq!['/']);
        lemma_split_slash();
        assert(Seq::<char>::empty() + r.last() =~= r.last());
        assert(seq![Seq::<char>::empty()] + r.drop_last() =~= seq![Seq::<char>::empty()]);
    } else {
        assert forall|i: int| 0 <= i < init.len() implies regular_segment(#[trigger] init[i]) by {
            assert(init[i] == r[i]);
        }
        lemma_split_render(init);
        assert(Seq::<char>::empty() + r.last() =~= r.last());
        assert((seq![Seq::<char>::empty()] + init.drop_last()).push(init.last()) =~= seq![Seq::<char>::empty()] + r.drop_last());
    }
}

/// Splitting `/` gives one empty piece and an empty piece under way.
proof fn lemma_split_slash()
    ensures
        split_fold(seq!['/'], '/') == (seq![Seq::<char>::empty()], Seq::<char>::empty()),
{
    let slash = seq!['/'];
    assert(slash.drop_last() =~= Seq::<char>::empty());
    assert(split_fold(Seq::<char>::empty(), '/') == (Seq::<Seq<char>>::empty(), Seq::<char>::empty()));
    assert(Seq::<Seq<char>>::empty().push(Seq::<char>::empty()) =~= seq![Seq::<char>::empty()]);
}

/// Resolving a single empty piece gives nothing.
proof fn lemma_resolve_one_empty()
    ensures
        resolve_segments(seq![Seq::<char>::empty()]) == Seq::<Seq<char>>::empty(),
{
    let one = seq![Seq::<char>::empty()];
    assert(one.drop_last() =~= Seq::<Seq<char>>::empty());
    assert(resolve_segments(one.drop_last()) == Seq::<Seq<char>>::empty());
    assert(one.last().len() == 0);
}

/// Resolving an empty piece followed by regular segments gives the segments.
proof fn lemma_resolve_rendered(r: Seq<Seq<char>>)
    requires
        forall|i: int| 0 <= i < r.len() ==> regular_segment(#[trigger] r[i]),
    ensures
        resolve_segments(seq![Seq::<char>::empty()] + r) == r,
    decreases r.len(),
{
    let segs = seq![Seq::<char>::empty()] + r;
    if r.len() == 0 {
        assert(segs =~= seq![Seq::<char>::empty()]);
        lemma_resolve_one_empty();
        assert(r =~= Seq::<Seq<char>>::empty());
    } else {
        let init = r.drop_last();
        assert forall|i: int| 0 <= i < init.len() implies regular_segment(#[trigger] init[i]) by {
            assert(init[i] == r[i]);
        }
        lemma_resolve_rendered(init);
        assert(segs.drop_last() =~= seq![Seq::<char>::empty()] + init);
        assert(segs.last() == r.last());
        assert(regular_segment(r[r.len() - 1]));
        assert(init.push(r.last()) =~= r);
    }
}

/// Path canonicalization is idempotent.
pub proof fn lemma_normalize_path_idempotent(p: Seq<char>)
    ensures
        spec_normalize_path(spec_normalize_path(p)) == spec_normalize_path(p),
{
    let segs = split_on(p, '/');
    lemma_split_fold_clean(p, '/');
    assert forall|i: int| 0 <= i < segs.len() implies !(#[trigger] segs[i]).contains('/') by {
        if i < split_fold(p, '/').0.len() {
            assert(segs[i] == split_fold(p, '/').0[i]);
        }
    }
    lemma_resolve_regular(segs);
    let r = resolve_segments(segs);
    if r.len() == 0 {
        let slash = seq!['/'];
        lemma_split_slash();
        lemma_resolve_one_empty();
        let two = split_on(slash, '/');
        assert(two =~= seq![Seq::<char>::empty(), Seq::<char>::empty()]);
        assert(two.drop_last() =~= seq![Seq::<char>::empty()]);
        assert(two.last().len() == 0);
        assert(resolve_segments(two) == resolve_step(resolve_segments(two.drop_last()), two.last()));
        assert(spec_normalize_path(p) == slash);
    } else {
        lemma_split_render(r);
        let q = render_segments(r);
        assert(split_on(q, '/') =~= seq![Seq::<char>::empty()] + r);
        lemma_resolve_rendered(r);
    }
}

} // verus!
