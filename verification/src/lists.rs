//! Sequences built item by item, as loops build them.

use vstd::prelude::*;

verus! {

/// What `f` gives for every item, if it gives something for each.
pub open spec fn all_of<A, B>(s: Seq<A>, f: spec_fn(A) -> Option<B>) -> Option<Seq<B>>
    decreases s.len(),
{
    if s.len() == 0 {
        Some(Seq::empty())
    } else {
        match (all_of(s.drop_last(), f), f(s.last())) {
            (Some(v), Some(b)) => Some(v.push(b)),
            _ => None,
        }
    }
}

/// One item without a result leaves none for the whole.
pub proof fn lemma_all_of_fails<A, B>(s: Seq<A>, f: spec_fn(A) -> Option<B>, n: int)
    requires
        0 <= n <= s.len(),
        all_of(s.take(n), f) is None,
    ensures
        all_of(s, f) is None,
    decreases s.len() - n,
{
    if n == s.len() {
        assert(s.take(n) =~= s);
    } else {
        assert(s.take(n + 1).drop_last() =~= s.take(n));
        lemma_all_of_fails(s, f, n + 1);
    }
}

/// What `f` gives for the items, one behind the other.
pub open spec fn flat<A, B>(s: Seq<A>, f: spec_fn(A) -> Seq<B>) -> Seq<B>
    decreases s.len(),
{
    if s.len() == 0 {
        Seq::empty()
    } else {
        flat(s.drop_last(), f) + f(s.last())
    }
}

/// A result that grows with each item and stops at the first error.
pub open spec fn try_fold<A, B>(s: Seq<A>, init: B, f: spec_fn(B, A) -> Result<B, Seq<char>>) -> Result<
    B,
    Seq<char>,
>
    decreases s.len(),
{
    if s.len() == 0 {
        Ok(init)
    } else {
        match try_fold(s.drop_last(), init, f) {
            Ok(b) => f(b, s.last()),
            Err(e) => Err(e),
        }
    }
}

/// An error in the beginning is the error of the whole.
pub proof fn lemma_try_fold_fails<A, B>(
    s: Seq<A>,
    init: B,
    f: spec_fn(B, A) -> Result<B, Seq<char>>,
    n: int,
)
    requires
        0 <= n <= s.len(),
        try_fold(s.take(n), init, f) is Err,
    ensures
        try_fold(s, init, f) == try_fold(s.take(n), init, f),
    decreases s.len() - n,
{
    if n == s.len() {
        assert(s.take(n) =~= s);
    } else {
        assert(s.take(n + 1).drop_last() =~= s.take(n));
        lemma_try_fold_fails(s, init, f, n + 1);
    }
}

/// The first item with `p`.
pub open spec fn first_with<A>(s: Seq<A>, p: spec_fn(A) -> bool) -> Option<A>
    decreases s.len(),
{
    if s.len() == 0 {
        None
    } else if p(s[0]) {
        Some(s[0])
    } else {
        first_with(s.drop_first(), p)
    }
}

/// An item with `p` and none before it is the first.
pub proof fn lemma_first_with_is<A>(s: Seq<A>, p: spec_fn(A) -> bool, i: int)
    requires
        0 <= i <= s.len(),
        i < s.len() ==> p(s[i]),
        forall|j: int| 0 <= j < i ==> !p(#[trigger] s[j]),
    ensures
        first_with(s, p) == if i < s.len() { Some(s[i]) } else { None::<A> },
    decreases i,
{
    if i > 0 {
        assert(!p(s[0]));
        let t = s.drop_first();
        assert forall|j: int| 0 <= j < i - 1 implies !p(#[trigger] t[j]) by {
            assert(!p(s[j + 1]));
        }
        lemma_first_with_is(t, p, i - 1);
    }
}

/// What `first_with` finds is an item with `p`; if it finds none, there is none.
pub proof fn lemma_first_with<A>(s: Seq<A>, p: spec_fn(A) -> bool)
    ensures
        match first_with(s, p) {
            Some(x) => s.contains(x) && p(x),
            None => forall|i: int| 0 <= i < s.len() ==> !p(#[trigger] s[i]),
        },
    decreases s.len(),
{
    if s.len() > 0 {
        if p(s[0]) {
            assert(s.contains(s[0]));
        } else {
            let t = s.drop_first();
            lemma_first_with(t, p);
            match first_with(t, p) {
                Some(x) => {
                    let j = choose|j: int| 0 <= j < t.len() && t[j] == x;
                    assert(s[j + 1] == x);
                },
                None => {
                    assert forall|i: int| 0 <= i < s.len() implies !p(#[trigger] s[i]) by {
                        if i > 0 {
                            assert(!p(t[i - 1]));
                        }
                    }
                },
            }
        }
    }
}

/// What `f` gives for one of the items is part of the whole.
pub proof fn lemma_flat_has<A, B>(s: Seq<A>, f: spec_fn(A) -> Seq<B>, k: int, x: B)
    requires
        0 <= k < s.len(),
        f(s[k]).contains(x),
    ensures
        flat(s, f).contains(x),
    decreases s.len(),
{
    let head = flat(s.drop_last(), f);
    let tail = f(s.last());
    if k == s.len() - 1 {
        let m = choose|m: int| 0 <= m < tail.len() && tail[m] == x;
        assert(flat(s, f)[head.len() + m] == x);
    } else {
        lemma_flat_has(s.drop_last(), f, k, x);
        let m = choose|m: int| 0 <= m < head.len() && head[m] == x;
        assert(flat(s, f)[m] == x);
    }
}

/// What is part of the whole was given for one of the items.
pub proof fn lemma_flat_from<A, B>(s: Seq<A>, f: spec_fn(A) -> Seq<B>, x: B)
    requires
        flat(s, f).contains(x),
    ensures
        exists|k: int| 0 <= k < s.len() && f(#[trigger] s[k]).contains(x),
    decreases s.len(),
{
    if s.len() > 0 {
        let t = s.drop_last();
        lemma_concat_from(flat(t, f), f(s.last()), x);
        if flat(t, f).contains(x) {
            lemma_flat_from(t, f, x);
            let k = choose|k: int| 0 <= k < t.len() && f(#[trigger] t[k]).contains(x);
            assert(f(s[k]).contains(x));
        } else {
            assert(f(s[s.len() - 1]).contains(x));
        }
    }
}

/// A part of two lists, one behind the other, is a part of one of them.
pub proof fn lemma_concat_from<A>(a: Seq<A>, b: Seq<A>, x: A)
    requires
        (a + b).contains(x),
    ensures
        a.contains(x) || b.contains(x),
{
    let k = choose|k: int| 0 <= k < (a + b).len() && (a + b)[k] == x;
    if k < a.len() {
        assert(a[k] == x);
    } else {
        assert(b[k - a.len()] == x);
    }
}

/// A part of `a` or of `b` is a part of both, one behind the other.
pub proof fn lemma_concat_has<A>(a: Seq<A>, b: Seq<A>, x: A)
    requires
        a.contains(x) || b.contains(x),
    ensures
        (a + b).contains(x),
{
    if a.contains(x) {
        let m = choose|m: int| 0 <= m < a.len() && a[m] == x;
        assert((a + b)[m] == x);
    } else {
        let m = choose|m: int| 0 <= m < b.len() && b[m] == x;
        assert((a + b)[a.len() + m] == x);
    }
}

/// The first item with `p` stays the first when items come behind.
pub proof fn lemma_first_with_prefix<A>(a: Seq<A>, b: Seq<A>, p: spec_fn(A) -> bool)
    ensures
        first_with(a + b, p) == match first_with(a, p) {
            Some(x) => Some(x),
            None => first_with(b, p),
        },
    decreases a.len(),
{
    if a.len() == 0 {
        assert(a + b =~= b);
    } else if p(a[0]) {
        assert((a + b)[0] == a[0]);
    } else {
        assert((a + b)[0] == a[0]);
        assert((a + b).drop_first() =~= a.drop_first() + b);
        lemma_first_with_prefix(a.drop_first(), b, p);
    }
}

/// What is gathered from a beginning is the beginning of what is gathered from all.
pub proof fn lemma_filter_map_split<A, B>(s: Seq<A>, f: spec_fn(A) -> Option<B>, i: int)
    requires
        0 <= i <= s.len(),
    ensures
        s.filter_map(f) == s.take(i).filter_map(f) + s.skip(i).filter_map(f),
    decreases s.len() - i,
{
    if i == s.len() {
        assert(s.take(i) =~= s);
        assert(s.skip(i) =~= Seq::empty());
        assert(s.take(i).filter_map(f) + s.skip(i).filter_map(f) =~= s.filter_map(f));
    } else {
        let t = s.drop_last();
        lemma_filter_map_split(t, f, i);
        assert(t.take(i) =~= s.take(i));
        assert(s.skip(i).drop_last() =~= t.skip(i));
        assert(s.skip(i).last() == s.last());
        assert(s.take(i).filter_map(f) + s.skip(i).filter_map(f) =~= s.filter_map(f));
    }
}

/// What is gathered was given for one of the items.
pub proof fn lemma_gathered_from<A, B>(s: Seq<A>, f: spec_fn(A) -> Option<B>, x: B)
    requires
        s.filter_map(f).contains(x),
    ensures
        exists|k: int| 0 <= k < s.len() && f(#[trigger] s[k]) == Some(x),
    decreases s.len(),
{
    if s.len() > 0 {
        let t = s.drop_last();
        let r = s.filter_map(f);
        let q = t.filter_map(f);
        let m = choose|m: int| 0 <= m < r.len() && r[m] == x;
        if m < q.len() {
            assert(q[m] == x);
            lemma_gathered_from(t, f, x);
            let k = choose|k: int| 0 <= k < t.len() && f(#[trigger] t[k]) == Some(x);
            assert(f(s[k]) == Some(x));
        } else {
            assert(f(s[s.len() - 1]) == Some(x));
        }
    }
}

/// What `f` gives for one of the items is gathered.
pub proof fn lemma_filter_map_has<A, B>(s: Seq<A>, f: spec_fn(A) -> Option<B>, k: int, x: B)
    requires
        0 <= k < s.len(),
        f(s[k]) == Some(x),
    ensures
        s.filter_map(f).contains(x),
    decreases s.len(),
{
    let head = s.drop_last().filter_map(f);
    if k == s.len() - 1 {
        assert(s.filter_map(f) =~= head + seq![x]);
        assert(s.filter_map(f)[head.len() as int] == x);
    } else {
        lemma_filter_map_has(s.drop_last(), f, k, x);
        let m = choose|m: int| 0 <= m < head.len() && head[m] == x;
        assert(s.filter_map(f)[m] == x);
    }
}

/// The last item with `p`.
pub open spec fn last_with<A>(s: Seq<A>, p: spec_fn(A) -> bool) -> Option<A>
    decreases s.len(),
{
    if s.len() == 0 {
        None
    } else if p(s.last()) {
        Some(s.last())
    } else {
        last_with(s.drop_last(), p)
    }
}

/// What `last_with` finds is an item with `p`; if it finds none, there is none.
pub proof fn lemma_last_with<A>(s: Seq<A>, p: spec_fn(A) -> bool)
    ensures
        match last_with(s, p) {
            Some(x) => p(x) && s.contains(x),
            None => forall|i: int| 0 <= i < s.len() ==> !p(#[trigger] s[i]),
        },
    decreases s.len(),
{
    if s.len() > 0 {
        let t = s.drop_last();
        if p(s.last()) {
            assert(s[s.len() - 1] == s.last());
        } else {
            lemma_last_with(t, p);
            match last_with(t, p) {
                Some(x) => {
                    let i = choose|i: int| 0 <= i < t.len() && t[i] == x;
                    assert(s[i] == x);
                },
                None => {
                    assert forall|i: int| 0 <= i < s.len() implies !p(#[trigger] s[i]) by {
                        if i < t.len() {
                            assert(!p(t[i]));
                        }
                    }
                },
            }
        }
    }
}

/// An item with `p` and none behind it is the last.
pub proof fn lemma_last_with_is<A>(s: Seq<A>, p: spec_fn(A) -> bool, i: int)
    requires
        -1 <= i < s.len(),
        i >= 0 ==> p(s[i]),
        forall|j: int| i < j < s.len() ==> !p(#[trigger] s[j]),
    ensures
        last_with(s, p) == if i >= 0 { Some(s[i]) } else { None::<A> },
    decreases s.len(),
{
    if s.len() > 0 && i < s.len() - 1 {
        assert(!p(s[s.len() - 1]));
        let t = s.drop_last();
        assert forall|j: int| i < j < t.len() implies !p(#[trigger] t[j]) by {
            assert(!p(s[j]));
        }
        lemma_last_with_is(t, p, i);
    }
}

// ---------------------------------------------------------------------------
// Parts that stand together
// ---------------------------------------------------------------------------

/// Whether `part` stands in `s`, in one piece, from `i` on.
pub open spec fn run_at<A>(s: Seq<A>, part: Seq<A>, i: int) -> bool {
    0 <= i && i + part.len() <= s.len() && s.subrange(i, i + part.len()) == part
}

/// Whether `part` stands in `s` in one piece.
#[verifier::opaque]
pub open spec fn has_run<A>(s: Seq<A>, part: Seq<A>) -> bool {
    exists|i: int| run_at(s, part, i)
}

/// What stands in one piece in a list stands so in any list that has it between others.
pub proof fn lemma_run_within<A>(a: Seq<A>, b: Seq<A>, c: Seq<A>, part: Seq<A>)
    requires
        has_run(b, part),
    ensures
        has_run(a + b + c, part),
{
    reveal(has_run);
    let i = choose|i: int| run_at(b, part, i);
    let s = a + b + c;
    let k = a.len() + i;
    assert(s.subrange(k, k + part.len()) =~= b.subrange(i, i + part.len()));
    assert(run_at(s, part, k));
}

/// A list stands in one piece in itself and in any list that has it between others.
pub proof fn lemma_run_whole<A>(a: Seq<A>, b: Seq<A>, c: Seq<A>)
    ensures
        has_run(a + b + c, b),
{
    reveal(has_run);
    assert(b.subrange(0, b.len() as int) =~= b);
    assert(run_at(b, b, 0));
    lemma_run_within(a, b, c, b);
}

/// What stands in one piece in one of two lists stands so in both, one behind the other.
pub proof fn lemma_run_joined<A>(a: Seq<A>, b: Seq<A>, part: Seq<A>)
    ensures
        has_run(a, part) ==> has_run(a + b, part),
        has_run(b, part) ==> has_run(a + b, part),
{
    if has_run(a, part) {
        lemma_run_within(Seq::empty(), a, b, part);
        assert(Seq::empty() + a + b =~= a + b);
    }
    if has_run(b, part) {
        lemma_run_within(a, b, Seq::empty(), part);
        assert(a + b + Seq::empty() =~= a + b);
    }
}

/// Two items that follow each other stand there in one piece.
pub proof fn lemma_run_pair<A>(s: Seq<A>, i: int)
    requires
        0 <= i < s.len() - 1,
    ensures
        has_run(s, seq![s[i], s[i + 1]]),
{
    reveal(has_run);
    assert(s.subrange(i, i + 2) =~= seq![s[i], s[i + 1]]);
    assert(run_at(s, seq![s[i], s[i + 1]], i));
}

/// Every item of a part that stands in a list is an item of the list.
pub proof fn lemma_run_has<A>(s: Seq<A>, part: Seq<A>, k: int)
    requires
        has_run(s, part),
        0 <= k < part.len(),
    ensures
        s.contains(part[k]),
{
    reveal(has_run);
    let i = choose|i: int| run_at(s, part, i);
    assert(s.subrange(i, i + part.len())[k] == s[i + k]);
}

/// What `f` gives for one of the items stands in the whole in one piece.
pub proof fn lemma_run_flat<A, B>(s: Seq<A>, f: spec_fn(A) -> Seq<B>, k: int)
    requires
        0 <= k < s.len(),
    ensures
        has_run(flat(s, f), f(s[k])),
    decreases s.len(),
{
    let head = flat(s.drop_last(), f);
    let tail = f(s.last());
    if k == s.len() - 1 {
        lemma_run_whole(head, tail, Seq::empty());
        assert(head + tail + Seq::empty() =~= flat(s, f));
    } else {
        lemma_run_flat(s.drop_last(), f, k);
        lemma_run_joined(head, tail, f(s[k]));
    }
}

/// What is given for the items, piece by piece, is as long as all the pieces, if each has the same length.
pub proof fn lemma_flat_len<A, B>(s: Seq<A>, f: spec_fn(A) -> Seq<B>, n: nat)
    requires
        forall|k: int| 0 <= k < s.len() ==> f(#[trigger] s[k]).len() == n,
    ensures
        flat(s, f).len() == n * s.len(),
    decreases s.len(),
{
    if s.len() > 0 {
        let t = s.drop_last();
        assert forall|k: int| 0 <= k < t.len() implies f(#[trigger] t[k]).len() == n by {
            assert(f(s[k]).len() == n);
        }
        lemma_flat_len(t, f, n);
        assert(f(s[s.len() - 1]).len() == n);
        assert(n * s.len() == n * t.len() + n) by (nonlinear_arith)
            requires
                s.len() == t.len() + 1,
        ;
    }
}

/// There is a result for every item, in the order of the items, or one of them has none.
pub proof fn lemma_all_of<A, B>(s: Seq<A>, f: spec_fn(A) -> Option<B>)
    ensures
        match all_of(s, f) {
            Some(v) => v.len() == s.len() && forall|i: int| 0 <= i < s.len() ==> f(#[trigger] s[i]) == Some(v[i]),
            None => exists|i: int| 0 <= i < s.len() && f(#[trigger] s[i]) is None,
        },
    decreases s.len(),
{
    if s.len() > 0 {
        let t = s.drop_last();
        lemma_all_of(t, f);
        match all_of(t, f) {
            Some(v) => {
                match f(s.last()) {
                    Some(b) => {
                        assert forall|i: int| 0 <= i < s.len() implies f(#[trigger] s[i]) == Some(v.push(b)[i]) by {
                            if i < t.len() {
                                assert(f(t[i]) == Some(v[i]));
                            }
                        }
                    },
                    None => {
                        assert(f(s[s.len() - 1]) is None);
                    },
                }
            },
            None => {
                let i = choose|i: int| 0 <= i < t.len() && f(#[trigger] t[i]) is None;
                assert(f(s[i]) is None);
            },
        }
    }
}

/// A list stands in itself in one piece.
pub proof fn lemma_run_self<A>(s: Seq<A>)
    ensures
        has_run(s, s),
{
    reveal(has_run);
    assert(s.subrange(0, s.len() as int) =~= s);
    assert(run_at(s, s, 0));
}

/// What stands in one piece in one of eight lists stands so in all of them, one behind the other.
pub proof fn lemma_run_among<A>(
    a: Seq<A>,
    b: Seq<A>,
    c: Seq<A>,
    d: Seq<A>,
    e: Seq<A>,
    f: Seq<A>,
    g: Seq<A>,
    h: Seq<A>,
    part: Seq<A>,
)
    requires
        has_run(a, part) || has_run(b, part) || has_run(c, part) || has_run(d, part) || has_run(e, part) || has_run(
            f,
            part,
        ) || has_run(g, part) || has_run(h, part),
    ensures
        has_run(a + b + c + d + e + f + g + h, part),
{
    lemma_run_joined(a, b, part);
    lemma_run_joined(a + b, c, part);
    lemma_run_joined(a + b + c, d, part);
    lemma_run_joined(a + b + c + d, e, part);
    lemma_run_joined(a + b + c + d + e, f, part);
    lemma_run_joined(a + b + c + d + e + f, g, part);
    lemma_run_joined(a + b + c + d + e + f + g, h, part);
}

/// The last item with `p` of two lists is that of the second, unless it has none.
pub proof fn lemma_last_with_joined<A>(a: Seq<A>, b: Seq<A>, p: spec_fn(A) -> bool)
    ensures
        last_with(a + b, p) == match last_with(b, p) {
            Some(x) => Some(x),
            None => last_with(a, p),
        },
    decreases b.len(),
{
    if b.len() == 0 {
        assert(a + b =~= a);
    } else {
        assert((a + b).last() == b.last());
        assert((a + b).drop_last() =~= a + b.drop_last());
        lemma_last_with_joined(a, b.drop_last(), p);
    }
}

/// An item of one of eight lists is one of all of them, one behind the other.
pub proof fn lemma_concat_among<A>(
    a: Seq<A>,
    b: Seq<A>,
    c: Seq<A>,
    d: Seq<A>,
    e: Seq<A>,
    f: Seq<A>,
    g: Seq<A>,
    h: Seq<A>,
    x: A,
)
    ensures
        a.contains(x) || b.contains(x) || c.contains(x) || d.contains(x) || e.contains(x) || f.contains(x) || g.contains(x)
            || h.contains(x) ==> (a + b + c + d + e + f + g + h).contains(x),
{
    if a.contains(x) || b.contains(x) {
        lemma_concat_has(a, b, x);
    }
    if (a + b).contains(x) || c.contains(x) {
        lemma_concat_has(a + b, c, x);
    }
    if (a + b + c).contains(x) || d.contains(x) {
        lemma_concat_has(a + b + c, d, x);
    }
    if (a + b + c + d).contains(x) || e.contains(x) {
        lemma_concat_has(a + b + c + d, e, x);
    }
    if (a + b + c + d + e).contains(x) || f.contains(x) {
        lemma_concat_has(a + b + c + d + e, f, x);
    }
    if (a + b + c + d + e + f).contains(x) || g.contains(x) {
        lemma_concat_has(a + b + c + d + e + f, g, x);
    }
    if (a + b + c + d + e + f + g).contains(x) || h.contains(x) {
        lemma_concat_has(a + b + c + d + e + f + g, h, x);
    }
}

} // verus!
