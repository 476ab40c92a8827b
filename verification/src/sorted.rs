//! Ordered collections keyed by text: maps, sets and stable sorting.
//!
//! Texts are ordered by their characters, the first difference deciding.

use crate::text::same;
use crate::lists;
use vstd::prelude::*;

verus! {

// ---------------------------------------------------------------------------
// The order of texts
// ---------------------------------------------------------------------------

/// Whether `a` comes before `b`.
pub open spec fn before(a: Seq<char>, b: Seq<char>) -> bool
    decreases a.len(),
{
    if b.len() == 0 {
        false
    } else if a.len() == 0 {
        true
    } else if a[0] != b[0] {
        a[0] < b[0]
    } else {
        before(a.drop_first(), b.drop_first())
    }
}

/// No text comes before itself.
pub proof fn lemma_before_irreflexive(a: Seq<char>)
    ensures
        !before(a, a),
    decreases a.len(),
{
    if a.len() > 0 {
        lemma_before_irreflexive(a.drop_first());
    }
}

/// The order is transitive.
pub proof fn lemma_before_transitive(a: Seq<char>, b: Seq<char>, c: Seq<char>)
    requires
        before(a, b),
        before(b, c),
    ensures
        before(a, c),
    decreases a.len(),
{
    if a.len() > 0 && a[0] == b[0] && b[0] == c[0] {
        lemma_before_transitive(a.drop_first(), b.drop_first(), c.drop_first());
    }
}

/// Of two different texts one comes before the other.
pub proof fn lemma_before_total(a: Seq<char>, b: Seq<char>)
    ensures
        before(a, b) || a == b || before(b, a),
    decreases a.len(),
{
    if a.len() > 0 && b.len() > 0 && a[0] == b[0] {
        lemma_before_total(a.drop_first(), b.drop_first());
        if a.drop_first() == b.drop_first() {
            assert(a =~= seq![a[0]] + a.drop_first());
            assert(b =~= seq![b[0]] + b.drop_first());
        }
    } else if a.len() == 0 && b.len() == 0 {
        assert(a =~= b);
    }
}

pub fn text_before(a: &str, b: &str) -> (r: bool)
    ensures
        r == before(a@, b@),
{
    broadcast use vstd::string::next_postcondition;

    let mut y = b.chars();
    assert(a@.skip(0) =~= a@);
    for x in it: a.chars()
        invariant
            it.seq() == a@,
            vstd::std_specs::iter::IteratorSpec::obeys_prophetic_iter_laws(&y),
            before(a@, b@) == before(
                a@.skip(it.index()),
                vstd::std_specs::iter::IteratorSpec::remaining(&y),
            ),
    {
        let ghost rest = a@.skip(it.index());
        assert(rest[0] == x);
        assert(rest.drop_first() =~= a@.skip(it.index() + 1));
        match y.next() {
            None => {
                return false;
            },
            Some(c) => {
                if x != c {
                    return x < c;
                }
            },
        }
    }
    y.next().is_some()
}

// ---------------------------------------------------------------------------
// Filtering
// ---------------------------------------------------------------------------

/// The items that satisfy `p`, in their order.
pub open spec fn keep<A>(s: Seq<A>, p: spec_fn(A) -> bool) -> Seq<A>
    decreases s.len(),
{
    if s.len() == 0 {
        Seq::empty()
    } else if p(s.last()) {
        keep(s.drop_last(), p).push(s.last())
    } else {
        keep(s.drop_last(), p)
    }
}

/// `keep` on a beginning that is one item longer.
pub proof fn lemma_keep_step<A>(s: Seq<A>, p: spec_fn(A) -> bool, i: int)
    requires
        0 <= i < s.len(),
    ensures
        keep(s.take(i + 1), p) == if p(s[i]) {
            keep(s.take(i), p).push(s[i])
        } else {
            keep(s.take(i), p)
        },
{
    assert(s.take(i + 1).drop_last() =~= s.take(i));
}

/// Of what is kept, `q` finds what it finds of all, if `p` keeps all of that, and nothing, if `p` keeps
/// nothing of that.
pub proof fn lemma_keep_kept<A>(s: Seq<A>, p: spec_fn(A) -> bool, q: spec_fn(A) -> bool)
    ensures
        (forall|i: int| 0 <= i < s.len() && q(#[trigger] s[i]) ==> p(s[i])) ==> keep(keep(s, p), q) == keep(s, q),
        (forall|i: int| 0 <= i < s.len() && q(#[trigger] s[i]) ==> !p(s[i])) ==> keep(keep(s, p), q)
            == Seq::<A>::empty(),
    decreases s.len(),
{
    if s.len() > 0 {
        let t = s.drop_last();
        let x = s.last();
        lemma_keep_kept(t, p, q);
        if p(x) {
            let k = keep(s, p);
            assert(k.drop_last() =~= keep(t, p));
            assert(k.last() == x);
        }
        if forall|i: int| 0 <= i < s.len() && q(#[trigger] s[i]) ==> p(s[i]) {
            assert(q(s[s.len() - 1]) ==> p(s[s.len() - 1]));
            assert forall|i: int| 0 <= i < t.len() && q(#[trigger] t[i]) implies p(t[i]) by {
                assert(t[i] == s[i]);
            }
        }
        if forall|i: int| 0 <= i < s.len() && q(#[trigger] s[i]) ==> !p(s[i]) {
            assert(q(s[s.len() - 1]) ==> !p(s[s.len() - 1]));
            assert forall|i: int| 0 <= i < t.len() && q(#[trigger] t[i]) implies !p(t[i]) by {
                assert(t[i] == s[i]);
            }
        }
    }
}

/// What is kept stood there before and satisfies `p`, and nothing else that does is lost.
pub proof fn lemma_keep_holds<A>(s: Seq<A>, p: spec_fn(A) -> bool)
    ensures
        forall|i: int| 0 <= i < keep(s, p).len() ==> p(#[trigger] keep(s, p)[i]) && s.contains(keep(s, p)[i]),
        forall|i: int| 0 <= i < s.len() && p(#[trigger] s[i]) ==> keep(s, p).contains(s[i]),
    decreases s.len(),
{
    if s.len() > 0 {
        let t = s.drop_last();
        lemma_keep_holds(t, p);
        assert forall|i: int| 0 <= i < keep(s, p).len() implies p(#[trigger] keep(s, p)[i]) && s.contains(
            keep(s, p)[i],
        ) by {
            if i < keep(t, p).len() {
                let x = keep(t, p)[i];
                assert(t.contains(x));
                let j = choose|j: int| 0 <= j < t.len() && t[j] == x;
                assert(s[j] == x);
            } else {
                assert(s[s.len() - 1] == s.last());
            }
        }
        assert forall|i: int| 0 <= i < s.len() && p(#[trigger] s[i]) implies keep(s, p).contains(s[i]) by {
            if i < t.len() {
                assert(t[i] == s[i]);
                assert(keep(t, p).contains(s[i]));
                let j = choose|j: int| 0 <= j < keep(t, p).len() && keep(t, p)[j] == s[i];
                assert(keep(s, p)[j] == s[i]);
            } else {
                assert(keep(s, p)[keep(s, p).len() - 1] == s[i]);
            }
        }
    }
}

// ---------------------------------------------------------------------------
// Maps
// ---------------------------------------------------------------------------

/// A map from texts, held as its entries in the order of their keys.
#[derive(Debug, Clone)]
pub struct StrMap<V> {
    pub entries: Vec<(String, V)>,
}

impl<V: DeepView> DeepView for StrMap<V> {
    type V = Seq<(Seq<char>, V::V)>;

    open spec fn deep_view(&self) -> Seq<(Seq<char>, V::V)> {
        self.entries.deep_view()
    }
}

/// Whether the keys of `s` ascend strictly.
pub open spec fn ascending<W>(s: Seq<(Seq<char>, W)>) -> bool {
    forall|i: int, j: int| 0 <= i < j < s.len() ==> before(#[trigger] s[i].0, #[trigger] s[j].0)
}

pub open spec fn key_below<W>(k: Seq<char>) -> spec_fn((Seq<char>, W)) -> bool {
    |e: (Seq<char>, W)| before(e.0, k)
}

pub open spec fn key_above<W>(k: Seq<char>) -> spec_fn((Seq<char>, W)) -> bool {
    |e: (Seq<char>, W)| before(k, e.0)
}

/// The entries with `k` set to `w`, in the place that the order gives it.
pub open spec fn with_entry<W>(s: Seq<(Seq<char>, W)>, k: Seq<char>, w: W) -> Seq<(Seq<char>, W)> {
    keep(s, key_below(k)).push((k, w)) + keep(s, key_above(k))
}

/// What the first entry with the key `k` holds.
pub open spec fn entry_of<W>(s: Seq<(Seq<char>, W)>, k: Seq<char>) -> Option<W>
    decreases s.len(),
{
    if s.len() == 0 {
        None
    } else if s[0].0 == k {
        Some(s[0].1)
    } else {
        entry_of(s.drop_first(), k)
    }
}

pub proof fn lemma_entry_of<W>(s: Seq<(Seq<char>, W)>, k: Seq<char>)
    ensures
        match entry_of(s, k) {
            Some(w) => exists|i: int| 0 <= i < s.len() && #[trigger] s[i] == (k, w) && forall|j: int|
                0 <= j < i ==> (#[trigger] s[j]).0 != k,
            None => forall|i: int| 0 <= i < s.len() ==> (#[trigger] s[i]).0 != k,
        },
    decreases s.len(),
{
    if s.len() > 0 {
        let t = s.drop_first();
        if s[0].0 != k {
            lemma_entry_of(t, k);
            match entry_of(t, k) {
                Some(w) => {
                    let i = choose|i: int| 0 <= i < t.len() && #[trigger] t[i] == (k, w) && forall|j: int|
                        0 <= j < i ==> (#[trigger] t[j]).0 != k;
                    assert(s[i + 1] == (k, w));
                    assert forall|j: int| 0 <= j < i + 1 implies (#[trigger] s[j]).0 != k by {
                        if j > 0 {
                            assert(t[j - 1].0 != k);
                        }
                    }
                },
                None => {
                    assert forall|i: int| 0 <= i < s.len() implies (#[trigger] s[i]).0 != k by {
                        if i > 0 {
                            assert(t[i - 1].0 != k);
                        }
                    }
                },
            }
        } else {
            assert(s[0] == (k, s[0].1));
        }
    }
}

/// An entry with the key `k` and no such entry before it is what `entry_of` finds.
pub proof fn lemma_entry_of_is<W>(s: Seq<(Seq<char>, W)>, k: Seq<char>, i: int)
    requires
        0 <= i <= s.len(),
        i < s.len() ==> s[i].0 == k,
        forall|j: int| 0 <= j < i ==> (#[trigger] s[j]).0 != k,
    ensures
        entry_of(s, k) == if i < s.len() { Some(s[i].1) } else { None::<W> },
    decreases i,
{
    if i > 0 {
        assert(s[0].0 != k);
        let t = s.drop_first();
        assert forall|j: int| 0 <= j < i - 1 implies (#[trigger] t[j]).0 != k by {
            assert(s[j + 1].0 != k);
        }
        lemma_entry_of_is(t, k, i - 1);
    }
}

proof fn lemma_keep_ascending<W>(s: Seq<(Seq<char>, W)>, p: spec_fn((Seq<char>, W)) -> bool)
    requires
        ascending(s),
    ensures
        ascending(keep(s, p)),
    decreases s.len(),
{
    if s.len() > 0 {
        let t = s.drop_last();
        assert forall|i: int, j: int| 0 <= i < j < t.len() implies before(#[trigger] t[i].0, #[trigger] t[j].0) by {
            assert(before(s[i].0, s[j].0));
        }
        lemma_keep_ascending(t, p);
        lemma_keep_holds(t, p);
        let r = keep(s, p);
        let q = keep(t, p);
        assert forall|i: int, j: int| 0 <= i < j < r.len() implies before(#[trigger] r[i].0, #[trigger] r[j].0) by {
            if j < q.len() {
                assert(before(q[i].0, q[j].0));
            } else {
                assert(t.contains(q[i]));
                let m = choose|m: int| 0 <= m < t.len() && t[m] == q[i];
                assert(before(s[m].0, s[s.len() - 1].0));
            }
        }
    }
}

/// Setting a key keeps the keys in their order.
pub proof fn lemma_with_entry_ascending<W>(s: Seq<(Seq<char>, W)>, k: Seq<char>, w: W)
    requires
        ascending(s),
    ensures
        ascending(with_entry(s, k, w)),
{
    let a = keep(s, key_below(k));
    let b = keep(s, key_above(k));
    lemma_keep_ascending(s, key_below(k));
    lemma_keep_ascending(s, key_above(k));
    lemma_keep_holds(s, key_below(k));
    lemma_keep_holds(s, key_above(k));
    let r = with_entry(s, k, w);
    assert forall|i: int, j: int| 0 <= i < j < r.len() implies before(#[trigger] r[i].0, #[trigger] r[j].0) by {
        let n = a.len() as int;
        if i < n {
            assert(r[i] == a[i]);
            assert(key_below(k)(a[i]));
        } else if i > n {
            assert(r[i] == b[i - n - 1]);
            assert(key_above(k)(b[i - n - 1]));
        }
        if j < n {
            assert(r[j] == a[j]);
        } else if j > n {
            assert(r[j] == b[j - n - 1]);
            assert(key_above(k)(b[j - n - 1]));
        }
        if i < n && j > n {
            lemma_before_transitive(r[i].0, k, r[j].0);
        }
    }
}

/// Every entry of a map in which a key was set is that one or was there before.
pub proof fn lemma_with_entry_from<W>(s: Seq<(Seq<char>, W)>, k: Seq<char>, w: W, i: int)
    requires
        0 <= i < with_entry(s, k, w).len(),
    ensures
        with_entry(s, k, w)[i] == (k, w) || s.contains(with_entry(s, k, w)[i]),
{
    let a = keep(s, key_below(k));
    let b = keep(s, key_above(k));
    let n = a.len() as int;
    lemma_keep_holds(s, key_below(k));
    lemma_keep_holds(s, key_above(k));
    if i < n {
        assert(with_entry(s, k, w)[i] == a[i]);
    } else if i > n {
        assert(with_entry(s, k, w)[i] == b[i - n - 1]);
    }
}

/// A map gives back what was set last under a key, and setting a key changes no other.
pub proof fn lemma_with_entry_reads<W>(s: Seq<(Seq<char>, W)>, k: Seq<char>, w: W, q: Seq<char>)
    requires
        ascending(s),
    ensures
        entry_of(with_entry(s, k, w), q) == if q == k { Some(w) } else { entry_of(s, q) },
{
    let a = keep(s, key_below(k));
    let b = keep(s, key_above(k));
    let r = with_entry(s, k, w);
    let n = a.len() as int;
    lemma_keep_holds(s, key_below(k));
    lemma_keep_holds(s, key_above(k));
    lemma_with_entry_ascending(s, k, w);
    lemma_entry_of(r, q);
    lemma_entry_of(s, q);
    assert(r[n] == (k, w));
    if q == k {
        assert forall|j: int| 0 <= j < n implies (#[trigger] r[j]).0 != k by {
            assert(before(r[j].0, r[n].0));
            lemma_before_irreflexive(k);
        }
        lemma_entry_of_is(r, k, n);
    } else {
        match entry_of(s, q) {
            Some(x) => {
                let i = choose|i: int| 0 <= i < s.len() && #[trigger] s[i] == (q, x) && forall|j: int|
                    0 <= j < i ==> (#[trigger] s[j]).0 != q;
                lemma_before_total(q, k);
                let m = if before(q, k) {
                    assert(key_below(k)(s[i]));
                    assert(a.contains(s[i]));
                    choose|m: int| 0 <= m < a.len() && a[m] == s[i]
                } else {
                    assert(key_above(k)(s[i]));
                    assert(b.contains(s[i]));
                    let m = choose|m: int| 0 <= m < b.len() && b[m] == s[i];
                    m + n + 1
                };
                assert(r[m] == (q, x));
                assert forall|j: int| 0 <= j < m implies (#[trigger] r[j]).0 != q by {
                    assert(before(r[j].0, r[m].0));
                    lemma_before_irreflexive(q);
                }
                lemma_entry_of_is(r, q, m);
            },
            None => {
                assert forall|j: int| 0 <= j < r.len() implies (#[trigger] r[j]).0 != q by {
                    if j < n {
                        assert(r[j] == a[j]);
                        assert(s.contains(a[j]));
                        let m = choose|m: int| 0 <= m < s.len() && s[m] == a[j];
                        assert(s[m].0 != q);
                    } else if j > n {
                        assert(r[j] == b[j - n - 1]);
                        assert(s.contains(b[j - n - 1]));
                        let m = choose|m: int| 0 <= m < s.len() && s[m] == b[j - n - 1];
                        assert(s[m].0 != q);
                    }
                }
                lemma_entry_of_is(r, q, r.len() as int);
            },
        }
    }
}

/// The map that holds what `s` lists, the later entry of two with the same key.
pub open spec fn map_of<W>(s: Seq<(Seq<char>, W)>) -> Seq<(Seq<char>, W)>
    decreases s.len(),
{
    if s.len() == 0 {
        Seq::empty()
    } else {
        with_entry(map_of(s.drop_last()), s.last().0, s.last().1)
    }
}

pub open spec fn other_key<W>(k: Seq<char>) -> spec_fn((Seq<char>, W)) -> bool {
    |e: (Seq<char>, W)| e.0 != k
}

/// The entries without those with the key `k`.
pub open spec fn without_key<W>(s: Seq<(Seq<char>, W)>, k: Seq<char>) -> Seq<(Seq<char>, W)> {
    keep(s, other_key(k))
}

/// A map made of a list has its keys in order.
pub proof fn lemma_map_of_ascending<W>(s: Seq<(Seq<char>, W)>)
    ensures
        ascending(map_of(s)),
    decreases s.len(),
{
    if s.len() > 0 {
        lemma_map_of_ascending(s.drop_last());
        lemma_with_entry_ascending(map_of(s.drop_last()), s.last().0, s.last().1);
    }
}

proof fn lemma_keep_all<A>(s: Seq<A>, p: spec_fn(A) -> bool)
    requires
        forall|i: int| 0 <= i < s.len() ==> p(#[trigger] s[i]),
    ensures
        keep(s, p) == s,
    decreases s.len(),
{
    if s.len() > 0 {
        let t = s.drop_last();
        assert forall|i: int| 0 <= i < t.len() implies p(#[trigger] t[i]) by {
            assert(p(s[i]));
        }
        lemma_keep_all(t, p);
        assert(p(s[s.len() - 1]));
        assert(t.push(s.last()) =~= s);
    } else {
        assert(s =~= Seq::empty());
    }
}

proof fn lemma_keep_nothing<A>(s: Seq<A>, p: spec_fn(A) -> bool)
    requires
        forall|i: int| 0 <= i < s.len() ==> !p(#[trigger] s[i]),
    ensures
        keep(s, p) == Seq::<A>::empty(),
    decreases s.len(),
{
    if s.len() > 0 {
        let t = s.drop_last();
        assert forall|i: int| 0 <= i < t.len() implies !p(#[trigger] t[i]) by {
            assert(!p(s[i]));
        }
        lemma_keep_nothing(t, p);
        assert(!p(s[s.len() - 1]));
    }
}

/// A map made of a list whose keys ascend is that list.
pub proof fn lemma_map_of_itself<W>(s: Seq<(Seq<char>, W)>)
    requires
        ascending(s),
    ensures
        map_of(s) == s,
    decreases s.len(),
{
    if s.len() > 0 {
        let t = s.drop_last();
        let k = s.last().0;
        assert(ascending(t)) by {
            assert forall|i: int, j: int| 0 <= i < j < t.len() implies before(
                #[trigger] t[i].0,
                #[trigger] t[j].0,
            ) by {
                assert(before(s[i].0, s[j].0));
            }
        }
        lemma_map_of_itself(t);
        assert forall|i: int| 0 <= i < t.len() implies before((#[trigger] t[i]).0, k) && !before(k, t[i].0) by {
            assert(before(s[i].0, s[t.len() as int].0));
            if before(k, t[i].0) {
                lemma_before_transitive(k, t[i].0, k);
                lemma_before_irreflexive(k);
            }
        }
        lemma_keep_all(t, key_below(k));
        lemma_keep_nothing(t, key_above(k));
        assert(with_entry(t, k, s.last().1) =~= s);
    } else {
        assert(s =~= Seq::empty());
    }
}

/// A map made of a list gives back, under each key, the last value listed under it.
pub proof fn lemma_map_of_reads<W>(s: Seq<(Seq<char>, W)>, k: Seq<char>)
    ensures
        entry_of(map_of(s), k) == match lists::last_with(s, has_key(k)) {
            Some(e) => Some(e.1),
            None => None,
        },
    decreases s.len(),
{
    if s.len() > 0 {
        let t = s.drop_last();
        lemma_map_of_reads(t, k);
        lemma_map_of_ascending(t);
        lemma_with_entry_reads(map_of(t), s.last().0, s.last().1, k);
    }
}

/// Every entry of a map made of a list is one of the list's.
pub proof fn lemma_map_of_from<W>(s: Seq<(Seq<char>, W)>, i: int)
    requires
        0 <= i < map_of(s).len(),
    ensures
        s.contains(map_of(s)[i]),
{
    let m = map_of(s);
    let k = m[i].0;
    lemma_map_of_ascending(s);
    assert forall|j: int| 0 <= j < i implies (#[trigger] m[j]).0 != k by {
        assert(before(m[j].0, m[i].0));
        lemma_before_irreflexive(k);
    }
    lemma_entry_of_is(m, k, i);
    lemma_map_of_reads(s, k);
    lists::lemma_last_with(s, has_key(k));
}

/// Every key of a list is a key of the map made of it.
pub proof fn lemma_map_of_has<W>(s: Seq<(Seq<char>, W)>, i: int)
    requires
        0 <= i < s.len(),
    ensures
        entry_of(map_of(s), s[i].0) is Some,
{
    lemma_map_of_reads(s, s[i].0);
    lists::lemma_last_with(s, has_key(s[i].0));
    assert(has_key(s[i].0)(s[i]));
}

pub open spec fn has_key<W>(k: Seq<char>) -> spec_fn((Seq<char>, W)) -> bool {
    |e: (Seq<char>, W)| e.0 == k
}

impl<V: DeepView> StrMap<V> {
    /// The keys ascend strictly: none occurs twice.
    pub open spec fn wf(&self) -> bool {
        ascending(self.deep_view())
    }

    pub fn new() -> (r: Self)
        ensures
            r.deep_view() == Seq::<(Seq<char>, V::V)>::empty(),
            r.wf(),
    {
        StrMap { entries: Vec::new() }
    }

    pub fn len(&self) -> (r: usize)
        ensures
            r == self.deep_view().len(),
    {
        self.entries.len()
    }

    pub fn is_empty(&self) -> (r: bool)
        ensures
            r == (self.deep_view().len() == 0),
    {
        self.entries.len() == 0
    }

    /// Sets `k` to `w`, in place of what stood there.
    pub fn insert(&mut self, k: String, w: V)
        ensures
            final(self).deep_view() == with_entry(old(self).deep_view(), k@, w.deep_view()),
            old(self).wf() ==> final(self).wf(),
    {
        let ghost s = self.deep_view();
        let mut entries: Vec<(String, V)> = Vec::new();
        std::mem::swap(&mut entries, &mut self.entries);
        let mut low: Vec<(String, V)> = Vec::new();
        let mut high: Vec<(String, V)> = Vec::new();
        for e in it: entries
            invariant
                it.seq().len() == s.len(),
                forall|j: int| 0 <= j < s.len() ==> #[trigger] it.seq()[j].deep_view() == s[j],
                low.deep_view() == keep(s.take(it.index()), key_below(k@)),
                high.deep_view() == keep(s.take(it.index()), key_above(k@)),
        {
            let ghost i = it.index();
            let ghost l0 = low.deep_view();
            let ghost h0 = high.deep_view();
            proof {
                assert(it.seq()[i].deep_view() == s[i]);
                assert(e.deep_view() == s[i]);
                lemma_keep_step(s, key_below(k@), i);
                lemma_keep_step(s, key_above(k@), i);
                lemma_before_irreflexive(k@);
                if before(e.0@, k@) && before(k@, e.0@) {
                    lemma_before_transitive(e.0@, k@, e.0@);
                    lemma_before_irreflexive(e.0@);
                }
            }
            if text_before(&e.0, &k) {
                low.push(e);
                assert(low.deep_view() =~= l0.push(s[i]));
            } else if text_before(&k, &e.0) {
                high.push(e);
                assert(high.deep_view() =~= h0.push(s[i]));
            }
        }
        assert(s.take(s.len() as int) =~= s);
        let ghost l0 = low.deep_view();
        let ghost h0 = high.deep_view();
        let ghost kw = (k@, w.deep_view());
        low.push((k, w));
        assert(low.deep_view() =~= l0.push(kw));
        low.append(&mut high);
        assert(low.deep_view() =~= l0.push(kw) + h0);
        self.entries = low;
        proof {
            if ascending(s) {
                lemma_with_entry_ascending(s, kw.0, kw.1);
            }
        }
    }

    /// The map that holds what a list gives, the later entry of two with the same key.
    pub fn from_list(list: Vec<(String, V)>) -> (r: Self)
        ensures
            r.deep_view() == map_of(list.deep_view()),
            r.wf(),
    {
        let ghost s = list.deep_view();
        let mut map: StrMap<V> = StrMap::new();
        assert(s.take(0) =~= Seq::empty());
        for e in it: list
            invariant
                it.seq().len() == s.len(),
                forall|j: int| 0 <= j < s.len() ==> #[trigger] it.seq()[j].deep_view() == s[j],
                map.deep_view() == map_of(s.take(it.index())),
                map.wf(),
        {
            let ghost i = it.index();
            assert(it.seq()[i].deep_view() == s[i]);
            assert(e.deep_view() == s[i]);
            assert(s.take(i + 1).drop_last() =~= s.take(i));
            map.insert(e.0, e.1);
        }
        assert(s.take(s.len() as int) =~= s);
        map
    }

    /// Takes the entry with the key `k` out.
    pub fn remove(&mut self, k: &str)
        ensures
            final(self).deep_view() == without_key(old(self).deep_view(), k@),
            old(self).wf() ==> final(self).wf(),
    {
        let ghost s = self.deep_view();
        let ghost p = other_key::<V::V>(k@);
        let mut entries: Vec<(String, V)> = Vec::new();
        std::mem::swap(&mut entries, &mut self.entries);
        let mut out: Vec<(String, V)> = Vec::new();
        for e in it: entries
            invariant
                it.seq().len() == s.len(),
                forall|j: int| 0 <= j < s.len() ==> #[trigger] it.seq()[j].deep_view() == s[j],
                p == other_key::<V::V>(k@),
                out.deep_view() == keep(s.take(it.index()), p),
        {
            let ghost i = it.index();
            let ghost o = out.deep_view();
            proof {
                assert(it.seq()[i].deep_view() == s[i]);
                assert(e.deep_view() == s[i]);
                lemma_keep_step(s, p, i);
            }
            if !same(&e.0, k) {
                out.push(e);
                assert(out.deep_view() =~= o.push(s[i]));
            }
        }
        assert(s.take(s.len() as int) =~= s);
        self.entries = out;
        proof {
            if ascending(s) {
                lemma_keep_ascending(s, p);
            }
        }
    }

    pub fn get(&self, k: &str) -> (r: Option<&V>)
        ensures
            r.deep_view() == entry_of(self.deep_view(), k@),
    {
        let ghost s = self.deep_view();
        for i in 0..self.entries.len()
            invariant
                s == self.deep_view(),
                forall|j: int| 0 <= j < i ==> (#[trigger] s[j]).0 != k@,
        {
            assert(s[i as int].0 == self.entries@[i as int].0@);
            if same(&self.entries[i].0, k) {
                proof {
                    lemma_entry_of_is(s, k@, i as int);
                }
                return Some(&self.entries[i].1);
            }
        }
        proof {
            lemma_entry_of_is(s, k@, s.len() as int);
        }
        None
    }

    pub fn contains_key(&self, k: &str) -> (r: bool)
        ensures
            r == (entry_of(self.deep_view(), k@) is Some),
    {
        self.get(k).is_some()
    }
}

// ---------------------------------------------------------------------------
// Sets of texts
// ---------------------------------------------------------------------------

pub open spec fn text_below(k: Seq<char>) -> spec_fn(Seq<char>) -> bool {
    |e: Seq<char>| before(e, k)
}

pub open spec fn text_above(k: Seq<char>) -> spec_fn(Seq<char>) -> bool {
    |e: Seq<char>| before(k, e)
}

/// The set `s`, in order, with `k`.
pub open spec fn with_member(s: Seq<Seq<char>>, k: Seq<char>) -> Seq<Seq<char>> {
    keep(s, text_below(k)).push(k) + keep(s, text_above(k))
}

/// The texts of `s` in order, each once.
pub open spec fn set_of(s: Seq<Seq<char>>) -> Seq<Seq<char>>
    decreases s.len(),
{
    if s.len() == 0 {
        Seq::empty()
    } else {
        with_member(set_of(s.drop_last()), s.last())
    }
}

/// Whether the texts of `s` ascend strictly.
pub open spec fn texts_ascending(s: Seq<Seq<char>>) -> bool {
    forall|i: int, j: int| 0 <= i < j < s.len() ==> before(#[trigger] s[i], #[trigger] s[j])
}

proof fn lemma_keep_texts_ascending(s: Seq<Seq<char>>, p: spec_fn(Seq<char>) -> bool)
    requires
        texts_ascending(s),
    ensures
        texts_ascending(keep(s, p)),
    decreases s.len(),
{
    if s.len() > 0 {
        let t = s.drop_last();
        assert forall|i: int, j: int| 0 <= i < j < t.len() implies before(#[trigger] t[i], #[trigger] t[j]) by {
            assert(before(s[i], s[j]));
        }
        lemma_keep_texts_ascending(t, p);
        lemma_keep_holds(t, p);
        let r = keep(s, p);
        let q = keep(t, p);
        assert forall|i: int, j: int| 0 <= i < j < r.len() implies before(#[trigger] r[i], #[trigger] r[j]) by {
            if j < q.len() {
                assert(before(q[i], q[j]));
            } else {
                assert(t.contains(q[i]));
                let m = choose|m: int| 0 <= m < t.len() && t[m] == q[i];
                assert(before(s[m], s[s.len() - 1]));
            }
        }
    }
}

/// Two ordered lists of the same texts are the same.
pub proof fn lemma_ascending_unique(s: Seq<Seq<char>>, t: Seq<Seq<char>>)
    requires
        texts_ascending(s),
        texts_ascending(t),
        forall|x: Seq<char>| #[trigger] s.contains(x) <==> t.contains(x),
    ensures
        s == t,
    decreases s.len(),
{
    if s.len() == 0 {
        if t.len() > 0 {
            assert(t.contains(t[0]));
            assert(s.contains(t[0]));
        }
        assert(s =~= t);
    } else {
        let x = s.last();
        assert(s[s.len() - 1] == x);
        assert(s.contains(x));
        assert(t.contains(x));
        let y = t.last();
        assert(t[t.len() - 1] == y);
        assert(t.contains(y));
        assert(s.contains(y));
        let j = choose|j: int| 0 <= j < t.len() && t[j] == x;
        let i = choose|i: int| 0 <= i < s.len() && s[i] == y;
        if x != y {
            assert(before(t[j], t[t.len() - 1]));
            assert(before(s[i], s[s.len() - 1]));
            lemma_before_transitive(x, y, x);
            lemma_before_irreflexive(x);
        }
        let p = s.drop_last();
        let q = t.drop_last();
        assert forall|z: Seq<char>| #[trigger] p.contains(z) <==> q.contains(z) by {
            lemma_before_irreflexive(x);
            if p.contains(z) {
                let k = choose|k: int| 0 <= k < p.len() && p[k] == z;
                assert(before(s[k], s[s.len() - 1]));
                assert(s.contains(z));
                assert(t.contains(z));
                let n = choose|n: int| 0 <= n < t.len() && t[n] == z;
                assert(q[n] == z);
            }
            if q.contains(z) {
                let k = choose|k: int| 0 <= k < q.len() && q[k] == z;
                assert(before(t[k], t[t.len() - 1]));
                assert(t[k] == z);
                assert(t.contains(z));
                assert(s.contains(z));
                let n = choose|n: int| 0 <= n < s.len() && s[n] == z;
                assert(p[n] == z);
            }
        }
        assert forall|i: int, j: int| 0 <= i < j < p.len() implies before(#[trigger] p[i], #[trigger] p[j]) by {
            assert(before(s[i], s[j]));
        }
        assert forall|i: int, j: int| 0 <= i < j < q.len() implies before(#[trigger] q[i], #[trigger] q[j]) by {
            assert(before(t[i], t[j]));
        }
        lemma_ascending_unique(p, q);
        assert(s =~= p.push(x));
        assert(t =~= q.push(y));
    }
}

/// Adding a text keeps the order, and adds that text and no other.
pub proof fn lemma_with_member(s: Seq<Seq<char>>, k: Seq<char>)
    requires
        texts_ascending(s),
    ensures
        texts_ascending(with_member(s, k)),
        forall|x: Seq<char>| #[trigger] with_member(s, k).contains(x) <==> x == k || s.contains(x),
{
    let a = keep(s, text_below(k));
    let b = keep(s, text_above(k));
    let r = with_member(s, k);
    let n = a.len() as int;
    lemma_keep_texts_ascending(s, text_below(k));
    lemma_keep_texts_ascending(s, text_above(k));
    lemma_keep_holds(s, text_below(k));
    lemma_keep_holds(s, text_above(k));
    assert forall|i: int, j: int| 0 <= i < j < r.len() implies before(#[trigger] r[i], #[trigger] r[j]) by {
        if i < n {
            assert(r[i] == a[i]);
            assert(text_below(k)(a[i]));
        } else if i > n {
            assert(r[i] == b[i - n - 1]);
            assert(text_above(k)(b[i - n - 1]));
        }
        if j < n {
            assert(r[j] == a[j]);
        } else if j > n {
            assert(r[j] == b[j - n - 1]);
            assert(text_above(k)(b[j - n - 1]));
        }
        if i < n && j > n {
            lemma_before_transitive(r[i], k, r[j]);
        }
    }
    assert forall|x: Seq<char>| #[trigger] r.contains(x) <==> x == k || s.contains(x) by {
        if r.contains(x) {
            let i = choose|i: int| 0 <= i < r.len() && r[i] == x;
            if i < n {
                assert(a[i] == x);
                assert(s.contains(a[i]));
            } else if i > n {
                assert(b[i - n - 1] == x);
                assert(s.contains(b[i - n - 1]));
            }
        }
        if x == k {
            assert(r[n] == k);
        } else if s.contains(x) {
            let i = choose|i: int| 0 <= i < s.len() && s[i] == x;
            lemma_before_total(x, k);
            if before(x, k) {
                assert(text_below(k)(s[i]));
                assert(a.contains(s[i]));
                let m = choose|m: int| 0 <= m < a.len() && a[m] == x;
                assert(r[m] == x);
            } else {
                assert(text_above(k)(s[i]));
                assert(b.contains(s[i]));
                let m = choose|m: int| 0 <= m < b.len() && b[m] == x;
                assert(r[m + n + 1] == x);
            }
        }
    }
}

/// `set_of` is in order, without doubles, and holds exactly the texts it was made of.
pub proof fn lemma_set_of(s: Seq<Seq<char>>)
    ensures
        texts_ascending(set_of(s)),
        forall|x: Seq<char>| #[trigger] set_of(s).contains(x) <==> s.contains(x),
    decreases s.len(),
{
    if s.len() > 0 {
        let t = s.drop_last();
        lemma_set_of(t);
        lemma_with_member(set_of(t), s.last());
        assert forall|x: Seq<char>| #[trigger] set_of(s).contains(x) <==> s.contains(x) by {
            if s.contains(x) {
                let i = choose|i: int| 0 <= i < s.len() && s[i] == x;
                if i < t.len() {
                    assert(t[i] == x);
                }
            }
            if t.contains(x) {
                let i = choose|i: int| 0 <= i < t.len() && t[i] == x;
                assert(s[i] == x);
            }
            if x == s.last() {
                assert(s[s.len() - 1] == x);
            }
        }
    }
}

/// Adds `k` to a set that is held in order.
pub fn insert_text(set: &mut Vec<String>, k: String)
    ensures
        final(set).deep_view() == with_member(old(set).deep_view(), k@),
{
    let ghost s = set.deep_view();
    let mut items: Vec<String> = Vec::new();
    std::mem::swap(&mut items, set);
    let mut low: Vec<String> = Vec::new();
    let mut high: Vec<String> = Vec::new();
    for e in it: items
        invariant
            it.seq().len() == s.len(),
            forall|j: int| 0 <= j < s.len() ==> #[trigger] it.seq()[j].deep_view() == s[j],
            low.deep_view() == keep(s.take(it.index()), text_below(k@)),
            high.deep_view() == keep(s.take(it.index()), text_above(k@)),
    {
        let ghost i = it.index();
        let ghost l0 = low.deep_view();
        let ghost h0 = high.deep_view();
        proof {
            assert(it.seq()[i].deep_view() == s[i]);
            assert(e.deep_view() == s[i]);
            lemma_keep_step(s, text_below(k@), i);
            lemma_keep_step(s, text_above(k@), i);
            if before(e@, k@) && before(k@, e@) {
                lemma_before_transitive(e@, k@, e@);
                lemma_before_irreflexive(e@);
            }
        }
        if text_before(&e, &k) {
            low.push(e);
            assert(low.deep_view() =~= l0.push(s[i]));
        } else if text_before(&k, &e) {
            high.push(e);
            assert(high.deep_view() =~= h0.push(s[i]));
        }
    }
    assert(s.take(s.len() as int) =~= s);
    let ghost l0 = low.deep_view();
    let ghost h0 = high.deep_view();
    let ghost kw = k@;
    low.push(k);
    assert(low.deep_view() =~= l0.push(kw));
    low.append(&mut high);
    assert(low.deep_view() =~= l0.push(kw) + h0);
    *set = low;
}

/// Whether `k` is one of the texts of `v`.
pub fn has_text(v: &Vec<String>, k: &str) -> (r: bool)
    ensures
        r == v.deep_view().contains(k@),
{
    let ghost s = v.deep_view();
    for i in 0..v.len()
        invariant
            s == v.deep_view(),
            forall|j: int| 0 <= j < i ==> s[j] != k@,
    {
        assert(s[i as int] == v@[i as int]@);
        if same(&v[i], k) {
            return true;
        }
    }
    false
}

/// A copy of a list of texts.
pub fn copy_texts(v: &Vec<String>) -> (r: Vec<String>)
    ensures
        r.deep_view() == v.deep_view(),
{
    let mut out: Vec<String> = Vec::new();
    for i in 0..v.len()
        invariant
            out.deep_view() == v.deep_view().take(i as int),
    {
        let ghost o = out.deep_view();
        out.push(v[i].clone());
        assert(out.deep_view() =~= o.push(v@[i as int]@));
        assert(v.deep_view().take(i + 1) =~= v.deep_view().take(i as int).push(v.deep_view()[i as int]));
    }
    assert(v.deep_view().take(v@.len() as int) =~= v.deep_view());
    out
}

/// A copy of a table of lists.
pub fn copy_lists(m: &StrMap<Vec<String>>) -> (r: StrMap<Vec<String>>)
    ensures
        r.deep_view() == m.deep_view(),
{
    let mut out: Vec<(String, Vec<String>)> = Vec::new();
    let ghost s = m.deep_view();
    for i in 0..m.entries.len()
        invariant
            s == m.entries.deep_view(),
            out.deep_view() == s.take(i as int),
    {
        let ghost o = out.deep_view();
        out.push((m.entries[i].0.clone(), copy_texts(&m.entries[i].1)));
        assert(out.deep_view() =~= o.push(s[i as int]));
        assert(s.take(i + 1) =~= s.take(i as int).push(s[i as int]));
    }
    assert(s.take(s.len() as int) =~= s);
    StrMap { entries: out }
}

/// Puts one text behind those of `v`.
pub fn push_text(v: &mut Vec<String>, s: &str)
    ensures
        final(v).deep_view() == old(v).deep_view().push(s@),
{
    let ghost o = v.deep_view();
    v.push(s.to_owned());
    assert(v.deep_view() =~= o.push(s@));
}

/// Puts two texts behind those of `v`.
pub fn push_two(v: &mut Vec<String>, a: &str, b: &str)
    ensures
        final(v).deep_view() == old(v).deep_view().push(a@).push(b@),
{
    push_text(v, a);
    push_text(v, b);
}

/// A copy of an optional text.
pub fn copy_opt(v: &Option<String>) -> (r: Option<String>)
    ensures
        r.deep_view() == v.deep_view(),
{
    match v {
        Some(s) => Some(s.clone()),
        None => None,
    }
}

/// Puts the texts of `more` behind those of `v`.
pub fn extend_texts(v: &mut Vec<String>, more: &Vec<String>)
    ensures
        final(v).deep_view() == old(v).deep_view() + more.deep_view(),
{
    let ghost start = v.deep_view();
    for i in 0..more.len()
        invariant
            v.deep_view() == start + more.deep_view().take(i as int),
    {
        let ghost o = v.deep_view();
        v.push(more[i].clone());
        assert(v.deep_view() =~= o.push(more@[i as int]@));
        assert(more.deep_view().take(i + 1) =~= more.deep_view().take(i as int).push(more.deep_view()[i as int]));
    }
    assert(more.deep_view().take(more@.len() as int) =~= more.deep_view());
}

// ---------------------------------------------------------------------------
// Stable sorting
// ---------------------------------------------------------------------------

/// A type whose values are sorted by a text.
pub trait Keyed: DeepView {
    spec fn key_of(v: Self::V) -> Seq<char>;

    fn key(&self) -> (r: &str)
        ensures
            r@ == Self::key_of(self.deep_view()),
    ;
}

impl Keyed for String {
    open spec fn key_of(v: Seq<char>) -> Seq<char> {
        v
    }

    fn key(&self) -> (r: &str) {
        self.as_str()
    }
}

pub open spec fn sorts_after<T: Keyed>(x: T::V) -> spec_fn(T::V) -> bool {
    |e: T::V| before(T::key_of(x), T::key_of(e))
}

pub open spec fn sorts_not_after<T: Keyed>(x: T::V) -> spec_fn(T::V) -> bool {
    |e: T::V| !before(T::key_of(x), T::key_of(e))
}

/// `x` put behind every item whose key does not come after its own.
pub open spec fn with_sorted<T: Keyed>(s: Seq<T::V>, x: T::V) -> Seq<T::V> {
    keep(s, sorts_not_after::<T>(x)).push(x) + keep(s, sorts_after::<T>(x))
}

/// The items by their keys; those with the same key stay in the order they were in.
pub open spec fn sorted_by_key<T: Keyed>(s: Seq<T::V>) -> Seq<T::V>
    decreases s.len(),
{
    if s.len() == 0 {
        Seq::empty()
    } else {
        with_sorted::<T>(sorted_by_key::<T>(s.drop_last()), s.last())
    }
}

/// Whether the keys ascend, equal ones allowed.
pub open spec fn keys_in_order<T: Keyed>(s: Seq<T::V>) -> bool {
    forall|i: int, j: int| 0 <= i < j < s.len() ==> !before(T::key_of(#[trigger] s[j]), T::key_of(#[trigger] s[i]))
}

proof fn lemma_keep_in_order<T: Keyed>(s: Seq<T::V>, p: spec_fn(T::V) -> bool)
    requires
        keys_in_order::<T>(s),
    ensures
        keys_in_order::<T>(keep(s, p)),
    decreases s.len(),
{
    if s.len() > 0 {
        let t = s.drop_last();
        assert forall|i: int, j: int| 0 <= i < j < t.len() implies !before(
            T::key_of(#[trigger] t[j]),
            T::key_of(#[trigger] t[i]),
        ) by {
            assert(!before(T::key_of(s[j]), T::key_of(s[i])));
        }
        lemma_keep_in_order::<T>(t, p);
        lemma_keep_holds(t, p);
        let r = keep(s, p);
        let q = keep(t, p);
        assert forall|i: int, j: int| 0 <= i < j < r.len() implies !before(
            T::key_of(#[trigger] r[j]),
            T::key_of(#[trigger] r[i]),
        ) by {
            if j < q.len() {
                assert(!before(T::key_of(q[j]), T::key_of(q[i])));
            } else {
                assert(t.contains(q[i]));
                let m = choose|m: int| 0 <= m < t.len() && t[m] == q[i];
                assert(!before(T::key_of(s[s.len() - 1]), T::key_of(s[m])));
            }
        }
    }
}

proof fn lemma_keep_split<A>(s: Seq<A>, p: spec_fn(A) -> bool, q: spec_fn(A) -> bool)
    requires
        forall|x: A| #[trigger] p(x) == !q(x),
    ensures
        keep(s, p).to_multiset().add(keep(s, q).to_multiset()) == s.to_multiset(),
    decreases s.len(),
{
    broadcast use vstd::seq_lib::group_to_multiset_ensures;

    if s.len() == 0 {
        assert(keep(s, p).to_multiset().add(keep(s, q).to_multiset()) =~= s.to_multiset());
    } else {
        let t = s.drop_last();
        lemma_keep_split(t, p, q);
        assert(s =~= t.push(s.last()));
        assert(p(s.last()) == !q(s.last()));
        assert(keep(s, p).to_multiset().add(keep(s, q).to_multiset()) =~= s.to_multiset());
    }
}

/// Sorting orders the keys and neither loses, adds nor changes an item.
pub proof fn lemma_sorted_by_key<T: Keyed>(s: Seq<T::V>)
    ensures
        keys_in_order::<T>(sorted_by_key::<T>(s)),
        sorted_by_key::<T>(s).to_multiset() == s.to_multiset(),
    decreases s.len(),
{
    broadcast use vstd::seq_lib::group_to_multiset_ensures;

    if s.len() > 0 {
        let t = s.drop_last();
        let x = s.last();
        lemma_sorted_by_key::<T>(t);
        let u = sorted_by_key::<T>(t);
        let a = keep(u, sorts_not_after::<T>(x));
        let b = keep(u, sorts_after::<T>(x));
        lemma_keep_split(u, sorts_not_after::<T>(x), sorts_after::<T>(x));
        lemma_keep_in_order::<T>(u, sorts_not_after::<T>(x));
        lemma_keep_in_order::<T>(u, sorts_after::<T>(x));
        lemma_keep_holds(u, sorts_not_after::<T>(x));
        lemma_keep_holds(u, sorts_after::<T>(x));
        let r = sorted_by_key::<T>(s);
        let n = a.len() as int;
        assert forall|i: int, j: int| 0 <= i < j < r.len() implies !before(
            T::key_of(#[trigger] r[j]),
            T::key_of(#[trigger] r[i]),
        ) by {
            if i < n {
                assert(r[i] == a[i]);
                assert(sorts_not_after::<T>(x)(a[i]));
            } else if i > n {
                assert(r[i] == b[i - n - 1]);
                assert(sorts_after::<T>(x)(b[i - n - 1]));
            }
            if j < n {
                assert(r[j] == a[j]);
            } else if j > n {
                assert(r[j] == b[j - n - 1]);
                assert(sorts_after::<T>(x)(b[j - n - 1]));
            }
            let ki = T::key_of(r[i]);
            let kj = T::key_of(r[j]);
            let kx = T::key_of(x);
            if i <= n && j > n && before(kj, ki) {
                lemma_before_transitive(kx, kj, ki);
                lemma_before_irreflexive(kx);
            }
        }
        assert(s =~= t.push(x));
        vstd::seq_lib::lemma_multiset_commutative(a.push(x), b);
        assert(r.to_multiset() =~= s.to_multiset());
    } else {
        assert(sorted_by_key::<T>(s) =~= s);
    }
}

/// Sorts by key, keeping the order of items with the same key.
pub fn sort_by_key<T: Keyed>(v: Vec<T>) -> (r: Vec<T>)
    ensures
        r.deep_view() == sorted_by_key::<T>(v.deep_view()),
{
    let ghost s = v.deep_view();
    let mut out: Vec<T> = Vec::new();
    for x in it: v
        invariant
            it.seq().len() == s.len(),
            forall|j: int| 0 <= j < s.len() ==> #[trigger] it.seq()[j].deep_view() == s[j],
            out.deep_view() == sorted_by_key::<T>(s.take(it.index())),
    {
        let ghost i = it.index();
        let ghost xv = x.deep_view();
        assert(it.seq()[i].deep_view() == s[i]);
        assert(s.take(i + 1).drop_last() =~= s.take(i));
        let ghost u = out.deep_view();
        let mut low: Vec<T> = Vec::new();
        let mut high: Vec<T> = Vec::new();
        for e in jt: out
            invariant
                xv == x.deep_view(),
                jt.seq().len() == u.len(),
                forall|j: int| 0 <= j < u.len() ==> #[trigger] jt.seq()[j].deep_view() == u[j],
                low.deep_view() == keep(u.take(jt.index()), sorts_not_after::<T>(xv)),
                high.deep_view() == keep(u.take(jt.index()), sorts_after::<T>(xv)),
        {
            let ghost k = jt.index();
            let ghost l0 = low.deep_view();
            let ghost h0 = high.deep_view();
            proof {
                assert(jt.seq()[k].deep_view() == u[k]);
                assert(e.deep_view() == u[k]);
                lemma_keep_step(u, sorts_not_after::<T>(xv), k);
                lemma_keep_step(u, sorts_after::<T>(xv), k);
            }
            if text_before(x.key(), e.key()) {
                high.push(e);
                assert(high.deep_view() =~= h0.push(u[k]));
            } else {
                low.push(e);
                assert(low.deep_view() =~= l0.push(u[k]));
            }
        }
        assert(u.take(u.len() as int) =~= u);
        let ghost l0 = low.deep_view();
        let ghost h0 = high.deep_view();
        low.push(x);
        assert(low.deep_view() =~= l0.push(xv));
        low.append(&mut high);
        assert(low.deep_view() =~= l0.push(xv) + h0);
        out = low;
    }
    assert(s.take(s.len() as int) =~= s);
    out
}

/// Reading is not disturbed by what is done to the values: it finds the changed value under the same
/// name.
pub proof fn lemma_entry_of_mapped<W, X>(
    s: Seq<(Seq<char>, W)>,
    f: spec_fn((Seq<char>, W)) -> (Seq<char>, X),
    k: Seq<char>,
)
    requires
        forall|e: (Seq<char>, W)| (#[trigger] f(e)).0 == e.0,
    ensures
        entry_of(s.map_values(f), k) == match entry_of(s, k) {
            Some(w) => Some(f((k, w)).1),
            None => None,
        },
    decreases s.len(),
{
    if s.len() > 0 {
        let m = s.map_values(f);
        assert(m[0] == f(s[0]));
        assert(m.drop_first() =~= s.drop_first().map_values(f));
        lemma_entry_of_mapped(s.drop_first(), f, k);
        if s[0].0 == k {
            assert(s[0] == (k, s[0].1));
        }
    }
}

/// A name that only one entry of a list has is found there.
pub proof fn lemma_named_once<W>(s: Seq<(Seq<char>, W)>, i: int)
    requires
        0 <= i < s.len(),
        forall|j: int| 0 <= j < s.len() && j != i ==> (#[trigger] s[j]).0 != s[i].0,
    ensures
        entry_of(s, s[i].0) == Some(s[i].1),
        entry_of(map_of(s), s[i].0) == Some(s[i].1),
{
    lemma_entry_of_is(s, s[i].0, i);
    lemma_map_of_reads(s, s[i].0);
    lists::lemma_last_with_is(s, has_key(s[i].0), i);
}

/// Without a name the map has nothing under it, and everything else as before.
pub proof fn lemma_without_key_reads<W>(s: Seq<(Seq<char>, W)>, k: Seq<char>, q: Seq<char>)
    requires
        ascending(s),
    ensures
        ascending(without_key(s, k)),
        entry_of(without_key(s, k), q) == if q == k {
            None::<W>
        } else {
            entry_of(s, q)
        },
{
    let r = without_key(s, k);
    lemma_keep_ascending(s, other_key(k));
    lemma_keep_holds(s, other_key(k));
    lemma_entry_of(r, q);
    lemma_entry_of(s, q);
    if q == k {
        if let Some(w) = entry_of(r, q) {
            let i = choose|i: int| 0 <= i < r.len() && #[trigger] r[i] == (q, w);
            assert(other_key(k)(r[i]));
        }
    } else {
        match entry_of(s, q) {
            Some(w) => {
                let i = choose|i: int| 0 <= i < s.len() && #[trigger] s[i] == (q, w);
                assert(other_key(k)(s[i]));
                assert(r.contains(s[i]));
                let n = choose|n: int| 0 <= n < r.len() && r[n] == s[i];
                let v = entry_of(r, q)->0;
                let m = choose|m: int| 0 <= m < r.len() && #[trigger] r[m] == (q, v);
                if m < n {
                    assert(before(r[m].0, r[n].0));
                    lemma_before_irreflexive(q);
                } else if n < m {
                    assert(before(r[n].0, r[m].0));
                    lemma_before_irreflexive(q);
                }
            },
            None => {
                if let Some(v) = entry_of(r, q) {
                    let m = choose|m: int| 0 <= m < r.len() && #[trigger] r[m] == (q, v);
                    assert(s.contains(r[m]));
                    let n = choose|n: int| 0 <= n < s.len() && s[n] == r[m];
                    assert(s[n].0 != q);
                }
            },
        }
    }
}

} // verus!
