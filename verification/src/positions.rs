//! Where the texts of a list stand, looked up without walking the list.

use vstd::hash_map::StringHashMap;
use vstd::prelude::*;

verus! {

/// How often a text occurs in a list.
pub open spec fn occurrences(s: Seq<Seq<char>>, k: Seq<char>) -> nat
    decreases s.len(),
{
    if s.len() == 0 {
        0
    } else {
        occurrences(s.drop_last(), k) + if s.last() == k {
            1nat
        } else {
            0nat
        }
    }
}

/// Whether `i` is the first place of `k` in a list.
pub open spec fn is_first(s: Seq<Seq<char>>, k: Seq<char>, i: int) -> bool {
    &&& 0 <= i < s.len()
    &&& s[i] == k
    &&& forall|j: int| 0 <= j < i ==> #[trigger] s[j] != k
}

/// Whether `i` is the last place of `k` in a list.
pub open spec fn is_last(s: Seq<Seq<char>>, k: Seq<char>, i: int) -> bool {
    &&& 0 <= i < s.len()
    &&& s[i] == k
    &&& forall|j: int| i < j < s.len() ==> #[trigger] s[j] != k
}

/// The first and the last place of every text of a list, and how often it occurs.
pub struct Positions {
    keys: Ghost<Seq<Seq<char>>>,
    first: StringHashMap<usize>,
    last: StringHashMap<usize>,
    counts: StringHashMap<usize>,
}

spec fn finds_first(s: Seq<Seq<char>>, m: Map<Seq<char>, usize>) -> bool {
    &&& forall|k: Seq<char>| #[trigger] m.contains_key(k) ==> is_first(s, k, m[k] as int)
    &&& forall|j: int| 0 <= j < s.len() ==> m.contains_key(#[trigger] s[j])
}

spec fn finds_last(s: Seq<Seq<char>>, m: Map<Seq<char>, usize>) -> bool {
    &&& forall|k: Seq<char>| #[trigger] m.contains_key(k) ==> is_last(s, k, m[k] as int)
    &&& forall|j: int| 0 <= j < s.len() ==> m.contains_key(#[trigger] s[j])
}

spec fn counts_all(s: Seq<Seq<char>>, m: Map<Seq<char>, usize>) -> bool {
    &&& forall|k: Seq<char>| #[trigger] m.contains_key(k) ==> m[k] == occurrences(s, k)
    &&& forall|k: Seq<char>| !(#[trigger] m.contains_key(k)) ==> occurrences(s, k) == 0
}

proof fn lemma_occurrences_bounded(s: Seq<Seq<char>>, k: Seq<char>)
    ensures
        occurrences(s, k) <= s.len(),
    decreases s.len(),
{
    if s.len() > 0 {
        lemma_occurrences_bounded(s.drop_last(), k);
    }
}

impl Positions {
    /// The list.
    pub closed spec fn keys(&self) -> Seq<Seq<char>> {
        self.keys@
    }

    #[verifier::type_invariant]
    spec fn inv(&self) -> bool {
        &&& finds_first(self.keys@, self.first@)
        &&& finds_last(self.keys@, self.last@)
        &&& counts_all(self.keys@, self.counts@)
    }

    /// The positions of the texts of `keys`.
    pub fn of(keys: &Vec<&str>) -> (r: Positions)
        ensures
            r.keys() == keys.deep_view(),
    {
        let ghost s = keys.deep_view();
        let mut first: StringHashMap<usize> = StringHashMap::new();
        let mut last: StringHashMap<usize> = StringHashMap::new();
        let mut counts: StringHashMap<usize> = StringHashMap::new();
        for i in 0..keys.len()
            invariant
                s == keys.deep_view(),
                finds_first(s.take(i as int), first@),
                finds_last(s.take(i as int), last@),
                counts_all(s.take(i as int), counts@),
        {
            let ghost t = s.take(i as int);
            let ghost u = s.take(i + 1);
            let ghost (f, l, c) = (first@, last@, counts@);
            let k = keys[i];
            proof {
                assert(u[i as int] == k@);
                assert(u.drop_last() =~= t);
                assert forall|j: int| 0 <= j < t.len() implies u[j] == t[j] by {}
                lemma_occurrences_bounded(t, k@);
            }
            let count: usize = match counts.get(k) {
                Some(n) => *n,
                None => 0,
            };
            counts.insert(k.to_owned(), count + 1);
            last.insert(k.to_owned(), i);
            if !first.contains_key(k) {
                first.insert(k.to_owned(), i);
            }
            proof {
                assert forall|q: Seq<char>| #[trigger] first@.contains_key(q) implies is_first(
                    u,
                    q,
                    first@[q] as int,
                ) by {
                    if f.contains_key(q) {
                        assert(is_first(t, q, f[q] as int));
                    } else {
                        assert forall|j: int| 0 <= j < i implies #[trigger] u[j] != q by {
                            assert(f.contains_key(t[j]));
                        }
                    }
                }
                assert forall|j: int| 0 <= j < u.len() implies first@.contains_key(#[trigger] u[j]) by {
                    if j < t.len() {
                        assert(f.contains_key(t[j]));
                    }
                }
                assert forall|q: Seq<char>| #[trigger] last@.contains_key(q) implies is_last(
                    u,
                    q,
                    last@[q] as int,
                ) by {
                    if q != k@ {
                        assert(is_last(t, q, l[q] as int));
                    }
                }
                assert forall|j: int| 0 <= j < u.len() implies last@.contains_key(#[trigger] u[j]) by {
                    if j < t.len() {
                        assert(l.contains_key(t[j]));
                    }
                }
                assert forall|q: Seq<char>| #[trigger] counts@.contains_key(q) implies counts@[q] == occurrences(
                    u,
                    q,
                ) by {
                    if q != k@ {
                        assert(c.contains_key(q));
                    }
                }
                assert forall|q: Seq<char>| !(#[trigger] counts@.contains_key(q)) implies occurrences(u, q) == 0 by {
                    assert(!c.contains_key(q));
                }
            }
        }
        assert(s.take(s.len() as int) =~= s);
        Positions { keys: Ghost(s), first, last, counts }
    }

    /// The first place of a text.
    pub fn first(&self, k: &str) -> (r: Option<usize>)
        ensures
            match r {
                Some(i) => is_first(self.keys(), k@, i as int),
                None => forall|j: int| 0 <= j < self.keys().len() ==> #[trigger] self.keys()[j] != k@,
            },
    {
        proof {
            use_type_invariant(self);
        }
        match self.first.get(k) {
            Some(i) => Some(*i),
            None => {
                assert forall|j: int| 0 <= j < self.keys().len() implies #[trigger] self.keys()[j] != k@ by {
                    assert(self.first@.contains_key(self.keys@[j]));
                }
                None
            },
        }
    }

    /// The last place of a text.
    pub fn last(&self, k: &str) -> (r: Option<usize>)
        ensures
            match r {
                Some(i) => is_last(self.keys(), k@, i as int),
                None => forall|j: int| 0 <= j < self.keys().len() ==> #[trigger] self.keys()[j] != k@,
            },
    {
        proof {
            use_type_invariant(self);
        }
        match self.last.get(k) {
            Some(i) => Some(*i),
            None => {
                assert forall|j: int| 0 <= j < self.keys().len() implies #[trigger] self.keys()[j] != k@ by {
                    assert(self.last@.contains_key(self.keys@[j]));
                }
                None
            },
        }
    }

    /// How often a text occurs.
    pub fn count(&self, k: &str) -> (r: usize)
        ensures
            r == occurrences(self.keys(), k@),
    {
        proof {
            use_type_invariant(self);
        }
        match self.counts.get(k) {
            Some(n) => *n,
            None => 0,
        }
    }
}

} // verus!
