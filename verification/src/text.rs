//! Text as a sequence of characters: searching, cutting, joining and replacing.
//!
//! Every function here states its result over `Seq<char>`, the view that a text has in contracts.

use vstd::prelude::*;
use vstd::string::*;

verus! {

/// `String::push` appends one character.
pub assume_specification[ String::push ](s: &mut String, c: char)
    ensures
        final(s)@ == old(s)@.push(c),
;

/// The characters of `s`.
pub fn chars_of(s: &str) -> (v: Vec<char>)
    ensures
        v@ == s@,
{
    let mut v: Vec<char> = Vec::new();
    for c in it: s.chars()
        invariant
            v@ == it.seq().take(it.index()),
            it.seq() == s@,
    {
        v.push(c);
    }
    v
}

/// The text made of the characters `from..to` of `v`.
pub fn text_of(v: &Vec<char>, from: usize, to: usize) -> (s: String)
    requires
        from <= to <= v@.len(),
    ensures
        s@ == v@.subrange(from as int, to as int),
{
    let mut s = String::new();
    for i in from..to
        invariant
            from <= i <= to <= v@.len(),
            s@ == v@.subrange(from as int, i as int),
    {
        s.push(v[i]);
        assert(v@.subrange(from as int, i + 1) =~= v@.subrange(from as int, i as int).push(v@[i as int]));
    }
    s
}

/// Whether two texts hold the same characters.
pub fn same(a: &str, b: &str) -> (r: bool)
    ensures
        r == (a@ == b@),
{
    let x = a.as_bytes();
    let y = b.as_bytes();
    if x.len() != y.len() {
        return false;
    }
    for i in 0..x.len()
        invariant
            x@ == a.spec_bytes(),
            y@ == b.spec_bytes(),
            x@.len() == y@.len(),
            forall|j: int| 0 <= j < i ==> x@[j] == y@[j],
    {
        if x[i] != y[i] {
            return false;
        }
    }
    proof {
        assert(x@ =~= y@);
        vstd::utf8::encode_utf8_decode_utf8(a@);
        vstd::utf8::encode_utf8_decode_utf8(b@);
    }
    true
}

/// A text that may be there, by reference.
pub fn opt_str(v: &Option<String>) -> (r: Option<&str>)
    ensures
        r.deep_view() == v.deep_view(),
{
    match v {
        Some(s) => Some(s.as_str()),
        None => None,
    }
}

/// `a` followed by `b`.
pub fn cat2(a: &str, b: &str) -> (r: String)
    ensures
        r@ == a@ + b@,
{
    a.to_owned().concat(b)
}

/// `a`, `b` and `c`, one behind the other.
pub fn cat3(a: &str, b: &str, c: &str) -> (r: String)
    ensures
        r@ == a@ + b@ + c@,
{
    a.to_owned().concat(b).concat(c)
}

/// Four texts, one behind the other.
pub fn cat4(a: &str, b: &str, c: &str, d: &str) -> (r: String)
    ensures
        r@ == a@ + b@ + c@ + d@,
{
    a.to_owned().concat(b).concat(c).concat(d)
}

/// Five texts, one behind the other.
pub fn cat5(a: &str, b: &str, c: &str, d: &str, e: &str) -> (r: String)
    ensures
        r@ == a@ + b@ + c@ + d@ + e@,
{
    a.to_owned().concat(b).concat(c).concat(d).concat(e)
}

// ---------------------------------------------------------------------------
// Prefixes, suffixes, occurrences
// ---------------------------------------------------------------------------

/// Whether `p` stands in `s` at place `i`.
pub open spec fn occurs_at(s: Seq<char>, p: Seq<char>, i: int) -> bool {
    0 <= i && i + p.len() <= s.len() && s.subrange(i, i + p.len()) == p
}

/// Whether `s` begins with `p`.
pub open spec fn has_prefix(s: Seq<char>, p: Seq<char>) -> bool {
    p.len() <= s.len() && s.take(p.len() as int) == p
}

/// Whether `s` ends with `p`.
pub open spec fn has_suffix(s: Seq<char>, p: Seq<char>) -> bool {
    p.len() <= s.len() && s.skip(s.len() - p.len()) == p
}

/// Whether `p` stands anywhere in `s`.
pub open spec fn has_part(s: Seq<char>, p: Seq<char>) -> bool {
    exists|i: int| occurs_at(s, p, i)
}

fn occurs(v: &Vec<char>, p: &Vec<char>, i: usize) -> (r: bool)
    requires
        i + p@.len() <= v@.len(),
    ensures
        r == occurs_at(v@, p@, i as int),
{
    let n: usize = v.len();
    for j in 0..p.len()
        invariant
            i + p@.len() <= v@.len(),
            n == v@.len(),
            forall|k: int| 0 <= k < j ==> v@[i + k] == p@[k],
    {
        if v[i + j] != p[j] {
            assert(v@.subrange(i as int, i + p@.len())[j as int] == v@[i + j]);
            return false;
        }
    }
    assert(v@.subrange(i as int, i + p@.len()) =~= p@);
    true
}

pub fn starts_with(s: &str, p: &str) -> (r: bool)
    ensures
        r == has_prefix(s@, p@),
{
    let v = chars_of(s);
    let q = chars_of(p);
    if q.len() > v.len() {
        return false;
    }
    assert(v@.take(q@.len() as int) =~= v@.subrange(0, q@.len() as int));
    occurs(&v, &q, 0)
}

pub fn ends_with(s: &str, p: &str) -> (r: bool)
    ensures
        r == has_suffix(s@, p@),
{
    let v = chars_of(s);
    let q = chars_of(p);
    if q.len() > v.len() {
        return false;
    }
    let at: usize = v.len() - q.len();
    assert(v@.skip(at as int) =~= v@.subrange(at as int, at + q@.len()));
    occurs(&v, &q, at)
}

pub fn contains_text(s: &str, p: &str) -> (r: bool)
    ensures
        r == has_part(s@, p@),
{
    let v = chars_of(s);
    let q = chars_of(p);
    if q.len() > v.len() {
        return false;
    }
    let last: usize = v.len() - q.len();
    let mut i: usize = 0;
    while i <= last
        invariant
            v@ == s@,
            q@ == p@,
            last == v@.len() - q@.len(),
            i <= last + 1,
            forall|j: int| 0 <= j < i ==> !occurs_at(v@, q@, j),
        decreases last + 1 - i,
    {
        if occurs(&v, &q, i) {
            return true;
        }
        if i == last {
            return false;
        }
        i += 1;
    }
    false
}

/// What follows `p` at the beginning of `s`.
pub open spec fn after_prefix(s: Seq<char>, p: Seq<char>) -> Option<Seq<char>> {
    if has_prefix(s, p) {
        Some(s.skip(p.len() as int))
    } else {
        None
    }
}

/// What precedes `p` at the end of `s`.
pub open spec fn before_suffix(s: Seq<char>, p: Seq<char>) -> Option<Seq<char>> {
    if has_suffix(s, p) {
        Some(s.take(s.len() - p.len()))
    } else {
        None
    }
}

pub fn strip_prefix<'a>(s: &'a str, p: &str) -> (r: Option<&'a str>)
    ensures
        r.deep_view() == after_prefix(s@, p@),
{
    if starts_with(s, p) {
        let n: usize = s.unicode_len();
        let m: usize = p.unicode_len();
        let rest = s.substring_char(m, n);
        assert(rest@ =~= s@.skip(p@.len() as int));
        Some(rest)
    } else {
        None
    }
}

pub fn strip_suffix<'a>(s: &'a str, p: &str) -> (r: Option<&'a str>)
    ensures
        r.deep_view() == before_suffix(s@, p@),
{
    if ends_with(s, p) {
        let n: usize = s.unicode_len();
        let m: usize = p.unicode_len();
        let rest = s.substring_char(0, n - m);
        assert(rest@ =~= s@.take(s@.len() - p@.len()));
        Some(rest)
    } else {
        None
    }
}

// ---------------------------------------------------------------------------
// First and last places
// ---------------------------------------------------------------------------

/// The place of the first character that satisfies `f`.
pub open spec fn first_where(s: Seq<char>, f: spec_fn(char) -> bool) -> Option<int>
    decreases s.len(),
{
    if s.len() == 0 {
        None
    } else if f(s[0]) {
        Some(0)
    } else {
        match first_where(s.drop_first(), f) {
            Some(i) => Some(i + 1),
            None => None,
        }
    }
}

pub proof fn lemma_first_where(s: Seq<char>, f: spec_fn(char) -> bool)
    ensures
        match first_where(s, f) {
            Some(i) => 0 <= i < s.len() && f(s[i]) && forall|j: int| 0 <= j < i ==> !f(#[trigger] s[j]),
            None => forall|j: int| 0 <= j < s.len() ==> !f(#[trigger] s[j]),
        },
    decreases s.len(),
{
    if s.len() > 0 && !f(s[0]) {
        let t = s.drop_first();
        lemma_first_where(t, f);
        match first_where(t, f) {
            Some(i) => {
                assert forall|j: int| 0 <= j < i + 1 implies !f(#[trigger] s[j]) by {
                    if j > 0 {
                        assert(!f(t[j - 1]));
                    }
                }
            },
            None => {
                assert forall|j: int| 0 <= j < s.len() implies !f(#[trigger] s[j]) by {
                    if j > 0 {
                        assert(!f(t[j - 1]));
                    }
                }
            },
        }
    }
}

/// A place with `f` there and nowhere before is the first.
pub proof fn lemma_first_where_is(s: Seq<char>, f: spec_fn(char) -> bool, i: int)
    requires
        0 <= i <= s.len(),
        i < s.len() ==> f(s[i]),
        forall|j: int| 0 <= j < i ==> !f(#[trigger] s[j]),
    ensures
        first_where(s, f) == if i < s.len() { Some(i) } else { None::<int> },
{
    lemma_first_where(s, f);
    match first_where(s, f) {
        Some(k) => {
            if k < i {
                assert(!f(s[k]));
            } else if i < k {
                assert(!f(s[i]));
            }
        },
        None => {},
    }
}

/// Being the character `c`.
pub open spec fn is_the(c: char) -> spec_fn(char) -> bool {
    |x: char| x == c
}

/// The text before and after the first `c`.
pub open spec fn cut_first(s: Seq<char>, c: char) -> Option<(Seq<char>, Seq<char>)> {
    match first_where(s, is_the(c)) {
        Some(i) => Some((s.take(i), s.skip(i + 1))),
        None => None,
    }
}

/// The text before the first `c`, or all of it.
pub open spec fn before_first(s: Seq<char>, c: char) -> Seq<char> {
    match cut_first(s, c) {
        Some((a, b)) => a,
        None => s,
    }
}

pub fn split_once<'a>(s: &'a str, c: char) -> (r: Option<(&'a str, &'a str)>)
    ensures
        r.deep_view() == cut_first(s@, c),
{
    let v = chars_of(s);
    for i in 0..v.len()
        invariant
            v@ == s@,
            forall|j: int| 0 <= j < i ==> v@[j] != c,
    {
        if v[i] == c {
            let a = s.substring_char(0, i);
            let b = s.substring_char(i + 1, v.len());
            proof {
                lemma_first_where_is(s@, is_the(c), i as int);
                assert(a@ =~= s@.take(i as int));
                assert(b@ =~= s@.skip(i + 1));
            }
            return Some((a, b));
        }
    }
    proof {
        lemma_first_where_is(s@, is_the(c), v@.len() as int);
    }
    None
}

pub fn split_first<'a>(s: &'a str, c: char) -> (r: &'a str)
    ensures
        r@ == before_first(s@, c),
{
    match split_once(s, c) {
        Some((a, _)) => a,
        None => s,
    }
}

/// The place of the last `c`.
pub open spec fn last_place(s: Seq<char>, c: char) -> Option<int>
    decreases s.len(),
{
    if s.len() == 0 {
        None
    } else if s.last() == c {
        Some(s.len() - 1)
    } else {
        last_place(s.drop_last(), c)
    }
}

pub proof fn lemma_last_place_is(s: Seq<char>, c: char, i: int)
    requires
        -1 <= i < s.len(),
        i >= 0 ==> s[i] == c,
        forall|j: int| i < j < s.len() ==> s[j] != c,
    ensures
        last_place(s, c) == if i >= 0 { Some(i) } else { None::<int> },
    decreases s.len(),
{
    if s.len() > 0 && s.last() != c {
        lemma_last_place_is(s.drop_last(), c, i);
    }
}

/// The text before and after the last `c`.
pub open spec fn cut_last(s: Seq<char>, c: char) -> Option<(Seq<char>, Seq<char>)> {
    match last_place(s, c) {
        Some(i) => Some((s.take(i), s.skip(i + 1))),
        None => None,
    }
}

pub fn rsplit_once<'a>(s: &'a str, c: char) -> (r: Option<(&'a str, &'a str)>)
    ensures
        r.deep_view() == cut_last(s@, c),
{
    let v = chars_of(s);
    let mut i: usize = v.len();
    while i > 0
        invariant
            v@ == s@,
            i <= v@.len(),
            forall|j: int| i <= j < v@.len() ==> v@[j] != c,
        decreases i,
    {
        i -= 1;
        if v[i] == c {
            let a = s.substring_char(0, i);
            let b = s.substring_char(i + 1, v.len());
            proof {
                lemma_last_place_is(s@, c, i as int);
                assert(a@ =~= s@.take(i as int));
                assert(b@ =~= s@.skip(i + 1));
            }
            return Some((a, b));
        }
    }
    proof {
        lemma_last_place_is(s@, c, -1);
    }
    None
}

/// Whether a text holds the character `c`.
pub fn contains_char(s: &str, c: char) -> (r: bool)
    ensures
        r == s@.contains(c),
{
    let v = chars_of(s);
    for i in 0..v.len()
        invariant
            v@ == s@,
            forall|j: int| 0 <= j < i ==> v@[j] != c,
    {
        if v[i] == c {
            assert(s@[i as int] == c);
            return true;
        }
    }
    false
}

// ---------------------------------------------------------------------------
// White space
// ---------------------------------------------------------------------------

/// The Unicode property `White_Space`.
pub open spec fn is_white(c: char) -> bool {
    let n = c as u32;
    9 <= n <= 13 || n == 0x20 || n == 0x85 || n == 0xa0 || n == 0x1680 || 0x2000 <= n <= 0x200a
        || n == 0x2028 || n == 0x2029 || n == 0x202f || n == 0x205f || n == 0x3000
}

/// Not being white space.
pub open spec fn is_ink() -> spec_fn(char) -> bool {
    |c: char| !is_white(c)
}

/// Being white space.
pub open spec fn is_blank() -> spec_fn(char) -> bool {
    |c: char| is_white(c)
}

fn white(c: char) -> (r: bool)
    ensures
        r == is_white(c),
{
    let n: u32 = c as u32;
    (9 <= n && n <= 13) || n == 0x20 || n == 0x85 || n == 0xa0 || n == 0x1680 || (0x2000 <= n && n
        <= 0x200a) || n == 0x2028 || n == 0x2029 || n == 0x202f || n == 0x205f || n == 0x3000
}

/// The text from the first character with `f` on.
pub open spec fn from_first(s: Seq<char>, f: spec_fn(char) -> bool) -> Seq<char> {
    match first_where(s, f) {
        Some(i) => s.skip(i),
        None => Seq::empty(),
    }
}

/// The text up to the first character with `f`.
pub open spec fn up_to_first(s: Seq<char>, f: spec_fn(char) -> bool) -> Seq<char> {
    match first_where(s, f) {
        Some(i) => s.take(i),
        None => s,
    }
}

/// The text up to and with the last character with `f`.
pub open spec fn up_to_last(s: Seq<char>, f: spec_fn(char) -> bool) -> Seq<char>
    decreases s.len(),
{
    if s.len() == 0 || f(s.last()) {
        s
    } else {
        up_to_last(s.drop_last(), f)
    }
}

pub open spec fn trimmed_end(s: Seq<char>) -> Seq<char> {
    up_to_last(s, is_ink())
}

/// The text without white space at its ends.
pub open spec fn trimmed(s: Seq<char>) -> Seq<char> {
    trimmed_end(from_first(s, is_ink()))
}

pub proof fn lemma_up_to_last_is(s: Seq<char>, f: spec_fn(char) -> bool, n: int)
    requires
        0 <= n <= s.len(),
        n > 0 ==> f(s[n - 1]),
        forall|j: int| n <= j < s.len() ==> !f(#[trigger] s[j]),
    ensures
        up_to_last(s, f) == s.take(n),
    decreases s.len(),
{
    if s.len() == n {
        assert(s.take(n) =~= s);
    } else {
        assert(!f(s[s.len() - 1]));
        lemma_up_to_last_is(s.drop_last(), f, n);
        assert(s.drop_last().take(n) =~= s.take(n));
    }
}

pub fn trim_start(s: &str) -> (r: &str)
    ensures
        r@ == from_first(s@, is_ink()),
{
    let v = chars_of(s);
    let n: usize = v.len();
    let mut i: usize = 0;
    while i < n && white(v[i])
        invariant
            v@ == s@,
            n == v@.len(),
            i <= n,
            forall|j: int| 0 <= j < i ==> is_white(v@[j]),
        decreases n - i,
    {
        i += 1;
    }
    proof {
        lemma_first_where_is(s@, is_ink(), i as int);
        assert(s@.subrange(i as int, n as int) =~= s@.skip(i as int));
        assert(s@.subrange(n as int, n as int) =~= Seq::empty());
    }
    s.substring_char(i, n)
}

pub fn trim_end(s: &str) -> (r: &str)
    ensures
        r@ == trimmed_end(s@),
{
    let v = chars_of(s);
    let mut n: usize = v.len();
    while n > 0 && white(v[n - 1])
        invariant
            v@ == s@,
            n <= v@.len(),
            forall|j: int| n <= j < v@.len() ==> is_white(v@[j]),
        decreases n,
    {
        n -= 1;
    }
    proof {
        lemma_up_to_last_is(s@, is_ink(), n as int);
        assert(s@.subrange(0, n as int) =~= s@.take(n as int));
    }
    s.substring_char(0, n)
}

pub fn trim(s: &str) -> (r: &str)
    ensures
        r@ == trimmed(s@),
{
    trim_end(trim_start(s))
}

/// The words of a text: its longest runs without white space.
pub open spec fn words(s: Seq<char>) -> Seq<Seq<char>>
    decreases s.len(),
    when true via words_decreases
{
    let t = from_first(s, is_ink());
    if t.len() == 0 {
        Seq::empty()
    } else {
        let w = up_to_first(t, is_blank());
        seq![w] + words(t.skip(w.len() as int))
    }
}

#[via_fn]
proof fn words_decreases(s: Seq<char>) {
    lemma_first_where(s, is_ink());
    let t = from_first(s, is_ink());
    lemma_first_where(t, is_blank());
}

pub fn split_whitespace(s: &str) -> (r: Vec<String>)
    ensures
        r.deep_view() == words(s@),
{
    let v = chars_of(s);
    let n: usize = v.len();
    let mut out: Vec<String> = Vec::new();
    let mut i: usize = 0;
    assert(s@.skip(0) =~= s@);
    while i < n
        invariant
            v@ == s@,
            n == v@.len(),
            i <= n,
            out.deep_view() + words(s@.skip(i as int)) == words(s@),
        decreases n - i,
    {
        let ghost rest = s@.skip(i as int);
        let mut a: usize = i;
        while a < n && white(v[a])
            invariant
                v@ == s@,
                n == v@.len(),
                i <= a <= n,
                rest == s@.skip(i as int),
                forall|j: int| 0 <= j < a - i ==> is_white(#[trigger] rest[j]),
            decreases n - a,
        {
            assert(rest[a - i] == v@[a as int]);
            a += 1;
        }
        proof {
            assert(a < n ==> rest[a - i] == v@[a as int]);
            lemma_first_where_is(rest, is_ink(), a - i);
            assert(from_first(rest, is_ink()) =~= s@.skip(a as int));
        }
        if a == n {
            assert(words(rest) =~= Seq::empty());
            assert(out.deep_view() =~= words(s@));
            return out;
        }
        let ghost t = s@.skip(a as int);
        let mut b: usize = a;
        while b < n && !white(v[b])
            invariant
                v@ == s@,
                n == v@.len(),
                a <= b <= n,
                t == s@.skip(a as int),
                forall|j: int| 0 <= j < b - a ==> !is_white(#[trigger] t[j]),
            decreases n - b,
        {
            assert(t[b - a] == v@[b as int]);
            b += 1;
        }
        let w = text_of(&v, a, b);
        proof {
            assert(t[0] == v@[a as int]);
            assert(b < n ==> t[b - a] == v@[b as int]);
            lemma_first_where_is(t, is_blank(), b - a);
            assert(up_to_first(t, is_blank()) =~= w@);
            assert(t.skip(b - a) =~= s@.skip(b as int));
            assert(words(rest) == seq![w@] + words(s@.skip(b as int)));
            assert(out.deep_view().push(w@) + words(s@.skip(b as int)) =~= out.deep_view() + words(rest));
        }
        let ghost before = out.deep_view();
        out.push(w);
        assert(out.deep_view() =~= before.push(w@));
        i = b;
    }
    assert(words(s@.skip(n as int)) =~= Seq::empty());
    assert(out.deep_view() =~= words(s@));
    out
}

// ---------------------------------------------------------------------------
// Lines
// ---------------------------------------------------------------------------

/// A line without the carriage return before its line feed.
pub open spec fn without_return(s: Seq<char>) -> Seq<char> {
    if s.len() > 0 && s.last() == '\r' {
        s.drop_last()
    } else {
        s
    }
}

/// The lines of a text, each without its line end.
pub open spec fn lines(s: Seq<char>) -> Seq<Seq<char>>
    decreases s.len(),
    when true via lines_decreases
{
    if s.len() == 0 {
        Seq::empty()
    } else {
        match first_where(s, is_the('\n')) {
            Some(i) => seq![without_return(s.take(i))] + lines(s.skip(i + 1)),
            None => seq![s],
        }
    }
}

#[via_fn]
proof fn lines_decreases(s: Seq<char>) {
    lemma_first_where(s, is_the('\n'));
}

/// The lines of two texts, one behind the other, are those of the first and then those of the second,
/// if the first ends with a line end.
pub proof fn lemma_lines_joined(a: Seq<char>, b: Seq<char>)
    requires
        a.len() == 0 || a.last() == '\n',
    ensures
        lines(a + b) == lines(a) + lines(b),
    decreases a.len(),
{
    if a.len() == 0 {
        assert(a + b =~= b);
        assert(lines(a) + lines(b) =~= lines(b));
    } else {
        let f = is_the('\n');
        let c = a + b;
        lemma_first_where(a, f);
        assert(f(a[a.len() - 1]));
        let i = first_where(a, f)->Some_0;
        assert forall|j: int| 0 <= j < i implies !f(#[trigger] c[j]) by {
            assert(c[j] == a[j]);
        }
        assert(c[i] == a[i]);
        lemma_first_where_is(c, f, i);
        let rest = a.skip(i + 1);
        assert(c.take(i) =~= a.take(i));
        assert(c.skip(i + 1) =~= rest + b);
        if rest.len() > 0 {
            assert(rest.last() == a.last());
        }
        lemma_lines_joined(rest, b);
        assert(lines(c) =~= lines(a) + lines(b));
    }
}

pub fn split_lines(s: &str) -> (r: Vec<String>)
    ensures
        r.deep_view() == lines(s@),
{
    let v = chars_of(s);
    let n: usize = v.len();
    let mut out: Vec<String> = Vec::new();
    let mut i: usize = 0;
    assert(s@.skip(0) =~= s@);
    while i < n
        invariant
            v@ == s@,
            n == v@.len(),
            i <= n,
            out.deep_view() + lines(s@.skip(i as int)) == lines(s@),
        decreases n - i,
    {
        let ghost rest = s@.skip(i as int);
        let mut b: usize = i;
        while b < n && v[b] != '\n'
            invariant
                v@ == s@,
                n == v@.len(),
                i <= b <= n,
                rest == s@.skip(i as int),
                forall|j: int| 0 <= j < b - i ==> #[trigger] rest[j] != '\n',
            decreases n - b,
        {
            assert(rest[b - i] == v@[b as int]);
            b += 1;
        }
        proof {
            assert(b < n ==> rest[b - i] == v@[b as int]);
            lemma_first_where_is(rest, is_the('\n'), b - i);
        }
        let ghost before = out.deep_view();
        if b == n {
            let w = text_of(&v, i, n);
            assert(w@ =~= rest);
            out.push(w);
            assert(out.deep_view() =~= before.push(rest));
            assert(out.deep_view() =~= lines(s@));
            return out;
        }
        let cut = i < b && v[b - 1] == '\r';
        let e: usize = if cut { b - 1 } else { b };
        let w = text_of(&v, i, e);
        proof {
            assert(i < b ==> rest.take(b - i).last() == v@[b - 1]);
            assert(w@ =~= without_return(rest.take(b - i)));
            assert(rest.skip(b - i + 1) =~= s@.skip(b + 1));
            assert(before.push(w@) + lines(s@.skip(b + 1)) =~= before + lines(rest));
        }
        out.push(w);
        assert(out.deep_view() =~= before.push(w@));
        i = b + 1;
    }
    assert(lines(s@.skip(n as int)) =~= Seq::empty());
    assert(out.deep_view() =~= lines(s@));
    out
}

// ---------------------------------------------------------------------------
// Replacing and joining
// ---------------------------------------------------------------------------

/// The text with every `c` replaced by `by`.
pub open spec fn with_char_replaced(s: Seq<char>, c: char, by: Seq<char>) -> Seq<char>
    decreases s.len(),
{
    if s.len() == 0 {
        Seq::empty()
    } else {
        with_char_replaced(s.drop_last(), c, by) + if s.last() == c {
            by
        } else {
            seq![s.last()]
        }
    }
}

pub fn replace_char(s: &str, c: char, by: &str) -> (r: String)
    ensures
        r@ == with_char_replaced(s@, c, by@),
{
    let v = chars_of(s);
    let mut out = String::new();
    for i in 0..v.len()
        invariant
            v@ == s@,
            out@ == with_char_replaced(s@.take(i as int), c, by@),
    {
        assert(s@.take(i + 1).drop_last() =~= s@.take(i as int));
        if v[i] == c {
            out.append(by);
        } else {
            let ghost before = out@;
            out.push(v[i]);
            assert(out@ =~= before + seq![v@[i as int]]);
        }
    }
    assert(s@.take(v@.len() as int) =~= s@);
    out
}

/// The text with every occurrence of `p` replaced by `by`, from the left, none overlapping another.
pub open spec fn with_part_replaced(s: Seq<char>, p: Seq<char>, by: Seq<char>) -> Seq<char>
    decreases s.len(),
{
    if s.len() == 0 || p.len() == 0 {
        s
    } else if has_prefix(s, p) {
        by + with_part_replaced(s.skip(p.len() as int), p, by)
    } else {
        seq![s[0]] + with_part_replaced(s.drop_first(), p, by)
    }
}

/// Replaces every occurrence of a part that is not empty.
pub fn replace_text(s: &str, p: &str, by: &str) -> (r: String)
    requires
        p@.len() > 0,
    ensures
        r@ == with_part_replaced(s@, p@, by@),
{
    let v = chars_of(s);
    let q = chars_of(p);
    let n: usize = v.len();
    let m: usize = q.len();
    let mut out = String::new();
    let mut i: usize = 0;
    assert(s@.skip(0) =~= s@);
    while i < n
        invariant
            v@ == s@,
            q@ == p@,
            n == v@.len(),
            m == q@.len(),
            m > 0,
            i <= n,
            out@ + with_part_replaced(s@.skip(i as int), p@, by@) == with_part_replaced(s@, p@, by@),
        decreases n - i,
    {
        let ghost rest = s@.skip(i as int);
        let ghost before = out@;
        if m <= n - i && occurs(&v, &q, i) {
            proof {
                assert(rest.take(m as int) =~= v@.subrange(i as int, i + m));
                assert(rest.skip(m as int) =~= s@.skip(i + m));
                assert(before + by@ + with_part_replaced(s@.skip(i + m), p@, by@) =~= before
                    + with_part_replaced(rest, p@, by@));
            }
            out.append(by);
            i += m;
        } else {
            proof {
                if m <= n - i {
                    assert(rest.take(m as int) =~= v@.subrange(i as int, i + m));
                }
                assert(rest.drop_first() =~= s@.skip(i + 1));
                assert(before.push(rest[0]) + with_part_replaced(s@.skip(i + 1), p@, by@) =~= before
                    + with_part_replaced(rest, p@, by@));
            }
            out.push(v[i]);
            i += 1;
        }
    }
    assert(s@.skip(n as int) =~= Seq::empty());
    assert(out@ =~= with_part_replaced(s@, p@, by@));
    out
}

/// The parts of `s` with `sep` between each two.
pub open spec fn joined(s: Seq<Seq<char>>, sep: Seq<char>) -> Seq<char>
    decreases s.len(),
{
    if s.len() == 0 {
        Seq::empty()
    } else if s.len() == 1 {
        s[0]
    } else {
        joined(s.drop_last(), sep) + sep + s.last()
    }
}

pub fn join(v: &Vec<String>, sep: &str) -> (r: String)
    ensures
        r@ == joined(v.deep_view(), sep@),
{
    let mut out = String::new();
    let ghost d = v.deep_view();
    for i in 0..v.len()
        invariant
            d == v.deep_view(),
            out@ == joined(d.take(i as int), sep@),
    {
        assert(d.take(i + 1).drop_last() =~= d.take(i as int));
        assert(d.take(i + 1).last() == v@[i as int]@);
        if i > 0 {
            out.append(sep);
        }
        let ghost before = out@;
        out.append(&v[i]);
        assert(i == 0 ==> out@ =~= v@[i as int]@);
    }
    assert(d.take(v@.len() as int) =~= d);
    out
}

// ---------------------------------------------------------------------------
// Stripping a character at the ends
// ---------------------------------------------------------------------------

/// Not being the character `c`.
pub open spec fn is_not(c: char) -> spec_fn(char) -> bool {
    |x: char| x != c
}

/// The text without any `c` at its ends.
pub open spec fn without_ends(s: Seq<char>, c: char) -> Seq<char> {
    up_to_last(from_first(s, is_not(c)), is_not(c))
}

/// The text without any `c` at its beginning.
pub fn trim_start_matches(s: &str, c: char) -> (r: &str)
    ensures
        r@ == from_first(s@, is_not(c)),
{
    let v = chars_of(s);
    let n: usize = v.len();
    let mut i: usize = 0;
    while i < n && v[i] == c
        invariant
            v@ == s@,
            n == v@.len(),
            i <= n,
            forall|j: int| 0 <= j < i ==> v@[j] == c,
        decreases n - i,
    {
        i += 1;
    }
    proof {
        lemma_first_where_is(s@, is_not(c), i as int);
        assert(s@.subrange(i as int, n as int) =~= s@.skip(i as int));
        assert(s@.subrange(n as int, n as int) =~= Seq::empty());
    }
    s.substring_char(i, n)
}

pub fn trim_matches(s: &str, c: char) -> (r: &str)
    ensures
        r@ == without_ends(s@, c),
{
    let t = trim_start_matches(s, c);
    let v = chars_of(t);
    let mut n: usize = v.len();
    while n > 0 && v[n - 1] == c
        invariant
            v@ == t@,
            n <= v@.len(),
            forall|j: int| n <= j < v@.len() ==> v@[j] == c,
        decreases n,
    {
        n -= 1;
    }
    proof {
        lemma_up_to_last_is(t@, is_not(c), n as int);
        assert(t@.subrange(0, n as int) =~= t@.take(n as int));
    }
    t.substring_char(0, n)
}

// ---------------------------------------------------------------------------
// Numbers
// ---------------------------------------------------------------------------

/// The decimal digit for a number below ten.
pub open spec fn digit(n: nat) -> char {
    if n == 0 {
        '0'
    } else if n == 1 {
        '1'
    } else if n == 2 {
        '2'
    } else if n == 3 {
        '3'
    } else if n == 4 {
        '4'
    } else if n == 5 {
        '5'
    } else if n == 6 {
        '6'
    } else if n == 7 {
        '7'
    } else if n == 8 {
        '8'
    } else {
        '9'
    }
}

/// A number in decimal.
pub open spec fn decimal(n: nat) -> Seq<char>
    decreases n,
{
    if n < 10 {
        seq![digit(n)]
    } else {
        decimal(n / 10).push(digit(n % 10))
    }
}

fn digit_char(n: u64) -> (r: char)
    requires
        n < 10,
    ensures
        r == digit(n as nat),
{
    if n == 0 {
        '0'
    } else if n == 1 {
        '1'
    } else if n == 2 {
        '2'
    } else if n == 3 {
        '3'
    } else if n == 4 {
        '4'
    } else if n == 5 {
        '5'
    } else if n == 6 {
        '6'
    } else if n == 7 {
        '7'
    } else if n == 8 {
        '8'
    } else {
        '9'
    }
}

pub fn number_text(n: u64) -> (r: String)
    ensures
        r@ == decimal(n as nat),
    decreases n,
{
    if n < 10 {
        let mut r = String::new();
        r.push(digit_char(n));
        assert(r@ =~= seq![digit(n as nat)]);
        r
    } else {
        let mut r = number_text(n / 10);
        r.push(digit_char(n % 10));
        r
    }
}

/// A number in decimal, with a minus sign if it is negative.
pub open spec fn signed_decimal(n: int) -> Seq<char> {
    if n < 0 {
        "-"@ + decimal((-n) as nat)
    } else {
        decimal(n as nat)
    }
}

pub fn signed_text(n: i64) -> (r: String)
    ensures
        r@ == signed_decimal(n as int),
{
    if n == i64::MIN {
        cat2("-", &number_text(9_223_372_036_854_775_808))
    } else if n < 0 {
        cat2("-", &number_text((-n) as u64))
    } else {
        number_text(n as u64)
    }
}

/// The value of a decimal digit.
pub open spec fn digit_value(c: char) -> Option<nat> {
    if '0' <= c <= '9' {
        Some((c as int - '0' as int) as nat)
    } else {
        None
    }
}

/// The number that a row of decimal digits stands for; zero for no digits.
pub open spec fn digits_value(s: Seq<char>) -> Option<nat>
    decreases s.len(),
{
    if s.len() == 0 {
        Some(0)
    } else {
        match (digits_value(s.drop_last()), digit_value(s.last())) {
            (Some(v), Some(d)) => Some(v * 10 + d),
            _ => None,
        }
    }
}

/// The number that a text stands for: decimal digits, with or without a plus sign, of a value that
/// fits 64 bits.
pub open spec fn parsed_number(s: Seq<char>) -> Option<nat> {
    let t = if s.len() > 0 && s[0] == '+' {
        s.drop_first()
    } else {
        s
    };
    if t.len() == 0 {
        None
    } else {
        match digits_value(t) {
            Some(v) => if v <= u64::MAX {
                Some(v)
            } else {
                None
            },
            None => None,
        }
    }
}

proof fn lemma_digits_grow(s: Seq<char>, n: int)
    requires
        0 <= n <= s.len(),
    ensures
        digits_value(s.take(n)) is None ==> digits_value(s) is None,
        digits_value(s) matches Some(w) ==> digits_value(s.take(n)) matches Some(v) && v <= w,
    decreases s.len() - n,
{
    if n == s.len() {
        assert(s.take(n) =~= s);
    } else {
        lemma_digits_grow(s, n + 1);
        assert(s.take(n + 1).drop_last() =~= s.take(n));
    }
}

pub fn parse_u64(s: &str) -> (r: Option<u64>)
    ensures
        match r {
            Some(n) => parsed_number(s@) == Some(n as nat),
            None => parsed_number(s@) is None,
        },
{
    let v = chars_of(s);
    let n: usize = v.len();
    let from: usize = if n > 0 && v[0] == '+' { 1 } else { 0 };
    let ghost t = s@.skip(from as int);
    assert(s@.skip(0) =~= s@);
    assert(n > 0 ==> s@.skip(1) =~= s@.drop_first());
    if from == n {
        return None;
    }
    let mut value: u64 = 0;
    assert(t.take(0) =~= Seq::empty());
    for i in from..n
        invariant
            v@ == s@,
            n == v@.len(),
            from <= i <= n,
            t == s@.skip(from as int),
            parsed_number(s@) == match digits_value(t) {
                Some(v) => if v <= u64::MAX {
                    Some(v)
                } else {
                    None
                },
                None => None,
            },
            digits_value(t.take(i - from)) == Some(value as nat),
    {
        let ghost u = t.take(i + 1 - from);
        assert(u.drop_last() =~= t.take(i - from));
        assert(u.last() == v@[i as int]);
        let c = v[i];
        if c < '0' || '9' < c {
            proof {
                lemma_digits_grow(t, i + 1 - from);
            }
            return None;
        }
        let d: u64 = (c as u32 - 48) as u64;
        proof {
            lemma_digits_grow(t, i + 1 - from);
        }
        if value > (u64::MAX - d) / 10 {
            return None;
        }
        value = value * 10 + d;
    }
    assert(t.take(n - from) =~= t);
    Some(value)
}

// ---------------------------------------------------------------------------
// Upper case
// ---------------------------------------------------------------------------

/// What `str::to_uppercase` makes of a text, by Unicode's mapping.
pub uninterp spec fn uppercased(s: Seq<char>) -> Seq<char>;

/// `str::to_uppercase`: the upper case of a text, which depends on the text alone.
#[verifier::external_body]
pub(crate) fn to_uppercase(s: &str) -> (r: String)
    ensures
        r@ == uppercased(s@),
{
    s.to_uppercase()
}

// ---------------------------------------------------------------------------
// Cutting and joining
// ---------------------------------------------------------------------------

/// What stands behind a prefix is what was put behind it, and a text that has the prefix is made so.
pub proof fn lemma_after_prefix(p: Seq<char>, s: Seq<char>)
    ensures
        has_prefix(p + s, p),
        after_prefix(p + s, p) == Some(s),
        after_prefix(s, p) matches Some(r) ==> s == p + r,
{
    assert((p + s).take(p.len() as int) =~= p);
    assert((p + s).skip(p.len() as int) =~= s);
    if has_prefix(s, p) {
        assert(s =~= s.take(p.len() as int) + s.skip(p.len() as int));
    }
}

/// What stands before a suffix is what was put before it, and a text that has the suffix is made so.
pub proof fn lemma_before_suffix(s: Seq<char>, p: Seq<char>)
    ensures
        has_suffix(s + p, p),
        before_suffix(s + p, p) == Some(s),
        before_suffix(s, p) matches Some(r) ==> s == r + p,
{
    assert((s + p).skip(s.len() as int) =~= p);
    assert((s + p).take(s.len() as int) =~= s);
    if has_suffix(s, p) {
        assert(s =~= s.take(s.len() - p.len()) + s.skip(s.len() - p.len()));
    }
}

/// Cutting at the first `c` undoes joining with `c`, as long as there is none before.
pub proof fn lemma_cut_first_at(a: Seq<char>, c: char, b: Seq<char>)
    requires
        !a.contains(c),
    ensures
        cut_first(a.push(c) + b, c) == Some((a, b)),
{
    let s = a.push(c) + b;
    let n = a.len() as int;
    assert(s[n] == c);
    assert forall|j: int| 0 <= j < n implies !is_the(c)(#[trigger] s[j]) by {
        assert(s[j] == a[j]);
        assert(a.contains(a[j]));
    }
    lemma_first_where_is(s, is_the(c), n);
    assert(s.take(n) =~= a);
    assert(s.skip(n + 1) =~= b);
}

/// A text without `c` is not cut.
pub proof fn lemma_cut_first_none(s: Seq<char>, c: char)
    requires
        !s.contains(c),
    ensures
        cut_first(s, c) is None,
        before_first(s, c) == s,
{
    assert forall|j: int| 0 <= j < s.len() implies !is_the(c)(#[trigger] s[j]) by {
        assert(s.contains(s[j]));
    }
    lemma_first_where_is(s, is_the(c), s.len() as int);
}

/// What the first `c` cuts apart makes up the text, with no `c` in the first part; only a text without
/// `c` is not cut.
pub proof fn lemma_cut_first_joins(s: Seq<char>, c: char)
    ensures
        match cut_first(s, c) {
            Some((a, b)) => s == a.push(c) + b && !a.contains(c),
            None => !s.contains(c),
        },
{
    lemma_first_where(s, is_the(c));
    match first_where(s, is_the(c)) {
        Some(i) => {
            assert(s =~= s.take(i).push(c) + s.skip(i + 1));
            assert forall|j: int| 0 <= j < i implies s[j] != c by {
                assert(!is_the(c)(s[j]));
            }
        },
        None => {
            assert forall|j: int| 0 <= j < s.len() implies s[j] != c by {
                assert(!is_the(c)(s[j]));
            }
        },
    }
}

/// The text before the first `c` is what was put before it.
pub proof fn lemma_before_first_at(a: Seq<char>, c: char, b: Seq<char>)
    requires
        !a.contains(c),
    ensures
        before_first(a.push(c) + b, c) == a,
{
    lemma_cut_first_at(a, c, b);
}

/// A text without `c` stands before it as a whole.
pub proof fn lemma_before_first_none(s: Seq<char>, c: char)
    requires
        !s.contains(c),
    ensures
        before_first(s, c) == s,
{
    lemma_cut_first_none(s, c);
}

/// Cutting at the last `c` undoes joining with `c`, as long as there is none behind.
pub proof fn lemma_cut_last_at(a: Seq<char>, c: char, b: Seq<char>)
    requires
        !b.contains(c),
    ensures
        cut_last(a.push(c) + b, c) == Some((a, b)),
{
    let s = a.push(c) + b;
    let n = a.len() as int;
    assert(s[n] == c);
    assert forall|j: int| n < j < s.len() implies s[j] != c by {
        assert(s[j] == b[j - n - 1]);
        assert(b.contains(b[j - n - 1]));
    }
    lemma_last_place_is(s, c, n);
    assert(s.take(n) =~= a);
    assert(s.skip(n + 1) =~= b);
}

/// A text without `c` is not cut at the last one either.
pub proof fn lemma_cut_last_none(s: Seq<char>, c: char)
    requires
        !s.contains(c),
    ensures
        cut_last(s, c) is None,
{
    assert forall|j: int| 0 <= j < s.len() implies s[j] != c by {
        assert(s.contains(s[j]));
    }
    lemma_last_place_is(s, c, -1);
}

/// A text that begins and ends with something that is no white space is what trimming leaves of it, however
/// much white space there is around it.
pub proof fn lemma_trimmed(a: Seq<char>, s: Seq<char>, b: Seq<char>)
    requires
        s.len() > 0,
        !is_white(s[0]),
        !is_white(s.last()),
        forall|i: int| 0 <= i < a.len() ==> is_white(#[trigger] a[i]),
        forall|i: int| 0 <= i < b.len() ==> is_white(#[trigger] b[i]),
    ensures
        trimmed(a + s + b) == s,
        trimmed_end(s + b) == s,
{
    let t = a + s + b;
    let n = a.len() as int;
    assert(t[n] == s[0]);
    assert forall|j: int| 0 <= j < n implies !is_ink()(#[trigger] t[j]) by {
        assert(t[j] == a[j]);
    }
    lemma_first_where_is(t, is_ink(), n);
    assert(t.skip(n) =~= s + b);
    let u = s + b;
    let m = s.len() as int;
    assert(u[m - 1] == s.last());
    assert forall|j: int| m <= j < u.len() implies !is_ink()(#[trigger] u[j]) by {
        assert(u[j] == b[j - m]);
    }
    lemma_up_to_last_is(u, is_ink(), m);
    assert(u.take(m) =~= s);
}

/// A text without white space at its ends is not changed by trimming.
pub proof fn lemma_trimmed_as_is(s: Seq<char>)
    requires
        s.len() > 0,
        !is_white(s[0]),
        !is_white(s.last()),
    ensures
        trimmed(s) == s,
        trimmed_end(s) == s,
{
    let e = Seq::<char>::empty();
    lemma_trimmed(e, s, e);
    assert(e + s + e =~= s);
    assert(s + e =~= s);
}

/// A text that differs somewhere from a prefix does not have it.
pub proof fn lemma_other_prefix(s: Seq<char>, p: Seq<char>, i: int)
    requires
        0 <= i < p.len(),
        i < s.len(),
        s[i] != p[i],
    ensures
        !has_prefix(s, p),
        after_prefix(s, p) is None,
{
    if has_prefix(s, p) {
        assert(s.take(p.len() as int)[i] == s[i]);
    }
}

/// A line with its end is one line, and the text without its end is too.
pub proof fn lemma_one_line(s: Seq<char>)
    requires
        s.len() > 0,
        !s.contains('\n'),
        s.last() != '\r',
    ensures
        lines(s.push('\n')) == seq![s],
        lines(s) == seq![s],
{
    let t = s.push('\n');
    let n = s.len() as int;
    assert forall|j: int| 0 <= j < n implies !is_the('\n')(#[trigger] t[j]) by {
        assert(t[j] == s[j]);
        assert(s.contains(s[j]));
    }
    lemma_first_where_is(t, is_the('\n'), n);
    assert(t.take(n) =~= s);
    assert(t.skip(n + 1) =~= Seq::empty());
    assert(lines(Seq::empty()) =~= Seq::<Seq<char>>::empty());
    assert(lines(t) =~= seq![s]);
    assert forall|j: int| 0 <= j < n implies !is_the('\n')(#[trigger] s[j]) by {
        assert(s.contains(s[j]));
    }
    lemma_first_where_is(s, is_the('\n'), n);
}

/// Where the character does not occur nothing is replaced.
pub proof fn lemma_replaced_none(s: Seq<char>, c: char, by: Seq<char>)
    requires
        !s.contains(c),
    ensures
        with_char_replaced(s, c, by) == s,
    decreases s.len(),
{
    if s.len() > 0 {
        let t = s.drop_last();
        assert(s.contains(s[s.len() - 1]));
        assert(!t.contains(c)) by {
            if t.contains(c) {
                let i = choose|i: int| 0 <= i < t.len() && t[i] == c;
                assert(s[i] == c);
            }
        }
        lemma_replaced_none(t, c, by);
        assert(t + seq![s.last()] =~= s);
    }
}

/// Two texts are replaced in, one behind the other, as each is on its own.
pub proof fn lemma_replaced_joined(a: Seq<char>, b: Seq<char>, c: char, by: Seq<char>)
    ensures
        with_char_replaced(a + b, c, by) == with_char_replaced(a, c, by) + with_char_replaced(b, c, by),
    decreases b.len(),
{
    if b.len() == 0 {
        assert(a + b =~= a);
        assert(with_char_replaced(a, c, by) + with_char_replaced(b, c, by) =~= with_char_replaced(a, c, by));
    } else {
        assert((a + b).drop_last() =~= a + b.drop_last());
        assert((a + b).last() == b.last());
        lemma_replaced_joined(a, b.drop_last(), c, by);
        assert(with_char_replaced(a + b, c, by) =~= with_char_replaced(a, c, by) + with_char_replaced(b, c, by));
    }
}

/// A part that begins a text is replaced, and what follows it is replaced in on its own; a text that does not
/// have the part stays as it is.
pub proof fn lemma_part_replaced(p: Seq<char>, s: Seq<char>, by: Seq<char>)
    requires
        p.len() > 0,
    ensures
        with_part_replaced(p + s, p, by) == by + with_part_replaced(s, p, by),
        !has_part(s, p) ==> with_part_replaced(s, p, by) == s,
    decreases s.len(),
{
    lemma_after_prefix(p, s);
    if !has_part(s, p) && s.len() > 0 {
        if has_prefix(s, p) {
            assert(s.subrange(0, p.len() as int) =~= s.take(p.len() as int));
            assert(occurs_at(s, p, 0));
        }
        let t = s.drop_first();
        if has_part(t, p) {
            let i = choose|i: int| occurs_at(t, p, i);
            assert(s.subrange(i + 1, i + 1 + p.len()) =~= t.subrange(i, i + p.len()));
            assert(occurs_at(s, p, i + 1));
        }
        lemma_part_replaced(p, t, by);
        assert(seq![s[0]] + t =~= s);
    }
}

/// Parts joined with a separator: one part is itself, and each further part stands behind a separator.
pub proof fn lemma_joined(s: Seq<Seq<char>>, x: Seq<char>, sep: Seq<char>)
    ensures
        joined(Seq::empty(), sep) == Seq::<char>::empty(),
        joined(seq![x], sep) == x,
        s.len() > 0 ==> joined(s.push(x), sep) == joined(s, sep) + sep + x,
{
    assert(s.push(x).drop_last() =~= s);
}

/// A number in decimal is read back as that number.
pub proof fn lemma_decimal_reads_back(n: nat)
    ensures
        digits_value(decimal(n)) == Some(n),
        decimal(n).len() > 0,
        n < 10 ==> decimal(n).len() == 1,
    decreases n,
{
    if n < 10 {
        assert(decimal(n).drop_last() =~= Seq::empty());
        assert(digits_value(Seq::empty()) == Some(0nat));
        assert(digit_value(digit(n)) == Some(n));
    } else {
        lemma_decimal_reads_back(n / 10);
        assert(decimal(n).drop_last() =~= decimal(n / 10));
        assert(digit_value(digit(n % 10)) == Some(n % 10));
    }
}

/// A word is a text's only word where it stands alone, its first where white space follows it, and white space
/// in front of a text adds none.
pub proof fn lemma_words(w: Seq<char>, c: char, s: Seq<char>)
    requires
        w.len() > 0,
        forall|i: int| 0 <= i < w.len() ==> !is_white(#[trigger] w[i]),
        is_white(c),
    ensures
        words(w) == seq![w],
        words(w.push(c) + s) == seq![w] + words(s),
        words(seq![c] + s) == words(s),
        words(Seq::empty()).len() == 0,
{
    lemma_first_where_is(w, is_ink(), 0);
    assert(w.skip(0) =~= w);
    lemma_first_where_is(w, is_blank(), w.len() as int);
    assert(w.take(w.len() as int) =~= w);
    assert(from_first(w, is_ink()) =~= w);
    assert(up_to_first(w, is_blank()) =~= w);
    let e = w.skip(w.len() as int);
    assert(e =~= Seq::<char>::empty());
    lemma_first_where_is(e, is_ink(), 0);
    assert(words(e) =~= Seq::<Seq<char>>::empty());
    assert(words(w) == seq![w] + words(e));
    assert(words(w) =~= seq![w]);
    lemma_white_in_front(c, s);
    let t = w.push(c) + s;
    assert(t[0] == w[0]);
    lemma_first_where_is(t, is_ink(), 0);
    assert(t.skip(0) =~= t);
    assert forall|j: int| 0 <= j < w.len() implies !is_blank()(#[trigger] t[j]) by {
        assert(t[j] == w[j]);
    }
    assert(t[w.len() as int] == c);
    lemma_first_where_is(t, is_blank(), w.len() as int);
    assert(from_first(t, is_ink()) =~= t);
    assert(up_to_first(t, is_blank()) =~= w);
    assert(t.skip(w.len() as int) =~= seq![c] + s);
}

proof fn lemma_white_in_front(c: char, s: Seq<char>)
    requires
        is_white(c),
    ensures
        words(seq![c] + s) == words(s),
{
    let t = seq![c] + s;
    lemma_first_where(s, is_ink());
    match first_where(s, is_ink()) {
        Some(i) => {
            assert forall|j: int| 0 <= j < i + 1 implies !is_ink()(#[trigger] t[j]) by {
                if j > 0 {
                    assert(t[j] == s[j - 1]);
                }
            }
            assert(t[i + 1] == s[i]);
            lemma_first_where_is(t, is_ink(), i + 1);
            assert(t.skip(i + 1) =~= s.skip(i));
        },
        None => {
            assert forall|j: int| 0 <= j < t.len() implies !is_ink()(#[trigger] t[j]) by {
                if j > 0 {
                    assert(t[j] == s[j - 1]);
                }
            }
            lemma_first_where_is(t, is_ink(), t.len() as int);
        },
    }
    assert(from_first(t, is_ink()) =~= from_first(s, is_ink()));
}

/// A number's sign stands in front of its digits.
pub proof fn lemma_signed(n: nat)
    ensures
        signed_decimal(n as int) == decimal(n),
        n > 0 ==> signed_decimal(-n) == "-"@ + decimal(n),
{
}

/// A number that a text stands for has a plus sign in front or none.
pub proof fn lemma_plus_sign(s: Seq<char>)
    requires
        s.len() > 0,
        s[0] != '+',
    ensures
        parsed_number("+"@ + s) == parsed_number(s),
{
    reveal_strlit("+");
    assert(("+"@ + s).drop_first() =~= s);
}

} // verus!
