//! Paths as texts: their parts, their parents, and one path as seen from another.
//!
//! A path has a root or a leading `.` or neither, and behind that its names, parted by slashes.
//! Doubled and trailing slashes, and `.` further on, stand for nothing.

use crate::disk;
use crate::text;
use vstd::prelude::*;

verus! {

// ---------------------------------------------------------------------------
// Parents
// ---------------------------------------------------------------------------

/// Where the names of a path begin: behind its root, or behind the `.` that it begins with.
pub open spec fn body_start(p: Seq<char>) -> int {
    if p.len() > 0 && (p[0] == '/' || (p[0] == '.' && (p.len() == 1 || p[1] == '/'))) {
        1
    } else {
        0
    }
}

/// Whether a part of a path stands for nothing.
pub open spec fn is_no_name(part: Seq<char>) -> bool {
    part.len() == 0 || (part.len() == 1 && part[0] == '.')
}

/// Where the last part of a path begins, no part reaching before `from`.
pub open spec fn last_start(p: Seq<char>, from: int) -> int {
    match text::last_place(p.skip(from), '/') {
        Some(i) => from + i + 1,
        None => from,
    }
}

/// A path without its last part and the slash before it.
pub open spec fn without_last(p: Seq<char>, from: int) -> Seq<char> {
    let k = last_start(p, from);
    p.take(if k > from { k - 1 } else { k })
}

/// A path without what follows its last name.
pub open spec fn trimmed(p: Seq<char>, from: int) -> Seq<char>
    decreases p.len(),
    when 0 <= from
    via trimmed_decreases
{
    if p.len() > from && is_no_name(p.skip(last_start(p, from))) {
        trimmed(without_last(p, from), from)
    } else {
        p
    }
}

#[via_fn]
proof fn trimmed_decreases(p: Seq<char>, from: int) {
    if p.len() > from {
        lemma_last_start(p, from);
    }
}

/// The directory that holds what a path names. The root and the empty path have none.
pub open spec fn parent_of(p: Seq<char>) -> Option<Seq<char>> {
    let from = body_start(p);
    let q = trimmed(p, from);
    if q.len() > from {
        Some(trimmed(without_last(q, from), from))
    } else if q.len() > 0 && q[0] == '.' {
        Some(Seq::empty())
    } else {
        None
    }
}

/// The directory of a file; `.` where the path has no parent.
pub open spec fn dir_of(p: Seq<char>) -> Seq<char> {
    match parent_of(p) {
        Some(d) => d,
        None => "."@,
    }
}

proof fn lemma_last_place_range(s: Seq<char>, c: char)
    ensures
        match text::last_place(s, c) {
            Some(i) => 0 <= i < s.len() && s[i] == c && forall|j: int| i < j < s.len() ==> s[j] != c,
            None => forall|j: int| 0 <= j < s.len() ==> s[j] != c,
        },
    decreases s.len(),
{
    if s.len() > 0 && s.last() != c {
        let t = s.drop_last();
        lemma_last_place_range(t, c);
        let i = match text::last_place(t, c) {
            Some(i) => i,
            None => -1,
        };
        assert forall|j: int| i < j < s.len() implies s[j] != c by {
            if j < t.len() {
                assert(t[j] == s[j]);
            }
        }
    }
}

proof fn lemma_last_start(p: Seq<char>, from: int)
    requires
        0 <= from < p.len(),
    ensures
        from <= last_start(p, from) <= p.len(),
        last_start(p, from) > from ==> p[last_start(p, from) - 1] == '/',
        forall|j: int| last_start(p, from) <= j < p.len() ==> p[j] != '/',
        without_last(p, from).len() < p.len(),
{
    let t = p.skip(from);
    lemma_last_place_range(t, '/');
    assert forall|j: int| last_start(p, from) <= j < p.len() implies p[j] != '/' by {
        assert(t[j - from] == p[j]);
    }
}

proof fn lemma_last_start_is(p: Seq<char>, from: int, k: int)
    requires
        0 <= from <= k <= p.len(),
        k > from ==> p[k - 1] == '/',
        forall|j: int| k <= j < p.len() ==> p[j] != '/',
    ensures
        last_start(p, from) == k,
{
    let t = p.skip(from);
    text::lemma_last_place_is(t, '/', k - from - 1);
}

proof fn lemma_trimmed_short(p: Seq<char>, from: int)
    requires
        0 <= from,
    ensures
        trimmed(p, from).len() <= p.len(),
        p.len() >= from ==> trimmed(p, from).len() >= from,
        trimmed(p, from) == p.take(trimmed(p, from).len() as int),
    decreases p.len(),
{
    if p.len() > from && is_no_name(p.skip(last_start(p, from))) {
        lemma_last_start(p, from);
        let q = without_last(p, from);
        lemma_trimmed_short(q, from);
        let n = trimmed(q, from).len() as int;
        assert(q.take(n) =~= p.take(n));
    } else {
        assert(p.take(p.len() as int) =~= p);
    }
}

/// A parent is shorter than the path.
pub proof fn lemma_parent_shorter(p: Seq<char>)
    ensures
        parent_of(p) matches Some(d) ==> d.len() < p.len(),
{
    let from = body_start(p);
    lemma_trimmed_short(p, from);
    let q = trimmed(p, from);
    if q.len() > from {
        lemma_last_start(q, from);
        lemma_trimmed_short(without_last(q, from), from);
    }
}

/// The parent of a file in a directory is that directory, without what follows its last name.
pub proof fn lemma_parent_in(dir: Seq<char>, file: Seq<char>)
    requires
        dir.len() > 0,
        !is_no_name(file),
        !file.contains('/'),
    ensures
        parent_of(dir.push('/') + file) == Some(trimmed(dir, body_start(dir.push('/')))),
{
    let p = dir.push('/') + file;
    let from = body_start(p);
    assert(from == body_start(dir.push('/')));
    let k = dir.len() as int + 1;
    assert forall|j: int| k <= j < p.len() implies p[j] != '/' by {
        assert(p[j] == file[j - k]);
    }
    lemma_last_start_is(p, from, k);
    assert(p.skip(k) =~= file);
    assert(trimmed(p, from) == p);
    assert(without_last(p, from) =~= dir);
}

/// Where the last part of the first `n` characters begins.
fn find_last_start(v: &Vec<char>, n: usize, from: usize) -> (k: usize)
    requires
        from < n <= v@.len(),
    ensures
        k == last_start(v@.take(n as int), from as int),
        from <= k <= n,
{
    let ghost p = v@.take(n as int);
    let mut k: usize = n;
    while k > from && v[k - 1] != '/'
        invariant
            p == v@.take(n as int),
            from <= k <= n <= v@.len(),
            forall|j: int| k <= j < n ==> p[j] != '/',
        decreases k,
    {
        k -= 1;
    }
    proof {
        lemma_last_start_is(p, from as int, k as int);
    }
    k
}

/// How much of the first `len` characters is left without what follows the last name.
fn trim_to(v: &Vec<char>, len: usize, from: usize) -> (n: usize)
    requires
        len <= v@.len(),
    ensures
        v@.take(n as int) == trimmed(v@.take(len as int), from as int),
        n <= len,
        len >= from ==> n >= from,
{
    let mut n: usize = len;
    while n > from
        invariant
            n <= len <= v@.len(),
            len >= from ==> n >= from,
            trimmed(v@.take(n as int), from as int) == trimmed(v@.take(len as int), from as int),
        decreases n,
    {
        let ghost p = v@.take(n as int);
        let k = find_last_start(v, n, from);
        let no_name = k == n || (n - k == 1 && v[k] == '.');
        assert(no_name == is_no_name(p.skip(k as int)));
        if !no_name {
            return n;
        }
        let m: usize = if k > from {
            k - 1
        } else {
            k
        };
        assert(without_last(p, from as int) =~= v@.take(m as int));
        n = m;
    }
    n
}

fn find_body(v: &Vec<char>) -> (from: usize)
    ensures
        from == body_start(v@),
        from <= v@.len(),
{
    if v.len() > 0 && (v[0] == '/' || (v[0] == '.' && (v.len() == 1 || v[1] == '/'))) {
        1
    } else {
        0
    }
}

/// The directory that holds what a path names.
pub fn parent(path: &str) -> (r: Option<String>)
    ensures
        r.deep_view() == parent_of(path@),
{
    let v = text::chars_of(path);
    let from = find_body(&v);
    assert(v@.take(v@.len() as int) =~= v@);
    let n = trim_to(&v, v.len(), from);
    if n > from {
        let k = find_last_start(&v, n, from);
        let m: usize = if k > from {
            k - 1
        } else {
            k
        };
        proof {
            assert(without_last(v@.take(n as int), from as int) =~= v@.take(m as int));
        }
        let e = trim_to(&v, m, from);
        let r = text::text_of(&v, 0, e);
        assert(r@ =~= v@.take(e as int));
        Some(r)
    } else if n > 0 && v[0] == '.' {
        let r = String::new();
        assert(r@ =~= Seq::empty());
        Some(r)
    } else {
        None
    }
}

/// The directory of a file; `.` where the path has no parent.
pub fn parent_dir(path: &str) -> (r: String)
    ensures
        r@ == dir_of(path@),
{
    match parent(path) {
        Some(d) => d,
        None => ".".to_owned(),
    }
}

// ---------------------------------------------------------------------------
// One path as seen from another
// ---------------------------------------------------------------------------

/// Where the first part of `b` ends.
pub open spec fn part_end(b: Seq<char>) -> int {
    match text::first_where(b, text::is_the('/')) {
        Some(i) => i,
        None => b.len() as int,
    }
}

/// What follows the first part of `b` and the slash behind it.
pub open spec fn after_part(b: Seq<char>) -> Seq<char> {
    let i = part_end(b);
    b.skip(if i < b.len() { i + 1 } else { i })
}

/// The names of a path, of which `b` is what follows the root.
pub open spec fn names_in(b: Seq<char>) -> Seq<Seq<char>>
    decreases b.len(),
    when true
    via names_decreases
{
    if b.len() == 0 {
        Seq::empty()
    } else if is_no_name(b.take(part_end(b))) {
        names_in(after_part(b))
    } else {
        seq![b.take(part_end(b))] + names_in(after_part(b))
    }
}

#[via_fn]
proof fn names_decreases(b: Seq<char>) {
    lemma_part(b);
}

/// What follows the first `n` names, without slashes and `.` in front.
pub open spec fn after_names(b: Seq<char>, n: nat) -> Seq<char>
    decreases b.len(),
    when true
    via after_names_decreases
{
    if b.len() == 0 {
        b
    } else if is_no_name(b.take(part_end(b))) {
        after_names(after_part(b), n)
    } else if n == 0 {
        b
    } else {
        after_names(after_part(b), (n - 1) as nat)
    }
}

#[via_fn]
proof fn after_names_decreases(b: Seq<char>, n: nat) {
    lemma_part(b);
}

proof fn lemma_part(b: Seq<char>)
    ensures
        0 <= part_end(b) <= b.len(),
        b.len() > 0 ==> after_part(b).len() < b.len(),
{
    text::lemma_first_where(b, text::is_the('/'));
}

/// `path` as seen from the directory `dir`, if it lies below it or is it.
pub open spec fn below(path: Seq<char>, dir: Seq<char>) -> Option<Seq<char>> {
    let p = body_start(path);
    let d = body_start(dir);
    if dir.len() == 0 {
        Some(trimmed(path, p))
    } else if path.take(p) == dir.take(d) && names_in(dir.skip(d)).is_prefix_of(names_in(path.skip(p))) {
        Some(trimmed(after_names(path.skip(p), names_in(dir.skip(d)).len()), 0))
    } else {
        None
    }
}

/// `path` as seen from the directory `dir`, if it lies below it, else as it is.
pub open spec fn relative_to(path: Seq<char>, dir: Seq<char>) -> Seq<char> {
    match below(path, dir) {
        Some(rest) => rest,
        None => path,
    }
}

fn find_part_end(v: &Vec<char>, from: usize) -> (k: usize)
    requires
        from <= v@.len(),
    ensures
        from <= k <= v@.len(),
        k == from + part_end(v@.skip(from as int)),
{
    let ghost b = v@.skip(from as int);
    let n: usize = v.len();
    let mut k: usize = from;
    while k < n && v[k] != '/'
        invariant
            n == v@.len(),
            from <= k <= n,
            b == v@.skip(from as int),
            forall|j: int| 0 <= j < k - from ==> !text::is_the('/')(#[trigger] b[j]),
        decreases n - k,
    {
        assert(b[k - from] == v@[k as int]);
        k += 1;
    }
    proof {
        if k < n {
            assert(b[k - from] == v@[k as int]);
            text::lemma_first_where_is(b, text::is_the('/'), k - from);
        } else {
            text::lemma_first_where(b, text::is_the('/'));
        }
    }
    k
}

fn list_names(v: &Vec<char>, start: usize) -> (r: Vec<String>)
    requires
        start <= v@.len(),
    ensures
        r.deep_view() == names_in(v@.skip(start as int)),
{
    let n: usize = v.len();
    let ghost all = names_in(v@.skip(start as int));
    let mut out: Vec<String> = Vec::new();
    let mut i: usize = start;
    assert(out.deep_view() =~= Seq::empty());
    assert(all =~= out.deep_view() + all);
    while i < n
        invariant
            n == v@.len(),
            i <= n,
            all == out.deep_view() + names_in(v@.skip(i as int)),
        decreases n - i,
    {
        let ghost b = v@.skip(i as int);
        let ghost o = out.deep_view();
        let k = find_part_end(v, i);
        let no_name = k == i || (k - i == 1 && v[i] == '.');
        assert(no_name == is_no_name(b.take(k - i)));
        let next: usize = if k < n {
            k + 1
        } else {
            k
        };
        assert(after_part(b) =~= v@.skip(next as int));
        if !no_name {
            let name = text::text_of(v, i, k);
            assert(name@ =~= b.take(k - i));
            out.push(name);
            assert(out.deep_view() =~= o.push(b.take(k - i)));
            assert(o + (seq![b.take(k - i)] + names_in(after_part(b))) =~= out.deep_view() + names_in(after_part(b)));
        }
        i = next;
    }
    assert(v@.skip(i as int) =~= Seq::empty());
    assert(all =~= out.deep_view());
    out
}

fn skip_names(v: &Vec<char>, start: usize, count: usize) -> (r: usize)
    requires
        start <= v@.len(),
    ensures
        r <= v@.len(),
        v@.skip(r as int) == after_names(v@.skip(start as int), count as nat),
{
    let n: usize = v.len();
    let mut left: usize = count;
    let mut i: usize = start;
    while i < n
        invariant
            n == v@.len(),
            i <= n,
            after_names(v@.skip(start as int), count as nat) == after_names(v@.skip(i as int), left as nat),
        decreases n - i,
    {
        let ghost b = v@.skip(i as int);
        let k = find_part_end(v, i);
        let no_name = k == i || (k - i == 1 && v[i] == '.');
        assert(no_name == is_no_name(b.take(k - i)));
        let next: usize = if k < n {
            k + 1
        } else {
            k
        };
        assert(after_part(b) =~= v@.skip(next as int));
        if !no_name {
            if left == 0 {
                return i;
            }
            left -= 1;
        }
        i = next;
    }
    assert(v@.skip(i as int).len() == 0);
    i
}

fn starts_alike(a: &Vec<char>, b: &Vec<char>, n: usize) -> (r: bool)
    requires
        n <= a@.len(),
        n <= b@.len(),
    ensures
        r == (a@.take(n as int) == b@.take(n as int)),
{
    for i in 0..n
        invariant
            n <= a@.len(),
            n <= b@.len(),
            forall|j: int| 0 <= j < i ==> a@[j] == b@[j],
    {
        if a[i] != b[i] {
            assert(a@.take(n as int)[i as int] != b@.take(n as int)[i as int]);
            return false;
        }
    }
    assert(a@.take(n as int) =~= b@.take(n as int));
    true
}

fn begins_with(a: &Vec<String>, b: &Vec<String>) -> (r: bool)
    ensures
        r == b.deep_view().is_prefix_of(a.deep_view()),
{
    let ghost s = a.deep_view();
    let ghost t = b.deep_view();
    if b.len() > a.len() {
        return false;
    }
    for i in 0..b.len()
        invariant
            s == a.deep_view(),
            t == b.deep_view(),
            t.len() <= s.len(),
            forall|j: int| 0 <= j < i ==> s[j] == t[j],
    {
        assert(s[i as int] == a@[i as int]@);
        assert(t[i as int] == b@[i as int]@);
        if !text::same(&a[i], &b[i]) {
            proof {
                if t.is_prefix_of(s) {
                    assert(s.subrange(0, t.len() as int)[i as int] == s[i as int]);
                }
            }
            return false;
        }
    }
    assert(t =~= s.subrange(0, t.len() as int));
    true
}

/// `path` as seen from the directory `dir`, if it lies below it, else as it is.
pub fn relative(path: &str, dir: &str) -> (r: String)
    ensures
        r@ == relative_to(path@, dir@),
{
    let v = text::chars_of(path);
    let w = text::chars_of(dir);
    let p = find_body(&v);
    let d = find_body(&w);
    if w.len() == 0 {
        assert(v@.take(v@.len() as int) =~= v@);
        let n = trim_to(&v, v.len(), p);
        let r = text::text_of(&v, 0, n);
        assert(r@ =~= v@.take(n as int));
        return r;
    }
    if p != d || !starts_alike(&v, &w, p) {
        proof {
            assert(v@.take(p as int).len() == p && w@.take(d as int).len() == d);
        }
        return path.to_owned();
    }
    let mine = list_names(&v, p);
    let theirs = list_names(&w, d);
    if !begins_with(&mine, &theirs) {
        return path.to_owned();
    }
    let i = skip_names(&v, p, theirs.len());
    let rest = text::text_of(&v, i, v.len());
    let u = text::chars_of(&rest);
    assert(u@ =~= v@.skip(i as int));
    assert(u@.take(u@.len() as int) =~= u@);
    let n = trim_to(&u, u.len(), 0);
    let r = text::text_of(&u, 0, n);
    assert(r@ =~= u@.take(n as int));
    r
}

// ---------------------------------------------------------------------------
// Laws
// ---------------------------------------------------------------------------

/// Whether a path is below something, and has nothing in front of its first name nor behind its
/// last.
pub open spec fn is_plain(rel: Seq<char>) -> bool {
    rel.len() > 0 && rel[0] != '/' && after_names(rel, 0) == rel && trimmed(rel, 0) == rel
}

/// The names of a path in a directory are those of the directory and then its own.
proof fn lemma_names_joined(b: Seq<char>, rel: Seq<char>)
    ensures
        names_in(b.push('/') + rel) == names_in(b) + names_in(rel),
        after_names(b.push('/') + rel, names_in(b).len()) == after_names(rel, 0),
    decreases b.len(),
{
    let c = b.push('/') + rel;
    let f = text::is_the('/');
    text::lemma_first_where(b, f);
    lemma_part(b);
    let e = part_end(b);
    assert(c[b.len() as int] == '/');
    assert forall|j: int| 0 <= j < e implies !f(#[trigger] c[j]) by {
        assert(c[j] == b[j]);
    }
    assert(f(c[e])) by {
        if e < b.len() {
            assert(c[e] == b[e]);
        }
    }
    text::lemma_first_where_is(c, f, e);
    assert(part_end(c) == e);
    assert(c.take(e) =~= b.take(e));
    if e < b.len() {
        let rest = after_part(b);
        assert(after_part(c) =~= rest.push('/') + rel);
        lemma_names_joined(rest, rel);
        if !is_no_name(b.take(e)) {
            assert(names_in(b).len() == 1 + names_in(rest).len());
            assert(seq![b.take(e)] + (names_in(rest) + names_in(rel)) =~= names_in(b) + names_in(rel));
        }
    } else {
        assert(after_part(c) =~= rel);
        assert(b.take(e) =~= b);
        assert(after_part(b) =~= Seq::empty());
        assert(names_in(after_part(b)) =~= Seq::empty());
        if is_no_name(b) {
            assert(names_in(b) =~= Seq::empty());
            assert(names_in(b) + names_in(rel) =~= names_in(rel));
        } else {
            assert(names_in(b) =~= seq![b]);
            assert(seq![b] + names_in(rel) =~= names_in(b) + names_in(rel));
        }
    }
}

/// Behind all its names a path has nothing.
proof fn lemma_all_names(b: Seq<char>)
    ensures
        after_names(b, names_in(b).len()).len() == 0,
    decreases b.len(),
{
    if b.len() > 0 {
        lemma_part(b);
        lemma_all_names(after_part(b));
    }
}

/// From a directory, what is in it has its own path.
pub proof fn lemma_below_joined(dir: Seq<char>, rel: Seq<char>)
    requires
        dir.len() > 0,
        is_plain(rel),
    ensures
        below(disk::joined_path(dir, rel), dir) == Some(rel),
{
    let path = disk::joined_path(dir, rel);
    let d = body_start(dir);
    let b = dir.skip(d);
    if dir.last() == '/' {
        // The slash is the root, or ends the names of the directory.
        let p = body_start(path);
        assert(p == d);
        assert(path.take(p) =~= dir.take(d));
        if b.len() == 0 {
            assert(path.skip(p) =~= rel);
            assert(names_in(b) =~= Seq::empty());
            assert(names_in(b) =~= names_in(rel).subrange(0, 0));
        } else {
            let a = b.drop_last();
            assert(a.push('/') =~= b);
            assert(path.skip(p) =~= a.push('/') + rel);
            lemma_names_joined(a, rel);
            let none = Seq::<char>::empty();
            lemma_names_joined(a, none);
            assert(a.push('/') + none =~= b);
            assert(names_in(none) =~= Seq::empty());
            assert(names_in(b) =~= names_in(a));
            assert(names_in(b) =~= names_in(path.skip(p)).subrange(0, names_in(b).len() as int));
        }
    } else {
        let p = body_start(path);
        assert(path =~= dir.push('/') + rel);
        assert(p == d);
        assert(path.take(p) =~= dir.take(d));
        assert(path.skip(p) =~= b.push('/') + rel);
        lemma_names_joined(b, rel);
        assert(names_in(b) =~= names_in(path.skip(p)).subrange(0, names_in(b).len() as int));
    }
}

/// From itself, a directory has the empty path.
pub proof fn lemma_below_itself(dir: Seq<char>)
    requires
        dir.len() > 0,
    ensures
        below(dir, dir) == Some(Seq::<char>::empty()),
{
    let b = dir.skip(body_start(dir));
    lemma_all_names(b);
    assert(names_in(b) =~= names_in(b).subrange(0, names_in(b).len() as int));
    assert(after_names(b, names_in(b).len()) =~= Seq::empty());
}

/// A path that ends with a name ends with it behind anything.
proof fn lemma_trimmed_behind(pre: Seq<char>, rel: Seq<char>, from: int)
    requires
        0 <= from <= pre.len(),
        pre.len() > 0,
        pre.last() == '/',
        rel.len() > 0,
        trimmed(rel, 0) == rel,
    ensures
        rel.last() != '/',
        trimmed(pre + rel, from) == pre + rel,
{
    let p = pre + rel;
    let n = pre.len() as int;
    lemma_last_start(rel, 0);
    let k = last_start(rel, 0);
    if is_no_name(rel.skip(k)) {
        lemma_trimmed_short(without_last(rel, 0), 0);
    }
    assert(rel.skip(k).len() > 0);
    assert(rel[rel.len() - 1] != '/');
    assert forall|j: int| n + k <= j < p.len() implies p[j] != '/' by {
        assert(p[j] == rel[j - n]);
    }
    assert(p[n + k - 1] == '/') by {
        if k > 0 {
            assert(p[n + k - 1] == rel[k - 1]);
        } else {
            assert(p[n - 1] == pre.last());
        }
    }
    lemma_last_start_is(p, from, n + k);
    assert(p.skip(n + k) =~= rel.skip(k));
}

/// The directory of a file that lies `rel` below `dir` is `rel` below `dir`.
pub proof fn lemma_dir_joined(dir: Seq<char>, rel: Seq<char>, file: Seq<char>)
    requires
        dir.len() > 0,
        dir.last() != '/',
        is_plain(rel),
        !is_no_name(file),
        !file.contains('/'),
    ensures
        dir_of(disk::joined_path(disk::joined_path(dir, rel), file)) == disk::joined_path(dir, rel),
{
    let d = disk::joined_path(dir, rel);
    let pre = dir.push('/');
    assert(d =~= pre + rel);
    let from = body_start(d.push('/'));
    lemma_trimmed_behind(pre, rel, from);
    assert(d.last() == rel.last());
    assert(file.len() > 0 && file[0] != '/') by {
        assert(file.contains(file[0]));
    }
    lemma_parent_in(d, file);
}

/// The directory of a file that lies in `dir` is `dir`, if nothing follows its last name.
pub proof fn lemma_dir_in(dir: Seq<char>, file: Seq<char>)
    requires
        dir.len() > 0,
        dir.last() != '/',
        trimmed(dir, body_start(dir)) == dir,
        !is_no_name(file),
        !file.contains('/'),
    ensures
        dir_of(disk::joined_path(dir, file)) == dir,
{
    assert(file.len() > 0 && file[0] != '/') by {
        assert(file.contains(file[0]));
    }
    assert(body_start(dir.push('/')) == body_start(dir));
    lemma_parent_in(dir, file);
}

} // verus!
