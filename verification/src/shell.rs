//! Texts quoted for the shell.

use crate::text;
use vstd::prelude::*;

verus! {

/// A text in single quotes for the shell.
pub open spec fn shell_quoted(v: Seq<char>) -> Seq<char> {
    "'"@ + text::with_char_replaced(v, '\'', "'\\''"@) + "'"@
}

pub fn quote(v: &str) -> (r: String)
    ensures
        r@ == shell_quoted(v@),
{
    text::cat3("'", &text::replace_char(v, '\'', "'\\''"), "'")
}

/// A value of a variable as a shell file writes it: in single quotes, else with double quotes taken off.
pub open spec fn unquoted(v: Seq<char>) -> Seq<char> {
    let inner = match text::after_prefix(v, "'"@) {
        Some(s) => text::before_suffix(s, "'"@),
        None => None,
    };
    match inner {
        Some(s) => text::with_part_replaced(s, "'\\''"@, "'"@),
        None => text::without_ends(v, '"'),
    }
}

pub fn unquote(v: &str) -> (r: String)
    ensures
        r@ == unquoted(v@),
{
    let inner = match text::strip_prefix(v, "'") {
        Some(s) => text::strip_suffix(s, "'"),
        None => None,
    };
    match inner {
        Some(s) => {
            proof {
                reveal_strlit("'\\''");
            }
            text::replace_text(s, "'\\''", "'")
        },
        None => text::trim_matches(v, '"').to_owned(),
    }
}

proof fn lemma_replaced_head(v: Seq<char>, c: char, by: Seq<char>)
    requires
        v.len() > 0,
    ensures
        text::with_char_replaced(v, c, by) == (if v[0] == c {
            by
        } else {
            seq![v[0]]
        }) + text::with_char_replaced(v.skip(1), c, by),
    decreases v.len(),
{
    let t = v.skip(1);
    if v.len() == 1 {
        assert(v.drop_last() =~= Seq::empty());
        assert(t =~= Seq::empty());
        assert(text::with_char_replaced(Seq::<char>::empty(), c, by) =~= Seq::empty());
    } else {
        lemma_replaced_head(v.drop_last(), c, by);
        assert(v.drop_last().skip(1) =~= t.drop_last());
        assert(t.last() == v.last());
    }
    assert(text::with_char_replaced(v, c, by) =~= (if v[0] == c {
        by
    } else {
        seq![v[0]]
    }) + text::with_char_replaced(t, c, by));
}

proof fn lemma_quotes_back(v: Seq<char>)
    ensures
        text::with_part_replaced(text::with_char_replaced(v, '\'', "'\\''"@), "'\\''"@, "'"@) == v,
    decreases v.len(),
{
    let p = "'\\''"@;
    let q = "'"@;
    reveal_strlit("'\\''");
    reveal_strlit("'");
    let x = text::with_char_replaced(v, '\'', p);
    if v.len() == 0 {
        assert(x =~= Seq::empty());
    } else {
        let t = v.skip(1);
        let y = text::with_char_replaced(t, '\'', p);
        lemma_replaced_head(v, '\'', p);
        lemma_quotes_back(t);
        if v[0] == '\'' {
            assert(x == p + y);
            assert(x.take(p.len() as int) =~= p);
            assert(x.skip(p.len() as int) =~= y);
            assert(q + t =~= v);
        } else {
            assert(x[0] == v[0]);
            assert(p[0] == '\'');
            if text::has_prefix(x, p) {
                assert(x.take(p.len() as int)[0] == p[0]);
            }
            assert(x.drop_first() =~= y);
            assert(seq![v[0]] + t =~= v);
        }
    }
}

/// What is quoted is read back as it was.
pub proof fn lemma_quoting_reads_back(v: Seq<char>)
    ensures
        unquoted(shell_quoted(v)) == v,
{
    let x = text::with_char_replaced(v, '\'', "'\\''"@);
    let s = shell_quoted(v);
    reveal_strlit("'");
    assert(s.take(1) =~= "'"@);
    assert(s.skip(1) =~= x + "'"@);
    assert((x + "'"@).skip((x + "'"@).len() - 1) =~= "'"@);
    assert((x + "'"@).take(x.len() as int) =~= x);
    lemma_quotes_back(v);
}

/// The assignment of a value to a variable.
pub open spec fn assignment(name: Seq<char>, value: Seq<char>) -> Seq<char> {
    name + "="@ + shell_quoted(value)
}

pub fn shell_assign(name: &str, value: &str) -> (r: String)
    ensures
        r@ == assignment(name@, value@),
{
    text::cat3(name, "=", &quote(value))
}

/// Quoting by the shell's rules: a text without single quotes stands between two of them as it is, and a
/// single quote inside is written between the end of one quotation and the beginning of the next, escaped.
pub proof fn lemma_quoting_rules(a: Seq<char>, b: Seq<char>)
    requires
        !a.contains('\''),
        !b.contains('\''),
    ensures
        shell_quoted(a) == "'"@ + a + "'"@,
        shell_quoted(a + "'"@ + b) == "'"@ + a + "'\\''"@ + b + "'"@,
        assignment(a, b) == a + "="@ + "'"@ + b + "'"@,
{
    reveal_strlit("'");
    text::lemma_replaced_none(a, '\'', "'\\''"@);
    text::lemma_replaced_none(b, '\'', "'\\''"@);
    text::lemma_replaced_joined(a + "'"@, b, '\'', "'\\''"@);
    assert((a + "'"@).drop_last() =~= a);
    assert(shell_quoted(a + "'"@ + b) =~= "'"@ + a + "'\\''"@ + b + "'"@);
    assert(assignment(a, b) =~= a + "="@ + "'"@ + b + "'"@);
}

} // verus!
