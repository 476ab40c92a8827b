//! TOML documents as trees.
//!
//! The text is read by the `toml` crate. What it yields is carried over into [`Tree`], whose view
//! [`Toml`] is what the rest of the library speaks of.

use crate::sorted;
use crate::text;
use vstd::prelude::*;

verus! {

// ---------------------------------------------------------------------------
// Reading
// ---------------------------------------------------------------------------

#[verifier::external_type_specification]
#[verifier::external_body]
pub struct ExTomlValue(toml::Value);

#[verifier::external_type_specification]
#[verifier::external_body]
pub struct ExTomlError(toml::de::Error);

/// What `toml::from_str` makes of a text: its tree, or the words of its complaint.
pub uninterp spec fn toml_parsed(text: Seq<char>) -> Result<Toml, Seq<char>>;

/// The tree that a `toml::Value` holds.
pub uninterp spec fn toml_tree_of(v: toml::Value) -> Toml;

/// What a `toml::de::Error` displays.
pub uninterp spec fn toml_error_text(e: toml::de::Error) -> Seq<char>;

/// `toml::from_str` into a `toml::Value`: a function of the text alone, either the tree that the
/// text stands for or an error.
#[verifier::external_body]
fn toml_from_str(text: &str) -> (r: Result<toml::Value, toml::de::Error>)
    ensures
        toml_parsed(text@) == match r {
            Ok(v) => Ok::<Toml, Seq<char>>(toml_tree_of(v)),
            Err(e) => Err::<Toml, Seq<char>>(toml_error_text(e)),
        },
{
    toml::from_str::<toml::Value>(text)
}

/// `toml::Value` taken apart: each value becomes the one of the same kind here. The entries of a
/// table come in the order in which `toml::Table` walks them. Of a float and of a date only the
/// kind is carried over.
#[verifier::external_body]
fn tree_of(v: &toml::Value) -> (r: Tree)
    ensures
        r.deep_view() == toml_tree_of(*v),
{
    match v {
        toml::Value::String(s) => Tree::Text(s.clone()),
        toml::Value::Integer(n) => Tree::Integer(*n),
        toml::Value::Float(_) => Tree::Float,
        toml::Value::Boolean(b) => Tree::Boolean(*b),
        toml::Value::Datetime(_) => Tree::Datetime,
        toml::Value::Array(a) => Tree::Array(a.iter().map(tree_of).collect()),
        toml::Value::Table(t) => Tree::Table(t.iter().map(|(k, v)| (k.clone(), tree_of(v))).collect()),
    }
}

/// The words of a `toml::de::Error`, as it displays itself.
#[verifier::external_body]
fn error_text(e: &toml::de::Error) -> (r: String)
    ensures
        r@ == toml_error_text(*e),
{
    e.to_string()
}

/// Reads a TOML document.
pub fn parse(text: &str) -> (r: Result<Tree, String>)
    ensures
        toml_parsed(text@) == match r {
            Ok(v) => Ok::<Toml, Seq<char>>(v.deep_view()),
            Err(e) => Err::<Toml, Seq<char>>(e@),
        },
{
    match toml_from_str(text) {
        Ok(v) => Ok(tree_of(&v)),
        Err(e) => Err(error_text(&e)),
    }
}

// ---------------------------------------------------------------------------
// The tree
// ---------------------------------------------------------------------------

/// A TOML value. A table holds its entries in the order of the document tree.
#[derive(Debug)]
pub enum Tree {
    Text(String),
    Integer(i64),
    Float,
    Boolean(bool),
    Datetime,
    Array(Vec<Tree>),
    Table(Vec<(String, Tree)>),
}

/// The view of a [`Tree`].
pub enum Toml {
    Text(Seq<char>),
    Integer(i64),
    Float,
    Boolean(bool),
    Datetime,
    Array(Seq<Toml>),
    Table(Seq<(Seq<char>, Toml)>),
}

/// The tree with every text replaced by its characters.
pub open spec fn view_of(v: Tree) -> Toml
    decreases v,
{
    match v {
        Tree::Text(s) => Toml::Text(s@),
        Tree::Integer(n) => Toml::Integer(n),
        Tree::Float => Toml::Float,
        Tree::Boolean(b) => Toml::Boolean(b),
        Tree::Datetime => Toml::Datetime,
        Tree::Array(a) => Toml::Array(
            Seq::new(
                a@.len(),
                |i: int|
                    if 0 <= i < a@.len() {
                        view_of(a@[i])
                    } else {
                        Toml::Float
                    },
            ),
        ),
        Tree::Table(t) => Toml::Table(
            Seq::new(
                t@.len(),
                |i: int|
                    if 0 <= i < t@.len() {
                        (t@[i].0@, view_of(t@[i].1))
                    } else {
                        (Seq::empty(), Toml::Float)
                    },
            ),
        ),
    }
}

impl DeepView for Tree {
    type V = Toml;

    open spec fn deep_view(&self) -> Toml {
        view_of(*self)
    }
}

/// What a table holds under `key`.
pub open spec fn field(v: Toml, key: Seq<char>) -> Option<Toml> {
    match v {
        Toml::Table(t) => sorted::entry_of(t, key),
        _ => None,
    }
}

/// The same of a value that may be absent.
pub open spec fn opt_field(v: Option<Toml>, key: Seq<char>) -> Option<Toml> {
    match v {
        Some(v) => field(v, key),
        None => None,
    }
}

/// The text that a value is, if it is one.
pub open spec fn text_in(v: Option<Toml>) -> Option<Seq<char>> {
    match v {
        Some(Toml::Text(s)) => Some(s),
        _ => None,
    }
}

/// The truth value that a value is, if it is one.
pub open spec fn bool_in(v: Option<Toml>) -> Option<bool> {
    match v {
        Some(Toml::Boolean(b)) => Some(b),
        _ => None,
    }
}

/// The items of an array; none of anything else.
pub open spec fn items_in(v: Option<Toml>) -> Seq<Toml> {
    match v {
        Some(Toml::Array(a)) => a,
        _ => Seq::empty(),
    }
}

/// The entries of a table; none of anything else.
pub open spec fn entries_in(v: Option<Toml>) -> Seq<(Seq<char>, Toml)> {
    match v {
        Some(Toml::Table(t)) => t,
        _ => Seq::empty(),
    }
}

pub open spec fn text_at() -> spec_fn(Toml) -> Option<Seq<char>> {
    |v: Toml| text_in(Some(v))
}

/// The texts among the items of an array.
pub open spec fn texts_in(v: Option<Toml>) -> Seq<Seq<char>> {
    items_in(v).filter_map(text_at())
}

impl Tree {
    /// What a table holds under `key`.
    pub fn get(&self, key: &str) -> (r: Option<&Tree>)
        ensures
            r.deep_view() == field(self.deep_view(), key@),
    {
        match self {
            Tree::Table(t) => {
                let ghost s = self.deep_view()->Table_0;
                for i in 0..t.len()
                    invariant
                        self.deep_view() == Toml::Table(s),
                        self == Tree::Table(*t),
                        forall|j: int| 0 <= j < i ==> (#[trigger] s[j]).0 != key@,
                {
                    assert(s[i as int] == (t@[i as int].0@, t@[i as int].1.deep_view()));
                    if text::same(&t[i].0, key) {
                        proof {
                            sorted::lemma_entry_of_is(s, key@, i as int);
                        }
                        return Some(&t[i].1);
                    }
                }
                proof {
                    sorted::lemma_entry_of_is(s, key@, s.len() as int);
                }
                None
            },
            _ => None,
        }
    }

    pub fn as_str(&self) -> (r: Option<&str>)
        ensures
            r.deep_view() == text_in(Some(self.deep_view())),
    {
        match self {
            Tree::Text(s) => Some(s.as_str()),
            _ => None,
        }
    }

    pub fn as_bool(&self) -> (r: Option<bool>)
        ensures
            r == bool_in(Some(self.deep_view())),
    {
        match self {
            Tree::Boolean(b) => Some(*b),
            _ => None,
        }
    }

    /// The items of an array.
    pub fn as_array(&self) -> (r: Option<&Vec<Tree>>)
        ensures
            match r {
                Some(a) => self.deep_view() == Toml::Array(a.deep_view()),
                None => !(self.deep_view() is Array),
            },
    {
        match self {
            Tree::Array(a) => {
                assert(self.deep_view()->Array_0 =~= a.deep_view());
                Some(a)
            },
            _ => None,
        }
    }

    /// The entries of a table.
    pub fn as_table(&self) -> (r: Option<&Vec<(String, Tree)>>)
        ensures
            match r {
                Some(t) => self.deep_view() == Toml::Table(t.deep_view()),
                None => !(self.deep_view() is Table),
            },
    {
        match self {
            Tree::Table(t) => {
                assert(self.deep_view()->Table_0 =~= t.deep_view());
                Some(t)
            },
            _ => None,
        }
    }
}

/// What a value that may be absent holds under `key`.
pub fn get_in<'a>(v: Option<&'a Tree>, key: &str) -> (r: Option<&'a Tree>)
    ensures
        r.deep_view() == opt_field(v.deep_view(), key@),
{
    match v {
        Some(v) => v.get(key),
        None => None,
    }
}

/// What stands under the one key, else under the other.
pub open spec fn either_field(t: Option<Toml>, a: Seq<char>, b: Seq<char>) -> Option<Toml> {
    match opt_field(t, a) {
        Some(v) => Some(v),
        None => opt_field(t, b),
    }
}

/// What stands under the one key, else under the other.
pub fn get_either<'a>(t: Option<&'a Tree>, a: &str, b: &str) -> (r: Option<&'a Tree>)
    ensures
        r.deep_view() == either_field(t.deep_view(), a@, b@),
{
    match get_in(t, a) {
        Some(v) => Some(v),
        None => get_in(t, b),
    }
}

pub fn str_in(v: Option<&Tree>) -> (r: Option<&str>)
    ensures
        r.deep_view() == text_in(v.deep_view()),
{
    match v {
        Some(v) => v.as_str(),
        None => None,
    }
}

/// The text that a value is, as an owned text.
pub fn string_in(v: Option<&Tree>) -> (r: Option<String>)
    ensures
        r.deep_view() == text_in(v.deep_view()),
{
    match str_in(v) {
        Some(s) => Some(s.to_owned()),
        None => None,
    }
}

pub fn flag_in(v: Option<&Tree>) -> (r: Option<bool>)
    ensures
        r == bool_in(v.deep_view()),
{
    match v {
        Some(v) => v.as_bool(),
        None => None,
    }
}

/// The texts of an array, or none if it is absent or something else.
pub fn toml_str_array(v: Option<&Tree>) -> (r: Vec<String>)
    ensures
        r.deep_view() == texts_in(v.deep_view()),
{
    let mut out: Vec<String> = Vec::new();
    if let Some(v) = v {
        if let Some(a) = v.as_array() {
            let ghost s = a.deep_view();
            for i in 0..a.len()
                invariant
                    s == a.deep_view(),
                    out.deep_view() == s.take(i as int).filter_map(text_at()),
            {
                let ghost o = out.deep_view();
                assert(s.take(i + 1).drop_last() =~= s.take(i as int));
                assert(s.take(i + 1).last() == a@[i as int].deep_view());
                if let Some(x) = a[i].as_str() {
                    out.push(x.to_owned());
                    assert(out.deep_view() =~= o + seq![x@]);
                }
            }
            assert(s.take(s.len() as int) =~= s);
            return out;
        }
    }
    assert(out.deep_view() =~= texts_in(v.deep_view()));
    out
}

/// A table's field is the first entry with its key, and nothing but a table has fields.
pub proof fn lemma_first_entry(t: Seq<(Seq<char>, Toml)>, i: int, key: Seq<char>, v: Toml)
    requires
        0 <= i <= t.len(),
        i < t.len() ==> t[i].0 == key,
        forall|j: int| 0 <= j < i ==> (#[trigger] t[j]).0 != key,
        !(v is Table),
    ensures
        i < t.len() ==> field(Toml::Table(t), key) == Some(t[i].1),
        i == t.len() ==> field(Toml::Table(t), key) is None,
        field(v, key) is None,
{
    sorted::lemma_entry_of_is(t, key, i);
}

/// An array of texts is read as those texts, in order; what is no text among its items is passed over; and what
/// is no array has none.
pub proof fn lemma_texts(a: Seq<Toml>, s: Seq<char>, v: Toml)
    requires
        !(v is Text),
    ensures
        texts_in(Some(Toml::Array(a.push(Toml::Text(s))))) == texts_in(Some(Toml::Array(a))).push(s),
        texts_in(Some(Toml::Array(a.push(v)))) == texts_in(Some(Toml::Array(a))),
        texts_in(Some(Toml::Array(Seq::empty()))).len() == 0,
        texts_in(Some(Toml::Text(s))).len() == 0,
        texts_in(None).len() == 0,
{
    let f = text_at();
    let b = a.push(Toml::Text(s));
    assert(b.drop_last() =~= a);
    assert(f(b.last()) == Some(s));
    let c = a.push(v);
    assert(c.drop_last() =~= a);
    assert(f(c.last()) is None);
    reveal_with_fuel(Seq::filter_map, 2);
    assert(b.filter_map(f) =~= a.filter_map(f) + seq![s]);
    assert(c.filter_map(f) =~= a.filter_map(f));
}

/// Of two spellings of a key the first counts where both are there.
pub proof fn lemma_spellings(t: Toml, a: Seq<char>, b: Seq<char>)
    ensures
        field(t, a) is Some ==> either_field(Some(t), a, b) == field(t, a),
        field(t, a) is None ==> either_field(Some(t), a, b) == field(t, b),
        either_field(None, a, b) is None,
{
}

} // verus!
