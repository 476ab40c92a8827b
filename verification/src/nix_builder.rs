//! The result of resolving a workspace as a Nix value.

use crate::resolve::{
    BinTarget, BinView, CrateInfo, CrateView, DepInfo, DepView, SourceInfo, SourceView, WorkspaceResult, WorkspaceView,
};
use crate::sorted;
use crate::sorted::StrMap;
use vstd::prelude::*;

verus! {

// ---------------------------------------------------------------------------
// Nix values
// ---------------------------------------------------------------------------

/// What went wrong with a Nix value.
#[derive(Debug, Clone, PartialEq, Eq)]
pub struct NixError(pub String);

impl NixError {
    /// The message of the error.
    pub fn message(&self) -> (r: &str)
        ensures
            r@ == self.0@,
    {
        self.0.as_str()
    }
}

/// A Nix value. An attribute set holds its attributes in the order in which they are inserted.
#[derive(Debug)]
pub enum NixValue {
    Null,
    Boolean(bool),
    Text(String),
    List(Vec<NixValue>),
    Attrs(Vec<(String, NixValue)>),
}

/// The view of a [`NixValue`].
pub enum Nix {
    Null,
    Boolean(bool),
    Text(Seq<char>),
    List(Seq<Nix>),
    Attrs(Seq<(Seq<char>, Nix)>),
}

/// The value with every text replaced by its characters.
pub open spec fn view_of(v: NixValue) -> Nix
    decreases v,
{
    match v {
        NixValue::Null => Nix::Null,
        NixValue::Boolean(b) => Nix::Boolean(b),
        NixValue::Text(s) => Nix::Text(s@),
        NixValue::List(a) => Nix::List(
            Seq::new(
                a@.len(),
                |i: int|
                    if 0 <= i < a@.len() {
                        view_of(a@[i])
                    } else {
                        Nix::Null
                    },
            ),
        ),
        NixValue::Attrs(t) => Nix::Attrs(
            Seq::new(
                t@.len(),
                |i: int|
                    if 0 <= i < t@.len() {
                        (t@[i].0@, view_of(t@[i].1))
                    } else {
                        (Seq::empty(), Nix::Null)
                    },
            ),
        ),
    }
}

impl DeepView for NixValue {
    type V = Nix;

    open spec fn deep_view(&self) -> Nix {
        view_of(*self)
    }
}

fn mk_list(items: Vec<NixValue>) -> (r: NixValue)
    ensures
        r.deep_view() == Nix::List(items.deep_view()),
{
    let r = NixValue::List(items);
    assert(r.deep_view()->List_0 =~= items.deep_view());
    r
}

fn mk_attrs(entries: Vec<(String, NixValue)>) -> (r: NixValue)
    ensures
        r.deep_view() == Nix::Attrs(entries.deep_view()),
{
    let r = NixValue::Attrs(entries);
    assert(r.deep_view()->Attrs_0 =~= entries.deep_view());
    r
}

fn mk_string(s: &str) -> (r: NixValue)
    ensures
        r.deep_view() == Nix::Text(s@),
{
    NixValue::Text(s.to_owned())
}

fn mk_bool(b: bool) -> (r: NixValue)
    ensures
        r.deep_view() == Nix::Boolean(b),
{
    NixValue::Boolean(b)
}

/// A text, or null.
pub open spec fn opt_text(s: Option<Seq<char>>) -> Nix {
    match s {
        Some(s) => Nix::Text(s),
        None => Nix::Null,
    }
}

fn mk_opt_string(s: &Option<String>) -> (r: NixValue)
    ensures
        r.deep_view() == opt_text(s.deep_view()),
{
    match s {
        Some(s) => mk_string(s),
        None => NixValue::Null,
    }
}

pub open spec fn text_at() -> spec_fn(Seq<char>) -> Nix {
    |s: Seq<char>| Nix::Text(s)
}

pub open spec fn texts(s: Seq<Seq<char>>) -> Nix {
    Nix::List(s.map_values(text_at()))
}

fn mk_string_list(items: &Vec<String>) -> (r: NixValue)
    ensures
        r.deep_view() == texts(items.deep_view()),
{
    let ghost s = items.deep_view();
    let ghost full = s.map_values(text_at());
    let mut out: Vec<NixValue> = Vec::new();
    assert(out.deep_view() =~= full.take(0));
    for i in 0..items.len()
        invariant
            s == items.deep_view(),
            full == s.map_values(text_at()),
            out.deep_view() == full.take(i as int),
    {
        let ghost o = out.deep_view();
        assert(s[i as int] == items@[i as int]@);
        out.push(mk_string(&items[i]));
        assert(out.deep_view() =~= o.push(full[i as int]));
        assert(full.take(i + 1) =~= full.take(i as int).push(full[i as int]));
    }
    assert(full.take(s.len() as int) =~= full);
    mk_list(out)
}

pub open spec fn text_entry() -> spec_fn((Seq<char>, Seq<char>)) -> (Seq<char>, Nix) {
    |e: (Seq<char>, Seq<char>)| (e.0, Nix::Text(e.1))
}

fn mk_string_map(map: &StrMap<String>) -> (r: NixValue)
    ensures
        r.deep_view() == Nix::Attrs(map.deep_view().map_values(text_entry())),
{
    let ghost s = map.deep_view();
    let ghost full = s.map_values(text_entry());
    let mut out: Vec<(String, NixValue)> = Vec::new();
    assert(out.deep_view() =~= full.take(0));
    for i in 0..map.entries.len()
        invariant
            s == map.entries.deep_view(),
            full == s.map_values(text_entry()),
            out.deep_view() == full.take(i as int),
    {
        let ghost o = out.deep_view();
        assert(s[i as int] == map.entries@[i as int].deep_view());
        out.push((map.entries[i].0.clone(), mk_string(&map.entries[i].1)));
        assert(out.deep_view() =~= o.push(full[i as int]));
        assert(full.take(i + 1) =~= full.take(i as int).push(full[i as int]));
    }
    assert(full.take(s.len() as int) =~= full);
    mk_attrs(out)
}

pub open spec fn texts_entry() -> spec_fn((Seq<char>, Seq<Seq<char>>)) -> (Seq<char>, Nix) {
    |e: (Seq<char>, Seq<Seq<char>>)| (e.0, texts(e.1))
}

fn mk_string_list_map(map: &StrMap<Vec<String>>) -> (r: NixValue)
    ensures
        r.deep_view() == Nix::Attrs(map.deep_view().map_values(texts_entry())),
{
    let ghost s = map.deep_view();
    let ghost full = s.map_values(texts_entry());
    let mut out: Vec<(String, NixValue)> = Vec::new();
    assert(out.deep_view() =~= full.take(0));
    for i in 0..map.entries.len()
        invariant
            s == map.entries.deep_view(),
            full == s.map_values(texts_entry()),
            out.deep_view() == full.take(i as int),
    {
        let ghost o = out.deep_view();
        assert(s[i as int] == map.entries@[i as int].deep_view());
        out.push((map.entries[i].0.clone(), mk_string_list(&map.entries[i].1)));
        assert(out.deep_view() =~= o.push(full[i as int]));
        assert(full.take(i + 1) =~= full.take(i as int).push(full[i as int]));
    }
    assert(full.take(s.len() as int) =~= full);
    mk_attrs(out)
}

// ---------------------------------------------------------------------------
// The result
// ---------------------------------------------------------------------------

/// One dependency as a Nix value.
pub open spec fn dep_value(d: DepView) -> Nix {
    Nix::Attrs(
        seq![
            ("name"@, Nix::Text(d.name)),
            ("packageId"@, Nix::Text(d.package_id)),
            ("rename"@, opt_text(d.rename)),
            ("usesDefaultFeatures"@, Nix::Boolean(d.uses_default_features)),
            ("features"@, texts(d.features)),
        ],
    )
}

pub open spec fn dep_value_at() -> spec_fn(DepView) -> Nix {
    |d: DepView| dep_value(d)
}

fn attr(out: &mut Vec<(String, NixValue)>, name: &str, v: NixValue)
    ensures
        final(out).deep_view() == old(out).deep_view().push((name@, v.deep_view())),
{
    let ghost o = out.deep_view();
    let ghost e = (name@, v.deep_view());
    out.push((name.to_owned(), v));
    assert(out.deep_view() =~= o.push(e));
}

fn mk_dep_info(d: &DepInfo) -> (r: NixValue)
    ensures
        r.deep_view() == dep_value(d.deep_view()),
{
    let mut out: Vec<(String, NixValue)> = Vec::new();
    attr(&mut out, "name", mk_string(&d.name));
    attr(&mut out, "packageId", mk_string(&d.package_id));
    attr(&mut out, "rename", mk_opt_string(&d.rename));
    attr(&mut out, "usesDefaultFeatures", mk_bool(d.uses_default_features));
    attr(&mut out, "features", mk_string_list(&d.features));
    assert(out.deep_view() =~= dep_value(d.deep_view())->Attrs_0);
    mk_attrs(out)
}

fn mk_dep_list(deps: &Vec<DepInfo>) -> (r: NixValue)
    ensures
        r.deep_view() == Nix::List(deps.deep_view().map_values(dep_value_at())),
{
    let ghost s = deps.deep_view();
    let ghost full = s.map_values(dep_value_at());
    let mut out: Vec<NixValue> = Vec::new();
    assert(out.deep_view() =~= full.take(0));
    for i in 0..deps.len()
        invariant
            s == deps.deep_view(),
            full == s.map_values(dep_value_at()),
            out.deep_view() == full.take(i as int),
    {
        let ghost o = out.deep_view();
        assert(s[i as int] == deps@[i as int].deep_view());
        out.push(mk_dep_info(&deps[i]));
        assert(out.deep_view() =~= o.push(full[i as int]));
        assert(full.take(i + 1) =~= full.take(i as int).push(full[i as int]));
    }
    assert(full.take(s.len() as int) =~= full);
    mk_list(out)
}

/// One binary as a Nix value.
pub open spec fn bin_value_at() -> spec_fn(BinView) -> Nix {
    |b: BinView| Nix::Attrs(seq![("name"@, Nix::Text(b.name)), ("path"@, Nix::Text(b.path))])
}

fn mk_bin_list(bins: &Vec<BinTarget>) -> (r: NixValue)
    ensures
        r.deep_view() == Nix::List(bins.deep_view().map_values(bin_value_at())),
{
    let ghost s = bins.deep_view();
    let ghost full = s.map_values(bin_value_at());
    let mut out: Vec<NixValue> = Vec::new();
    assert(out.deep_view() =~= full.take(0));
    for i in 0..bins.len()
        invariant
            s == bins.deep_view(),
            full == s.map_values(bin_value_at()),
            out.deep_view() == full.take(i as int),
    {
        let ghost o = out.deep_view();
        assert(s[i as int] == bins@[i as int].deep_view());
        let mut entry: Vec<(String, NixValue)> = Vec::new();
        attr(&mut entry, "name", mk_string(&bins[i].name));
        attr(&mut entry, "path", mk_string(&bins[i].path));
        assert(entry.deep_view() =~= seq![("name"@, Nix::Text(s[i as int].name)), ("path"@, Nix::Text(s[i as int].path))]);
        out.push(mk_attrs(entry));
        assert(out.deep_view() =~= o.push(full[i as int]));
        assert(full.take(i + 1) =~= full.take(i as int).push(full[i as int]));
    }
    assert(full.take(s.len() as int) =~= full);
    mk_list(out)
}

/// A source as a Nix value, marked by its type. The directory within a checkout is there only if the
/// crate does not stand at its top.
pub open spec fn source_value(src: Option<SourceView>) -> Nix {
    match src {
        None => Nix::Null,
        Some(SourceView::CratesIo) => Nix::Attrs(seq![("type"@, Nix::Text("crates-io"@))]),
        Some(SourceView::Registry { index }) => Nix::Attrs(
            seq![("type"@, Nix::Text("registry"@)), ("index"@, Nix::Text(index))],
        ),
        Some(SourceView::Local { path }) => Nix::Attrs(
            seq![("type"@, Nix::Text("local"@)), ("path"@, Nix::Text(path))],
        ),
        Some(SourceView::Git { url, rev, sub_path }) => Nix::Attrs(
            seq![("type"@, Nix::Text("git"@)), ("url"@, Nix::Text(url)), ("rev"@, Nix::Text(rev))] + match sub_path {
                Some(p) => seq![("subPath"@, Nix::Text(p))],
                None => Seq::empty(),
            },
        ),
    }
}

fn mk_source_info(src: &Option<SourceInfo>) -> (r: NixValue)
    ensures
        r.deep_view() == source_value(src.deep_view()),
{
    let mut out: Vec<(String, NixValue)> = Vec::new();
    match src {
        None => {
            return NixValue::Null;
        },
        Some(SourceInfo::CratesIo) => {
            attr(&mut out, "type", mk_string("crates-io"));
        },
        Some(SourceInfo::Registry { index }) => {
            attr(&mut out, "type", mk_string("registry"));
            attr(&mut out, "index", mk_string(index));
        },
        Some(SourceInfo::Local { path }) => {
            attr(&mut out, "type", mk_string("local"));
            attr(&mut out, "path", mk_string(path));
        },
        Some(SourceInfo::Git { url, rev, sub_path }) => {
            attr(&mut out, "type", mk_string("git"));
            attr(&mut out, "url", mk_string(url));
            attr(&mut out, "rev", mk_string(rev));
            if let Some(p) = sub_path {
                attr(&mut out, "subPath", mk_string(p));
            }
        },
    }
    assert(out.deep_view() =~= source_value(src.deep_view())->Attrs_0);
    mk_attrs(out)
}

/// One crate as a Nix value.
pub open spec fn crate_value(c: CrateView) -> Nix {
    Nix::Attrs(
        seq![
            ("crateName"@, Nix::Text(c.crate_name)),
            ("version"@, Nix::Text(c.version)),
            ("edition"@, Nix::Text(c.edition)),
            ("sha256"@, opt_text(c.sha256)),
            ("source"@, source_value(c.source)),
            ("dependencies"@, Nix::List(c.dependencies.map_values(dep_value_at()))),
            ("buildDependencies"@, Nix::List(c.build_dependencies.map_values(dep_value_at()))),
            ("devDependencies"@, Nix::List(c.dev_dependencies.map_values(dep_value_at()))),
            ("features"@, Nix::Attrs(c.features.map_values(texts_entry()))),
            ("resolvedDefaultFeatures"@, texts(c.resolved_default_features)),
            ("procMacro"@, Nix::Boolean(c.proc_macro)),
            ("build"@, opt_text(c.build)),
            ("libPath"@, opt_text(c.lib_path)),
            ("libName"@, opt_text(c.lib_name)),
            ("crateBin"@, Nix::List(c.crate_bin.map_values(bin_value_at()))),
            ("libCrateTypes"@, texts(c.lib_crate_types)),
            ("links"@, opt_text(c.links)),
            ("authors"@, texts(c.authors)),
        ],
    )
}

fn mk_crate_info(c: &CrateInfo) -> (r: NixValue)
    ensures
        r.deep_view() == crate_value(c.deep_view()),
{
    let mut out: Vec<(String, NixValue)> = Vec::new();
    attr(&mut out, "crateName", mk_string(&c.crate_name));
    attr(&mut out, "version", mk_string(&c.version));
    attr(&mut out, "edition", mk_string(&c.edition));
    attr(&mut out, "sha256", mk_opt_string(&c.sha256));
    attr(&mut out, "source", mk_source_info(&c.source));
    attr(&mut out, "dependencies", mk_dep_list(&c.dependencies));
    attr(&mut out, "buildDependencies", mk_dep_list(&c.build_dependencies));
    attr(&mut out, "devDependencies", mk_dep_list(&c.dev_dependencies));
    attr(&mut out, "features", mk_string_list_map(&c.features));
    attr(&mut out, "resolvedDefaultFeatures", mk_string_list(&c.resolved_default_features));
    attr(&mut out, "procMacro", mk_bool(c.proc_macro));
    attr(&mut out, "build", mk_opt_string(&c.build));
    attr(&mut out, "libPath", mk_opt_string(&c.lib_path));
    attr(&mut out, "libName", mk_opt_string(&c.lib_name));
    attr(&mut out, "crateBin", mk_bin_list(&c.crate_bin));
    attr(&mut out, "libCrateTypes", mk_string_list(&c.lib_crate_types));
    attr(&mut out, "links", mk_opt_string(&c.links));
    attr(&mut out, "authors", mk_string_list(&c.authors));
    assert(out.deep_view() =~= crate_value(c.deep_view())->Attrs_0);
    mk_attrs(out)
}

pub open spec fn crate_entry() -> spec_fn((Seq<char>, CrateView)) -> (Seq<char>, Nix) {
    |e: (Seq<char>, CrateView)| (e.0, crate_value(e.1))
}

fn mk_crates_map(crates: &StrMap<CrateInfo>) -> (r: NixValue)
    ensures
        r.deep_view() == Nix::Attrs(crates.deep_view().map_values(crate_entry())),
{
    let ghost s = crates.deep_view();
    let ghost full = s.map_values(crate_entry());
    let mut out: Vec<(String, NixValue)> = Vec::new();
    assert(out.deep_view() =~= full.take(0));
    for i in 0..crates.entries.len()
        invariant
            s == crates.entries.deep_view(),
            full == s.map_values(crate_entry()),
            out.deep_view() == full.take(i as int),
    {
        let ghost o = out.deep_view();
        assert(s[i as int] == crates.entries@[i as int].deep_view());
        out.push((crates.entries[i].0.clone(), mk_crate_info(&crates.entries[i].1)));
        assert(out.deep_view() =~= o.push(full[i as int]));
        assert(full.take(i + 1) =~= full.take(i as int).push(full[i as int]));
    }
    assert(full.take(s.len() as int) =~= full);
    mk_attrs(out)
}

/// A workspace as a Nix value.
pub open spec fn workspace_value(ws: WorkspaceView) -> Nix {
    Nix::Attrs(
        seq![
            ("root"@, opt_text(ws.root)),
            ("workspaceRoot"@, Nix::Text(ws.workspace_root)),
            ("workspaceMembers"@, Nix::Attrs(ws.workspace_members.map_values(text_entry()))),
            ("crates"@, Nix::Attrs(ws.crates.map_values(crate_entry()))),
        ],
    )
}

/// The result of resolving a workspace as a Nix value.
pub fn mk_workspace_result(ws: &WorkspaceResult) -> (r: NixValue)
    ensures
        r.deep_view() == workspace_value(ws.deep_view()),
{
    let mut out: Vec<(String, NixValue)> = Vec::new();
    attr(&mut out, "root", mk_opt_string(&ws.root));
    attr(&mut out, "workspaceRoot", mk_string(&ws.workspace_root));
    attr(&mut out, "workspaceMembers", mk_string_map(&ws.workspace_members));
    attr(&mut out, "crates", mk_crates_map(&ws.crates));
    assert(out.deep_view() =~= workspace_value(ws.deep_view())->Attrs_0);
    mk_attrs(out)
}

// ---------------------------------------------------------------------------
// Reading a value back
// ---------------------------------------------------------------------------

/// What stands under a name in an attribute set.
pub open spec fn attr_of(v: Nix, name: Seq<char>) -> Option<Nix> {
    match v {
        Nix::Attrs(s) => sorted::entry_of(s, name),
        _ => None,
    }
}

/// How many attributes there are.
pub open spec fn attr_count(v: Nix) -> nat {
    match v {
        Nix::Attrs(s) => s.len(),
        _ => 0,
    }
}

/// Whether a value is the list of the texts.
pub open spec fn reads_texts(v: Nix, s: Seq<Seq<char>>) -> bool {
    match v {
        Nix::List(l) => l.len() == s.len() && forall|i: int| 0 <= i < s.len() ==> #[trigger] l[i] == Nix::Text(s[i]),
        _ => false,
    }
}

/// Whether a value is the text, if there is one, and null otherwise.
pub open spec fn reads_opt(v: Nix, s: Option<Seq<char>>) -> bool {
    match s {
        Some(t) => v == Nix::Text(t),
        None => v == Nix::Null,
    }
}

/// Whether a value is that of the dependency, attribute by attribute.
pub open spec fn reads_dep(v: Nix, d: DepView) -> bool {
    &&& attr_of(v, "name"@) == Some(Nix::Text(d.name))
    &&& attr_of(v, "packageId"@) == Some(Nix::Text(d.package_id))
    &&& attr_of(v, "rename"@) matches Some(r) && reads_opt(r, d.rename)
    &&& attr_of(v, "usesDefaultFeatures"@) == Some(Nix::Boolean(d.uses_default_features))
    &&& attr_of(v, "features"@) matches Some(f) && reads_texts(f, d.features)
    &&& attr_count(v) == 5
}

/// Whether a value is the list of the dependencies, in their order.
pub open spec fn reads_deps(v: Nix, s: Seq<DepView>) -> bool {
    match v {
        Nix::List(l) => l.len() == s.len() && forall|i: int| 0 <= i < s.len() ==> reads_dep(#[trigger] l[i], s[i]),
        _ => false,
    }
}

/// Whether a value is that of the binary.
pub open spec fn reads_bin(v: Nix, b: BinView) -> bool {
    &&& attr_of(v, "name"@) == Some(Nix::Text(b.name))
    &&& attr_of(v, "path"@) == Some(Nix::Text(b.path))
    &&& attr_count(v) == 2
}

/// Whether a value is the list of the binaries, in their order.
pub open spec fn reads_bins(v: Nix, s: Seq<BinView>) -> bool {
    match v {
        Nix::List(l) => l.len() == s.len() && forall|i: int| 0 <= i < s.len() ==> reads_bin(#[trigger] l[i], s[i]),
        _ => false,
    }
}

/// Whether a value is that of the source: its type, and what is known of it, each under its own name.
pub open spec fn reads_source(v: Nix, src: Option<SourceView>) -> bool {
    match src {
        None => v == Nix::Null,
        Some(SourceView::CratesIo) => attr_of(v, "type"@) == Some(Nix::Text("crates-io"@)) && attr_count(v) == 1,
        Some(SourceView::Registry { index }) => {
            &&& attr_of(v, "type"@) == Some(Nix::Text("registry"@))
            &&& attr_of(v, "index"@) == Some(Nix::Text(index))
            &&& attr_count(v) == 2
        },
        Some(SourceView::Local { path }) => {
            &&& attr_of(v, "type"@) == Some(Nix::Text("local"@))
            &&& attr_of(v, "path"@) == Some(Nix::Text(path))
            &&& attr_count(v) == 2
        },
        Some(SourceView::Git { url, rev, sub_path }) => {
            &&& attr_of(v, "type"@) == Some(Nix::Text("git"@))
            &&& attr_of(v, "url"@) == Some(Nix::Text(url))
            &&& attr_of(v, "rev"@) == Some(Nix::Text(rev))
            &&& attr_of(v, "subPath"@) == match sub_path {
                Some(p) => Some(Nix::Text(p)),
                None => None,
            }
        },
    }
}

/// Whether under every name of `v` stands what a name stands for in `s`, and nothing under others.
pub open spec fn reads_lists(v: Nix, s: Seq<(Seq<char>, Seq<Seq<char>>)>) -> bool {
    &&& v is Attrs
    &&& attr_count(v) == s.len()
    &&& forall|name: Seq<char>|
        match (#[trigger] attr_of(v, name), sorted::entry_of(s, name)) {
            (Some(l), Some(t)) => reads_texts(l, t),
            (None, None) => true,
            _ => false,
        }
}

proof fn lemma_texts_read(s: Seq<Seq<char>>)
    ensures
        reads_texts(texts(s), s),
{
    assert forall|i: int| 0 <= i < s.len() implies #[trigger] s.map_values(text_at())[i] == Nix::Text(s[i]) by {}
}

/// The value of a dependency read back: under each name stands what the dependency has there.
pub proof fn lemma_dep_read_back(d: DepView)
    ensures
        reads_dep(dep_value(d), d),
{
    reveal_strlit("name");
    reveal_strlit("packageId");
    reveal_strlit("rename");
    reveal_strlit("usesDefaultFeatures");
    reveal_strlit("features");
    assert("name"@.len() == 4);
    assert("packageId"@.len() == 9);
    assert("rename"@.len() == 6);
    assert("usesDefaultFeatures"@.len() == 19);
    assert("features"@.len() == 8);
    let s = dep_value(d)->Attrs_0;
    sorted::lemma_entry_of_is(s, "name"@, 0);
    sorted::lemma_entry_of_is(s, "packageId"@, 1);
    sorted::lemma_entry_of_is(s, "rename"@, 2);
    sorted::lemma_entry_of_is(s, "usesDefaultFeatures"@, 3);
    sorted::lemma_entry_of_is(s, "features"@, 4);
    lemma_texts_read(d.features);
}

proof fn lemma_deps_read(s: Seq<DepView>)
    ensures
        reads_deps(Nix::List(s.map_values(dep_value_at())), s),
{
    let l = s.map_values(dep_value_at());
    assert forall|i: int| 0 <= i < s.len() implies reads_dep(#[trigger] l[i], s[i]) by {
        lemma_dep_read_back(s[i]);
    }
}

proof fn lemma_bins_read(s: Seq<BinView>)
    ensures
        reads_bins(Nix::List(s.map_values(bin_value_at())), s),
{
    reveal_strlit("name");
    reveal_strlit("path");
    let l = s.map_values(bin_value_at());
    assert forall|i: int| 0 <= i < s.len() implies reads_bin(#[trigger] l[i], s[i]) by {
        let t = l[i]->Attrs_0;
        assert("name"@[0] != "path"@[0]);
        sorted::lemma_entry_of_is(t, "name"@, 0);
        sorted::lemma_entry_of_is(t, "path"@, 1);
    }
}

/// The value of a source read back: its type says where the crate comes from, and the rest stands under
/// the names that go with that type.
pub proof fn lemma_source_read_back(src: Option<SourceView>)
    ensures
        reads_source(source_value(src), src),
{
    reveal_strlit("type");
    reveal_strlit("index");
    reveal_strlit("path");
    reveal_strlit("url");
    reveal_strlit("rev");
    reveal_strlit("subPath");
    assert("type"@.len() == 4);
    assert("index"@.len() == 5);
    assert("path"@.len() == 4);
    assert("url"@.len() == 3);
    assert("rev"@.len() == 3);
    assert("subPath"@.len() == 7);
    assert("type"@[0] == 't');
    assert("path"@[0] == 'p');
    assert("url"@[0] == 'u');
    assert("rev"@[0] == 'r');
    if src is Some {
        let s = source_value(src)->Attrs_0;
        sorted::lemma_entry_of_is(s, "type"@, 0);
        match src->0 {
            SourceView::CratesIo => {},
            SourceView::Registry { index } => {
                sorted::lemma_entry_of_is(s, "index"@, 1);
            },
            SourceView::Local { path } => {
                assert("type"@[0] != "path"@[0]);
                sorted::lemma_entry_of_is(s, "path"@, 1);
            },
            SourceView::Git { url, rev, sub_path } => {
                assert("url"@[0] != "rev"@[0]);
                sorted::lemma_entry_of_is(s, "url"@, 1);
                sorted::lemma_entry_of_is(s, "rev"@, 2);
                sorted::lemma_entry_of_is(s, "subPath"@, 3);
            },
        }
    }
}

proof fn lemma_lists_read(s: Seq<(Seq<char>, Seq<Seq<char>>)>)
    ensures
        reads_lists(Nix::Attrs(s.map_values(texts_entry())), s),
{
    let v = Nix::Attrs(s.map_values(texts_entry()));
    assert forall|name: Seq<char>|
        match (#[trigger] attr_of(v, name), sorted::entry_of(s, name)) {
            (Some(l), Some(t)) => reads_texts(l, t),
            (None, None) => true,
            _ => false,
        } by {
        sorted::lemma_entry_of_mapped(s, texts_entry(), name);
        if let Some(t) = sorted::entry_of(s, name) {
            lemma_texts_read(t);
        }
    }
}

proof fn lemma_crate_names_differ(c: CrateView, i: int, j: int)
    requires
        0 <= i < 18,
        0 <= j < 18,
        i != j,
    ensures
        (crate_value(c)->Attrs_0)[i].0 != (crate_value(c)->Attrs_0)[j].0,
{
    reveal_strlit("crateName");
    reveal_strlit("version");
    reveal_strlit("edition");
    reveal_strlit("sha256");
    reveal_strlit("source");
    reveal_strlit("dependencies");
    reveal_strlit("buildDependencies");
    reveal_strlit("devDependencies");
    reveal_strlit("features");
    reveal_strlit("resolvedDefaultFeatures");
    reveal_strlit("procMacro");
    reveal_strlit("build");
    reveal_strlit("libPath");
    reveal_strlit("libName");
    reveal_strlit("crateBin");
    reveal_strlit("libCrateTypes");
    reveal_strlit("links");
    reveal_strlit("authors");
    assert("crateName"@.len() == 9);
    assert("version"@.len() == 7);
    assert("edition"@.len() == 7);
    assert("sha256"@.len() == 6);
    assert("source"@.len() == 6);
    assert("dependencies"@.len() == 12);
    assert("buildDependencies"@.len() == 17);
    assert("devDependencies"@.len() == 15);
    assert("features"@.len() == 8);
    assert("resolvedDefaultFeatures"@.len() == 23);
    assert("procMacro"@.len() == 9);
    assert("build"@.len() == 5);
    assert("libPath"@.len() == 7);
    assert("libName"@.len() == 7);
    assert("crateBin"@.len() == 8);
    assert("libCrateTypes"@.len() == 13);
    assert("links"@.len() == 5);
    assert("authors"@.len() == 7);
    assert("crateName"@[0] == 'c');
    assert("procMacro"@[0] == 'p');
    assert("version"@[3] == 's');
    assert("edition"@[3] == 't');
    assert("libPath"@[3] == 'P');
    assert("libName"@[3] == 'N');
    assert("authors"@[3] == 'h');
    assert("sha256"@[1] == 'h');
    assert("source"@[1] == 'o');
    assert("features"@[0] == 'f');
    assert("crateBin"@[0] == 'c');
    assert("build"@[0] == 'b');
    assert("links"@[0] == 'l');
}

proof fn lemma_crate_attr(c: CrateView, i: int)
    requires
        0 <= i < 18,
    ensures
        attr_of(crate_value(c), (crate_value(c)->Attrs_0)[i].0) == Some((crate_value(c)->Attrs_0)[i].1),
{
    let s = crate_value(c)->Attrs_0;
    assert forall|j: int| 0 <= j < i implies (#[trigger] s[j]).0 != s[i].0 by {
        lemma_crate_names_differ(c, j, i);
    }
    sorted::lemma_entry_of_is(s, s[i].0, i);
}

/// The value of a crate read back: under each name stands what the crate has there, and there are no
/// other names.
pub proof fn lemma_crate_read_back(c: CrateView)
    ensures
        ({
            let v = crate_value(c);
            &&& attr_of(v, "crateName"@) == Some(Nix::Text(c.crate_name))
            &&& attr_of(v, "version"@) == Some(Nix::Text(c.version))
            &&& attr_of(v, "edition"@) == Some(Nix::Text(c.edition))
            &&& attr_of(v, "sha256"@) matches Some(x) && reads_opt(x, c.sha256)
            &&& attr_of(v, "source"@) matches Some(x) && reads_source(x, c.source)
            &&& attr_of(v, "dependencies"@) matches Some(x) && reads_deps(x, c.dependencies)
            &&& attr_of(v, "buildDependencies"@) matches Some(x) && reads_deps(x, c.build_dependencies)
            &&& attr_of(v, "devDependencies"@) matches Some(x) && reads_deps(x, c.dev_dependencies)
            &&& attr_of(v, "features"@) matches Some(x) && reads_lists(x, c.features)
            &&& attr_of(v, "resolvedDefaultFeatures"@) matches Some(x) && reads_texts(x, c.resolved_default_features)
            &&& attr_of(v, "procMacro"@) == Some(Nix::Boolean(c.proc_macro))
            &&& attr_of(v, "build"@) matches Some(x) && reads_opt(x, c.build)
            &&& attr_of(v, "libPath"@) matches Some(x) && reads_opt(x, c.lib_path)
            &&& attr_of(v, "libName"@) matches Some(x) && reads_opt(x, c.lib_name)
            &&& attr_of(v, "crateBin"@) matches Some(x) && reads_bins(x, c.crate_bin)
            &&& attr_of(v, "libCrateTypes"@) matches Some(x) && reads_texts(x, c.lib_crate_types)
            &&& attr_of(v, "links"@) matches Some(x) && reads_opt(x, c.links)
            &&& attr_of(v, "authors"@) matches Some(x) && reads_texts(x, c.authors)
            &&& attr_count(v) == 18
        }),
{
    lemma_crate_attr(c, 0);
    lemma_crate_attr(c, 1);
    lemma_crate_attr(c, 2);
    lemma_crate_attr(c, 3);
    lemma_crate_attr(c, 4);
    lemma_crate_attr(c, 5);
    lemma_crate_attr(c, 6);
    lemma_crate_attr(c, 7);
    lemma_crate_attr(c, 8);
    lemma_crate_attr(c, 9);
    lemma_crate_attr(c, 10);
    lemma_crate_attr(c, 11);
    lemma_crate_attr(c, 12);
    lemma_crate_attr(c, 13);
    lemma_crate_attr(c, 14);
    lemma_crate_attr(c, 15);
    lemma_crate_attr(c, 16);
    lemma_crate_attr(c, 17);
    lemma_source_read_back(c.source);
    lemma_deps_read(c.dependencies);
    lemma_deps_read(c.build_dependencies);
    lemma_deps_read(c.dev_dependencies);
    lemma_lists_read(c.features);
    lemma_texts_read(c.resolved_default_features);
    lemma_bins_read(c.crate_bin);
    lemma_texts_read(c.lib_crate_types);
    lemma_texts_read(c.authors);
}

/// Crates that differ in one kind of dependencies only have values that differ under one name only.
pub proof fn lemma_dependencies_apart(c: CrateView, deps: Seq<DepView>)
    ensures
        attr_of(crate_value(CrateView { dev_dependencies: deps, ..c }), "buildDependencies"@) == attr_of(
            crate_value(c),
            "buildDependencies"@,
        ),
        attr_of(crate_value(CrateView { dev_dependencies: deps, ..c }), "dependencies"@) == attr_of(
            crate_value(c),
            "dependencies"@,
        ),
        attr_of(crate_value(CrateView { build_dependencies: deps, ..c }), "devDependencies"@) == attr_of(
            crate_value(c),
            "devDependencies"@,
        ),
        attr_of(crate_value(CrateView { build_dependencies: deps, ..c }), "dependencies"@) == attr_of(
            crate_value(c),
            "dependencies"@,
        ),
        attr_of(crate_value(CrateView { dependencies: deps, ..c }), "buildDependencies"@) == attr_of(
            crate_value(c),
            "buildDependencies"@,
        ),
        attr_of(crate_value(CrateView { dependencies: deps, ..c }), "devDependencies"@) == attr_of(
            crate_value(c),
            "devDependencies"@,
        ),
{
    let dev = CrateView { dev_dependencies: deps, ..c };
    let build = CrateView { build_dependencies: deps, ..c };
    let normal = CrateView { dependencies: deps, ..c };
    lemma_crate_attr(c, 5);
    lemma_crate_attr(c, 6);
    lemma_crate_attr(c, 7);
    lemma_crate_attr(dev, 5);
    lemma_crate_attr(dev, 6);
    lemma_crate_attr(build, 5);
    lemma_crate_attr(build, 7);
    lemma_crate_attr(normal, 6);
    lemma_crate_attr(normal, 7);
}

/// The value of a workspace read back: its roots, its members with their paths, and under `crates` the
/// value of each crate, under its identity.
pub proof fn lemma_workspace_read_back(ws: WorkspaceView, id: Seq<char>)
    ensures
        ({
            let v = workspace_value(ws);
            &&& attr_of(v, "root"@) matches Some(x) && reads_opt(x, ws.root)
            &&& attr_of(v, "workspaceRoot"@) == Some(Nix::Text(ws.workspace_root))
            &&& attr_of(v, "workspaceMembers"@) matches Some(x) && attr_count(x) == ws.workspace_members.len() && attr_of(
                x,
                id,
            ) == match sorted::entry_of(ws.workspace_members, id) {
                Some(p) => Some(Nix::Text(p)),
                None => None,
            }
            &&& attr_of(v, "crates"@) matches Some(x) && attr_count(x) == ws.crates.len() && attr_of(x, id)
                == match sorted::entry_of(ws.crates, id) {
                Some(c) => Some(crate_value(c)),
                None => None,
            }
            &&& attr_count(v) == 4
        }),
{
    reveal_strlit("root");
    reveal_strlit("workspaceRoot");
    reveal_strlit("workspaceMembers");
    reveal_strlit("crates");
    assert("root"@.len() == 4);
    assert("workspaceRoot"@.len() == 13);
    assert("workspaceMembers"@.len() == 16);
    assert("crates"@.len() == 6);
    let s = workspace_value(ws)->Attrs_0;
    sorted::lemma_entry_of_is(s, "root"@, 0);
    sorted::lemma_entry_of_is(s, "workspaceRoot"@, 1);
    sorted::lemma_entry_of_is(s, "workspaceMembers"@, 2);
    sorted::lemma_entry_of_is(s, "crates"@, 3);
    sorted::lemma_entry_of_mapped(ws.workspace_members, text_entry(), id);
    sorted::lemma_entry_of_mapped(ws.crates, crate_entry(), id);
}

} // verus!
