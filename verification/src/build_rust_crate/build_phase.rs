//! The build phase: which targets a crate has, and how each of them is compiled.

use crate::build_rust_crate::build_script::{BuildScriptOutputs, OutputsView};
use crate::build_rust_crate::config::{BuildConfig, ConfigView, CrateBin, CrateBinView, CrateMetadataView};
use crate::build_rust_crate::rustc;
use crate::build_rust_crate::rustc::{CallView, FlagsView, RustcCall, RustcFlags};
use crate::disk;
use crate::disk::{Disk, DiskView};
use crate::lists;
use crate::resolve;
use crate::sorted;
use crate::text;
use vstd::prelude::*;

verus! {

// ---------------------------------------------------------------------------
// The library
// ---------------------------------------------------------------------------

/// The source of the library: the one that is set, if it exists, else `src/lib.rs`.
pub open spec fn lib_source(c: ConfigView, d: DiskView) -> Option<Seq<char>> {
    if c.lib_path.len() > 0 && disk::file_exists(d, c.lib_path) {
        Some(c.lib_path)
    } else if c.autolib && disk::file_exists(d, "src/lib.rs"@) {
        Some("src/lib.rs"@)
    } else {
        None
    }
}

pub fn resolve_lib_path(config: &BuildConfig, disk: &Disk) -> (r: Option<String>)
    ensures
        r.deep_view() == lib_source(config.deep_view(), disk.deep_view()),
{
    if !config.lib_path.as_str().is_empty() && disk.has(&config.lib_path) {
        Some(config.lib_path.clone())
    } else if config.autolib && disk.has("src/lib.rs") {
        Some("src/lib.rs".to_owned())
    } else {
        None
    }
}

// ---------------------------------------------------------------------------
// Binaries
// ---------------------------------------------------------------------------

/// The places where the source of a binary may stand, in the order in which they are tried. Without
/// a library it may stand directly under `src/`.
pub open spec fn bin_candidates(name: Seq<char>, has_lib: bool) -> Seq<Seq<char>> {
    let name_ = resolve::normalized(name);
    (if has_lib {
        Seq::empty()
    } else {
        seq!["src/"@ + name + ".rs"@, "src/"@ + name_ + ".rs"@]
    }) + seq![
        "src/bin/"@ + name + ".rs"@,
        "src/bin/"@ + name + "/main.rs"@,
        "src/bin/"@ + name_ + ".rs"@,
        "src/bin/"@ + name_ + "/main.rs"@,
        "src/bin/main.rs"@,
        "src/main.rs"@,
    ]
}

pub open spec fn has_library(lib_path: Seq<char>, lib_name: Seq<char>, d: DiskView) -> bool {
    ||| lib_path.len() > 0 && disk::file_exists(d, lib_path)
    ||| disk::file_exists(d, "src/lib.rs"@)
    ||| disk::file_exists(d, "src/"@ + lib_name + ".rs"@)
}

pub open spec fn there(d: DiskView) -> spec_fn(Seq<char>) -> bool {
    |path: Seq<char>| disk::file_exists(d, path)
}

/// The source of a binary: the first place where there is one.
pub open spec fn bin_source(name: Seq<char>, lib_path: Seq<char>, lib_name: Seq<char>, d: DiskView) -> Option<
    Seq<char>,
> {
    lists::first_with(bin_candidates(name, has_library(lib_path, lib_name, d)), there(d))
}

/// Searches for the source of a binary.
pub fn search_bin_path(bin_name: &str, lib_path: &str, lib_name: &str, disk: &Disk) -> (r: Option<String>)
    ensures
        r.deep_view() == bin_source(bin_name@, lib_path@, lib_name@, disk.deep_view()),
{
    let ghost d = disk.deep_view();
    let name_ = resolve::normalize_name(bin_name);
    let other = text::cat3("src/", lib_name, ".rs");
    let has_lib = (!lib_path.is_empty() && disk.has(lib_path)) || disk.has("src/lib.rs") || disk.has(&other);
    let mut candidates: Vec<String> = Vec::new();
    if !has_lib {
        candidates.push(text::cat3("src/", bin_name, ".rs"));
        candidates.push(text::cat3("src/", &name_, ".rs"));
    }
    candidates.push(text::cat3("src/bin/", bin_name, ".rs"));
    candidates.push(text::cat3("src/bin/", bin_name, "/main.rs"));
    candidates.push(text::cat3("src/bin/", &name_, ".rs"));
    candidates.push(text::cat3("src/bin/", &name_, "/main.rs"));
    candidates.push("src/bin/main.rs".to_owned());
    candidates.push("src/main.rs".to_owned());
    let ghost s = candidates.deep_view();
    assert(s =~= bin_candidates(bin_name@, has_library(lib_path@, lib_name@, d)));
    for i in 0..candidates.len()
        invariant
            d == disk.deep_view(),
            s == candidates.deep_view(),
            s == bin_candidates(bin_name@, has_library(lib_path@, lib_name@, d)),
            forall|j: int| 0 <= j < i ==> !there(d)(#[trigger] s[j]),
    {
        assert(s[i as int] == candidates@[i as int]@);
        if disk.has(&candidates[i]) {
            proof {
                lists::lemma_first_with_is(s, there(d), i as int);
            }
            return Some(candidates[i].clone());
        }
    }
    proof {
        lists::lemma_first_with_is(s, there(d), s.len() as int);
    }
    None
}

/// What becomes of a binary: it is built from a source, it lacks features that it needs, or its
/// source is not found.
pub enum BinFate {
    Built(Seq<char>, Seq<char>),
    Lacks(Seq<char>, Seq<Seq<char>>),
    Missing(Seq<char>),
}

/// Whether all of `wanted` are on.
pub open spec fn all_on(wanted: Seq<Seq<char>>, features: Seq<Seq<char>>) -> bool {
    forall|i: int| 0 <= i < wanted.len() ==> features.contains(#[trigger] wanted[i])
}

pub open spec fn bin_name(b: CrateBinView, c: ConfigView) -> Seq<char> {
    match b.name {
        Some(n) => n,
        None => c.crate_name,
    }
}

pub open spec fn fate_of(b: CrateBinView, c: ConfigView, d: DiskView) -> BinFate {
    let name = bin_name(b, c);
    if !all_on(b.required_features, c.crate_features) {
        BinFate::Lacks(name, b.required_features)
    } else {
        match b.path {
            Some(path) => BinFate::Built(name, path),
            None => match bin_source(name, c.lib_path, c.lib_name, d) {
                Some(path) => BinFate::Built(name, path),
                None => BinFate::Missing(name),
            },
        }
    }
}

/// The binaries of a crate as far as they were gone through: those to build, with their sources;
/// those left out, with the features that they need; and the one whose source is missing, which ends
/// the build.
pub struct ChoiceView {
    pub bins: Seq<(Seq<char>, Seq<char>)>,
    pub left_out: Seq<(Seq<char>, Seq<Seq<char>>)>,
    pub missing: Option<Seq<char>>,
}

pub open spec fn chosen(s: ChoiceView, f: BinFate) -> ChoiceView {
    if s.missing is Some {
        s
    } else {
        match f {
            BinFate::Built(name, path) => ChoiceView { bins: s.bins.push((name, path)), ..s },
            BinFate::Lacks(name, features) => ChoiceView { left_out: s.left_out.push((name, features)), ..s },
            BinFate::Missing(name) => ChoiceView { missing: Some(name), ..s },
        }
    }
}

pub open spec fn choice_among(bins: Seq<CrateBinView>, c: ConfigView, d: DiskView) -> ChoiceView
    decreases bins.len(),
{
    if bins.len() == 0 {
        ChoiceView { bins: Seq::empty(), left_out: Seq::empty(), missing: None }
    } else {
        chosen(choice_among(bins.drop_last(), c, d), fate_of(bins.last(), c, d))
    }
}

/// The binaries of a crate. Those that are named count; where none are named, and it was not said
/// that there are none, they are inferred from the files.
pub open spec fn bins_of(c: ConfigView, d: DiskView, inferred: Seq<(Seq<char>, Seq<char>)>) -> ChoiceView {
    if c.crate_bin.len() > 0 {
        choice_among(c.crate_bin, c, d)
    } else {
        ChoiceView {
            bins: if !c.has_crate_bin && c.autobins {
                inferred
            } else {
                Seq::empty()
            },
            left_out: Seq::empty(),
            missing: None,
        }
    }
}

/// The binaries of a crate. See [`ChoiceView`].
#[derive(Debug, Clone)]
pub struct BinChoice {
    pub bins: Vec<(String, String)>,
    pub left_out: Vec<(String, Vec<String>)>,
    pub missing: Option<String>,
}

impl DeepView for BinChoice {
    type V = ChoiceView;

    open spec fn deep_view(&self) -> ChoiceView {
        ChoiceView {
            bins: self.bins.deep_view(),
            left_out: self.left_out.deep_view(),
            missing: self.missing.deep_view(),
        }
    }
}

fn has_all(wanted: &Vec<String>, features: &Vec<String>) -> (r: bool)
    ensures
        r == all_on(wanted.deep_view(), features.deep_view()),
{
    let ghost s = wanted.deep_view();
    for i in 0..wanted.len()
        invariant
            s == wanted.deep_view(),
            forall|j: int| 0 <= j < i ==> features.deep_view().contains(#[trigger] s[j]),
    {
        assert(s[i as int] == wanted@[i as int]@);
        if !sorted::has_text(features, &wanted[i]) {
            return false;
        }
    }
    true
}

impl BinChoice {
    fn add(&mut self, bin: &CrateBin, config: &BuildConfig, disk: &Disk)
        requires
            old(self).missing is None,
        ensures
            final(self).deep_view() == chosen(
                old(self).deep_view(),
                fate_of(bin.deep_view(), config.deep_view(), disk.deep_view()),
            ),
    {
        let ghost o = self.deep_view();
        let name = match &bin.name {
            Some(n) => n.clone(),
            None => config.crate_name.clone(),
        };
        if !has_all(&bin.required_features, &config.crate_features) {
            let ghost n = name@;
            self.left_out.push((name, sorted::copy_texts(&bin.required_features)));
            assert(self.left_out.deep_view() =~= o.left_out.push((n, bin.required_features.deep_view())));
            return;
        }
        let path = match &bin.path {
            Some(p) => Some(p.clone()),
            None => search_bin_path(&name, &config.lib_path, &config.lib_name, disk),
        };
        match path {
            Some(p) => {
                let ghost e = (name@, p@);
                self.bins.push((name, p));
                assert(self.bins.deep_view() =~= o.bins.push(e));
            },
            None => {
                self.missing = Some(name);
            },
        }
    }
}

proof fn lemma_missing_stays(bins: Seq<CrateBinView>, n: int, c: ConfigView, d: DiskView)
    requires
        0 <= n <= bins.len(),
        choice_among(bins.take(n), c, d).missing is Some,
    ensures
        choice_among(bins, c, d) == choice_among(bins.take(n), c, d),
    decreases bins.len() - n,
{
    if n == bins.len() {
        assert(bins.take(n) =~= bins);
    } else {
        assert(bins.take(n + 1).drop_last() =~= bins.take(n));
        lemma_missing_stays(bins, n + 1, c, d);
    }
}

fn copy_pairs(v: &Vec<(String, String)>) -> (r: Vec<(String, String)>)
    ensures
        r.deep_view() == v.deep_view(),
{
    let ghost s = v.deep_view();
    let mut out: Vec<(String, String)> = Vec::new();
    assert(out.deep_view() =~= s.take(0));
    for i in 0..v.len()
        invariant
            s == v.deep_view(),
            out.deep_view() == s.take(i as int),
    {
        let ghost o = out.deep_view();
        assert(s[i as int] == v@[i as int].deep_view());
        out.push((v[i].0.clone(), v[i].1.clone()));
        assert(out.deep_view() =~= o.push(s[i as int]));
        assert(s.take(i + 1) =~= s.take(i as int).push(s[i as int]));
    }
    assert(s.take(s.len() as int) =~= s);
    out
}

/// Determines the binaries of a crate. `inferred` are those that the files suggest.
pub fn resolve_bins(config: &BuildConfig, disk: &Disk, inferred: &Vec<(String, String)>) -> (r: BinChoice)
    ensures
        r.deep_view() == bins_of(config.deep_view(), disk.deep_view(), inferred.deep_view()),
{
    let ghost c = config.deep_view();
    let ghost d = disk.deep_view();
    let mut r = BinChoice { bins: Vec::new(), left_out: Vec::new(), missing: None };
    proof {
        assert(r.bins.deep_view() =~= Seq::empty());
        assert(r.left_out.deep_view() =~= Seq::empty());
    }
    if config.crate_bin.len() > 0 {
        let ghost s = config.crate_bin.deep_view();
        let n: usize = config.crate_bin.len();
        let mut i: usize = 0;
        assert(s.take(0) =~= Seq::empty());
        while i < n && r.missing.is_none()
            invariant
                c == config.deep_view(),
                d == disk.deep_view(),
                s == config.crate_bin.deep_view(),
                n == s.len(),
                i <= n,
                r.deep_view() == choice_among(s.take(i as int), c, d),
            decreases n - i,
        {
            assert(s.take(i + 1).drop_last() =~= s.take(i as int));
            assert(s.take(i + 1).last() == config.crate_bin@[i as int].deep_view());
            r.add(&config.crate_bin[i], config, disk);
            i += 1;
        }
        proof {
            if i < n {
                lemma_missing_stays(s, i as int, c, d);
            } else {
                assert(s.take(n as int) =~= s);
            }
        }
    } else if !config.has_crate_bin && config.autobins {
        r.bins = copy_pairs(inferred);
    }
    r
}

/// Whether a binary of that name is named whose features are all on.
pub open spec fn wanted_bin(bins: Seq<CrateBinView>, c: ConfigView, name: Seq<char>) -> bool {
    exists|i: int|
        0 <= i < bins.len() && bin_name(#[trigger] bins[i], c) == name && all_on(
            bins[i].required_features,
            c.crate_features,
        )
}

/// A binary that is built is one that is named, and has all the features that it needs.
pub proof fn lemma_no_bin_without_its_features(bins: Seq<CrateBinView>, c: ConfigView, d: DiskView)
    ensures
        forall|k: int|
            0 <= k < choice_among(bins, c, d).bins.len() ==> wanted_bin(
                bins,
                c,
                (#[trigger] choice_among(bins, c, d).bins[k]).0,
            ),
    decreases bins.len(),
{
    if bins.len() > 0 {
        let t = bins.drop_last();
        let a = choice_among(t, c, d);
        let b = choice_among(bins, c, d);
        lemma_no_bin_without_its_features(t, c, d);
        assert forall|k: int| 0 <= k < b.bins.len() implies wanted_bin(bins, c, (#[trigger] b.bins[k]).0) by {
            if k < a.bins.len() {
                assert(wanted_bin(t, c, a.bins[k].0));
                let i = choose|i: int|
                    0 <= i < t.len() && bin_name(#[trigger] t[i], c) == a.bins[k].0 && all_on(
                        t[i].required_features,
                        c.crate_features,
                    );
                assert(bins[i] == t[i]);
            } else {
                assert(bins[bins.len() - 1] == bins.last());
            }
        }
    }
}

// ---------------------------------------------------------------------------
// What the files suggest
// ---------------------------------------------------------------------------

/// An entry of a directory of targets.
#[derive(Debug, Clone)]
pub struct TargetEntry {
    pub path: String,
    /// Whether it is a file or a link.
    pub is_file: bool,
    /// Whether it is a directory that holds `main.rs`.
    pub has_main: bool,
}

/// The view of a [`TargetEntry`].
pub struct EntryView {
    pub path: Seq<char>,
    pub is_file: bool,
    pub has_main: bool,
}

impl DeepView for TargetEntry {
    type V = EntryView;

    open spec fn deep_view(&self) -> EntryView {
        EntryView { path: self.path@, is_file: self.is_file, has_main: self.has_main }
    }
}

/// The target that an entry is: a Rust source, or a directory with `main.rs`. Hidden entries are
/// none.
pub open spec fn target_at(e: EntryView) -> Option<(Seq<char>, Seq<char>)> {
    let name = disk::file_name(e.path);
    if text::has_prefix(name, "."@) {
        None
    } else {
        match text::before_suffix(name, ".rs"@) {
            Some(stem) => if e.is_file {
                Some((stem, e.path))
            } else if e.has_main {
                Some((name, disk::joined_path(e.path, "main.rs"@)))
            } else {
                None
            },
            None => if e.has_main {
                Some((name, disk::joined_path(e.path, "main.rs"@)))
            } else {
                None
            },
        }
    }
}

pub open spec fn target_found() -> spec_fn(EntryView) -> Option<(Seq<char>, Seq<char>)> {
    |e: EntryView| target_at(e)
}

fn read_target(e: &TargetEntry) -> (r: Option<(String, String)>)
    ensures
        r.deep_view() == target_at(e.deep_view()),
{
    let name = disk::name_of_file(&e.path);
    if text::starts_with(name, ".") {
        return None;
    }
    if e.is_file {
        if let Some(stem) = text::strip_suffix(name, ".rs") {
            return Some((stem.to_owned(), e.path.clone()));
        }
    }
    if e.has_main {
        Some((name.to_owned(), disk::join_path(&e.path, "main.rs")))
    } else {
        None
    }
}

/// The targets among the entries of a directory, in the order in which it lists them.
pub fn targets_in(entries: &Vec<TargetEntry>) -> (r: Vec<(String, String)>)
    ensures
        r.deep_view() == entries.deep_view().filter_map(target_found()),
{
    let ghost s = entries.deep_view();
    let ghost f = target_found();
    let mut out: Vec<(String, String)> = Vec::new();
    assert(out.deep_view() =~= s.take(0).filter_map(f));
    for i in 0..entries.len()
        invariant
            s == entries.deep_view(),
            f == target_found(),
            out.deep_view() == s.take(i as int).filter_map(f),
    {
        let ghost o = out.deep_view();
        assert(s.take(i + 1).drop_last() =~= s.take(i as int));
        assert(s.take(i + 1).last() == entries@[i as int].deep_view());
        if let Some(e) = read_target(&entries[i]) {
            let ghost ev = e.deep_view();
            out.push(e);
            assert(out.deep_view() =~= o + seq![ev]);
        }
    }
    assert(s.take(s.len() as int) =~= s);
    out
}

/// The binaries that the files suggest: `src/main.rs` under the name of the crate, and what stands in
/// `src/bin`.
pub open spec fn bins_inferred(crate_name: Seq<char>, has_main: bool, entries: Seq<EntryView>) -> Seq<
    (Seq<char>, Seq<char>),
> {
    (if has_main {
        seq![(crate_name, "src/main.rs"@)]
    } else {
        Seq::empty()
    }) + entries.filter_map(target_found())
}

/// The binaries that the files suggest. `has_main` says whether there is a `src/main.rs`, and
/// `entries` are those of `src/bin`.
pub fn inferred_bins(crate_name: &str, has_main: bool, entries: &Vec<TargetEntry>) -> (r: Vec<(String, String)>)
    ensures
        r.deep_view() == bins_inferred(crate_name@, has_main, entries.deep_view()),
{
    let mut out: Vec<(String, String)> = Vec::new();
    if has_main {
        out.push((crate_name.to_owned(), "src/main.rs".to_owned()));
    }
    let ghost head = out.deep_view();
    let mut more = targets_in(entries);
    let ghost tail = more.deep_view();
    out.append(&mut more);
    assert(out.deep_view() =~= head + tail);
    assert(head =~= if has_main {
        seq![(crate_name@, "src/main.rs"@)]
    } else {
        Seq::empty()
    });
    out
}

pub open spec fn harnessed() -> spec_fn((Seq<char>, Seq<char>)) -> (Seq<char>, Seq<char>, bool) {
    |t: (Seq<char>, Seq<char>)| (t.0, t.1, true)
}

/// The integration tests of a crate: name, source, and whether a test harness runs them.
pub open spec fn tests_of(c: ConfigView, entries: Seq<EntryView>) -> Seq<(Seq<char>, Seq<char>, bool)> {
    if c.autotests {
        entries.filter_map(target_found()).map_values(harnessed())
    } else {
        Seq::empty()
    }
}

/// The integration tests of a crate, from the entries of `tests`.
pub fn resolve_tests(config: &BuildConfig, entries: &Vec<TargetEntry>) -> (r: Vec<(String, String, bool)>)
    ensures
        r.deep_view() == tests_of(config.deep_view(), entries.deep_view()),
{
    let mut out: Vec<(String, String, bool)> = Vec::new();
    if !config.autotests {
        assert(out.deep_view() =~= Seq::empty());
        return out;
    }
    let found = targets_in(entries);
    let ghost s = found.deep_view();
    let ghost full = s.map_values(harnessed());
    assert(out.deep_view() =~= full.take(0));
    for i in 0..found.len()
        invariant
            s == found.deep_view(),
            full == s.map_values(harnessed()),
            out.deep_view() == full.take(i as int),
    {
        let ghost o = out.deep_view();
        assert(s[i as int] == found@[i as int].deep_view());
        out.push((found[i].0.clone(), found[i].1.clone(), true));
        assert(out.deep_view() =~= o.push(full[i as int]));
        assert(full.take(i + 1) =~= full.take(i as int).push(full[i as int]));
    }
    assert(full.take(s.len() as int) =~= full);
    out
}

// ---------------------------------------------------------------------------
// Link flags of the build script
// ---------------------------------------------------------------------------

/// What is appended to the files of link flags.
#[derive(Debug, Clone)]
pub struct LinkAppend {
    pub link: String,
    pub link_final: String,
}

pub open spec fn search_line() -> spec_fn(Seq<char>) -> Seq<char> {
    |s: Seq<char>| "-L "@ + s + "\n"@
}

/// A search path with the build directory exchanged for where it is installed.
pub open spec fn installed_line(from: Seq<char>, to: Seq<char>) -> spec_fn(Seq<char>) -> Seq<char> {
    |s: Seq<char>| "-L "@ + text::with_part_replaced(s, from, to) + "\n"@
}

pub open spec fn lib_line() -> spec_fn(Seq<char>) -> Seq<char> {
    |s: Seq<char>| "-l "@ + s + "\n"@
}

fn flag_lines(flag: &str, values: &Vec<String>) -> (r: String)
    ensures
        forall|f: spec_fn(Seq<char>) -> Seq<char>|
            (forall|x: Seq<char>| #[trigger] f(x) == flag@ + x + "\n"@) ==> r@ == #[trigger] lists::flat(
                values.deep_view(),
                f,
            ),
{
    let ghost s = values.deep_view();
    let ghost g = |x: Seq<char>| flag@ + x + "\n"@;
    let mut out = String::new();
    assert(out@ =~= lists::flat(s.take(0), g));
    for i in 0..values.len()
        invariant
            s == values.deep_view(),
            g == (|x: Seq<char>| flag@ + x + "\n"@),
            out@ == lists::flat(s.take(i as int), g),
    {
        assert(s.take(i + 1).drop_last() =~= s.take(i as int));
        assert(s.take(i + 1).last() == values@[i as int]@);
        let line = text::cat3(flag, &values[i], "\n");
        out = text::cat2(&out, &line);
    }
    assert(s.take(s.len() as int) =~= s);
    proof {
        assert forall|f: spec_fn(Seq<char>) -> Seq<char>|
            (forall|x: Seq<char>| #[trigger] f(x) == flag@ + x + "\n"@) implies out@ == #[trigger] lists::flat(
            s,
            f,
        ) by {
            assert(f =~= g);
        }
    }
    out
}

/// What the build script's search paths and libraries add to the link flags: to those of this build,
/// and to those that dependents will see, where the build directory is exchanged for the library
/// output.
pub open spec fn appended(bso: OutputsView, cwd: Seq<char>, lib_out: Seq<char>) -> Option<(Seq<char>, Seq<char>)> {
    if bso.link_search.len() == 0 && bso.link_libs.len() == 0 {
        None
    } else {
        Some(
            (
                lists::flat(bso.link_search, search_line()) + lists::flat(bso.link_libs, lib_line()),
                lists::flat(bso.link_search, installed_line(cwd + "/target/build"@, lib_out + "/lib"@)),
            ),
        )
    }
}

/// What the search paths and libraries that the build script named add to the files of link flags.
pub fn link_appends(bso: &BuildScriptOutputs, cwd: &str, lib_out: &str) -> (r: Option<LinkAppend>)
    ensures
        match r {
            Some(a) => appended(bso.deep_view(), cwd@, lib_out@) == Some((a.link@, a.link_final@)),
            None => appended(bso.deep_view(), cwd@, lib_out@) is None,
        },
{
    if bso.link_search.len() == 0 && bso.link_libs.len() == 0 {
        return None;
    }
    let from = text::cat2(cwd, "/target/build");
    let to = text::cat2(lib_out, "/lib");
    proof {
        reveal_strlit("/target/build");
        assert(from@.len() > 0);
    }
    let searches = flag_lines("-L ", &bso.link_search);
    let libs = flag_lines("-l ", &bso.link_libs);
    proof {
        assert(forall|x: Seq<char>| #[trigger] search_line()(x) == "-L "@ + x + "\n"@);
        assert(forall|x: Seq<char>| #[trigger] lib_line()(x) == "-l "@ + x + "\n"@);
        assert(searches@ == lists::flat(bso.link_search.deep_view(), search_line()));
        assert(libs@ == lists::flat(bso.link_libs.deep_view(), lib_line()));
    }
    let ghost s = bso.link_search.deep_view();
    let ghost f = installed_line(from@, to@);
    let mut link_final = String::new();
    assert(link_final@ =~= lists::flat(s.take(0), f));
    for i in 0..bso.link_search.len()
        invariant
            from@.len() > 0,
            s == bso.link_search.deep_view(),
            f == installed_line(from@, to@),
            link_final@ == lists::flat(s.take(i as int), f),
    {
        assert(s.take(i + 1).drop_last() =~= s.take(i as int));
        assert(s.take(i + 1).last() == bso.link_search@[i as int]@);
        let remapped = text::replace_text(&bso.link_search[i], &from, &to);
        let line = text::cat3("-L ", &remapped, "\n");
        link_final = text::cat2(&link_final, &line);
    }
    assert(s.take(s.len() as int) =~= s);
    Some(LinkAppend { link: text::cat2(&searches, &libs), link_final })
}

/// The lines of the link flags as one line.
pub fn link_line(content: &str) -> (r: String)
    ensures
        r@ == text::joined(text::lines(content@), " "@),
{
    text::join(&text::split_lines(content), " ")
}

// ---------------------------------------------------------------------------
// Compiling the targets
// ---------------------------------------------------------------------------

/// One target to compile.
#[derive(Debug, Clone)]
pub struct Job {
    /// What is said before it is compiled.
    pub message: String,
    pub call: RustcCall,
    /// Where the name of a binary differs from what rustc calls it: both names.
    pub rename: Option<(String, String)>,
}

/// The view of a [`Job`].
pub struct JobView {
    pub message: Seq<char>,
    pub call: CallView,
    pub rename: Option<(Seq<char>, Seq<char>)>,
}

impl DeepView for Job {
    type V = JobView;

    open spec fn deep_view(&self) -> JobView {
        JobView {
            message: self.message@,
            call: self.call.deep_view(),
            rename: self.rename.deep_view(),
        }
    }
}

/// The flags of the library besides those that all targets share.
pub open spec fn lib_extra(c: ConfigView, f: FlagsView) -> Seq<Seq<char>> {
    f.meta + f.bso_lib + (if c.crate_type.contains("cdylib"@) {
        f.bso_cdylib
    } else {
        Seq::empty()
    })
}

/// Compiling the library, and its unit tests if tests are built.
pub open spec fn lib_plan(c: ConfigView, f: FlagsView, source: Seq<char>) -> Seq<JobView> {
    let name = resolve::normalized(c.lib_name);
    let job = JobView {
        message: "Building "@ + source + " ("@ + c.lib_name + ")"@,
        call: rustc::call_of(f, name, source, "target/lib"@, c.crate_type, lib_extra(c, f), false, true),
        rename: None,
    };
    let test = JobView {
        message: "Building test lib "@ + c.lib_name,
        call: rustc::call_of(f, name, source, "target/lib"@, c.crate_type, lib_extra(c, f), true, true),
        rename: None,
    };
    if c.build_tests {
        seq![job, test]
    } else {
        seq![job]
    }
}

/// The jobs that compile the library.
pub fn lib_jobs(config: &BuildConfig, flags: &RustcFlags, lib_src: &str) -> (r: Vec<Job>)
    ensures
        r.deep_view() == lib_plan(config.deep_view(), flags.deep_view(), lib_src@),
{
    let name = config.lib_name_normalized();
    let mut extra = sorted::copy_texts(&flags.meta);
    sorted::extend_texts(&mut extra, &flags.bso_lib);
    if sorted::has_text(&config.crate_type, "cdylib") {
        sorted::extend_texts(&mut extra, &flags.bso_cdylib);
    }
    assert(extra.deep_view() =~= lib_extra(config.deep_view(), flags.deep_view()));
    let mut out: Vec<Job> = Vec::new();
    out.push(
        Job {
            message: text::cat5("Building ", lib_src, " (", &config.lib_name, ")"),
            call: flags.cmd(&name, lib_src, "target/lib", &config.crate_type, &extra, false, true),
            rename: None,
        },
    );
    if config.build_tests {
        out.push(
            Job {
                message: text::cat2("Building test lib ", &config.lib_name),
                call: flags.cmd(&name, lib_src, "target/lib", &config.crate_type, &extra, true, true),
                rename: None,
            },
        );
    }
    assert(out.deep_view() =~= lib_plan(config.deep_view(), flags.deep_view(), lib_src@));
    out
}

/// The path of the library that the crate's own binaries and tests link against.
pub open spec fn own_library(c: ConfigView, names: Seq<Seq<char>>) -> Seq<char> {
    match rustc::artifact_named(names, c.metadata) {
        Some(n) => disk::joined_path("target/lib"@, n),
        None => "target/lib/lib"@ + resolve::normalized(c.lib_name) + "-"@ + c.metadata + ".rlib"@,
    }
}

/// The arguments with which the crate's own binaries and tests link against its library. `names` are
/// the files of `target/lib` after it was compiled.
pub fn lib_extern_args(config: &BuildConfig, names: &Vec<String>) -> (r: Vec<String>)
    ensures
        r.deep_view() == seq![
            "--extern"@,
            resolve::normalized(config.lib_name@) + "="@ + own_library(config.deep_view(), names.deep_view()),
        ],
{
    let name = config.lib_name_normalized();
    let artifact = match rustc::find_by_metadata("target/lib", names, &config.metadata) {
        Some(path) => path,
        None => text::cat5("target/lib/lib", &name, "-", &config.metadata, ".rlib"),
    };
    let value = text::cat3(&name, "=", &artifact);
    let mut out: Vec<String> = Vec::new();
    sorted::push_two(&mut out, "--extern", &value);
    assert(out.deep_view() =~= seq![
        "--extern"@,
        resolve::normalized(config.lib_name@) + "="@ + own_library(config.deep_view(), names.deep_view()),
    ]);
    out
}

/// What kind of program a target is.
#[derive(Debug, Clone, Copy, PartialEq, Eq, Structural)]
pub enum BinKind {
    Bin,
    Test,
}

/// The link arguments of a program: those for binaries go to binaries alone, those for tests to
/// tests alone, and those that are meant for one binary to that binary.
pub open spec fn routed(f: FlagsView, name: Seq<char>, kind: BinKind) -> Seq<Seq<char>> {
    match kind {
        BinKind::Bin => f.bso_bins + match sorted::entry_of(f.bso_bin, name) {
            Some(per) => per,
            None => Seq::empty(),
        },
        BinKind::Test => f.bso_tests,
    }
}

/// Compiling one program.
pub open spec fn program(
    f: FlagsView,
    lib_extern: Seq<Seq<char>>,
    name: Seq<char>,
    path: Seq<char>,
    kind: BinKind,
    test: bool,
    harness: bool,
) -> JobView {
    let name_ = resolve::normalized(name);
    JobView {
        message: "Building "@ + (if test {
            "test "@
        } else {
            ""@
        }) + name,
        call: rustc::call_of(
            f,
            name_,
            path,
            "target/bin"@,
            seq!["bin"@],
            routed(f, name, kind) + lib_extern,
            test,
            harness,
        ),
        rename: if name_ != name {
            Some((name_, name))
        } else {
            None
        },
    }
}

/// The job that compiles one program.
pub fn build_bin(
    flags: &RustcFlags,
    lib_extern: &Vec<String>,
    name: &str,
    path: &str,
    kind: BinKind,
    test: bool,
    harness: bool,
) -> (r: Job)
    ensures
        r.deep_view() == program(flags.deep_view(), lib_extern.deep_view(), name@, path@, kind, test, harness),
{
    let mut extra = match kind {
        BinKind::Bin => {
            let mut v = sorted::copy_texts(&flags.bso_bins);
            match flags.bso_bin.get(name) {
                Some(per) => {
                    sorted::extend_texts(&mut v, per);
                },
                None => {},
            }
            assert(v.deep_view() =~= routed(flags.deep_view(), name@, kind));
            v
        },
        BinKind::Test => sorted::copy_texts(&flags.bso_tests),
    };
    sorted::extend_texts(&mut extra, lib_extern);
    let name_ = resolve::normalize_name(name);
    let mut types: Vec<String> = Vec::new();
    types.push("bin".to_owned());
    assert(types.deep_view() =~= seq!["bin"@]);
    let word = if test {
        "test "
    } else {
        ""
    };
    Job {
        message: text::cat3("Building ", word, name),
        call: flags.cmd(&name_, path, "target/bin", &types, &extra, test, harness),
        rename: if text::same(&name_, name) {
            None
        } else {
            Some((name_, name.to_owned()))
        },
    }
}

pub open spec fn bin_program(f: FlagsView, lib_extern: Seq<Seq<char>>, test: bool) -> spec_fn(
    (Seq<char>, Seq<char>),
) -> JobView {
    |b: (Seq<char>, Seq<char>)| program(f, lib_extern, b.0, b.1, BinKind::Bin, test, true)
}

pub open spec fn test_program(f: FlagsView, lib_extern: Seq<Seq<char>>) -> spec_fn(
    (Seq<char>, Seq<char>, bool),
) -> JobView {
    |t: (Seq<char>, Seq<char>, bool)| program(f, lib_extern, t.0, t.1, BinKind::Test, true, t.2)
}

/// Compiling the programs: the binaries, as tests if tests are built, and then the integration tests.
pub open spec fn program_plan(
    c: ConfigView,
    f: FlagsView,
    lib_extern: Seq<Seq<char>>,
    bins: Seq<(Seq<char>, Seq<char>)>,
    tests: Seq<(Seq<char>, Seq<char>, bool)>,
) -> Seq<JobView> {
    bins.map_values(bin_program(f, lib_extern, c.build_tests)) + (if c.build_tests {
        tests.map_values(test_program(f, lib_extern))
    } else {
        Seq::empty()
    })
}

/// The jobs that compile the programs of a crate.
pub fn program_jobs(
    config: &BuildConfig,
    flags: &RustcFlags,
    lib_extern: &Vec<String>,
    bins: &Vec<(String, String)>,
    tests: &Vec<(String, String, bool)>,
) -> (r: Vec<Job>)
    ensures
        r.deep_view() == program_plan(
            config.deep_view(),
            flags.deep_view(),
            lib_extern.deep_view(),
            bins.deep_view(),
            tests.deep_view(),
        ),
{
    let ghost f = flags.deep_view();
    let ghost l = lib_extern.deep_view();
    let ghost b = bins.deep_view();
    let ghost first = b.map_values(bin_program(f, l, config.build_tests));
    let mut out: Vec<Job> = Vec::new();
    assert(out.deep_view() =~= first.take(0));
    for i in 0..bins.len()
        invariant
            f == flags.deep_view(),
            l == lib_extern.deep_view(),
            b == bins.deep_view(),
            first == b.map_values(bin_program(f, l, config.build_tests)),
            out.deep_view() == first.take(i as int),
    {
        let ghost o = out.deep_view();
        assert(b[i as int] == bins@[i as int].deep_view());
        out.push(build_bin(flags, lib_extern, &bins[i].0, &bins[i].1, BinKind::Bin, config.build_tests, true));
        assert(out.deep_view() =~= o.push(first[i as int]));
        assert(first.take(i + 1) =~= first.take(i as int).push(first[i as int]));
    }
    assert(first.take(b.len() as int) =~= first);
    if config.build_tests {
        let ghost t = tests.deep_view();
        let ghost more = t.map_values(test_program(f, l));
        assert(out.deep_view() =~= first + more.take(0));
        for i in 0..tests.len()
            invariant
                f == flags.deep_view(),
                l == lib_extern.deep_view(),
                t == tests.deep_view(),
                more == t.map_values(test_program(f, l)),
                out.deep_view() == first + more.take(i as int),
        {
            let ghost o = out.deep_view();
            assert(t[i as int] == tests@[i as int].deep_view());
            out.push(build_bin(flags, lib_extern, &tests[i].0, &tests[i].1, BinKind::Test, true, tests[i].2));
            assert(out.deep_view() =~= o.push(more[i as int]));
            assert(more.take(i + 1) =~= more.take(i as int).push(more[i as int]));
        }
        assert(more.take(t.len() as int) =~= more);
    } else {
        assert(out.deep_view() =~= first + Seq::empty());
    }
    out
}

/// Link arguments go where the build script meant them to go: those for binaries change neither the
/// library nor the tests, and those for tests change neither the library nor the binaries.
pub proof fn lemma_link_args_are_routed(
    f: FlagsView,
    g: FlagsView,
    c: ConfigView,
    source: Seq<char>,
    lib_extern: Seq<Seq<char>>,
    name: Seq<char>,
    path: Seq<char>,
    test: bool,
    harness: bool,
)
    ensures
        g == (FlagsView { bso_bins: g.bso_bins, bso_bin: g.bso_bin, ..f }) ==> {
            &&& lib_plan(c, f, source) == lib_plan(c, g, source)
            &&& program(f, lib_extern, name, path, BinKind::Test, test, harness) == program(
                g,
                lib_extern,
                name,
                path,
                BinKind::Test,
                test,
                harness,
            )
        },
        g == (FlagsView { bso_tests: g.bso_tests, ..f }) ==> {
            &&& lib_plan(c, f, source) == lib_plan(c, g, source)
            &&& program(f, lib_extern, name, path, BinKind::Bin, test, harness) == program(
                g,
                lib_extern,
                name,
                path,
                BinKind::Bin,
                test,
                harness,
            )
        },
{
}

/// Which file to move where, once a program whose name differs from rustc's is compiled. A `.wasm`
/// file is looked for first.
pub fn renamed(made: &str, name: &str, wasm_exists: bool, bin_exists: bool) -> (r: Option<(String, String)>)
    ensures
        r.deep_view() == if wasm_exists {
            Some(("target/bin/"@ + made@ + ".wasm"@, "target/bin/"@ + name@ + ".wasm"@))
        } else if bin_exists {
            Some(("target/bin/"@ + made@, "target/bin/"@ + name@))
        } else {
            None
        },
{
    if wasm_exists {
        Some((text::cat3("target/bin/", made, ".wasm"), text::cat3("target/bin/", name, ".wasm")))
    } else if bin_exists {
        Some((text::cat2("target/bin/", made), text::cat2("target/bin/", name)))
    } else {
        None
    }
}

/// A call that makes only the metadata of the library, for those who need no code yet.
pub open spec fn metadata_call(c: ConfigView, f: FlagsView, source: Seq<char>, out_dir: Seq<char>) -> CallView {
    let call = rustc::call_of(
        f,
        resolve::normalized(c.lib_name),
        source,
        out_dir,
        c.crate_type,
        f.meta + f.bso_lib,
        false,
        true,
    );
    CallView { args: call.args.push("--emit=metadata"@), ..call }
}

/// Makes only the metadata of the library. The second result says whether the crate is a proc macro,
/// of which dependents need the whole library.
pub fn metadata_job(config: &BuildConfig, flags: &RustcFlags, lib_path: &str, out_dir: &str) -> (r: (RustcCall, bool))
    ensures
        r.0.deep_view() == metadata_call(config.deep_view(), flags.deep_view(), lib_path@, out_dir@),
        r.1 == config.crate_type.deep_view().contains("proc-macro"@),
{
    let mut extra = sorted::copy_texts(&flags.meta);
    sorted::extend_texts(&mut extra, &flags.bso_lib);
    let name = config.lib_name_normalized();
    let mut call = flags.cmd(&name, lib_path, out_dir, &config.crate_type, &extra, false, true);
    sorted::push_text(&mut call.args, "--emit=metadata");
    (call, sorted::has_text(&config.crate_type, "proc-macro"))
}

// ---------------------------------------------------------------------------
// What the jobs hold
// ---------------------------------------------------------------------------

proof fn lemma_lib_extra(c: ConfigView, f: FlagsView)
    ensures
        lists::has_run(lib_extra(c, f), f.meta),
        lists::has_run(lib_extra(c, f), f.bso_lib),
        c.crate_type.contains("cdylib"@) ==> lists::has_run(lib_extra(c, f), f.bso_cdylib),
        lib_extra(c, f).len() == f.meta.len() + f.bso_lib.len() + if c.crate_type.contains("cdylib"@) {
            f.bso_cdylib.len()
        } else {
            0nat
        },
{
    let m = f.meta;
    let l = f.bso_lib;
    let d = if c.crate_type.contains("cdylib"@) {
        f.bso_cdylib
    } else {
        Seq::empty()
    };
    lists::lemma_run_self(m);
    lists::lemma_run_self(l);
    lists::lemma_run_self(d);
    lists::lemma_run_joined(m, l, m);
    lists::lemma_run_joined(m, l, l);
    lists::lemma_run_joined(m + l, d, m);
    lists::lemma_run_joined(m + l, d, l);
    lists::lemma_run_joined(m + l, d, d);
}

proof fn lemma_lib_call(c: ConfigView, f: FlagsView, source: Seq<char>, test: bool, part: Seq<Seq<char>>)
    requires
        lists::has_run(f.meta, part) || lists::has_run(f.bso_lib, part) || (c.crate_type.contains("cdylib"@)
            && lists::has_run(f.bso_cdylib, part)),
    ensures
        lists::has_run(
            rustc::call_of(
                f,
                resolve::normalized(c.lib_name),
                source,
                "target/lib"@,
                c.crate_type,
                lib_extra(c, f),
                test,
                true,
            ).args,
            part,
        ),
{
    let d = if c.crate_type.contains("cdylib"@) {
        f.bso_cdylib
    } else {
        Seq::empty()
    };
    lists::lemma_run_joined(f.meta, f.bso_lib, part);
    lists::lemma_run_joined(f.meta + f.bso_lib, d, part);
    rustc::lemma_call_extra(
        f,
        resolve::normalized(c.lib_name),
        source,
        "target/lib"@,
        c.crate_type,
        lib_extra(c, f),
        test,
        true,
        part,
    );
}

/// Every call that compiles the library carries the crate's hash, as the metadata and at the end of the
/// file names, each next to its option; the calls go to `target/lib`, for every kind of library that the
/// crate is, under the name of the library; and the link arguments for shared libraries are there exactly
/// for a crate that is one.
pub proof fn lemma_library_calls(
    c: ConfigView,
    bso: OutputsView,
    metas: Seq<CrateMetadataView>,
    build_top: Option<Seq<char>>,
    extra: Option<Seq<char>>,
    link: Option<Seq<char>>,
    source: Seq<char>,
    k: int,
)
    requires
        0 <= k < lib_plan(c, rustc::flags_of(c, bso, metas, build_top, extra, link), source).len(),
    ensures
        ({
            let f = rustc::flags_of(c, bso, metas, build_top, extra, link);
            let job = lib_plan(c, f, source)[k];
            let a = job.call.args;
            &&& lists::has_run(a, seq!["-C"@, "metadata="@ + c.metadata])
            &&& lists::has_run(a, seq!["-C"@, "extra-filename=-"@ + c.metadata])
            &&& lists::has_run(a, seq!["--crate-name"@, resolve::normalized(c.lib_name)])
            &&& a.contains(source)
            &&& lists::has_run(a, seq!["--out-dir"@, "target/lib"@])
            &&& forall|n: int|
                0 <= n < c.crate_type.len() ==> lists::has_run(a, seq!["--crate-type"@, #[trigger] c.crate_type[n]])
            &&& lists::has_run(a, bso.link_args)
            &&& lists::has_run(a, bso.link_args_lib)
            &&& c.crate_type.contains("cdylib"@) ==> lists::has_run(a, bso.cdylib_link_args)
            &&& lists::has_run(a, f.base)
            &&& lists::has_run(a, f.link)
            &&& k == 1 ==> a.contains("--test"@)
            &&& a.len() == 15 + k + 2 * c.crate_type.len() + f.base.len() + f.link.len() + f.out_dir.len()
                + bso.link_args.len() + bso.link_args_lib.len() + (if c.crate_type.contains("cdylib"@) {
                bso.cdylib_link_args.len()
            } else {
                0nat
            })
            &&& job.rename is None
        }),
        lib_plan(c, rustc::flags_of(c, bso, metas, build_top, extra, link), source).len() == if c.build_tests {
            2nat
        } else {
            1nat
        },
{
    let f = rustc::flags_of(c, bso, metas, build_top, extra, link);
    let name = resolve::normalized(c.lib_name);
    let more = lib_extra(c, f);
    let test = k == 1;
    rustc::lemma_flags(c, bso, metas, build_top, extra, link);
    rustc::lemma_call_options(f, name, source, "target/lib"@, c.crate_type, more, test, true);
    rustc::lemma_call_kinds(f, name, source, "target/lib"@, c.crate_type, more, test, true);
    rustc::lemma_call_shares(f, name, source, "target/lib"@, c.crate_type, more, test, true);
    lemma_lib_extra(c, f);
    lemma_lib_call(c, f, source, test, seq!["-C"@, "metadata="@ + c.metadata]);
    lemma_lib_call(c, f, source, test, seq!["-C"@, "extra-filename=-"@ + c.metadata]);
    lemma_lib_call(c, f, source, test, bso.link_args);
    lemma_lib_call(c, f, source, test, bso.link_args_lib);
    if c.crate_type.contains("cdylib"@) {
        lists::lemma_run_self(bso.cdylib_link_args);
        lemma_lib_call(c, f, source, test, bso.cdylib_link_args);
    }
}

/// A call for the metadata alone is the library's call with the hash in it too, asks for metadata, and goes
/// where it is told to.
pub proof fn lemma_metadata_call(
    c: ConfigView,
    bso: OutputsView,
    metas: Seq<CrateMetadataView>,
    build_top: Option<Seq<char>>,
    extra: Option<Seq<char>>,
    link: Option<Seq<char>>,
    source: Seq<char>,
    out_dir: Seq<char>,
)
    ensures
        ({
            let f = rustc::flags_of(c, bso, metas, build_top, extra, link);
            let a = metadata_call(c, f, source, out_dir).args;
            &&& lists::has_run(a, seq!["-C"@, "metadata="@ + c.metadata])
            &&& lists::has_run(a, seq!["-C"@, "extra-filename=-"@ + c.metadata])
            &&& a.contains("--emit=metadata"@)
            &&& a.contains(source)
            &&& lists::has_run(a, seq!["--crate-name"@, resolve::normalized(c.lib_name)])
            &&& lists::has_run(a, seq!["--out-dir"@, out_dir])
            &&& lists::has_run(a, bso.link_args)
            &&& lists::has_run(a, bso.link_args_lib)
            &&& lists::has_run(a, f.base)
            &&& lists::has_run(a, f.link)
            &&& a.len() == 16 + 2 * c.crate_type.len() + f.base.len() + f.link.len() + f.out_dir.len()
                + bso.link_args.len() + bso.link_args_lib.len()
            &&& forall|n: int|
                0 <= n < c.crate_type.len() ==> lists::has_run(a, seq!["--crate-type"@, #[trigger] c.crate_type[n]])
        }),
{
    let f = rustc::flags_of(c, bso, metas, build_top, extra, link);
    let name = resolve::normalized(c.lib_name);
    let more = f.meta + f.bso_lib;
    let b = rustc::call_of(f, name, source, out_dir, c.crate_type, more, false, true).args;
    let a = metadata_call(c, f, source, out_dir).args;
    let tail = seq!["--emit=metadata"@];
    assert(a =~= b + tail);
    assert(a[b.len() as int] == "--emit=metadata"@);
    rustc::lemma_flags(c, bso, metas, build_top, extra, link);
    rustc::lemma_call_options(f, name, source, out_dir, c.crate_type, more, false, true);
    rustc::lemma_call_kinds(f, name, source, out_dir, c.crate_type, more, false, true);
    rustc::lemma_call_shares(f, name, source, out_dir, c.crate_type, more, false, true);
    let m = seq!["-C"@, "metadata="@ + c.metadata];
    let x = seq!["-C"@, "extra-filename=-"@ + c.metadata];
    lists::lemma_run_joined(f.meta, f.bso_lib, m);
    lists::lemma_run_joined(f.meta, f.bso_lib, x);
    lists::lemma_run_joined(f.meta, f.bso_lib, bso.link_args);
    lists::lemma_run_joined(f.meta, f.bso_lib, bso.link_args_lib);
    rustc::lemma_call_extra(f, name, source, out_dir, c.crate_type, more, false, true, m);
    rustc::lemma_call_extra(f, name, source, out_dir, c.crate_type, more, false, true, x);
    rustc::lemma_call_extra(f, name, source, out_dir, c.crate_type, more, false, true, bso.link_args);
    rustc::lemma_call_extra(f, name, source, out_dir, c.crate_type, more, false, true, bso.link_args_lib);
    lists::lemma_run_joined(b, tail, m);
    lists::lemma_run_joined(b, tail, x);
    lists::lemma_run_joined(b, tail, bso.link_args);
    lists::lemma_run_joined(b, tail, bso.link_args_lib);
    lists::lemma_run_joined(b, tail, f.base);
    lists::lemma_run_joined(b, tail, f.link);
    lists::lemma_run_joined(b, tail, seq!["--crate-name"@, name]);
    lists::lemma_run_joined(b, tail, seq!["--out-dir"@, out_dir]);
    lists::lemma_concat_has(b, tail, source);
    assert forall|n: int| 0 <= n < c.crate_type.len() implies lists::has_run(
        a,
        seq!["--crate-type"@, #[trigger] c.crate_type[n]],
    ) by {
        lists::lemma_run_joined(b, tail, seq!["--crate-type"@, c.crate_type[n]]);
    }
}

/// The file that rustc makes of the library, whose name has the library's name and then what
/// `extra-filename` says, is one of those under which the crate's own library is looked up; and with such a
/// file there, it is found: the path ends in the hash and `.rlib`.
pub proof fn lemma_own_library_found(c: ConfigView, names: Seq<Seq<char>>)
    requires
        names.contains("lib"@ + resolve::normalized(c.lib_name) + ("-"@ + c.metadata) + ".rlib"@),
    ensures
        exists|i: int|
            0 <= i < names.len() && own_library(c, names) == disk::joined_path("target/lib"@, #[trigger] names[i])
                && text::has_suffix(names[i], "-"@ + c.metadata + ".rlib"@),
{
    let made = "lib"@ + resolve::normalized(c.lib_name) + ("-"@ + c.metadata) + ".rlib"@;
    let end = "-"@ + c.metadata + ".rlib"@;
    let stem = "lib"@ + resolve::normalized(c.lib_name);
    assert(made =~= stem + end);
    text::lemma_before_suffix(stem, end);
    rustc::lemma_artifact_named(names, c.metadata);
    let k = choose|k: int| 0 <= k < names.len() && names[k] == made;
    assert(text::has_suffix(names[k], end));
    let n = rustc::artifact_named(names, c.metadata)->0;
    let i = choose|i: int| 0 <= i < names.len() && names[i] == n;
    assert(own_library(c, names) == disk::joined_path("target/lib"@, names[i]));
}

/// Where no file is there yet, the crate's own library is the file that rustc will make.
pub proof fn lemma_own_library_expected(c: ConfigView)
    ensures
        own_library(c, Seq::empty()) == "target/lib/"@ + ("lib"@ + resolve::normalized(c.lib_name) + ("-"@ + c.metadata)
            + ".rlib"@),
{
    reveal_strlit("target/lib/lib");
    reveal_strlit("target/lib/");
    reveal_strlit("lib");
    assert("target/lib/lib"@ =~= "target/lib/"@ + "lib"@);
    assert(own_library(c, Seq::empty()) =~= "target/lib/"@ + ("lib"@ + resolve::normalized(c.lib_name) + ("-"@
        + c.metadata) + ".rlib"@));
}

/// A call that compiles a program: it goes to `target/bin` as a binary under the name that rustc takes,
/// links the crate's own library, and has the link arguments for its kind and, if it is a binary, for
/// itself; and what rustc calls otherwise than the crate is renamed.
pub proof fn lemma_program(
    f: FlagsView,
    lib_extern: Seq<Seq<char>>,
    name: Seq<char>,
    path: Seq<char>,
    kind: BinKind,
    test: bool,
    harness: bool,
)
    ensures
        ({
            let job = program(f, lib_extern, name, path, kind, test, harness);
            let a = job.call.args;
            &&& lists::has_run(a, seq!["--crate-name"@, resolve::normalized(name)])
            &&& a.contains(path)
            &&& lists::has_run(a, seq!["--out-dir"@, "target/bin"@])
            &&& lists::has_run(a, seq!["--crate-type"@, "bin"@])
            &&& lists::has_run(a, lib_extern)
            &&& lists::has_run(a, f.base)
            &&& lists::has_run(a, f.link)
            &&& kind is Bin ==> lists::has_run(a, f.bso_bins)
            &&& kind is Bin ==> (sorted::entry_of(f.bso_bin, name) matches Some(per) ==> lists::has_run(a, per))
            &&& kind is Test ==> lists::has_run(a, f.bso_tests)
            &&& test && harness ==> a.contains("--test"@)
            &&& test && !harness ==> lists::has_run(a, seq!["--cfg"@, "test"@])
            &&& a.len() == 13 + (if !test {
                0nat
            } else if harness {
                1nat
            } else {
                2nat
            }) + f.base.len() + f.link.len() + f.out_dir.len() + lib_extern.len() + (match kind {
                BinKind::Bin => f.bso_bins.len() + (match sorted::entry_of(f.bso_bin, name) {
                    Some(per) => per.len(),
                    None => 0nat,
                }),
                BinKind::Test => f.bso_tests.len(),
            })
            &&& resolve::normalized(name) == name ==> job.rename is None
            &&& resolve::normalized(name) != name ==> job.rename == Some((resolve::normalized(name), name))
        }),
{
    let name_ = resolve::normalized(name);
    let r = routed(f, name, kind);
    let more = r + lib_extern;
    let types = seq!["bin"@];
    rustc::lemma_call_options(f, name_, path, "target/bin"@, types, more, test, harness);
    rustc::lemma_call_kinds(f, name_, path, "target/bin"@, types, more, test, harness);
    rustc::lemma_call_shares(f, name_, path, "target/bin"@, types, more, test, harness);
    assert(types[0] == "bin"@);
    lists::lemma_run_self(lib_extern);
    lists::lemma_run_joined(r, lib_extern, lib_extern);
    rustc::lemma_call_extra(f, name_, path, "target/bin"@, types, more, test, harness, lib_extern);
    match kind {
        BinKind::Bin => {
            let per = match sorted::entry_of(f.bso_bin, name) {
                Some(per) => per,
                None => Seq::empty(),
            };
            lists::lemma_run_self(f.bso_bins);
            lists::lemma_run_self(per);
            lists::lemma_run_joined(f.bso_bins, per, f.bso_bins);
            lists::lemma_run_joined(f.bso_bins, per, per);
            lists::lemma_run_joined(r, lib_extern, f.bso_bins);
            lists::lemma_run_joined(r, lib_extern, per);
            rustc::lemma_call_extra(f, name_, path, "target/bin"@, types, more, test, harness, f.bso_bins);
            rustc::lemma_call_extra(f, name_, path, "target/bin"@, types, more, test, harness, per);
        },
        BinKind::Test => {
            lists::lemma_run_self(f.bso_tests);
            lists::lemma_run_joined(r, lib_extern, f.bso_tests);
            rustc::lemma_call_extra(f, name_, path, "target/bin"@, types, more, test, harness, f.bso_tests);
        },
    }
}

/// One job for each binary, which is compiled as a test exactly if tests are built, and then, if they are,
/// one for each integration test, with a harness as far as it has one.
pub proof fn lemma_programs(
    c: ConfigView,
    f: FlagsView,
    lib_extern: Seq<Seq<char>>,
    bins: Seq<(Seq<char>, Seq<char>)>,
    tests: Seq<(Seq<char>, Seq<char>, bool)>,
    k: int,
)
    ensures
        program_plan(c, f, lib_extern, bins, tests).len() == bins.len() + if c.build_tests {
            tests.len()
        } else {
            0nat
        },
        0 <= k < bins.len() ==> program_plan(c, f, lib_extern, bins, tests)[k] == program(
            f,
            lib_extern,
            bins[k].0,
            bins[k].1,
            BinKind::Bin,
            c.build_tests,
            true,
        ),
        c.build_tests && 0 <= k < tests.len() ==> program_plan(c, f, lib_extern, bins, tests)[bins.len() + k] == program(
            f,
            lib_extern,
            tests[k].0,
            tests[k].1,
            BinKind::Test,
            true,
            tests[k].2,
        ),
{
    let plan = program_plan(c, f, lib_extern, bins, tests);
    let a = bins.map_values(bin_program(f, lib_extern, c.build_tests));
    if 0 <= k < bins.len() {
        assert(plan[k] == a[k]);
    }
    if c.build_tests && 0 <= k < tests.len() {
        let b = tests.map_values(test_program(f, lib_extern));
        assert(plan[bins.len() + k] == b[k]);
    }
}

/// The source of a library is the path that is set, where there is a file; else, unless the crate says that
/// it has none, `src/lib.rs` where that is there; and it is a file in any case.
pub proof fn lemma_lib_source(c: ConfigView, d: DiskView)
    ensures
        c.lib_path.len() > 0 && disk::file_exists(d, c.lib_path) ==> lib_source(c, d) == Some(c.lib_path),
        !(c.lib_path.len() > 0 && disk::file_exists(d, c.lib_path)) ==> (lib_source(c, d) == Some("src/lib.rs"@)
            <==> c.autolib && disk::file_exists(d, "src/lib.rs"@)),
        lib_source(c, d) matches Some(p) ==> disk::file_exists(d, p) && (p == c.lib_path || p == "src/lib.rs"@),
{
}

/// The source of a binary is a file, at one of the places that Cargo has for it; and as long as there is one
/// under `src/bin` with the binary's own name, and no file directly under `src` in a crate without a
/// library, it is that one.
pub proof fn lemma_bin_source(name: Seq<char>, lib_path: Seq<char>, lib_name: Seq<char>, d: DiskView)
    ensures
        match bin_source(name, lib_path, lib_name, d) {
            Some(p) => disk::file_exists(d, p) && bin_candidates(name, has_library(lib_path, lib_name, d)).contains(p),
            None => !disk::file_exists(d, "src/main.rs"@) && !disk::file_exists(d, "src/bin/main.rs"@) && !disk::file_exists(
                d,
                "src/bin/"@ + name + ".rs"@,
            ) && !disk::file_exists(d, "src/bin/"@ + name + "/main.rs"@) && !disk::file_exists(
                d,
                "src/bin/"@ + resolve::normalized(name) + ".rs"@,
            ) && !disk::file_exists(d, "src/bin/"@ + resolve::normalized(name) + "/main.rs"@),
        },
        has_library(lib_path, lib_name, d) && disk::file_exists(d, "src/bin/"@ + name + ".rs"@) ==> bin_source(
            name,
            lib_path,
            lib_name,
            d,
        ) == Some("src/bin/"@ + name + ".rs"@),
        has_library(lib_path, lib_name, d) && !disk::file_exists(d, "src/bin/"@ + name + ".rs"@) && disk::file_exists(
            d,
            "src/bin/"@ + name + "/main.rs"@,
        ) ==> bin_source(name, lib_path, lib_name, d) == Some("src/bin/"@ + name + "/main.rs"@),
        !has_library(lib_path, lib_name, d) && disk::file_exists(d, "src/"@ + name + ".rs"@) ==> bin_source(
            name,
            lib_path,
            lib_name,
            d,
        ) == Some("src/"@ + name + ".rs"@),
        !has_library(lib_path, lib_name, d) && !disk::file_exists(d, "src/"@ + name + ".rs"@) && disk::file_exists(
            d,
            "src/"@ + resolve::normalized(name) + ".rs"@,
        ) ==> bin_source(name, lib_path, lib_name, d) == Some("src/"@ + resolve::normalized(name) + ".rs"@),
        disk::file_exists(d, "src/lib.rs"@) ==> has_library(lib_path, lib_name, d),
        lib_path.len() > 0 && disk::file_exists(d, lib_path) ==> has_library(lib_path, lib_name, d),
        disk::file_exists(d, "src/"@ + lib_name + ".rs"@) ==> has_library(lib_path, lib_name, d),
{
    let has_lib = has_library(lib_path, lib_name, d);
    let s = bin_candidates(name, has_lib);
    let p = there(d);
    lists::lemma_first_with(s, p);
    let n: int = if has_lib {
        0
    } else {
        2
    };
    assert(s[n] == "src/bin/"@ + name + ".rs"@);
    assert(s[n + 1] == "src/bin/"@ + name + "/main.rs"@);
    assert(s[n + 2] == "src/bin/"@ + resolve::normalized(name) + ".rs"@);
    assert(s[n + 3] == "src/bin/"@ + resolve::normalized(name) + "/main.rs"@);
    assert(s[n + 4] == "src/bin/main.rs"@);
    assert(s[n + 5] == "src/main.rs"@);
    if bin_source(name, lib_path, lib_name, d) is None {
        assert(!p(s[n]) && !p(s[n + 1]) && !p(s[n + 2]) && !p(s[n + 3]) && !p(s[n + 4]) && !p(s[n + 5]));
    }
    if has_lib {
        if p(s[0]) {
            lists::lemma_first_with_is(s, p, 0);
        } else if p(s[1]) {
            lists::lemma_first_with_is(s, p, 1);
        }
    } else {
        assert(s[0] == "src/"@ + name + ".rs"@);
        assert(s[1] == "src/"@ + resolve::normalized(name) + ".rs"@);
        if p(s[0]) {
            lists::lemma_first_with_is(s, p, 0);
        } else if p(s[1]) {
            lists::lemma_first_with_is(s, p, 1);
        }
    }
}

/// Where a source of a binary is missing, nothing behind it counts any more; where none is, every binary
/// that is named is either built, from its path or the place where it is found, or left out for a feature
/// that is off, with the features that it needs.
pub proof fn lemma_every_bin_decided(bins: Seq<CrateBinView>, c: ConfigView, d: DiskView, k: int)
    requires
        0 <= k < bins.len(),
        choice_among(bins, c, d).missing is None,
    ensures
        ({
            let b = bins[k];
            let name = match b.name {
                Some(n) => n,
                None => c.crate_name,
            };
            let on = forall|i: int|
                0 <= i < b.required_features.len() ==> c.crate_features.contains(#[trigger] b.required_features[i]);
            &&& !on ==> choice_among(bins, c, d).left_out.contains((name, b.required_features))
            &&& on ==> (b.path matches Some(p) ==> choice_among(bins, c, d).bins.contains((name, p)))
            &&& on && b.path is None ==> match bin_source(name, c.lib_path, c.lib_name, d) {
                Some(p) => choice_among(bins, c, d).bins.contains((name, p)),
                None => false,
            }
        }),
        choice_among(bins, c, d).bins.len() + choice_among(bins, c, d).left_out.len() == bins.len(),
    decreases bins.len(),
{
    let t = bins.drop_last();
    let before = choice_among(t, c, d);
    let after = choice_among(bins, c, d);
    let fate = fate_of(bins.last(), c, d);
    if t.len() > 0 {
        let j: int = if k < t.len() {
            k
        } else {
            0
        };
        lemma_every_bin_decided(t, c, d, j);
    }
    if k < t.len() {
        assert(t[k] == bins[k]);
        assert forall|x: (Seq<char>, Seq<char>)| #[trigger] before.bins.contains(x) implies after.bins.contains(x) by {
            let i = choose|i: int| 0 <= i < before.bins.len() && before.bins[i] == x;
            assert(after.bins[i] == x);
        }
        assert forall|x: (Seq<char>, Seq<Seq<char>>)| #[trigger] before.left_out.contains(x) implies after.left_out.contains(
            x,
        ) by {
            let i = choose|i: int| 0 <= i < before.left_out.len() && before.left_out[i] == x;
            assert(after.left_out[i] == x);
        }
    } else {
        match fate {
            BinFate::Built(name, path) => {
                assert(after.bins[before.bins.len() as int] == (name, path));
            },
            BinFate::Lacks(name, features) => {
                assert(after.left_out[before.left_out.len() as int] == (name, features));
            },
            BinFate::Missing(name) => {},
        }
    }
}

/// Binaries are inferred only for a crate that names none, has not said that it has none, and lets them be
/// found.
pub proof fn lemma_inferred_bins_count(c: ConfigView, d: DiskView, inferred: Seq<(Seq<char>, Seq<char>)>)
    ensures
        c.crate_bin.len() == 0 ==> bins_of(c, d, inferred).missing is None && bins_of(c, d, inferred).left_out.len() == 0,
        c.crate_bin.len() == 0 && !c.has_crate_bin && c.autobins ==> bins_of(c, d, inferred).bins == inferred,
        c.crate_bin.len() == 0 && (c.has_crate_bin || !c.autobins) ==> bins_of(c, d, inferred).bins.len() == 0,
        forall|other: Seq<(Seq<char>, Seq<char>)>|
            c.crate_bin.len() > 0 ==> #[trigger] bins_of(c, d, other) == bins_of(c, d, inferred),
{
}

/// An entry of a directory of targets is one under its name without `.rs` if it is a Rust source, and one
/// under its name if it is a directory with a `main.rs`; hidden entries are none.
pub proof fn lemma_target_entries(dir: Seq<char>, stem: Seq<char>, has_main: bool)
    requires
        !stem.contains('/'),
        stem.len() > 0,
        stem[0] != '.',
    ensures
        target_at(EntryView { path: dir + "/"@ + stem + ".rs"@, is_file: true, has_main }) == Some(
            (stem, dir + "/"@ + stem + ".rs"@),
        ),
        !text::has_suffix(stem, ".rs"@) ==> target_at(
            EntryView { path: dir + "/"@ + stem, is_file: false, has_main: true },
        ) == Some((stem, dir + "/"@ + stem + "/main.rs"@)),
        !text::has_suffix(stem, ".rs"@) ==> target_at(
            EntryView { path: dir + "/"@ + stem, is_file: true, has_main: false },
        ) is None,
        target_at(EntryView { path: dir + "/."@ + stem, is_file: true, has_main }) is None,
{
    reveal_strlit("/");
    reveal_strlit("/.");
    reveal_strlit(".");
    reveal_strlit(".rs");
    reveal_strlit("/main.rs");
    reveal_strlit("main.rs");
    let file = stem + ".rs"@;
    assert(dir + "/"@ + stem + ".rs"@ =~= dir.push('/') + file);
    assert(!file.contains('/')) by {
        if file.contains('/') {
            let k = choose|k: int| 0 <= k < file.len() && file[k] == '/';
            if k < stem.len() {
                assert(stem[k] == '/');
            }
        }
    }
    text::lemma_cut_last_at(dir, '/', file);
    text::lemma_before_suffix(stem, ".rs"@);
    assert(file[0] == stem[0]);
    if text::has_prefix(file, "."@) {
        assert(file.take(1)[0] == '.');
    }
    assert(dir + "/"@ + stem =~= dir.push('/') + stem);
    text::lemma_cut_last_at(dir, '/', stem);
    if text::has_prefix(stem, "."@) {
        assert(stem.take(1)[0] == '.');
    }
    let path = dir + "/"@ + stem;
    assert(path.last() == stem.last());
    assert(stem.contains(stem.last()));
    assert("main.rs"@[0] == 'm');
    assert(path.push('/') + "main.rs"@ =~= path + "/main.rs"@);
    let hidden = "."@ + stem;
    assert(dir + "/."@ + stem =~= dir.push('/') + hidden);
    assert(!hidden.contains('/')) by {
        if hidden.contains('/') {
            let k = choose|k: int| 0 <= k < hidden.len() && hidden[k] == '/';
            if k > 0 {
                assert(stem[k - 1] == '/');
            }
        }
    }
    text::lemma_cut_last_at(dir, '/', hidden);
    text::lemma_after_prefix("."@, stem);
}

/// The binaries that the files suggest are those in `src/bin`, and `src/main.rs` under the crate's name if
/// it is there.
pub proof fn lemma_inferred(crate_name: Seq<char>, has_main: bool, entries: Seq<EntryView>, b: (Seq<char>, Seq<char>))
    ensures
        bins_inferred(crate_name, has_main, entries).contains(b) <==> (has_main && b == (crate_name, "src/main.rs"@))
            || exists|k: int| 0 <= k < entries.len() && target_at(#[trigger] entries[k]) == Some(b),
{
    let f = target_found();
    let head = if has_main {
        seq![(crate_name, "src/main.rs"@)]
    } else {
        Seq::empty()
    };
    let found = entries.filter_map(f);
    if bins_inferred(crate_name, has_main, entries).contains(b) {
        lists::lemma_concat_from(head, found, b);
        if found.contains(b) {
            lists::lemma_gathered_from(entries, f, b);
            let k = choose|k: int| 0 <= k < entries.len() && f(#[trigger] entries[k]) == Some(b);
            assert(target_at(entries[k]) == Some(b));
        }
    }
    if has_main && b == (crate_name, "src/main.rs"@) {
        assert(head[0] == b);
        lists::lemma_concat_has(head, found, b);
    }
    if exists|k: int| 0 <= k < entries.len() && target_at(#[trigger] entries[k]) == Some(b) {
        let k = choose|k: int| 0 <= k < entries.len() && target_at(#[trigger] entries[k]) == Some(b);
        lists::lemma_filter_map_has(entries, f, k, b);
        lists::lemma_concat_has(head, found, b);
    }
}

/// The integration tests are the targets among the entries, each with a harness, unless the crate does not
/// let them be found.
pub proof fn lemma_tests(c: ConfigView, entries: Seq<EntryView>, t: (Seq<char>, Seq<char>, bool))
    ensures
        tests_of(c, entries).contains(t) <==> c.autotests && t.2 && exists|k: int|
            0 <= k < entries.len() && target_at(#[trigger] entries[k]) == Some((t.0, t.1)),
{
    let f = target_found();
    let found = entries.filter_map(f);
    let all = found.map_values(harnessed());
    if c.autotests {
        if all.contains(t) {
            let i = choose|i: int| 0 <= i < all.len() && all[i] == t;
            assert(found[i] == (t.0, t.1));
            lists::lemma_gathered_from(entries, f, (t.0, t.1));
            let k = choose|k: int| 0 <= k < entries.len() && f(#[trigger] entries[k]) == Some((t.0, t.1));
            assert(target_at(entries[k]) == Some((t.0, t.1)));
        }
        if t.2 && exists|k: int| 0 <= k < entries.len() && target_at(#[trigger] entries[k]) == Some((t.0, t.1)) {
            let k = choose|k: int| 0 <= k < entries.len() && target_at(#[trigger] entries[k]) == Some((t.0, t.1));
            lists::lemma_filter_map_has(entries, f, k, (t.0, t.1));
            let i = choose|i: int| 0 <= i < found.len() && found[i] == (t.0, t.1);
            assert(all[i] == t);
        }
    }
}

/// What the build script's paths and libraries add: this build gets a line for each of both, dependents get
/// one for each path, as it is once the library is installed, and none for the libraries.
pub proof fn lemma_appended(bso: OutputsView, cwd: Seq<char>, lib_out: Seq<char>)
    ensures
        appended(bso, cwd, lib_out) is None <==> bso.link_search.len() == 0 && bso.link_libs.len() == 0,
        appended(bso, cwd, lib_out) matches Some((own, passed_on)) ==> {
            &&& forall|k: int|
                0 <= k < bso.link_search.len() ==> lists::has_run(own, "-L "@ + #[trigger] bso.link_search[k] + "\n"@)
            &&& forall|k: int|
                0 <= k < bso.link_libs.len() ==> lists::has_run(own, "-l "@ + #[trigger] bso.link_libs[k] + "\n"@)
            &&& forall|k: int|
                0 <= k < bso.link_search.len() ==> lists::has_run(
                    passed_on,
                    "-L "@ + text::with_part_replaced(
                        #[trigger] bso.link_search[k],
                        cwd + "/target/build"@,
                        lib_out + "/lib"@,
                    ) + "\n"@,
                )
            &&& bso.link_search.len() == 0 ==> passed_on.len() == 0
        },
{
    if let Some((own, passed_on)) = appended(bso, cwd, lib_out) {
        let a = lists::flat(bso.link_search, search_line());
        let b = lists::flat(bso.link_libs, lib_line());
        let g = installed_line(cwd + "/target/build"@, lib_out + "/lib"@);
        assert forall|k: int| 0 <= k < bso.link_search.len() implies lists::has_run(
            own,
            "-L "@ + #[trigger] bso.link_search[k] + "\n"@,
        ) by {
            lists::lemma_run_flat(bso.link_search, search_line(), k);
            lists::lemma_run_joined(a, b, search_line()(bso.link_search[k]));
        }
        assert forall|k: int| 0 <= k < bso.link_libs.len() implies lists::has_run(
            own,
            "-l "@ + #[trigger] bso.link_libs[k] + "\n"@,
        ) by {
            lists::lemma_run_flat(bso.link_libs, lib_line(), k);
            lists::lemma_run_joined(a, b, lib_line()(bso.link_libs[k]));
        }
        assert forall|k: int| 0 <= k < bso.link_search.len() implies lists::has_run(
            passed_on,
            "-L "@ + text::with_part_replaced(
                #[trigger] bso.link_search[k],
                cwd + "/target/build"@,
                lib_out + "/lib"@,
            ) + "\n"@,
        ) by {
            lists::lemma_run_flat(bso.link_search, g, k);
        }
    }
}

/// What is said of a job: the source and the library that it is for, whether it is the test of one, and the
/// name of the program.
pub proof fn lemma_messages(
    c: ConfigView,
    f: FlagsView,
    lib_extern: Seq<Seq<char>>,
    name: Seq<char>,
    path: Seq<char>,
    kind: BinKind,
    harness: bool,
)
    ensures
        lib_plan(c, f, path)[0].message == "Building "@ + path + " ("@ + c.lib_name + ")"@,
        c.build_tests ==> lib_plan(c, f, path)[1].message == "Building test lib "@ + c.lib_name,
        program(f, lib_extern, name, path, kind, false, harness).message == "Building "@ + name,
        program(f, lib_extern, name, path, kind, true, harness).message == "Building test "@ + name,
{
    reveal_strlit("");
    reveal_strlit("Building ");
    reveal_strlit("test ");
    reveal_strlit("Building test ");
    assert("Building "@ + ""@ =~= "Building "@);
    assert("Building "@ + "test "@ =~= "Building test "@);
}

} // verus!
