//! Locked packages: their short IDs, their sources, and the dependencies between them.

use crate::cfg_eval;
use crate::cfg_eval::{TargetDescription, TargetView};
use crate::disk::Disk;
use crate::lists;
use crate::manifest;
use crate::manifest::{ManifestDep, ManifestDepView, MemberView, WorkspaceMember};
use crate::registry;
use crate::registry::{
    DependencyKind, IndexDepView, IndexDependency, IndexKrate, IndexVersion, IndexVersionView, JobView, PrefetchJob,
};
use crate::resolve::{DepInfo, DepView, SourceInfo, SourceView};
use crate::sorted;
use crate::text;
use crate::toml_tree;
use crate::toml_tree::{Toml, Tree};
use crate::version;
use crate::version::{Version, VersionReq, VersionView};
use vstd::prelude::*;

verus! {

// ---------------------------------------------------------------------------
// Locked packages
// ---------------------------------------------------------------------------

/// A package entry of `Cargo.lock`.
#[derive(Debug, Clone)]
pub struct LockPackage {
    pub name: String,
    pub version: String,
    pub source: Option<String>,
    /// References to dependencies: `name`, or `name version`.
    pub dependencies: Vec<String>,
}

/// The view of a [`LockPackage`].
pub struct LockView {
    pub name: Seq<char>,
    pub version: Seq<char>,
    pub source: Option<Seq<char>>,
    pub dependencies: Seq<Seq<char>>,
}

impl DeepView for LockPackage {
    type V = LockView;

    open spec fn deep_view(&self) -> LockView {
        LockView {
            name: self.name@,
            version: self.version@,
            source: self.source.deep_view(),
            dependencies: self.dependencies.deep_view(),
        }
    }
}

/// The texts of an array that holds nothing else.
pub open spec fn only_texts(v: Option<Toml>) -> Option<Seq<Seq<char>>> {
    match v {
        None => Some(Seq::empty()),
        Some(Toml::Array(a)) => lists::all_of(a, toml_tree::text_at()),
        _ => None,
    }
}

/// The package that a `[[package]]` entry describes, if it has the right form.
pub open spec fn lock_package_in(p: Toml) -> Option<LockView> {
    match (
        toml_tree::text_in(toml_tree::field(p, "name"@)),
        toml_tree::text_in(toml_tree::field(p, "version"@)),
        toml_tree::field(p, "source"@),
        only_texts(toml_tree::field(p, "dependencies"@)),
    ) {
        (Some(name), Some(version), None, Some(dependencies)) => Some(
            LockView { name, version, source: None, dependencies },
        ),
        (Some(name), Some(version), Some(Toml::Text(source)), Some(dependencies)) => Some(
            LockView { name, version, source: Some(source), dependencies },
        ),
        _ => None,
    }
}

pub open spec fn lock_package_at() -> spec_fn(Toml) -> Option<LockView> {
    |p: Toml| lock_package_in(p)
}

/// The packages of a lock file.
pub open spec fn locked(text: Seq<char>) -> Result<Seq<LockView>, Seq<char>> {
    match toml_tree::toml_parsed(text) {
        Err(e) => Err("Failed to parse Cargo.lock: "@ + e),
        Ok(t) => match toml_tree::field(t, "package"@) {
            Some(Toml::Array(a)) => match lists::all_of(a, lock_package_at()) {
                Some(s) => Ok(s),
                None => Err("Failed to parse Cargo.lock: malformed package entry"@),
            },
            _ => Err("Failed to parse Cargo.lock: missing field `package`"@),
        },
    }
}

fn read_only_texts(v: Option<&Tree>) -> (r: Option<Vec<String>>)
    ensures
        r.deep_view() == only_texts(v.deep_view()),
{
    let mut out: Vec<String> = Vec::new();
    match v {
        None => {
            assert(out.deep_view() =~= Seq::empty());
            Some(out)
        },
        Some(t) => match t.as_array() {
            None => None,
            Some(a) => {
                let ghost s = a.deep_view();
                let ghost f = toml_tree::text_at();
                assert(s.take(0) =~= Seq::empty());
                assert(out.deep_view() =~= Seq::empty());
                for i in 0..a.len()
                    invariant
                        s == a.deep_view(),
                        f == toml_tree::text_at(),
                        v.deep_view() == Some(Toml::Array(s)),
                        lists::all_of(s.take(i as int), f) == Some(out.deep_view()),
                {
                    let ghost o = out.deep_view();
                    assert(s.take(i + 1).drop_last() =~= s.take(i as int));
                    assert(s.take(i + 1).last() == a@[i as int].deep_view());
                    match a[i].as_str() {
                        Some(x) => {
                            out.push(x.to_owned());
                            assert(out.deep_view() =~= o.push(x@));
                        },
                        None => {
                            proof {
                                lists::lemma_all_of_fails(s, f, i + 1);
                            }
                            return None;
                        },
                    }
                }
                assert(s.take(s.len() as int) =~= s);
                Some(out)
            },
        },
    }
}

fn read_lock_package(p: &Tree) -> (r: Option<LockPackage>)
    ensures
        r.deep_view() == lock_package_in(p.deep_view()),
{
    let name = toml_tree::string_in(p.get("name"));
    let version = toml_tree::string_in(p.get("version"));
    let source = p.get("source");
    let dependencies = read_only_texts(p.get("dependencies"));
    match (name, version, source, dependencies) {
        (Some(name), Some(version), None, Some(dependencies)) => Some(
            LockPackage { name, version, source: None, dependencies },
        ),
        (Some(name), Some(version), Some(Tree::Text(s)), Some(dependencies)) => Some(
            LockPackage { name, version, source: Some(s.clone()), dependencies },
        ),
        _ => None,
    }
}

/// Reads the package entries of a `Cargo.lock`.
pub fn parse_lock_packages(cargo_lock: &str) -> (r: Result<Vec<LockPackage>, String>)
    ensures
        locked(cargo_lock@) == match r {
            Ok(v) => Ok::<Seq<LockView>, Seq<char>>(v.deep_view()),
            Err(e) => Err::<Seq<LockView>, Seq<char>>(e@),
        },
{
    let doc = match toml_tree::parse(cargo_lock) {
        Ok(t) => t,
        Err(e) => {
            return Err(text::cat2("Failed to parse Cargo.lock: ", &e));
        },
    };
    let a = match doc.get("package") {
        Some(v) => match v.as_array() {
            Some(a) => a,
            None => {
                return Err("Failed to parse Cargo.lock: missing field `package`".to_owned());
            },
        },
        None => {
            return Err("Failed to parse Cargo.lock: missing field `package`".to_owned());
        },
    };
    let mut out: Vec<LockPackage> = Vec::new();
    let ghost s = a.deep_view();
    let ghost f = lock_package_at();
    assert(s.take(0) =~= Seq::empty());
    assert(out.deep_view() =~= Seq::empty());
    for i in 0..a.len()
        invariant
            s == a.deep_view(),
            f == lock_package_at(),
            locked(cargo_lock@) == match lists::all_of(s, f) {
                Some(v) => Ok::<Seq<LockView>, Seq<char>>(v),
                None => Err("Failed to parse Cargo.lock: malformed package entry"@),
            },
            lists::all_of(s.take(i as int), f) == Some(out.deep_view()),
    {
        let ghost o = out.deep_view();
        assert(s.take(i + 1).drop_last() =~= s.take(i as int));
        assert(s.take(i + 1).last() == a@[i as int].deep_view());
        match read_lock_package(&a[i]) {
            Some(p) => {
                let ghost pv = p.deep_view();
                out.push(p);
                assert(out.deep_view() =~= o.push(pv));
            },
            None => {
                proof {
                    lists::lemma_all_of_fails(s, f, i + 1);
                }
                return Err("Failed to parse Cargo.lock: malformed package entry".to_owned());
            },
        }
    }
    assert(s.take(s.len() as int) =~= s);
    Ok(out)
}

// ---------------------------------------------------------------------------
// Short IDs
// ---------------------------------------------------------------------------

/// How many packages have a name.
pub open spec fn name_count(packages: Seq<LockView>, name: Seq<char>) -> nat
    decreases packages.len(),
{
    if packages.len() == 0 {
        0
    } else {
        name_count(packages.drop_last(), name) + if packages.last().name == name {
            1nat
        } else {
            0nat
        }
    }
}

/// The short ID of a package: its name, with the version behind it where the name is not unique.
pub open spec fn short_of(packages: Seq<LockView>, name: Seq<char>, version: Seq<char>) -> Seq<char> {
    if name_count(packages, name) <= 1 {
        name
    } else {
        name + " "@ + version
    }
}

/// Computes short package IDs: `name` if that is unique in the lock file, else `name version`.
#[derive(Debug, Clone)]
pub struct ShortId {
    /// The names that more than one package has.
    pub repeated: Vec<String>,
}

impl ShortId {
    /// Whether these are the IDs for `packages`.
    pub open spec fn is_for(&self, packages: Seq<LockView>) -> bool {
        forall|n: Seq<char>| #[trigger] self.repeated.deep_view().contains(n) <==> name_count(packages, n) > 1
    }

    pub fn new(packages: &Vec<LockPackage>) -> (r: ShortId)
        ensures
            r.is_for(packages.deep_view()),
    {
        let ghost s = packages.deep_view();
        let mut seen: Vec<String> = Vec::new();
        let mut repeated: Vec<String> = Vec::new();
        for i in 0..packages.len()
            invariant
                s == packages.deep_view(),
                forall|n: Seq<char>| #[trigger]
                    seen.deep_view().contains(n) <==> name_count(s.take(i as int), n) > 0,
                forall|n: Seq<char>| #[trigger]
                    repeated.deep_view().contains(n) <==> name_count(s.take(i as int), n) > 1,
        {
            let ghost seen0 = seen.deep_view();
            let ghost rep0 = repeated.deep_view();
            let ghost nm = packages@[i as int].name@;
            assert(s.take(i + 1).drop_last() =~= s.take(i as int));
            assert(s.take(i + 1).last() == packages@[i as int].deep_view());
            let name = &packages[i].name;
            if sorted::has_text(&seen, name) {
                repeated.push(name.clone());
                assert(repeated.deep_view() =~= rep0.push(nm));
                proof {
                    lemma_push_contains(rep0, nm);
                }
            } else {
                seen.push(name.clone());
                assert(seen.deep_view() =~= seen0.push(nm));
                proof {
                    lemma_push_contains(seen0, nm);
                }
            }
        }
        assert(s.take(s.len() as int) =~= s);
        ShortId { repeated }
    }

    pub fn get(&self, name: &str, version: &str) -> (r: String)
        ensures
            r@ == if self.repeated.deep_view().contains(name@) {
                name@ + " "@ + version@
            } else {
                name@
            },
            forall|packages: Seq<LockView>| #[trigger]
                self.is_for(packages) ==> r@ == short_of(packages, name@, version@),
    {
        if sorted::has_text(&self.repeated, name) {
            text::cat3(name, " ", version)
        } else {
            name.to_owned()
        }
    }
}

proof fn lemma_push_contains(s: Seq<Seq<char>>, x: Seq<char>)
    ensures
        forall|n: Seq<char>| #[trigger] s.push(x).contains(n) <==> n == x || s.contains(n),
{
    assert forall|n: Seq<char>| #[trigger] s.push(x).contains(n) <==> n == x || s.contains(n) by {
        let t = s.push(x);
        if t.contains(n) {
            let i = choose|i: int| 0 <= i < t.len() && t[i] == n;
            if i < s.len() {
                assert(s[i] == n);
            }
        }
        if s.contains(n) {
            let i = choose|i: int| 0 <= i < s.len() && s[i] == n;
            assert(t[i] == n);
        }
        assert(t[s.len() as int] == x);
    }
}

/// A name that is one of several packages' is counted more than once.
proof fn lemma_name_count_two(packages: Seq<LockView>, i: int, j: int)
    requires
        0 <= i < j < packages.len(),
        packages[i].name == packages[j].name,
    ensures
        name_count(packages, packages[i].name) > 1,
    decreases packages.len(),
{
    let t = packages.drop_last();
    if j < packages.len() - 1 {
        lemma_name_count_two(t, i, j);
    } else {
        lemma_name_count_one(t, i);
    }
}

proof fn lemma_name_count_one(packages: Seq<LockView>, i: int)
    requires
        0 <= i < packages.len(),
    ensures
        name_count(packages, packages[i].name) > 0,
    decreases packages.len(),
{
    if i < packages.len() - 1 {
        lemma_name_count_one(packages.drop_last(), i);
    }
}

/// Short IDs are unique: two locked packages with the same short ID have the same name and, if they
/// are not one and the same entry, the same version. Names and versions hold no space, as Cargo
/// demands.
pub proof fn lemma_short_ids_unique(packages: Seq<LockView>, i: int, j: int)
    requires
        0 <= i < j < packages.len(),
        !packages[i].name.contains(' '),
        !packages[j].name.contains(' '),
        short_of(packages, packages[i].name, packages[i].version) == short_of(
            packages,
            packages[j].name,
            packages[j].version,
        ),
    ensures
        packages[i].name == packages[j].name,
        packages[i].version == packages[j].version,
{
    reveal_strlit(" ");
    let a = packages[i];
    let b = packages[j];
    let sa = short_of(packages, a.name, a.version);
    let sb = short_of(packages, b.name, b.version);
    let ra = name_count(packages, a.name) > 1;
    let rb = name_count(packages, b.name) > 1;
    if ra {
        assert(sa[a.name.len() as int] == ' ');
    }
    if rb {
        assert(sb[b.name.len() as int] == ' ');
    }
    if ra && !rb {
        assert(b.name.contains(' '));
    }
    if rb && !ra {
        assert(a.name.contains(' '));
    }
    if ra && rb {
        if a.name.len() < b.name.len() {
            assert(b.name[a.name.len() as int] == sb[a.name.len() as int]);
            assert(b.name.contains(' '));
        } else if b.name.len() < a.name.len() {
            assert(a.name[b.name.len() as int] == sa[b.name.len() as int]);
            assert(a.name.contains(' '));
        }
        assert(a.name =~= sa.take(a.name.len() as int));
        assert(b.name =~= sb.take(b.name.len() as int));
        assert(a.version =~= sa.skip(a.name.len() as int + 1));
        assert(b.version =~= sb.skip(b.name.len() as int + 1));
    }
    if !ra && !rb {
        lemma_name_count_two(packages, i, j);
    }
}

// ---------------------------------------------------------------------------
// Finding the locked version of a dependency
// ---------------------------------------------------------------------------

pub open spec fn is_named(name: Seq<char>) -> spec_fn(LockView) -> bool {
    |p: LockView| p.name == name
}

pub open spec fn is_named_version(name: Seq<char>, version: Seq<char>) -> spec_fn(LockView) -> bool {
    |p: LockView| p.name == name && p.version == version
}

/// The package that a reference of a lock file means, if it is one to a package called `name`.
pub open spec fn referenced(dep_ref: Seq<char>, name: Seq<char>, all: Seq<LockView>) -> Option<LockView> {
    match text::cut_first(dep_ref, ' ') {
        Some((n, version)) => if n == name {
            lists::first_with(all, is_named_version(name, version))
        } else {
            None
        },
        None => if dep_ref == name {
            lists::first_with(all, is_named(name))
        } else {
            None
        },
    }
}

pub open spec fn referenced_at(name: Seq<char>, all: Seq<LockView>) -> spec_fn(Seq<char>) -> Option<LockView> {
    |dep_ref: Seq<char>| referenced(dep_ref, name, all)
}

/// Whether a package's version meets a requirement, as it stands or without pre-release and build
/// metadata: Cargo locks to such versions where the requirement alone would not let it.
pub open spec fn meets(req: Seq<char>) -> spec_fn(LockView) -> bool {
    |p: LockView|
        match version::version_parsed(p.version) {
            Some(v) => version::requirement_allows(req, v) || version::requirement_allows(
                req,
                version::release_of(v),
            ),
            None => false,
        }
}

/// Whether a package has a version that cannot be read.
pub open spec fn unreadable() -> spec_fn(LockView) -> bool {
    |p: LockView| version::version_parsed(p.version) is None
}

/// The locked package for a dependency on `name`: the first one referenced that meets the
/// requirement, else the first one referenced whose version cannot be read.
pub open spec fn locked_for(
    name: Seq<char>,
    req: Seq<char>,
    dep_refs: Seq<Seq<char>>,
    all: Seq<LockView>,
) -> Option<LockView> {
    let candidates = dep_refs.filter_map(referenced_at(name, all));
    match lists::first_with(candidates, meets(req)) {
        Some(p) => Some(p),
        None => lists::first_with(candidates, unreadable()),
    }
}

fn find_package<'a>(name: &str, version: Option<&str>, all: &'a Vec<LockPackage>) -> (r: Option<&'a LockPackage>)
    ensures
        r.deep_view() == match version.deep_view() {
            Some(v) => lists::first_with(all.deep_view(), is_named_version(name@, v)),
            None => lists::first_with(all.deep_view(), is_named(name@)),
        },
{
    let ghost s = all.deep_view();
    let ghost p = match version.deep_view() {
        Some(v) => is_named_version(name@, v),
        None => is_named(name@),
    };
    for i in 0..all.len()
        invariant
            s == all.deep_view(),
            p == match version.deep_view() {
                Some(v) => is_named_version(name@, v),
                None => is_named(name@),
            },
            forall|j: int| 0 <= j < i ==> !p(#[trigger] s[j]),
    {
        assert(s[i as int] == all@[i as int].deep_view());
        let hit = text::same(&all[i].name, name) && match version {
            Some(v) => text::same(&all[i].version, v),
            None => true,
        };
        if hit {
            proof {
                lists::lemma_first_with_is(s, p, i as int);
            }
            return Some(&all[i]);
        }
    }
    proof {
        lists::lemma_first_with_is(s, p, s.len() as int);
    }
    None
}

fn follow_ref<'a>(dep_ref: &str, name: &str, all: &'a Vec<LockPackage>) -> (r: Option<&'a LockPackage>)
    ensures
        r.deep_view() == referenced(dep_ref@, name@, all.deep_view()),
{
    match text::split_once(dep_ref, ' ') {
        Some((n, version)) => {
            if text::same(n, name) {
                find_package(name, Some(version), all)
            } else {
                None
            }
        },
        None => {
            if text::same(dep_ref, name) {
                find_package(name, None, all)
            } else {
                None
            }
        },
    }
}

/// Finds a package in the lock file by name and version requirement.
///
/// A name alone is ambiguous where a crate depends on two versions of one package under different
/// names. A version that can be read and does not meet the requirement is never taken: it means that
/// Cargo did not resolve this dependency.
pub fn find_lock_dep_by_name_and_req<'a>(
    name: &str,
    req: &VersionReq,
    dep_refs: &Vec<String>,
    all_packages: &'a Vec<LockPackage>,
) -> (r: Option<&'a LockPackage>)
    ensures
        r.deep_view() == locked_for(name@, req.deep_view(), dep_refs.deep_view(), all_packages.deep_view()),
{
    let ghost all = all_packages.deep_view();
    let ghost s = dep_refs.deep_view();
    let ghost f = referenced_at(name@, all);
    let ghost rq = req.deep_view();
    let mut fallback: Option<&LockPackage> = None;
    assert(s.take(0).filter_map(f) =~= Seq::empty());
    for i in 0..dep_refs.len()
        invariant
            s == dep_refs.deep_view(),
            all == all_packages.deep_view(),
            f == referenced_at(name@, all),
            rq == req.deep_view(),
            lists::first_with(s.take(i as int).filter_map(f), meets(rq)) is None,
            fallback.deep_view() == lists::first_with(s.take(i as int).filter_map(f), unreadable()),
    {
        let ghost done = s.take(i as int).filter_map(f);
        assert(s.take(i + 1).drop_last() =~= s.take(i as int));
        assert(s.take(i + 1).last() == dep_refs@[i as int]@);
        if let Some(pkg) = follow_ref(&dep_refs[i], name, all_packages) {
            let ghost pv = pkg.deep_view();
            proof {
                assert(s.take(i + 1).filter_map(f) =~= done + seq![pv]);
                lists::lemma_first_with_prefix(done, seq![pv], meets(rq));
                lists::lemma_first_with_prefix(done, seq![pv], unreadable());
                lists::lemma_first_with_is(seq![pv], meets(rq), if meets(rq)(pv) { 0 } else { 1 });
                lists::lemma_first_with_is(seq![pv], unreadable(), if unreadable()(pv) { 0 } else { 1 });
            }
            match Version::parse(&pkg.version) {
                Some(v) => {
                    let released = v.release();
                    if req.matches(&v) || req.matches(&released) {
                        proof {
                            lists::lemma_filter_map_split(s, f, i + 1);
                            lists::lemma_first_with_prefix(
                                s.take(i + 1).filter_map(f),
                                s.skip(i + 1).filter_map(f),
                                meets(rq),
                            );
                        }
                        return Some(pkg);
                    }
                },
                None => {
                    if fallback.is_none() {
                        fallback = Some(pkg);
                    }
                },
            }
        }
    }
    assert(s.take(s.len() as int) =~= s);
    fallback
}

/// A locked version that can be read is only ever taken for a requirement that it meets.
pub proof fn lemma_no_false_match(name: Seq<char>, req: Seq<char>, dep_refs: Seq<Seq<char>>, all: Seq<LockView>)
    ensures
        locked_for(name, req, dep_refs, all) matches Some(p) ==> p.name == name && all.contains(p) && (meets(req)(p)
            || version::version_parsed(p.version) is None),
{
    let candidates = dep_refs.filter_map(referenced_at(name, all));
    lists::lemma_first_with(candidates, meets(req));
    lists::lemma_first_with(candidates, unreadable());
    match locked_for(name, req, dep_refs, all) {
        Some(p) => {
            assert(candidates.contains(p));
            lists::lemma_gathered_from(dep_refs, referenced_at(name, all), p);
            let k = choose|k: int| 0 <= k < dep_refs.len() && referenced_at(name, all)(#[trigger] dep_refs[k]) == Some(p);
            match text::cut_first(dep_refs[k], ' ') {
                Some((n, version)) => {
                    lists::lemma_first_with(all, is_named_version(name, version));
                },
                None => {
                    lists::lemma_first_with(all, is_named(name));
                },
            }
        },
        None => {},
    }
}

// ---------------------------------------------------------------------------
// Sources
// ---------------------------------------------------------------------------

/// URL and revision of a git source.
pub open spec fn git_source(src: Seq<char>) -> Option<SourceView> {
    match text::after_prefix(src, "git+"@) {
        Some(s) => match text::cut_last(s, '#') {
            Some((url, rev)) => Some(
                SourceView::Git { url: text::before_first(url, '?'), rev, sub_path: None },
            ),
            None => None,
        },
        None => None,
    }
}

/// Where a locked package comes from.
pub open spec fn source_of(source: Option<Seq<char>>) -> Option<SourceView> {
    match source {
        Some(src) => if registry::is_crates_io(src) {
            Some(SourceView::CratesIo)
        } else if text::has_prefix(src, "git+"@) {
            git_source(src)
        } else if text::has_prefix(src, "sparse+"@) || text::has_prefix(src, "registry+"@) {
            Some(SourceView::Registry { index: src })
        } else {
            None
        },
        None => None,
    }
}

pub(crate) fn parse_git_source(src: &str) -> (r: Option<SourceInfo>)
    ensures
        r.deep_view() == git_source(src@),
{
    match text::strip_prefix(src, "git+") {
        Some(s) => match text::rsplit_once(s, '#') {
            Some((url, rev)) => Some(
                SourceInfo::Git {
                    url: text::split_first(url, '?').to_owned(),
                    rev: rev.to_owned(),
                    sub_path: None,
                },
            ),
            None => None,
        },
        None => None,
    }
}

/// Determines where a locked package comes from.
pub fn resolve_pkg_source(pkg: &LockPackage) -> (r: Option<SourceInfo>)
    ensures
        r.deep_view() == source_of(pkg.source.deep_view()),
{
    match &pkg.source {
        Some(src) => {
            if text::contains_text(src, "github.com/rust-lang/crates.io-index") {
                Some(SourceInfo::CratesIo)
            } else if text::starts_with(src, "git+") {
                parse_git_source(src)
            } else if text::starts_with(src, "sparse+") || text::starts_with(src, "registry+") {
                Some(SourceInfo::Registry { index: src.clone() })
            } else {
                None
            }
        },
        None => None,
    }
}

// ---------------------------------------------------------------------------
// Dependencies
// ---------------------------------------------------------------------------

/// The requirement that a manifest states; one that cannot be read is no restriction.
pub open spec fn req_or_star(req: Option<Seq<char>>) -> Seq<char> {
    match req {
        Some(r) => if version::requirement_parses(r) {
            r
        } else {
            "*"@
        },
        None => "*"@,
    }
}

/// The dependency edge for a declaration of a manifest: none if it is for other targets, or if the
/// lock file resolves it to nothing.
pub open spec fn member_dep(
    d: ManifestDepView,
    dep_refs: Seq<Seq<char>>,
    all: Seq<LockView>,
    t: TargetView,
) -> Option<DepView> {
    if !cfg_eval::applies_to(d.target, t) {
        None
    } else {
        let pkg_name = manifest::or_text(d.package, d.name);
        match locked_for(pkg_name, req_or_star(d.version_req), dep_refs, all) {
            None => None,
            Some(l) => Some(
                DepView {
                    name: pkg_name,
                    package_id: short_of(all, l.name, l.version),
                    rename: if d.name != pkg_name {
                        Some(d.name)
                    } else {
                        None
                    },
                    uses_default_features: d.default_features,
                    features: d.features,
                    optional: d.optional,
                },
            ),
        }
    }
}

pub open spec fn member_dep_at(dep_refs: Seq<Seq<char>>, all: Seq<LockView>, t: TargetView) -> spec_fn(
    ManifestDepView,
) -> Option<DepView> {
    |d: ManifestDepView| member_dep(d, dep_refs, all, t)
}

pub open spec fn member_deps(
    deps: Seq<ManifestDepView>,
    dep_refs: Seq<Seq<char>>,
    all: Seq<LockView>,
    t: TargetView,
) -> Seq<DepView> {
    deps.filter_map(member_dep_at(dep_refs, all, t))
}

fn resolve_member_dep(
    dep: &ManifestDep,
    dep_refs: &Vec<String>,
    lock_packages: &Vec<LockPackage>,
    short_id: &ShortId,
    target: &TargetDescription,
) -> (r: Option<DepInfo>)
    requires
        short_id.is_for(lock_packages.deep_view()),
    ensures
        r.deep_view() == member_dep(
            dep.deep_view(),
            dep_refs.deep_view(),
            lock_packages.deep_view(),
            target.deep_view(),
        ),
{
    if !cfg_eval::applies(&dep.target, target) {
        return None;
    }
    let pkg_name = match &dep.package {
        Some(p) => p.clone(),
        None => dep.name.clone(),
    };
    let req = match &dep.version_req {
        Some(r) => match VersionReq::parse(r) {
            Some(q) => q,
            None => VersionReq::star(),
        },
        None => VersionReq::star(),
    };
    match find_lock_dep_by_name_and_req(&pkg_name, &req, dep_refs, lock_packages) {
        None => None,
        Some(l) => {
            let package_id = short_id.get(&l.name, &l.version);
            let rename = if text::same(&dep.name, &pkg_name) {
                None
            } else {
                Some(dep.name.clone())
            };
            Some(
                DepInfo {
                    name: pkg_name,
                    package_id,
                    rename,
                    uses_default_features: dep.default_features,
                    features: sorted::copy_texts(&dep.features),
                    optional: dep.optional,
                },
            )
        },
    }
}

fn resolve_dep_list(
    deps: &Vec<ManifestDep>,
    dep_refs: &Vec<String>,
    lock_packages: &Vec<LockPackage>,
    short_id: &ShortId,
    target: &TargetDescription,
) -> (r: Vec<DepInfo>)
    requires
        short_id.is_for(lock_packages.deep_view()),
    ensures
        r.deep_view() == member_deps(
            deps.deep_view(),
            dep_refs.deep_view(),
            lock_packages.deep_view(),
            target.deep_view(),
        ),
{
    let ghost s = deps.deep_view();
    let ghost f = member_dep_at(dep_refs.deep_view(), lock_packages.deep_view(), target.deep_view());
    let mut out: Vec<DepInfo> = Vec::new();
    assert(out.deep_view() =~= s.take(0).filter_map(f));
    for i in 0..deps.len()
        invariant
            s == deps.deep_view(),
            short_id.is_for(lock_packages.deep_view()),
            f == member_dep_at(dep_refs.deep_view(), lock_packages.deep_view(), target.deep_view()),
            out.deep_view() == s.take(i as int).filter_map(f),
    {
        let ghost o = out.deep_view();
        assert(s.take(i + 1).drop_last() =~= s.take(i as int));
        assert(s.take(i + 1).last() == deps@[i as int].deep_view());
        if let Some(d) = resolve_member_dep(&deps[i], dep_refs, lock_packages, short_id, target) {
            let ghost dv = d.deep_view();
            out.push(d);
            assert(out.deep_view() =~= o + seq![dv]);
        }
    }
    assert(s.take(s.len() as int) =~= s);
    out
}

/// Resolves the dependencies of a package whose manifest was read: normal, build and development.
pub fn resolve_member_deps(
    member: &WorkspaceMember,
    lock_dep_refs: &Vec<String>,
    lock_packages: &Vec<LockPackage>,
    short_id: &ShortId,
    target: &TargetDescription,
) -> (r: (Vec<DepInfo>, Vec<DepInfo>, Vec<DepInfo>))
    requires
        short_id.is_for(lock_packages.deep_view()),
    ensures
        ({
            let m = member.deep_view();
            let refs = lock_dep_refs.deep_view();
            let all = lock_packages.deep_view();
            let t = target.deep_view();
            &&& r.0.deep_view() == member_deps(m.dependencies, refs, all, t)
            &&& r.1.deep_view() == member_deps(m.build_dependencies, refs, all, t)
            &&& r.2.deep_view() == member_deps(m.dev_dependencies, refs, all, t)
        }),
{
    (
        resolve_dep_list(&member.dependencies, lock_dep_refs, lock_packages, short_id, target),
        resolve_dep_list(&member.build_dependencies, lock_dep_refs, lock_packages, short_id, target),
        resolve_dep_list(&member.dev_dependencies, lock_dep_refs, lock_packages, short_id, target),
    )
}

/// The dependency edge for an entry of the index.
pub open spec fn index_dep(
    d: IndexDepView,
    dep_refs: Seq<Seq<char>>,
    all: Seq<LockView>,
    t: TargetView,
) -> Option<DepView> {
    if d.kind == Some(DependencyKind::Dev) || !cfg_eval::applies_to(d.target, t) {
        None
    } else {
        let pkg_name = registry::crate_name_of(d);
        match locked_for(pkg_name, d.req, dep_refs, all) {
            None => None,
            Some(l) => Some(
                DepView {
                    name: pkg_name,
                    package_id: short_of(all, l.name, l.version),
                    rename: if d.name != pkg_name {
                        Some(d.name)
                    } else {
                        None
                    },
                    uses_default_features: d.default_features,
                    features: d.features,
                    optional: d.optional,
                },
            ),
        }
    }
}

/// The edges of the build dependencies, or of the others.
pub open spec fn index_dep_at(
    build: bool,
    dep_refs: Seq<Seq<char>>,
    all: Seq<LockView>,
    t: TargetView,
) -> spec_fn(IndexDepView) -> Option<DepView> {
    |d: IndexDepView|
        if (d.kind == Some(DependencyKind::Build)) == build {
            index_dep(d, dep_refs, all, t)
        } else {
            None
        }
}

/// The edges of a crate version, sorted by package ID.
pub open spec fn index_deps(
    build: bool,
    v: IndexVersionView,
    dep_refs: Seq<Seq<char>>,
    all: Seq<LockView>,
    t: TargetView,
) -> Seq<DepView> {
    sorted::sorted_by_key::<DepInfo>(v.deps.filter_map(index_dep_at(build, dep_refs, all, t)))
}

fn resolve_index_dep(
    d: &IndexDependency,
    dep_refs: &Vec<String>,
    lock_packages: &Vec<LockPackage>,
    short_id: &ShortId,
    target: &TargetDescription,
) -> (r: Option<DepInfo>)
    requires
        short_id.is_for(lock_packages.deep_view()),
    ensures
        r.deep_view() == index_dep(
            d.deep_view(),
            dep_refs.deep_view(),
            lock_packages.deep_view(),
            target.deep_view(),
        ),
{
    let is_dev = match d.kind {
        Some(k) => k == DependencyKind::Dev,
        None => false,
    };
    if is_dev || !cfg_eval::applies(&d.target, target) {
        return None;
    }
    let pkg_name = d.crate_name().to_owned();
    match find_lock_dep_by_name_and_req(&pkg_name, &d.req, dep_refs, lock_packages) {
        None => None,
        Some(l) => {
            let package_id = short_id.get(&l.name, &l.version);
            let rename = if text::same(&d.name, &pkg_name) {
                None
            } else {
                Some(d.name.clone())
            };
            Some(
                DepInfo {
                    name: pkg_name,
                    package_id,
                    rename,
                    uses_default_features: d.default_features,
                    features: sorted::copy_texts(&d.features),
                    optional: d.optional,
                },
            )
        },
    }
}

/// Resolves the dependencies of a crate of a registry, normal and build, from its index entry.
/// Development dependencies of such a crate are of no use.
pub fn resolve_index_deps(
    index_version: &IndexVersion,
    lock_packages: &Vec<LockPackage>,
    short_id: &ShortId,
    lock_dep_refs: &Vec<String>,
    target: &TargetDescription,
) -> (r: (Vec<DepInfo>, Vec<DepInfo>))
    requires
        short_id.is_for(lock_packages.deep_view()),
    ensures
        ({
            let v = index_version.deep_view();
            let refs = lock_dep_refs.deep_view();
            let all = lock_packages.deep_view();
            let t = target.deep_view();
            &&& r.0.deep_view() == index_deps(false, v, refs, all, t)
            &&& r.1.deep_view() == index_deps(true, v, refs, all, t)
        }),
{
    let ghost s = index_version.deps.deep_view();
    let ghost f = index_dep_at(false, lock_dep_refs.deep_view(), lock_packages.deep_view(), target.deep_view());
    let ghost g = index_dep_at(true, lock_dep_refs.deep_view(), lock_packages.deep_view(), target.deep_view());
    let mut deps: Vec<DepInfo> = Vec::new();
    let mut build_deps: Vec<DepInfo> = Vec::new();
    assert(deps.deep_view() =~= s.take(0).filter_map(f));
    assert(build_deps.deep_view() =~= s.take(0).filter_map(g));
    for i in 0..index_version.deps.len()
        invariant
            s == index_version.deps.deep_view(),
            short_id.is_for(lock_packages.deep_view()),
            f == index_dep_at(false, lock_dep_refs.deep_view(), lock_packages.deep_view(), target.deep_view()),
            g == index_dep_at(true, lock_dep_refs.deep_view(), lock_packages.deep_view(), target.deep_view()),
            deps.deep_view() == s.take(i as int).filter_map(f),
            build_deps.deep_view() == s.take(i as int).filter_map(g),
    {
        let ghost o = deps.deep_view();
        let ghost b = build_deps.deep_view();
        assert(s.take(i + 1).drop_last() =~= s.take(i as int));
        assert(s.take(i + 1).last() == index_version.deps@[i as int].deep_view());
        let d = &index_version.deps[i];
        if let Some(dep) = resolve_index_dep(d, lock_dep_refs, lock_packages, short_id, target) {
            let ghost dv = dep.deep_view();
            let is_build = match d.kind {
                Some(k) => k == DependencyKind::Build,
                None => false,
            };
            if is_build {
                build_deps.push(dep);
                assert(build_deps.deep_view() =~= b + seq![dv]);
            } else {
                deps.push(dep);
                assert(deps.deep_view() =~= o + seq![dv]);
            }
        }
    }
    assert(s.take(s.len() as int) =~= s);
    (sorted::sort_by_key(deps), sorted::sort_by_key(build_deps))
}

// ---------------------------------------------------------------------------
// Index entries that were looked up
// ---------------------------------------------------------------------------

/// What looking up an index entry gave.
#[derive(Debug, Clone)]
pub enum Lookup {
    Found(IndexVersion),
    Failed(String),
}

/// The view of a [`Lookup`].
pub enum LookupView {
    Found(IndexVersionView),
    Failed(Seq<char>),
}

impl DeepView for Lookup {
    type V = LookupView;

    open spec fn deep_view(&self) -> LookupView {
        match self {
            Lookup::Found(v) => LookupView::Found(v.deep_view()),
            Lookup::Failed(e) => LookupView::Failed(e@),
        }
    }
}

fn copy_index_dep(d: &IndexDependency) -> (r: IndexDependency)
    ensures
        r.deep_view() == d.deep_view(),
{
    IndexDependency {
        name: d.name.clone(),
        package: sorted::copy_opt(&d.package),
        req: VersionReq { text: d.req.text.clone() },
        features: sorted::copy_texts(&d.features),
        optional: d.optional,
        default_features: d.default_features,
        target: sorted::copy_opt(&d.target),
        kind: d.kind,
    }
}

fn copy_index_version(v: &IndexVersion) -> (r: IndexVersion)
    ensures
        r.deep_view() == v.deep_view(),
{
    let ghost ds = v.deps.deep_view();
    let mut deps: Vec<IndexDependency> = Vec::new();
    assert(deps.deep_view() =~= ds.take(0));
    for i in 0..v.deps.len()
        invariant
            ds == v.deps.deep_view(),
            deps.deep_view() == ds.take(i as int),
    {
        let ghost o = deps.deep_view();
        assert(ds[i as int] == v.deps@[i as int].deep_view());
        deps.push(copy_index_dep(&v.deps[i]));
        assert(deps.deep_view() =~= o.push(ds[i as int]));
        assert(ds.take(i + 1) =~= ds.take(i as int).push(ds[i as int]));
    }
    assert(ds.take(ds.len() as int) =~= ds);
    let ghost fs = v.features.deep_view();
    let mut features: Vec<(String, Vec<String>)> = Vec::new();
    assert(features.deep_view() =~= fs.take(0));
    for i in 0..v.features.len()
        invariant
            fs == v.features.deep_view(),
            features.deep_view() == fs.take(i as int),
    {
        let ghost o = features.deep_view();
        assert(fs[i as int] == v.features@[i as int].deep_view());
        features.push((v.features[i].0.clone(), sorted::copy_texts(&v.features[i].1)));
        assert(features.deep_view() =~= o.push(fs[i as int]));
        assert(fs.take(i + 1) =~= fs.take(i as int).push(fs[i as int]));
    }
    assert(fs.take(fs.len() as int) =~= fs);
    IndexVersion {
        name: v.name.clone(),
        version: v.version.clone(),
        deps,
        features,
        links: sorted::copy_opt(&v.links),
    }
}

/// Picks a version out of what the index lists of a crate.
pub fn version_lookup(krate: &IndexKrate, name: &str, version: &str) -> (r: Lookup)
    ensures
        r.deep_view() == match lists::first_with(krate.deep_view(), registry::is_version(version@)) {
            Some(v) => LookupView::Found(v),
            None => LookupView::Failed("version "@ + version@ + " of crate '"@ + name@ + "' not found"@),
        },
{
    match registry::find_version(krate, version) {
        Some(v) => Lookup::Found(copy_index_version(v)),
        None => Lookup::Failed(text::cat5("version ", version, " of crate '", name, "' not found")),
    }
}

pub open spec fn is_lookup_of(url: Seq<char>, name: Seq<char>, version: Seq<char>) -> spec_fn((JobView, LookupView)) -> bool {
    |e: (JobView, LookupView)| e.0.url == url && e.0.name == name && e.0.version == version
}

/// What was looked up for a version of a crate in an index.
pub open spec fn looked_up(
    lookups: Seq<(JobView, LookupView)>,
    url: Seq<char>,
    name: Seq<char>,
    version: Seq<char>,
) -> Result<IndexVersionView, Seq<char>> {
    match lists::first_with(lookups, is_lookup_of(url, name, version)) {
        Some(e) => match e.1 {
            LookupView::Found(v) => Ok(v),
            LookupView::Failed(e) => Err(e),
        },
        None => Err("no entry was looked up"@),
    }
}

pub(crate) fn find_lookup<'a>(lookups: &'a Vec<(PrefetchJob, Lookup)>, url: &str, name: &str, version: &str) -> (r: Result<
    &'a IndexVersion,
    String,
>)
    ensures
        looked_up(lookups.deep_view(), url@, name@, version@) == match r {
            Ok(v) => Ok::<IndexVersionView, Seq<char>>(v.deep_view()),
            Err(e) => Err::<IndexVersionView, Seq<char>>(e@),
        },
{
    let ghost s = lookups.deep_view();
    let ghost p = is_lookup_of(url@, name@, version@);
    for i in 0..lookups.len()
        invariant
            s == lookups.deep_view(),
            p == is_lookup_of(url@, name@, version@),
            forall|j: int| 0 <= j < i ==> !p(#[trigger] s[j]),
    {
        assert(s[i as int] == lookups@[i as int].deep_view());
        let job = &lookups[i].0;
        if text::same(&job.name, name) && text::same(&job.version, version) && text::same(&job.url, url) {
            proof {
                lists::lemma_first_with_is(s, p, i as int);
            }
            return match &lookups[i].1 {
                Lookup::Found(v) => Ok(v),
                Lookup::Failed(e) => Err(e.clone()),
            };
        }
    }
    proof {
        lists::lemma_first_with_is(s, p, s.len() as int);
    }
    Err("no entry was looked up".to_owned())
}

// ---------------------------------------------------------------------------
// What to prefetch
// ---------------------------------------------------------------------------

pub open spec fn is_member(name: Seq<char>) -> spec_fn(MemberView) -> bool {
    |m: MemberView| m.name == name
}

/// The index entry to fetch for a locked package: none for workspace members, and none for packages
/// of no registry.
pub open spec fn job_at(members: Seq<MemberView>, crates_io_index: Seq<char>) -> spec_fn(LockView) -> Option<JobView> {
    |p: LockView|
        if lists::first_with(members, is_member(p.name)) is Some {
            None
        } else {
            match registry::index_url_for(p.source, crates_io_index) {
                Some(url) => Some(JobView { url, name: p.name, version: p.version }),
                None => None,
            }
        }
}

pub(crate) fn find_member<'a>(members: &'a Vec<WorkspaceMember>, name: &str) -> (r: Option<&'a WorkspaceMember>)
    ensures
        r.deep_view() == lists::first_with(members.deep_view(), is_member(name@)),
        r matches Some(m) ==> manifest::members_wf(members@) ==> m.features.wf(),
{
    let ghost s = members.deep_view();
    for i in 0..members.len()
        invariant
            s == members.deep_view(),
            forall|j: int| 0 <= j < i ==> !is_member(name@)(#[trigger] s[j]),
    {
        assert(s[i as int] == members@[i as int].deep_view());
        if text::same(&members[i].name, name) {
            proof {
                lists::lemma_first_with_is(s, is_member(name@), i as int);
            }
            return Some(&members[i]);
        }
    }
    proof {
        lists::lemma_first_with_is(s, is_member(name@), s.len() as int);
    }
    None
}

/// The index entries that resolving a workspace will need.
pub fn prefetch_jobs(
    workspace_root: &str,
    cargo_lock: &str,
    crates_io_index: &str,
    disk: &Disk,
) -> (r: Result<Vec<PrefetchJob>, String>)
    ensures
        match (locked(cargo_lock@), manifest::workspace_at(workspace_root@, disk.deep_view())) {
            (Err(e), _) => r matches Err(x) && x@ == e,
            (Ok(_), Err(e)) => r matches Err(x) && x@ == e,
            (Ok(packages), Ok(w)) => r matches Ok(jobs) && jobs.deep_view() == packages.filter_map(
                job_at(w.members, crates_io_index@),
            ),
        },
{
    let packages = match parse_lock_packages(cargo_lock) {
        Ok(p) => p,
        Err(e) => {
            return Err(e);
        },
    };
    let workspace = match manifest::parse_workspace(workspace_root, disk) {
        Ok(w) => w,
        Err(e) => {
            return Err(e);
        },
    };
    let ghost s = packages.deep_view();
    let ghost f = job_at(workspace.members.deep_view(), crates_io_index@);
    let mut jobs: Vec<PrefetchJob> = Vec::new();
    assert(jobs.deep_view() =~= s.take(0).filter_map(f));
    for i in 0..packages.len()
        invariant
            s == packages.deep_view(),
            f == job_at(workspace.members.deep_view(), crates_io_index@),
            jobs.deep_view() == s.take(i as int).filter_map(f),
    {
        let ghost o = jobs.deep_view();
        assert(s.take(i + 1).drop_last() =~= s.take(i as int));
        assert(s.take(i + 1).last() == packages@[i as int].deep_view());
        let p = &packages[i];
        if find_member(&workspace.members, &p.name).is_none() {
            if let Some(url) = registry::source_to_index_url(text::opt_str(&p.source), crates_io_index) {
                let ghost jv = JobView { url: url@, name: p.name@, version: p.version@ };
                jobs.push(PrefetchJob { url, name: p.name.clone(), version: p.version.clone() });
                assert(jobs.deep_view() =~= o + seq![jv]);
            }
        }
    }
    assert(s.take(s.len() as int) =~= s);
    Ok(jobs)
}

// ---------------------------------------------------------------------------
// Laws
// ---------------------------------------------------------------------------

/// Whether an edge leads to a locked package of its name.
pub open spec fn is_locked(d: DepView, all: Seq<LockView>) -> bool {
    exists|k: int|
        0 <= k < all.len() && d.name == (#[trigger] all[k]).name && d.package_id == short_of(
            all,
            all[k].name,
            all[k].version,
        )
}

/// Every edge of a package whose manifest was read comes from a declaration for the target, and leads
/// to a locked package of the name declared.
pub proof fn lemma_member_edge(
    deps: Seq<ManifestDepView>,
    dep_refs: Seq<Seq<char>>,
    all: Seq<LockView>,
    t: TargetView,
    d: DepView,
)
    requires
        member_deps(deps, dep_refs, all, t).contains(d),
    ensures
        is_locked(d, all),
        exists|k: int|
            0 <= k < deps.len() && cfg_eval::applies_to((#[trigger] deps[k]).target, t) && member_dep(
                deps[k],
                dep_refs,
                all,
                t,
            ) == Some(d),
{
    let f = member_dep_at(dep_refs, all, t);
    lists::lemma_gathered_from(deps, f, d);
    let k = choose|k: int| 0 <= k < deps.len() && f(#[trigger] deps[k]) == Some(d);
    let name = manifest::or_text(deps[k].package, deps[k].name);
    let req = req_or_star(deps[k].version_req);
    lemma_no_false_match(name, req, dep_refs, all);
    let l = locked_for(name, req, dep_refs, all)->Some_0;
    let j = choose|j: int| 0 <= j < all.len() && all[j] == l;
    assert(d.package_id == short_of(all, all[j].name, all[j].version));
    assert(cfg_eval::applies_to(deps[k].target, t));
}

/// Every edge of a crate of a registry comes from an entry of the index for the target, and leads to
/// a locked package of the name given there.
pub proof fn lemma_index_edge(
    build: bool,
    v: IndexVersionView,
    dep_refs: Seq<Seq<char>>,
    all: Seq<LockView>,
    t: TargetView,
    d: DepView,
)
    requires
        index_deps(build, v, dep_refs, all, t).contains(d),
    ensures
        is_locked(d, all),
        exists|k: int|
            0 <= k < v.deps.len() && cfg_eval::applies_to((#[trigger] v.deps[k]).target, t) && index_dep(
                v.deps[k],
                dep_refs,
                all,
                t,
            ) == Some(d),
{
    broadcast use vstd::seq_lib::group_to_multiset_ensures;

    let f = index_dep_at(build, dep_refs, all, t);
    let gathered = v.deps.filter_map(f);
    let deps = index_deps(build, v, dep_refs, all, t);
    sorted::lemma_sorted_by_key::<DepInfo>(gathered);
    assert(deps.to_multiset().count(d) > 0);
    assert(gathered.to_multiset().count(d) > 0);
    assert(gathered.contains(d));
    lists::lemma_gathered_from(v.deps, f, d);
    let k = choose|k: int| 0 <= k < v.deps.len() && f(#[trigger] v.deps[k]) == Some(d);
    let name = registry::crate_name_of(v.deps[k]);
    lemma_no_false_match(name, v.deps[k].req, dep_refs, all);
    let l = locked_for(name, v.deps[k].req, dep_refs, all)->Some_0;
    let j = choose|j: int| 0 <= j < all.len() && all[j] == l;
    assert(d.package_id == short_of(all, all[j].name, all[j].version));
    assert(cfg_eval::applies_to(v.deps[k].target, t));
}

/// Whether an entry of the index stands for the edge `d`: it is for the target, the lock file has a
/// package for it, and the edge says of it what the entry says.
pub open spec fn index_entry_yields(
    e: IndexDepView,
    d: DepView,
    dep_refs: Seq<Seq<char>>,
    all: Seq<LockView>,
    t: TargetView,
) -> bool {
    &&& cfg_eval::applies_to(e.target, t)
    &&& match e.package {
        Some(p) => d.name == p,
        None => d.name == e.name,
    }
    &&& match locked_for(d.name, e.req, dep_refs, all) {
        Some(l) => d.package_id == short_of(all, l.name, l.version),
        None => false,
    }
    &&& d.rename == if e.name == d.name {
        None::<Seq<char>>
    } else {
        Some(e.name)
    }
    &&& d.uses_default_features == e.default_features
    &&& d.features == e.features
    &&& d.optional == e.optional
}

/// Whether a list of sorted edges has exactly the members of the list it was made from.
proof fn lemma_sorted_members(s: Seq<DepView>, d: DepView)
    ensures
        sorted::sorted_by_key::<DepInfo>(s).contains(d) <==> s.contains(d),
{
    broadcast use vstd::seq_lib::group_to_multiset_ensures;

    sorted::lemma_sorted_by_key::<DepInfo>(s);
    let r = sorted::sorted_by_key::<DepInfo>(s);
    assert(r.contains(d) <==> r.to_multiset().count(d) > 0);
    assert(s.contains(d) <==> s.to_multiset().count(d) > 0);
}

/// The edges of a crate of a registry go by the kinds that the index gives: an edge is a build dependency
/// exactly if an entry of kind `build` stands for it, and a dependency exactly if an entry of kind
/// `normal`, or of none, does. Entries of kind `dev` give no edge.
pub proof fn lemma_index_edges_by_kind(
    v: IndexVersionView,
    dep_refs: Seq<Seq<char>>,
    all: Seq<LockView>,
    t: TargetView,
    d: DepView,
)
    ensures
        index_deps(true, v, dep_refs, all, t).contains(d) <==> exists|k: int|
            0 <= k < v.deps.len() && (#[trigger] v.deps[k]).kind == Some(DependencyKind::Build) && index_entry_yields(
                v.deps[k],
                d,
                dep_refs,
                all,
                t,
            ),
        index_deps(false, v, dep_refs, all, t).contains(d) <==> exists|k: int|
            0 <= k < v.deps.len() && ((#[trigger] v.deps[k]).kind is None || v.deps[k].kind == Some(
                DependencyKind::Normal,
            )) && index_entry_yields(v.deps[k], d, dep_refs, all, t),
{
    let f = index_dep_at(true, dep_refs, all, t);
    let g = index_dep_at(false, dep_refs, all, t);
    lemma_sorted_members(v.deps.filter_map(f), d);
    lemma_sorted_members(v.deps.filter_map(g), d);
    if v.deps.filter_map(f).contains(d) {
        lists::lemma_gathered_from(v.deps, f, d);
        let k = choose|k: int| 0 <= k < v.deps.len() && f(#[trigger] v.deps[k]) == Some(d);
        assert(v.deps[k].kind == Some(DependencyKind::Build) && index_entry_yields(v.deps[k], d, dep_refs, all, t));
    }
    if v.deps.filter_map(g).contains(d) {
        lists::lemma_gathered_from(v.deps, g, d);
        let k = choose|k: int| 0 <= k < v.deps.len() && g(#[trigger] v.deps[k]) == Some(d);
        assert(v.deps[k].kind is None || v.deps[k].kind == Some(DependencyKind::Normal));
        assert(index_entry_yields(v.deps[k], d, dep_refs, all, t));
    }
    assert forall|k: int| 0 <= k < v.deps.len() && index_entry_yields(#[trigger] v.deps[k], d, dep_refs, all, t)
        && v.deps[k].kind != Some(DependencyKind::Dev) implies index_dep(v.deps[k], dep_refs, all, t) == Some(d) by {}
    if exists|k: int|
        0 <= k < v.deps.len() && (#[trigger] v.deps[k]).kind == Some(DependencyKind::Build) && index_entry_yields(
            v.deps[k],
            d,
            dep_refs,
            all,
            t,
        ) {
        let k = choose|k: int|
            0 <= k < v.deps.len() && (#[trigger] v.deps[k]).kind == Some(DependencyKind::Build) && index_entry_yields(
                v.deps[k],
                d,
                dep_refs,
                all,
                t,
            );
        lists::lemma_filter_map_has(v.deps, f, k, d);
    }
    if exists|k: int|
        0 <= k < v.deps.len() && ((#[trigger] v.deps[k]).kind is None || v.deps[k].kind == Some(
            DependencyKind::Normal,
        )) && index_entry_yields(v.deps[k], d, dep_refs, all, t) {
        let k = choose|k: int|
            0 <= k < v.deps.len() && ((#[trigger] v.deps[k]).kind is None || v.deps[k].kind == Some(
                DependencyKind::Normal,
            )) && index_entry_yields(v.deps[k], d, dep_refs, all, t);
        lists::lemma_filter_map_has(v.deps, g, k, d);
    }
}

/// Edges of a crate of a registry are in the order of the packages they lead to.
pub proof fn lemma_index_edges_in_order(
    build: bool,
    v: IndexVersionView,
    dep_refs: Seq<Seq<char>>,
    all: Seq<LockView>,
    t: TargetView,
    i: int,
    j: int,
)
    requires
        0 <= i < j < index_deps(build, v, dep_refs, all, t).len(),
    ensures
        !sorted::before(
            index_deps(build, v, dep_refs, all, t)[j].package_id,
            index_deps(build, v, dep_refs, all, t)[i].package_id,
        ),
{
    sorted::lemma_sorted_by_key::<DepInfo>(v.deps.filter_map(index_dep_at(build, dep_refs, all, t)));
    let r = index_deps(build, v, dep_refs, all, t);
    assert(sorted::keys_in_order::<DepInfo>(r));
}

/// Whether a declaration of a manifest stands for the edge `d`.
pub open spec fn declaration_yields(
    e: ManifestDepView,
    d: DepView,
    dep_refs: Seq<Seq<char>>,
    all: Seq<LockView>,
    t: TargetView,
) -> bool {
    let req = match e.version_req {
        Some(r) => if version::requirement_parses(r) {
            r
        } else {
            "*"@
        },
        None => "*"@,
    };
    &&& cfg_eval::applies_to(e.target, t)
    &&& match e.package {
        Some(p) => d.name == p,
        None => d.name == e.name,
    }
    &&& match locked_for(d.name, req, dep_refs, all) {
        Some(l) => d.package_id == short_of(all, l.name, l.version),
        None => false,
    }
    &&& d.rename == if e.name == d.name {
        None::<Seq<char>>
    } else {
        Some(e.name)
    }
    &&& d.uses_default_features == e.default_features
    &&& d.features == e.features
    &&& d.optional == e.optional
}

/// A list of declarations has an edge exactly if one of them stands for it.
pub proof fn lemma_declared_edges(
    deps: Seq<ManifestDepView>,
    dep_refs: Seq<Seq<char>>,
    all: Seq<LockView>,
    t: TargetView,
    d: DepView,
)
    ensures
        member_deps(deps, dep_refs, all, t).contains(d) <==> exists|k: int|
            0 <= k < deps.len() && declaration_yields(#[trigger] deps[k], d, dep_refs, all, t),
{
    let f = member_dep_at(dep_refs, all, t);
    if member_deps(deps, dep_refs, all, t).contains(d) {
        lists::lemma_gathered_from(deps, f, d);
        let k = choose|k: int| 0 <= k < deps.len() && f(#[trigger] deps[k]) == Some(d);
        assert(declaration_yields(deps[k], d, dep_refs, all, t));
    }
    if exists|k: int| 0 <= k < deps.len() && declaration_yields(#[trigger] deps[k], d, dep_refs, all, t) {
        let k = choose|k: int| 0 <= k < deps.len() && declaration_yields(#[trigger] deps[k], d, dep_refs, all, t);
        assert(member_dep(deps[k], dep_refs, all, t) == Some(d));
        lists::lemma_filter_map_has(deps, f, k, d);
    }
}

/// A declaration for another target changes nothing, wherever it stands in the list.
pub proof fn lemma_other_targets_do_not_count(
    deps: Seq<ManifestDepView>,
    dep_refs: Seq<Seq<char>>,
    all: Seq<LockView>,
    t: TargetView,
    e: ManifestDepView,
)
    requires
        !cfg_eval::applies_to(e.target, t),
    ensures
        member_deps(deps.push(e), dep_refs, all, t) == member_deps(deps, dep_refs, all, t),
{
    assert(deps.push(e).drop_last() =~= deps);
}

/// A reference by name alone means a package of that name, and one by name and version a package of that
/// name and that version; each finds one exactly if there is one.
pub proof fn lemma_references(name: Seq<char>, version: Seq<char>, all: Seq<LockView>)
    requires
        !name.contains(' '),
    ensures
        match referenced(name, name, all) {
            Some(p) => p.name == name && all.contains(p),
            None => forall|k: int| 0 <= k < all.len() ==> (#[trigger] all[k]).name != name,
        },
        match referenced(name + " "@ + version, name, all) {
            Some(p) => p.name == name && p.version == version && all.contains(p),
            None => forall|k: int|
                0 <= k < all.len() ==> !((#[trigger] all[k]).name == name && all[k].version == version),
        },
{
    reveal_strlit(" ");
    text::lemma_cut_first_none(name, ' ');
    text::lemma_cut_first_at(name, ' ', version);
    assert(name + " "@ + version =~= name.push(' ') + version);
    lists::lemma_first_with(all, is_named(name));
    lists::lemma_first_with(all, is_named_version(name, version));
}

/// A reference to a package of another name is none to this one.
pub proof fn lemma_references_by_name(dep_ref: Seq<char>, name: Seq<char>, all: Seq<LockView>)
    ensures
        referenced(dep_ref, name, all) is Some ==> dep_ref == name || (exists|v: Seq<char>|
            dep_ref == #[trigger] (name.push(' ') + v)),
{
    text::lemma_cut_first_joins(dep_ref, ' ');
    if let Some((n, v)) = text::cut_first(dep_ref, ' ') {
        if n == name {
            assert(dep_ref == name.push(' ') + v);
        }
    }
}

/// The package for a dependency is the first one referenced that meets the requirement: with such a
/// reference before which no other is met, it is the one that this reference means.
pub proof fn lemma_first_reference_wins(
    name: Seq<char>,
    req: Seq<char>,
    dep_refs: Seq<Seq<char>>,
    all: Seq<LockView>,
    k: int,
    p: LockView,
    v: VersionView,
)
    requires
        0 <= k < dep_refs.len(),
        referenced(dep_refs[k], name, all) == Some(p),
        version::version_parsed(p.version) == Some(v),
        version::requirement_allows(req, v) || version::requirement_allows(
            req,
            (VersionView { pre: Seq::empty(), build: Seq::empty(), ..v }),
        ),
        forall|j: int|
            0 <= j < k ==> match referenced(#[trigger] dep_refs[j], name, all) {
                Some(q) => match version::version_parsed(q.version) {
                    Some(w) => !version::requirement_allows(req, w) && !version::requirement_allows(
                        req,
                        (VersionView { pre: Seq::empty(), build: Seq::empty(), ..w }),
                    ),
                    None => true,
                },
                None => true,
            },
    ensures
        locked_for(name, req, dep_refs, all) == Some(p),
{
    let f = referenced_at(name, all);
    let before = dep_refs.take(k).filter_map(f);
    let rest = dep_refs.skip(k);
    lists::lemma_filter_map_split(dep_refs, f, k);
    lists::lemma_filter_map_split(rest, f, 1);
    assert(rest.take(1).drop_last() =~= Seq::empty());
    assert(rest.take(1).last() == dep_refs[k]);
    assert(rest.take(1).drop_last().filter_map(f) =~= Seq::empty());
    assert(f(rest.take(1).last()) == Some(p));
    assert(rest.take(1).filter_map(f) =~= seq![p]);
    let tail = rest.skip(1).filter_map(f);
    assert(dep_refs.filter_map(f) =~= before + (seq![p] + tail));
    assert forall|i: int| 0 <= i < before.len() implies !meets(req)(#[trigger] before[i]) by {
        assert(before.contains(before[i]));
        lists::lemma_gathered_from(dep_refs.take(k), f, before[i]);
        let j = choose|j: int|
            0 <= j < dep_refs.take(k).len() && f(#[trigger] dep_refs.take(k)[j]) == Some(before[i]);
        assert(dep_refs.take(k)[j] == dep_refs[j]);
        assert(referenced(dep_refs[j], name, all) == Some(before[i]));
    }
    lists::lemma_first_with_is(before, meets(req), before.len() as int);
    lists::lemma_first_with_prefix(before, seq![p] + tail, meets(req));
    lists::lemma_first_with_is(seq![p] + tail, meets(req), 0);
}

/// Without a package whose version can be read and meets the requirement, only one whose version cannot
/// be read is taken; with neither there is no package for the dependency.
pub proof fn lemma_nothing_met(name: Seq<char>, req: Seq<char>, dep_refs: Seq<Seq<char>>, all: Seq<LockView>)
    requires
        forall|j: int|
            0 <= j < dep_refs.len() ==> match referenced(#[trigger] dep_refs[j], name, all) {
                Some(q) => match version::version_parsed(q.version) {
                    Some(w) => !version::requirement_allows(req, w) && !version::requirement_allows(
                        req,
                        (VersionView { pre: Seq::empty(), build: Seq::empty(), ..w }),
                    ),
                    None => true,
                },
                None => true,
            },
    ensures
        match locked_for(name, req, dep_refs, all) {
            Some(p) => version::version_parsed(p.version) is None && exists|j: int|
                0 <= j < dep_refs.len() && referenced(#[trigger] dep_refs[j], name, all) == Some(p),
            None => forall|j: int|
                0 <= j < dep_refs.len() ==> match referenced(#[trigger] dep_refs[j], name, all) {
                    Some(q) => version::version_parsed(q.version) is Some,
                    None => true,
                },
        },
{
    let f = referenced_at(name, all);
    let candidates = dep_refs.filter_map(f);
    assert forall|i: int| 0 <= i < candidates.len() implies !meets(req)(#[trigger] candidates[i]) by {
        assert(candidates.contains(candidates[i]));
        lists::lemma_gathered_from(dep_refs, f, candidates[i]);
        let j = choose|j: int| 0 <= j < dep_refs.len() && f(#[trigger] dep_refs[j]) == Some(candidates[i]);
        assert(referenced(dep_refs[j], name, all) == Some(candidates[i]));
    }
    lists::lemma_first_with_is(candidates, meets(req), candidates.len() as int);
    lists::lemma_first_with(candidates, unreadable());
    match locked_for(name, req, dep_refs, all) {
        Some(p) => {
            lists::lemma_gathered_from(dep_refs, f, p);
            let j = choose|j: int| 0 <= j < dep_refs.len() && f(#[trigger] dep_refs[j]) == Some(p);
            assert(referenced(dep_refs[j], name, all) == Some(p));
        },
        None => {
            assert forall|j: int| 0 <= j < dep_refs.len() implies match referenced(#[trigger] dep_refs[j], name, all) {
                Some(q) => version::version_parsed(q.version) is Some,
                None => true,
            } by {
                if let Some(q) = referenced(dep_refs[j], name, all) {
                    lists::lemma_filter_map_has(dep_refs, f, j, q);
                    let i = choose|i: int| 0 <= i < candidates.len() && candidates[i] == q;
                    assert(!unreadable()(candidates[i]));
                }
            }
        },
    }
}

proof fn lemma_counted(packages: Seq<LockView>, name: Seq<char>)
    ensures
        name_count(packages, name) == 0 <==> forall|i: int| 0 <= i < packages.len() ==> (#[trigger] packages[i]).name != name,
        forall|i: int, j: int|
            0 <= i < j < packages.len() && (#[trigger] packages[i]).name == name && (#[trigger] packages[j]).name == name
                ==> name_count(packages, name) > 1,
        name_count(packages, name) > 1 ==> exists|i: int, j: int|
            0 <= i < j < packages.len() && (#[trigger] packages[i]).name == name && (#[trigger] packages[j]).name == name,
    decreases packages.len(),
{
    if packages.len() > 0 {
        let t = packages.drop_last();
        lemma_counted(t, name);
        assert forall|i: int| 0 <= i < t.len() implies t[i] == #[trigger] packages[i] by {}
        if packages.last().name == name {
            assert(packages[packages.len() - 1].name == name);
            if name_count(t, name) > 0 {
                let i = choose|i: int| 0 <= i < t.len() && (#[trigger] t[i]).name == name;
                assert(packages[i].name == name);
            }
        } else {
            if name_count(t, name) == 0 {
                assert forall|i: int| 0 <= i < packages.len() implies (#[trigger] packages[i]).name != name by {
                    if i < t.len() {
                        assert(t[i].name != name);
                    }
                }
            } else {
                let i = choose|i: int| 0 <= i < t.len() && (#[trigger] t[i]).name == name;
                assert(packages[i].name == name);
            }
            if name_count(t, name) > 1 {
                let (i, j) = choose|i: int, j: int|
                    0 <= i < j < t.len() && (#[trigger] t[i]).name == name && (#[trigger] t[j]).name == name;
                assert(packages[i].name == name && packages[j].name == name);
            }
        }
        assert forall|i: int, j: int|
            0 <= i < j < packages.len() && (#[trigger] packages[i]).name == name && (#[trigger] packages[j]).name
                == name implies name_count(packages, name) > 1 by {
            assert(t[i].name == name);
            if j < t.len() {
                assert(t[j].name == name);
            }
        }
    }
}

/// A package that is alone with its name has the name as its short ID; one of several has its version
/// behind it.
pub proof fn lemma_short_ids(packages: Seq<LockView>, i: int)
    requires
        0 <= i < packages.len(),
    ensures
        ({
            let p = packages[i];
            let id = short_of(packages, p.name, p.version);
            if exists|j: int| 0 <= j < packages.len() && j != i && (#[trigger] packages[j]).name == p.name {
                id == p.name + " "@ + p.version
            } else {
                id == p.name
            }
        }),
{
    let p = packages[i];
    lemma_counted(packages, p.name);
    if exists|j: int| 0 <= j < packages.len() && j != i && (#[trigger] packages[j]).name == p.name {
        let j = choose|j: int| 0 <= j < packages.len() && j != i && (#[trigger] packages[j]).name == p.name;
        assert(packages[i].name == p.name);
        if i < j {
            assert(name_count(packages, p.name) > 1);
        } else {
            assert(name_count(packages, p.name) > 1);
        }
    } else if name_count(packages, p.name) > 1 {
        let (a, b) = choose|a: int, b: int|
            0 <= a < b < packages.len() && (#[trigger] packages[a]).name == p.name && (#[trigger] packages[b]).name
                == p.name;
        assert(a == i || b == i);
    }
}

/// What the source of a locked package means: crates.io by whatever scheme, another registry as it
/// stands, a git repository by its URL without the query and by the revision behind the last `#`, and
/// nothing for anything else.
pub proof fn lemma_sources(url: Seq<char>, query: Seq<char>, rev: Seq<char>, s: Seq<char>)
    requires
        !url.contains('?'),
        !rev.contains('#'),
    ensures
        source_of(None) is None,
        text::has_part(s, "github.com/rust-lang/crates.io-index"@) ==> source_of(Some(s)) == Some(SourceView::CratesIo),
        !text::has_part("git+"@ + url + "?"@ + query + "#"@ + rev, "github.com/rust-lang/crates.io-index"@) ==> source_of(
            Some("git+"@ + url + "?"@ + query + "#"@ + rev),
        ) == Some(SourceView::Git { url, rev, sub_path: None }),
        !text::has_part("git+"@ + url + "#"@ + rev, "github.com/rust-lang/crates.io-index"@) ==> source_of(
            Some("git+"@ + url + "#"@ + rev),
        ) == Some(SourceView::Git { url, rev, sub_path: None }),
        !text::has_part("sparse+"@ + s, "github.com/rust-lang/crates.io-index"@) ==> source_of(Some("sparse+"@ + s))
            == Some(SourceView::Registry { index: "sparse+"@ + s }),
        !text::has_part("registry+"@ + s, "github.com/rust-lang/crates.io-index"@) ==> source_of(
            Some("registry+"@ + s),
        ) == Some(SourceView::Registry { index: "registry+"@ + s }),
        source_of(Some(s)) is Some ==> text::has_part(s, "github.com/rust-lang/crates.io-index"@) || text::has_prefix(
            s,
            "git+"@,
        ) || text::has_prefix(s, "sparse+"@) || text::has_prefix(s, "registry+"@),
{
    reveal_strlit("git+");
    reveal_strlit("sparse+");
    reveal_strlit("registry+");
    reveal_strlit("?");
    reveal_strlit("#");
    let a = "git+"@ + url + "?"@ + query + "#"@ + rev;
    let b = "git+"@ + url + "#"@ + rev;
    text::lemma_after_prefix("git+"@, url + "?"@ + query + "#"@ + rev);
    assert(a =~= "git+"@ + (url + "?"@ + query + "#"@ + rev));
    text::lemma_after_prefix("git+"@, url + "#"@ + rev);
    assert(b =~= "git+"@ + (url + "#"@ + rev));
    text::lemma_cut_last_at(url + "?"@ + query, '#', rev);
    assert(url + "?"@ + query + "#"@ + rev =~= (url + "?"@ + query).push('#') + rev);
    text::lemma_cut_last_at(url, '#', rev);
    assert(url + "#"@ + rev =~= url.push('#') + rev);
    text::lemma_before_first_at(url, '?', query);
    assert(url + "?"@ + query =~= url.push('?') + query);
    text::lemma_before_first_none(url, '?');
    text::lemma_after_prefix("sparse+"@, s);
    text::lemma_after_prefix("registry+"@, s);
    assert(("sparse+"@ + s)[0] == 's' && "git+"@[0] == 'g');
    assert(("registry+"@ + s)[0] == 'r');
    assert(!text::has_prefix("sparse+"@ + s, "git+"@)) by {
        if text::has_prefix("sparse+"@ + s, "git+"@) {
            assert(("sparse+"@ + s).take(4)[0] == 's');
        }
    }
    assert(!text::has_prefix("registry+"@ + s, "git+"@)) by {
        if text::has_prefix("registry+"@ + s, "git+"@) {
            assert(("registry+"@ + s).take(4)[0] == 'r');
        }
    }
}

/// The entries to fetch are those of the packages that belong to no member and to some registry, each
/// under its own name and version and in the index of its registry.
pub proof fn lemma_jobs(packages: Seq<LockView>, members: Seq<MemberView>, crates_io_index: Seq<char>, j: JobView)
    ensures
        packages.filter_map(job_at(members, crates_io_index)).contains(j) <==> exists|k: int|
            0 <= k < packages.len() && (#[trigger] packages[k]).name == j.name && packages[k].version == j.version
                && registry::index_url_for(packages[k].source, crates_io_index) == Some(j.url) && forall|m: int|
                0 <= m < members.len() ==> (#[trigger] members[m]).name != j.name,
{
    let f = job_at(members, crates_io_index);
    lists::lemma_first_with(members, is_member(j.name));
    if packages.filter_map(f).contains(j) {
        lists::lemma_gathered_from(packages, f, j);
        let k = choose|k: int| 0 <= k < packages.len() && f(#[trigger] packages[k]) == Some(j);
        assert(packages[k].name == j.name);
    }
    if exists|k: int|
        0 <= k < packages.len() && (#[trigger] packages[k]).name == j.name && packages[k].version == j.version
            && registry::index_url_for(packages[k].source, crates_io_index) == Some(j.url) && forall|m: int|
            0 <= m < members.len() ==> (#[trigger] members[m]).name != j.name {
        let k = choose|k: int|
            0 <= k < packages.len() && (#[trigger] packages[k]).name == j.name && packages[k].version == j.version
                && registry::index_url_for(packages[k].source, crates_io_index) == Some(j.url) && forall|m: int|
                0 <= m < members.len() ==> (#[trigger] members[m]).name != j.name;
        assert forall|m: int| 0 <= m < members.len() implies !is_member(j.name)(#[trigger] members[m]) by {}
        lists::lemma_first_with_is(members, is_member(j.name), members.len() as int);
        assert(f(packages[k]) == Some(j));
        lists::lemma_filter_map_has(packages, f, k, j);
    }
}

/// What is looked up is what was fetched for that index, that name and that version; without such an
/// entry, and with one that failed, it is an error.
pub proof fn lemma_looked_up(
    lookups: Seq<(JobView, LookupView)>,
    url: Seq<char>,
    name: Seq<char>,
    version: Seq<char>,
)
    ensures
        match looked_up(lookups, url, name, version) {
            Ok(v) => exists|k: int|
                0 <= k < lookups.len() && #[trigger] lookups[k] == (JobView { url, name, version }, LookupView::Found(v)),
            Err(e) => (exists|k: int|
                0 <= k < lookups.len() && #[trigger] lookups[k] == (JobView { url, name, version }, LookupView::Failed(e)))
                || forall|k: int| 0 <= k < lookups.len() ==> (#[trigger] lookups[k]).0 != (JobView { url, name, version }),
        },
{
    let p = is_lookup_of(url, name, version);
    lists::lemma_first_with(lookups, p);
    match lists::first_with(lookups, p) {
        Some(e) => {
            let k = choose|k: int| 0 <= k < lookups.len() && lookups[k] == e;
            assert(lookups[k] == (JobView { url, name, version }, e.1));
        },
        None => {
            assert forall|k: int| 0 <= k < lookups.len() implies (#[trigger] lookups[k]).0 != (JobView { url, name, version }) by {
                assert(!p(lookups[k]));
            }
        },
    }
}

/// A `[[package]]` entry says what it says under the names that lock files use, and an entry of any other
/// form is none.
pub proof fn lemma_lock_package(p: Toml)
    ensures
        match lock_package_in(p) {
            Some(l) => {
                &&& toml_tree::field(p, "name"@) == Some(Toml::Text(l.name))
                &&& toml_tree::field(p, "version"@) == Some(Toml::Text(l.version))
                &&& match toml_tree::field(p, "source"@) {
                    Some(s) => l.source is Some && s == Toml::Text(l.source->0),
                    None => l.source is None,
                }
                &&& match toml_tree::field(p, "dependencies"@) {
                    Some(a) => match a {
                        Toml::Array(items) => items.len() == l.dependencies.len() && forall|i: int|
                            0 <= i < items.len() ==> #[trigger] items[i] == Toml::Text(l.dependencies[i]),
                        _ => false,
                    },
                    None => l.dependencies.len() == 0,
                }
            },
            None => {
                ||| !(toml_tree::field(p, "name"@) matches Some(Toml::Text(_)))
                ||| !(toml_tree::field(p, "version"@) matches Some(Toml::Text(_)))
                ||| toml_tree::field(p, "source"@) matches Some(s) && !(s is Text)
                ||| toml_tree::field(p, "dependencies"@) matches Some(a) && (!(a is Array) || exists|i: int|
                    0 <= i < a->Array_0.len() && !((#[trigger] a->Array_0[i]) is Text))
            },
        },
{
    if let Some(Toml::Array(a)) = toml_tree::field(p, "dependencies"@) {
        lists::lemma_all_of(a, toml_tree::text_at());
        match lists::all_of(a, toml_tree::text_at()) {
            Some(v) => {
                assert forall|i: int| 0 <= i < a.len() implies #[trigger] a[i] == Toml::Text(v[i]) by {
                    assert(toml_tree::text_at()(a[i]) == Some(v[i]));
                }
            },
            None => {
                let i = choose|i: int| 0 <= i < a.len() && toml_tree::text_at()(#[trigger] a[i]) is None;
                assert(!(a[i] is Text));
            },
        }
    }
}

/// A lock file is read package by package, in order; and what is no TOML, has no list of packages, or has an
/// entry that is none, is refused with words that say so.
pub proof fn lemma_locked(text: Seq<char>, t: Toml, a: Seq<Toml>, e: Seq<char>)
    ensures
        toml_tree::toml_parsed(text) == Err::<Toml, Seq<char>>(e) ==> locked(text) == Err::<Seq<LockView>, Seq<char>>(
            "Failed to parse Cargo.lock: "@ + e,
        ),
        toml_tree::toml_parsed(text) == Ok::<Toml, Seq<char>>(t) && toml_tree::field(t, "package"@) is None ==> locked(text)
            == Err::<Seq<LockView>, Seq<char>>("Failed to parse Cargo.lock: missing field `package`"@),
        toml_tree::toml_parsed(text) == Ok::<Toml, Seq<char>>(t) && toml_tree::field(t, "package"@) == Some(Toml::Array(a))
            ==> match locked(text) {
            Ok(s) => s.len() == a.len() && forall|i: int|
                0 <= i < a.len() ==> lock_package_at()(#[trigger] a[i]) == Some(s[i]),
            Err(w) => w == "Failed to parse Cargo.lock: malformed package entry"@ && exists|i: int|
                0 <= i < a.len() && lock_package_at()(#[trigger] a[i]) is None,
        },
{
    lists::lemma_all_of(a, lock_package_at());
}

/// A requirement that is one is taken as it is, and anything else as one that any version meets.
pub proof fn lemma_requirement(r: Seq<char>)
    ensures
        version::requirement_parses(r) ==> req_or_star(Some(r)) == r,
        !version::requirement_parses(r) ==> req_or_star(Some(r)) == "*"@,
        req_or_star(None) == "*"@,
{
}

/// Without a lookup of that index, name and version there is no entry.
pub proof fn lemma_not_looked_up(url: Seq<char>, name: Seq<char>, version: Seq<char>)
    ensures
        looked_up(Seq::empty(), url, name, version) == Err::<IndexVersionView, Seq<char>>("no entry was looked up"@),
{
}

} // verus!
