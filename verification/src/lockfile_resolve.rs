//! Resolution of a workspace from its `Cargo.lock`, its manifests and the registry index, without
//! `cargo metadata`.
//!
//! What only a crate's own manifest tells (edition, library path, and so on) is left open for crates
//! of a registry: the build finds it out.

use crate::cfg_eval::{TargetDescription, TargetView};
use crate::disk::{Disk, DiskView};
use crate::feature_resolve;
use crate::feature_resolve::{
    DepFeatureInfo, DepFeatureView, FactView, PackageFeatureInfo, PackageFeatureView, RuleView,
};
use crate::lists;
use crate::lock_packages;
use crate::lock_packages::{LockPackage, LockView, Lookup, LookupView, ShortId};
use crate::lockfile;
use crate::lockfile::{HashView, LockfileHashes};
use crate::manifest;
use crate::manifest::{GitCheckout, ManifestDepView, MemberView, WorkspaceMember};
use crate::registry;
use crate::registry::{DependencyKind, IndexDepView, IndexVersion, IndexVersionView, JobView, PrefetchJob};
use crate::resolve;
use crate::resolve::{CrateInfo, CrateView, DepInfo, DepView, SourceInfo, SourceView, WorkspaceResult};
use crate::sorted;
use crate::sorted::StrMap;
use crate::text;
use vstd::prelude::*;

verus! {

// ---------------------------------------------------------------------------
// One crate
// ---------------------------------------------------------------------------

/// What crates are resolved against.
pub struct Context {
    pub workspace_root: Seq<char>,
    pub packages: Seq<LockView>,
    pub hashes: Seq<HashView>,
    pub members: Seq<MemberView>,
    pub crates_io_index: Seq<char>,
    pub target: TargetView,
    pub git_sources: Seq<(Seq<char>, Seq<char>)>,
    pub disk: DiskView,
    pub lookups: Seq<(JobView, LookupView)>,
}

/// The crate of a workspace member.
pub open spec fn member_crate(p: LockView, m: MemberView, c: Context) -> CrateView {
    CrateView {
        crate_name: m.name,
        version: m.version,
        edition: m.edition,
        sha256: None,
        source: Some(SourceView::Local { path: resolve::local_path(m.manifest_dir, c.workspace_root) }),
        dependencies: lock_packages::member_deps(m.dependencies, p.dependencies, c.packages, c.target),
        build_dependencies: lock_packages::member_deps(m.build_dependencies, p.dependencies, c.packages, c.target),
        dev_dependencies: lock_packages::member_deps(m.dev_dependencies, p.dependencies, c.packages, c.target),
        features: m.features,
        resolved_default_features: Seq::empty(),
        proc_macro: m.proc_macro,
        build: m.build_script,
        lib_path: m.lib_path,
        lib_name: m.lib_name,
        crate_bin: m.bin_targets,
        lib_crate_types: m.lib_crate_types,
        links: m.links,
        authors: m.authors,
    }
}

/// A crate that is not part of the workspace. What the build finds out is left open.
pub open spec fn external_crate(
    p: LockView,
    sha256: Option<Seq<char>>,
    source: Option<SourceView>,
    dependencies: Seq<DepView>,
    build_dependencies: Seq<DepView>,
    features: Seq<(Seq<char>, Seq<Seq<char>>)>,
    links: Option<Seq<char>>,
) -> CrateView {
    CrateView {
        crate_name: p.name,
        version: p.version,
        edition: Seq::empty(),
        sha256,
        source,
        dependencies,
        build_dependencies,
        dev_dependencies: Seq::empty(),
        features,
        resolved_default_features: Seq::empty(),
        proc_macro: false,
        build: None,
        lib_path: None,
        lib_name: None,
        crate_bin: Seq::empty(),
        lib_crate_types: Seq::empty(),
        links,
        authors: Seq::empty(),
    }
}

/// The directory of a crate below the root of its checkout; none if it is the root itself.
pub open spec fn sub_path_of(manifest_dir: Seq<char>, checkout: Seq<char>) -> Option<Seq<char>> {
    match text::after_prefix(manifest_dir, checkout) {
        Some(s) => {
            let t = text::from_first(s, text::is_not('/'));
            if t.len() == 0 {
                None
            } else {
                Some(t)
            }
        },
        None => None,
    }
}

/// The error for a git source without a checkout.
pub open spec fn checkout_missing(p: LockView, key: Seq<char>) -> Seq<char> {
    "git source for "@ + p.name + " "@ + p.version + " not provided: expected gitSources.\""@ + key
        + "\" to point at a checkout (lib/default.nix should derive this automatically from Cargo.lock)"@
}

/// The crate of a git source, from the manifest in its checkout.
pub open spec fn git_crate(p: LockView, url: Seq<char>, rev: Seq<char>, sha256: Option<Seq<char>>, c: Context) -> Result<
    CrateView,
    Seq<char>,
> {
    let key = url + "#"@ + rev;
    match sorted::entry_of(c.git_sources, key) {
        None => Err(checkout_missing(p, key)),
        Some(path) => match manifest::checkout_at(path, c.disk) {
            Err(e) => Err(e),
            Ok(found) => match sorted::entry_of(found, p.name) {
                None => Err("package "@ + p.name + " not found in git checkout "@ + path + " ("@ + key + ")"@),
                Some(m) => Ok(
                    external_crate(
                        p,
                        sha256,
                        Some(SourceView::Git { url, rev, sub_path: sub_path_of(m.manifest_dir, path) }),
                        lock_packages::member_deps(m.dependencies, p.dependencies, c.packages, c.target),
                        lock_packages::member_deps(m.build_dependencies, p.dependencies, c.packages, c.target),
                        m.features,
                        m.links,
                    ),
                ),
            },
        },
    }
}

/// The crate of a locked package that is no workspace member: from the index if it comes from a
/// registry, from its checkout if it comes from git. An index entry that cannot be had is an error,
/// never an empty list of dependencies.
pub open spec fn outside_crate(p: LockView, c: Context) -> Result<CrateView, Seq<char>> {
    let source = lock_packages::source_of(p.source);
    let sha256 = lockfile::hash_for(c.hashes, p.name, p.version);
    match registry::index_url_for(p.source, c.crates_io_index) {
        Some(url) => match lock_packages::looked_up(c.lookups, url, p.name, p.version) {
            Err(e) => Err(
                "failed to look up "@ + p.name + " "@ + p.version + " in index '"@ + url + "': "@ + e,
            ),
            Ok(v) => Ok(
                external_crate(
                    p,
                    sha256,
                    source,
                    lock_packages::index_deps(false, v, p.dependencies, c.packages, c.target),
                    lock_packages::index_deps(true, v, p.dependencies, c.packages, c.target),
                    registry::index_features(v),
                    v.links,
                ),
            ),
        },
        None => match source {
            Some(SourceView::Git { url, rev, sub_path }) => git_crate(p, url, rev, sha256, c),
            _ => Ok(external_crate(p, sha256, source, Seq::empty(), Seq::empty(), Seq::empty(), None)),
        },
    }
}

pub open spec fn manifest_optional_at() -> spec_fn(ManifestDepView) -> Option<Seq<char>> {
    |d: ManifestDepView|
        if d.optional {
            Some(d.name)
        } else {
            None
        }
}

/// The names of the optional dependencies that a manifest declares, for whatever target.
pub open spec fn manifest_optional(m: MemberView) -> Seq<Seq<char>> {
    (m.dependencies + m.build_dependencies).filter_map(manifest_optional_at())
}

pub open spec fn index_optional_at() -> spec_fn(IndexDepView) -> Option<Seq<char>> {
    |d: IndexDepView|
        if d.optional {
            Some(d.name)
        } else {
            None
        }
}

/// The names of the optional dependencies of a version in the index, for whatever target.
pub open spec fn index_optional(v: IndexVersionView) -> Seq<Seq<char>> {
    v.deps.filter_map(index_optional_at())
}

/// The names of the optional dependencies of a crate that comes from git.
pub open spec fn git_optional(p: LockView, url: Seq<char>, rev: Seq<char>, c: Context) -> Seq<Seq<char>> {
    match sorted::entry_of(c.git_sources, url + "#"@ + rev) {
        None => Seq::empty(),
        Some(path) => match manifest::checkout_at(path, c.disk) {
            Err(_) => Seq::empty(),
            Ok(found) => match sorted::entry_of(found, p.name) {
                None => Seq::empty(),
                Some(m) => manifest_optional(m),
            },
        },
    }
}

/// The names of the optional dependencies of a locked package that is no workspace member.
pub open spec fn outside_optional(p: LockView, c: Context) -> Seq<Seq<char>> {
    match registry::index_url_for(p.source, c.crates_io_index) {
        Some(url) => match lock_packages::looked_up(c.lookups, url, p.name, p.version) {
            Err(_) => Seq::empty(),
            Ok(v) => index_optional(v),
        },
        None => match lock_packages::source_of(p.source) {
            Some(SourceView::Git { url, rev, sub_path }) => git_optional(p, url, rev, c),
            _ => Seq::empty(),
        },
    }
}

/// What the packages so far resolve to: the crates by short ID, the IDs of the members by name, and by
/// short ID the names of the optional dependencies, those for other targets among them.
pub struct Partial {
    pub crates: Seq<(Seq<char>, CrateView)>,
    pub members: Seq<(Seq<char>, Seq<char>)>,
    pub optional: Seq<(Seq<char>, Seq<Seq<char>>)>,
}

/// What no package at all resolves to.
pub open spec fn nothing_yet() -> Partial {
    Partial { crates: Seq::empty(), members: Seq::empty(), optional: Seq::empty() }
}

/// One more package.
pub open spec fn package_added(s: Partial, p: LockView, c: Context) -> Result<Partial, Seq<char>> {
    let id = lock_packages::short_of(c.packages, p.name, p.version);
    match lists::first_with(c.members, lock_packages::is_member(p.name)) {
        Some(m) => Ok(
            Partial {
                crates: sorted::with_entry(s.crates, id, member_crate(p, m, c)),
                members: sorted::with_entry(s.members, m.name, id),
                optional: sorted::with_entry(s.optional, id, manifest_optional(m)),
            },
        ),
        None => match outside_crate(p, c) {
            Err(e) => Err(e),
            Ok(x) => Ok(
                Partial {
                    crates: sorted::with_entry(s.crates, id, x),
                    members: s.members,
                    optional: sorted::with_entry(s.optional, id, outside_optional(p, c)),
                },
            ),
        },
    }
}

pub open spec fn package_adder(c: Context) -> spec_fn(Partial, LockView) -> Result<Partial, Seq<char>> {
    |s: Partial, p: LockView| package_added(s, p, c)
}

/// All locked packages, before their features are resolved.
pub open spec fn packages_resolved(c: Context) -> Result<Partial, Seq<char>> {
    lists::try_fold(c.packages, nothing_yet(), package_adder(c))
}

/// The arguments that stay the same from package to package.
struct Inputs<'a> {
    workspace_root: &'a str,
    packages: &'a Vec<LockPackage>,
    hashes: &'a LockfileHashes,
    members: &'a Vec<WorkspaceMember>,
    crates_io_index: &'a str,
    target: &'a TargetDescription,
    git_sources: &'a Vec<(String, String)>,
    disk: &'a Disk,
    lookups: &'a Vec<(PrefetchJob, Lookup)>,
    short_id: &'a ShortId,
}

impl<'a> Inputs<'a> {
    spec fn context(&self) -> Context {
        Context {
            workspace_root: self.workspace_root@,
            packages: self.packages.deep_view(),
            hashes: self.hashes.deep_view(),
            members: self.members.deep_view(),
            crates_io_index: self.crates_io_index@,
            target: self.target.deep_view(),
            git_sources: self.git_sources.deep_view(),
            disk: self.disk.deep_view(),
            lookups: self.lookups.deep_view(),
        }
    }

    spec fn wf(&self) -> bool {
        self.short_id.is_for(self.packages.deep_view())
    }
}

fn make_member_crate(p: &LockPackage, m: &WorkspaceMember, inp: &Inputs) -> (r: CrateInfo)
    requires
        inp.wf(),
    ensures
        r.deep_view() == member_crate(p.deep_view(), m.deep_view(), inp.context()),
{
    let (dependencies, build_dependencies, dev_dependencies) = lock_packages::resolve_member_deps(
        m,
        &p.dependencies,
        inp.packages,
        inp.short_id,
        inp.target,
    );
    let r = CrateInfo {
        crate_name: m.name.clone(),
        version: m.version.clone(),
        edition: m.edition.clone(),
        sha256: None,
        source: Some(
            SourceInfo::Local { path: resolve::find_local_path(&m.manifest_dir, inp.workspace_root) },
        ),
        dependencies,
        build_dependencies,
        dev_dependencies,
        features: sorted::copy_lists(&m.features),
        resolved_default_features: Vec::new(),
        proc_macro: m.proc_macro,
        build: sorted::copy_opt(&m.build_script),
        lib_path: sorted::copy_opt(&m.lib_path),
        lib_name: sorted::copy_opt(&m.lib_name),
        crate_bin: resolve::copy_bins(&m.bin_targets),
        lib_crate_types: sorted::copy_texts(&m.lib_crate_types),
        links: sorted::copy_opt(&m.links),
        authors: sorted::copy_texts(&m.authors),
    };
    assert(r.deep_view().resolved_default_features =~= Seq::empty());
    r
}

fn make_external_crate(
    p: &LockPackage,
    sha256: Option<String>,
    source: Option<SourceInfo>,
    dependencies: Vec<DepInfo>,
    build_dependencies: Vec<DepInfo>,
    features: StrMap<Vec<String>>,
    links: Option<String>,
) -> (r: CrateInfo)
    ensures
        r.deep_view() == external_crate(
            p.deep_view(),
            sha256.deep_view(),
            source.deep_view(),
            dependencies.deep_view(),
            build_dependencies.deep_view(),
            features.deep_view(),
            links.deep_view(),
        ),
{
    let r = CrateInfo {
        crate_name: p.name.clone(),
        version: p.version.clone(),
        edition: String::new(),
        sha256,
        source,
        dependencies,
        build_dependencies,
        dev_dependencies: Vec::new(),
        features,
        resolved_default_features: Vec::new(),
        proc_macro: false,
        build: None,
        lib_path: None,
        lib_name: None,
        crate_bin: Vec::new(),
        lib_crate_types: Vec::new(),
        links,
        authors: Vec::new(),
    };
    proof {
        assert(r.deep_view().dev_dependencies =~= Seq::empty());
        assert(r.deep_view().resolved_default_features =~= Seq::empty());
        assert(r.deep_view().crate_bin =~= Seq::empty());
        assert(r.deep_view().lib_crate_types =~= Seq::empty());
        assert(r.deep_view().authors =~= Seq::empty());
    }
    r
}

fn find_sub_path(manifest_dir: &str, checkout: &str) -> (r: Option<String>)
    ensures
        r.deep_view() == sub_path_of(manifest_dir@, checkout@),
{
    match text::strip_prefix(manifest_dir, checkout) {
        Some(s) => {
            let t = text::trim_start_matches(s, '/');
            if t.is_empty() {
                None
            } else {
                Some(t.to_owned())
            }
        },
        None => None,
    }
}

/// Checkouts that have been read, so that each is read once.
struct Checkouts {
    read: Vec<(String, GitCheckout)>,
}

impl Checkouts {
    /// Each entry is what reading that checkout gives.
    spec fn wf(&self, d: DiskView) -> bool {
        forall|k: int|
            0 <= k < self.read@.len() ==> manifest::checkout_at((#[trigger] self.read@[k]).0@, d) == Ok::<
                Seq<(Seq<char>, MemberView)>,
                Seq<char>,
            >(self.read@[k].1.deep_view())
    }
}

impl Checkouts {
    /// The place of the checkout at `path`, which is read if it was not yet.
    fn fetch(&mut self, path: &str, disk: &Disk) -> (r: Result<usize, String>)
        requires
            old(self).wf(disk.deep_view()),
        ensures
            final(self).wf(disk.deep_view()),
            match r {
                Ok(k) => k < final(self).read@.len() && manifest::checkout_at(path@, disk.deep_view()) == Ok::<
                    Seq<(Seq<char>, MemberView)>,
                    Seq<char>,
                >(final(self).read@[k as int].1.deep_view()),
                Err(e) => manifest::checkout_at(path@, disk.deep_view()) == Err::<
                    Seq<(Seq<char>, MemberView)>,
                    Seq<char>,
                >(e@),
            },
    {
        for k in 0..self.read.len()
            invariant
                self.wf(disk.deep_view()),
        {
            if text::same(&self.read[k].0, path) {
                return Ok(k);
            }
        }
        match GitCheckout::scan(path, disk) {
            Ok(c) => {
                let k: usize = self.read.len();
                self.read.push((path.to_owned(), c));
                Ok(k)
            },
            Err(e) => Err(e),
        }
    }
}

fn find_git_source<'a>(git_sources: &'a Vec<(String, String)>, key: &str) -> (r: Option<&'a String>)
    ensures
        r.deep_view() == sorted::entry_of(git_sources.deep_view(), key@),
{
    let ghost s = git_sources.deep_view();
    for i in 0..git_sources.len()
        invariant
            s == git_sources.deep_view(),
            forall|j: int| 0 <= j < i ==> (#[trigger] s[j]).0 != key@,
    {
        assert(s[i as int] == git_sources@[i as int].deep_view());
        if text::same(&git_sources[i].0, key) {
            proof {
                sorted::lemma_entry_of_is(s, key@, i as int);
            }
            return Some(&git_sources[i].1);
        }
    }
    proof {
        sorted::lemma_entry_of_is(s, key@, s.len() as int);
    }
    None
}

fn list_manifest_optional(m: &WorkspaceMember) -> (r: Vec<String>)
    ensures
        r.deep_view() == manifest_optional(m.deep_view()),
{
    let ghost s = m.deep_view().dependencies + m.deep_view().build_dependencies;
    let ghost f = manifest_optional_at();
    let mut out: Vec<String> = Vec::new();
    let n: usize = m.dependencies.len();
    assert(out.deep_view() =~= s.take(0).filter_map(f));
    for k in 0..n
        invariant
            n == m.dependencies@.len(),
            s == m.dependencies.deep_view() + m.build_dependencies.deep_view(),
            f == manifest_optional_at(),
            out.deep_view() == s.take(k as int).filter_map(f),
    {
        let d = &m.dependencies[k];
        assert(s.take(k + 1).drop_last() =~= s.take(k as int));
        assert(s.take(k + 1).last() == d.deep_view());
        if d.optional {
            sorted::push_text(&mut out, &d.name);
        }
        assert(out.deep_view() =~= s.take(k + 1).filter_map(f));
    }
    for k in 0..m.build_dependencies.len()
        invariant
            n == m.dependencies@.len(),
            s == m.dependencies.deep_view() + m.build_dependencies.deep_view(),
            f == manifest_optional_at(),
            out.deep_view() == s.take(n + k).filter_map(f),
    {
        let d = &m.build_dependencies[k];
        assert(s.take(n + k + 1).drop_last() =~= s.take(n + k));
        assert(s.take(n + k + 1).last() == d.deep_view());
        if d.optional {
            sorted::push_text(&mut out, &d.name);
        }
        assert(out.deep_view() =~= s.take(n + k + 1).filter_map(f));
    }
    assert(s.take(s.len() as int) =~= s);
    out
}

fn list_index_optional(v: &IndexVersion) -> (r: Vec<String>)
    ensures
        r.deep_view() == index_optional(v.deep_view()),
{
    let ghost s = v.deps.deep_view();
    let ghost f = index_optional_at();
    let mut out: Vec<String> = Vec::new();
    assert(out.deep_view() =~= s.take(0).filter_map(f));
    for k in 0..v.deps.len()
        invariant
            s == v.deps.deep_view(),
            f == index_optional_at(),
            out.deep_view() == s.take(k as int).filter_map(f),
    {
        let d = &v.deps[k];
        assert(s.take(k + 1).drop_last() =~= s.take(k as int));
        assert(s.take(k + 1).last() == d.deep_view());
        if d.optional {
            sorted::push_text(&mut out, &d.name);
        }
        assert(out.deep_view() =~= s.take(k + 1).filter_map(f));
    }
    assert(s.take(s.len() as int) =~= s);
    out
}

fn make_git_crate(
    p: &LockPackage,
    url: &str,
    rev: &str,
    sha256: Option<String>,
    inp: &Inputs,
    checkouts: &mut Checkouts,
) -> (r: Result<(CrateInfo, Vec<String>), String>)
    requires
        inp.wf(),
        old(checkouts).wf(inp.disk.deep_view()),
    ensures
        final(checkouts).wf(inp.disk.deep_view()),
        git_crate(p.deep_view(), url@, rev@, sha256.deep_view(), inp.context()) == match r {
            Ok(c) => Ok::<CrateView, Seq<char>>(c.0.deep_view()),
            Err(e) => Err::<CrateView, Seq<char>>(e@),
        },
        r matches Ok(c) ==> c.1.deep_view() == git_optional(p.deep_view(), url@, rev@, inp.context()),
{
    let key = text::cat3(url, "#", rev);
    let path = match find_git_source(inp.git_sources, &key) {
        Some(path) => path,
        None => {
            let head = text::cat5(
                "git source for ",
                &p.name,
                " ",
                &p.version,
                " not provided: expected gitSources.\"",
            );
            return Err(
                text::cat3(
                    &head,
                    &key,
                    "\" to point at a checkout (lib/default.nix should derive this automatically from Cargo.lock)",
                ),
            );
        },
    };
    let k = match checkouts.fetch(path, inp.disk) {
        Ok(k) => k,
        Err(e) => {
            return Err(e);
        },
    };
    let m = match checkouts.read[k].1.find(&p.name) {
        Some(m) => m,
        None => {
            let head = text::cat5("package ", &p.name, " not found in git checkout ", path, " (");
            return Err(text::cat3(&head, &key, ")"));
        },
    };
    let (deps, build_deps, _) = lock_packages::resolve_member_deps(
        m,
        &p.dependencies,
        inp.packages,
        inp.short_id,
        inp.target,
    );
    let source = SourceInfo::Git {
        url: url.to_owned(),
        rev: rev.to_owned(),
        sub_path: find_sub_path(&m.manifest_dir, path),
    };
    let optional = list_manifest_optional(m);
    Ok(
        (
            make_external_crate(
                p,
                sha256,
                Some(source),
                deps,
                build_deps,
                sorted::copy_lists(&m.features),
                sorted::copy_opt(&m.links),
            ),
            optional,
        ),
    )
}

fn make_outside_crate(p: &LockPackage, inp: &Inputs, checkouts: &mut Checkouts) -> (r: Result<
    (CrateInfo, Vec<String>),
    String,
>)
    requires
        inp.wf(),
        old(checkouts).wf(inp.disk.deep_view()),
    ensures
        final(checkouts).wf(inp.disk.deep_view()),
        outside_crate(p.deep_view(), inp.context()) == match r {
            Ok(c) => Ok::<CrateView, Seq<char>>(c.0.deep_view()),
            Err(e) => Err::<CrateView, Seq<char>>(e@),
        },
        r matches Ok(c) ==> c.1.deep_view() == outside_optional(p.deep_view(), inp.context()),
{
    let source = lock_packages::resolve_pkg_source(p);
    let sha256 = inp.hashes.get(&p.name, &p.version);
    match registry::source_to_index_url(text::opt_str(&p.source), inp.crates_io_index) {
        Some(url) => match lock_packages::find_lookup(inp.lookups, &url, &p.name, &p.version) {
            Err(e) => {
                let head = text::cat5("failed to look up ", &p.name, " ", &p.version, " in index '");
                Err(text::cat4(&head, &url, "': ", &e))
            },
            Ok(v) => {
                let (deps, build_deps) = lock_packages::resolve_index_deps(
                    v,
                    inp.packages,
                    inp.short_id,
                    &p.dependencies,
                    inp.target,
                );
                let features = registry::features_for_version(v);
                let links = sorted::copy_opt(&v.links);
                let optional = list_index_optional(v);
                Ok((make_external_crate(p, sha256, source, deps, build_deps, features, links), optional))
            },
        },
        None => match source {
            Some(SourceInfo::Git { url, rev, sub_path: _ }) => make_git_crate(p, &url, &rev, sha256, inp, checkouts),
            other => {
                let deps: Vec<DepInfo> = Vec::new();
                let build_deps: Vec<DepInfo> = Vec::new();
                let features: StrMap<Vec<String>> = StrMap::new();
                let optional: Vec<String> = Vec::new();
                assert(optional.deep_view() =~= Seq::empty());
                assert(deps.deep_view() =~= Seq::empty());
                assert(build_deps.deep_view() =~= Seq::empty());
                Ok((make_external_crate(p, sha256, other, deps, build_deps, features, None), optional))
            },
        },
    }
}

/// Resolves all locked packages, before features.
fn resolve_packages(inp: &Inputs) -> (r: Result<
    (StrMap<CrateInfo>, StrMap<String>, StrMap<Vec<String>>),
    String,
>)
    requires
        inp.wf(),
    ensures
        packages_resolved(inp.context()) == match r {
            Ok(s) => Ok::<Partial, Seq<char>>(
                Partial { crates: s.0.deep_view(), members: s.1.deep_view(), optional: s.2.deep_view() },
            ),
            Err(e) => Err::<Partial, Seq<char>>(e@),
        },
        r matches Ok(s) ==> s.0.wf() && s.1.wf(),
{
    let ghost c = inp.context();
    let ghost f = package_adder(c);
    let ghost s = inp.packages.deep_view();
    let ghost init = nothing_yet();
    let mut crates: StrMap<CrateInfo> = StrMap::new();
    let mut members: StrMap<String> = StrMap::new();
    let mut optional: StrMap<Vec<String>> = StrMap::new();
    let mut checkouts = Checkouts { read: Vec::new() };
    assert(s.take(0) =~= Seq::empty());
    for i in 0..inp.packages.len()
        invariant
            inp.wf(),
            c == inp.context(),
            f == package_adder(c),
            s == inp.packages.deep_view(),
            init == nothing_yet(),
            checkouts.wf(inp.disk.deep_view()),
            crates.wf(),
            members.wf(),
            optional.wf(),
            lists::try_fold(s.take(i as int), init, f) == Ok::<Partial, Seq<char>>(
                Partial {
                    crates: crates.deep_view(),
                    members: members.deep_view(),
                    optional: optional.deep_view(),
                },
            ),
    {
        assert(s.take(i + 1).drop_last() =~= s.take(i as int));
        assert(s.take(i + 1).last() == inp.packages@[i as int].deep_view());
        let p = &inp.packages[i];
        let id = inp.short_id.get(&p.name, &p.version);
        match lock_packages::find_member(inp.members, &p.name) {
            Some(m) => {
                members.insert(m.name.clone(), id.clone());
                optional.insert(id.clone(), list_manifest_optional(m));
                crates.insert(id, make_member_crate(p, m, inp));
            },
            None => match make_outside_crate(p, inp, &mut checkouts) {
                Ok((x, names)) => {
                    optional.insert(id.clone(), names);
                    crates.insert(id, x);
                },
                Err(e) => {
                    proof {
                        lists::lemma_try_fold_fails(s, init, f, i + 1);
                    }
                    return Err(e);
                },
            },
        }
    }
    assert(s.take(s.len() as int) =~= s);
    Ok((crates, members, optional))
}

// ---------------------------------------------------------------------------
// Features
// ---------------------------------------------------------------------------

pub open spec fn dep_feature_at() -> spec_fn(DepView) -> DepFeatureView {
    |d: DepView|
        DepFeatureView {
            name: resolve::local_name_of(d),
            package_id: d.package_id,
            uses_default_features: d.uses_default_features,
            features: d.features,
        }
}

pub open spec fn optional_name_at() -> spec_fn(DepView) -> Option<Seq<char>> {
    |d: DepView|
        if d.optional {
            Some(resolve::local_name_of(d))
        } else {
            None
        }
}

/// The feature that the optional dependency `x` stands for, unless there is a feature of that name or
/// some feature names it with `dep:`.
pub open spec fn implied_at(p: PackageFeatureView) -> spec_fn(Seq<char>) -> Option<(Seq<char>, Seq<Seq<char>>)> {
    |x: Seq<char>|
        if sorted::entry_of(p.features, x) is None && !feature_resolve::is_named(p, x) {
            Some((x, seq!["dep:"@ + x]))
        } else {
            None
        }
}

/// The package with the features that the optional dependencies `names` stand for.
pub open spec fn with_implied(p: PackageFeatureView, names: Seq<Seq<char>>) -> PackageFeatureView {
    PackageFeatureView { features: sorted::map_of(p.features + names.filter_map(implied_at(p))), ..p }
}

/// A crate with its normal and build dependencies under their local names.
pub open spec fn plain_package(c: CrateView) -> PackageFeatureView {
    let deps = c.dependencies + c.build_dependencies;
    PackageFeatureView {
        features: c.features,
        dependencies: deps.map_values(dep_feature_at()),
        optional_deps: deps.filter_map(optional_name_at()),
    }
}

/// A crate as feature resolution sees it. An optional dependency counts as a feature also where it is
/// for another target.
pub open spec fn feature_package(c: CrateView, names: Option<Seq<Seq<char>>>) -> PackageFeatureView {
    with_implied(
        plain_package(c),
        match names {
            Some(s) => s,
            None => Seq::empty(),
        },
    )
}

pub open spec fn feature_package_at(optional: Seq<(Seq<char>, Seq<Seq<char>>)>) -> spec_fn(
    (Seq<char>, CrateView),
) -> (Seq<char>, PackageFeatureView) {
    |e: (Seq<char>, CrateView)| (e.0, feature_package(e.1, sorted::entry_of(optional, e.0)))
}

/// The crates of a workspace as feature resolution sees them.
pub open spec fn feature_packages(s: Partial) -> Seq<(Seq<char>, PackageFeatureView)> {
    s.crates.map_values(feature_package_at(s.optional))
}

/// The features requested of every workspace member.
pub open spec fn requested(root_features: Seq<Seq<char>>, no_default_features: bool) -> Seq<Seq<char>> {
    if no_default_features {
        root_features
    } else {
        root_features.push("default"@)
    }
}

/// The rules by which the features of a workspace are resolved.
pub open spec fn feature_rules(s: Partial, root_features: Seq<Seq<char>>, no_default_features: bool) -> Seq<RuleView> {
    feature_resolve::rules_of(
        feature_packages(s),
        s.members.map_values(resolve::root_at(requested(root_features, no_default_features))),
    )
}

/// Whether a dependency of crate `i` is part of the build: it is not optional, or it is turned on.
pub open spec fn is_on(rules: Seq<RuleView>, i: int) -> spec_fn(DepView) -> bool {
    |d: DepView| !d.optional || feature_resolve::derivable(rules, FactView::Dep(i, resolve::local_name_of(d)))
}

/// What feature resolution makes of crate `i`: its features that are on, in order, and its
/// dependencies without the optional ones that are off.
pub open spec fn features_applied(
    before: (Seq<char>, CrateView),
    after: (Seq<char>, CrateView),
    rules: Seq<RuleView>,
    i: int,
) -> bool {
    &&& after.0 == before.0
    &&& feature_resolve::lists_features(after.1.resolved_default_features, rules, i)
    &&& after.1 == CrateView {
        resolved_default_features: after.1.resolved_default_features,
        dependencies: sorted::keep(before.1.dependencies, is_on(rules, i)),
        build_dependencies: sorted::keep(before.1.build_dependencies, is_on(rules, i)),
        ..before.1
    }
}

fn make_feature_package(info: &CrateInfo, names: Option<&Vec<String>>) -> (r: PackageFeatureInfo)
    ensures
        r.deep_view() == feature_package(info.deep_view(), names.deep_view()),
{
    let p = make_plain_package(info);
    let ghost pv = p.deep_view();
    let mut list = sorted::copy_lists(&p.features).entries;
    let ghost start = list.deep_view();
    let ghost f = implied_at(pv);
    if let Some(names) = names {
        let ghost s = names.deep_view();
        assert(list.deep_view() =~= start + s.take(0).filter_map(f));
        for k in 0..names.len()
            invariant
                pv == p.deep_view(),
                s == names.deep_view(),
                f == implied_at(pv),
                list.deep_view() == start + s.take(k as int).filter_map(f),
        {
            let x = &names[k];
            assert(s.take(k + 1).drop_last() =~= s.take(k as int));
            assert(s.take(k + 1).last() == x@);
            if !p.features.contains_key(x) && !feature_resolve::names_dep(&p, x) {
                let ghost o = list.deep_view();
                let mut items: Vec<String> = Vec::new();
                items.push(text::cat2("dep:", x));
                assert(items.deep_view() =~= seq!["dep:"@ + x@]);
                list.push((x.clone(), items));
                assert(list.deep_view() =~= o.push((x@, seq!["dep:"@ + x@])));
            }
            assert(list.deep_view() =~= start + s.take(k + 1).filter_map(f));
        }
        assert(s.take(s.len() as int) =~= s);
    } else {
        assert(list.deep_view() =~= start + Seq::<Seq<char>>::empty().filter_map(f));
    }
    PackageFeatureInfo {
        features: StrMap::from_list(list),
        dependencies: p.dependencies,
        optional_deps: p.optional_deps,
    }
}

fn make_plain_package(info: &CrateInfo) -> (r: PackageFeatureInfo)
    ensures
        r.deep_view() == plain_package(info.deep_view()),
{
    let ghost deps = info.dependencies.deep_view() + info.build_dependencies.deep_view();
    let mut dependencies: Vec<DepFeatureInfo> = Vec::new();
    let mut optional_deps: Vec<String> = Vec::new();
    let n: usize = info.dependencies.len();
    let m: usize = info.build_dependencies.len();
    let ghost full = deps.map_values(dep_feature_at());
    assert(dependencies.deep_view() =~= full.take(0));
    assert(optional_deps.deep_view() =~= deps.take(0).filter_map(optional_name_at()));
    let mut i: usize = 0;
    while i < n
        invariant
            n == info.dependencies@.len(),
            deps == info.dependencies.deep_view() + info.build_dependencies.deep_view(),
            full == deps.map_values(dep_feature_at()),
            i <= n,
            dependencies.deep_view() == full.take(i as int),
            optional_deps.deep_view() == deps.take(i as int).filter_map(optional_name_at()),
        decreases n - i,
    {
        let ghost i0 = i as int;
        assert(deps[i0] == info.dependencies@[i0].deep_view());
        add_feature_dep(&mut dependencies, &mut optional_deps, &info.dependencies[i], Ghost(deps), Ghost(i0));
        i += 1;
    }
    let mut j: usize = 0;
    while j < m
        invariant
            n == info.dependencies@.len(),
            m == info.build_dependencies@.len(),
            deps == info.dependencies.deep_view() + info.build_dependencies.deep_view(),
            full == deps.map_values(dep_feature_at()),
            j <= m,
            dependencies.deep_view() == full.take(n + j),
            optional_deps.deep_view() == deps.take(n + j).filter_map(optional_name_at()),
        decreases m - j,
    {
        let ghost j0 = n + j;
        assert(deps[j0] == info.build_dependencies@[j as int].deep_view());
        add_feature_dep(&mut dependencies, &mut optional_deps, &info.build_dependencies[j], Ghost(deps), Ghost(j0));
        j += 1;
    }
    assert(full.take(n + m) =~= full);
    assert(deps.take(n + m) =~= deps);
    PackageFeatureInfo { features: sorted::copy_lists(&info.features), dependencies, optional_deps }
}

fn add_feature_dep(
    dependencies: &mut Vec<DepFeatureInfo>,
    optional_deps: &mut Vec<String>,
    d: &DepInfo,
    Ghost(deps): Ghost<Seq<DepView>>,
    Ghost(i): Ghost<int>,
)
    requires
        0 <= i < deps.len(),
        deps[i] == d.deep_view(),
        old(dependencies).deep_view() == deps.map_values(dep_feature_at()).take(i),
        old(optional_deps).deep_view() == deps.take(i).filter_map(optional_name_at()),
    ensures
        final(dependencies).deep_view() == deps.map_values(dep_feature_at()).take(i + 1),
        final(optional_deps).deep_view() == deps.take(i + 1).filter_map(optional_name_at()),
{
    let ghost full = deps.map_values(dep_feature_at());
    let ghost o = dependencies.deep_view();
    let ghost p = optional_deps.deep_view();
    dependencies.push(
        DepFeatureInfo {
            name: d.local_name().to_owned(),
            package_id: d.package_id.clone(),
            uses_default_features: d.uses_default_features,
            features: sorted::copy_texts(&d.features),
        },
    );
    assert(dependencies.deep_view() =~= o.push(full[i]));
    assert(full.take(i + 1) =~= full.take(i).push(full[i]));
    assert(deps.take(i + 1).drop_last() =~= deps.take(i));
    if d.optional {
        optional_deps.push(d.local_name().to_owned());
        assert(optional_deps.deep_view() =~= p + seq![resolve::local_name_of(d.deep_view())]);
    }
}

fn keep_on(deps: Vec<DepInfo>, on: &Vec<String>, Ghost(rules): Ghost<Seq<RuleView>>, Ghost(i): Ghost<int>) -> (r: Vec<
    DepInfo,
>)
    requires
        feature_resolve::lists_deps(on.deep_view(), rules, i),
    ensures
        r.deep_view() == sorted::keep(deps.deep_view(), is_on(rules, i)),
{
    let ghost s = deps.deep_view();
    let ghost p = is_on(rules, i);
    let mut out: Vec<DepInfo> = Vec::new();
    assert(out.deep_view() =~= sorted::keep(s.take(0), p));
    for d in it: deps
        invariant
            it.seq().len() == s.len(),
            forall|j: int| 0 <= j < s.len() ==> #[trigger] it.seq()[j].deep_view() == s[j],
            p == is_on(rules, i),
            feature_resolve::lists_deps(on.deep_view(), rules, i),
            out.deep_view() == sorted::keep(s.take(it.index()), p),
    {
        let ghost k = it.index();
        let ghost o = out.deep_view();
        proof {
            assert(it.seq()[k].deep_view() == s[k]);
            assert(d.deep_view() == s[k]);
            sorted::lemma_keep_step(s, p, k);
        }
        if !d.optional || sorted::has_text(on, d.local_name()) {
            out.push(d);
            assert(out.deep_view() =~= o.push(s[k]));
        }
    }
    assert(s.take(s.len() as int) =~= s);
    out
}

/// Resolves the features of all crates and takes out the optional dependencies that are off.
fn apply_features(
    crates: StrMap<CrateInfo>,
    members: &StrMap<String>,
    optional: &StrMap<Vec<String>>,
    root_features: &Vec<String>,
    no_default_features: bool,
) -> (r: StrMap<CrateInfo>)
    requires
        crates.wf(),
    ensures
        r.wf(),
        r.deep_view().len() == crates.deep_view().len(),
        ({
            let rules = feature_rules(
                Partial {
                    crates: crates.deep_view(),
                    members: members.deep_view(),
                    optional: optional.deep_view(),
                },
                root_features.deep_view(),
                no_default_features,
            );
            forall|i: int|
                0 <= i < r.deep_view().len() ==> features_applied(
                    crates.deep_view()[i],
                    #[trigger] r.deep_view()[i],
                    rules,
                    i,
                )
        }),
{
    let ghost cs = crates.deep_view();
    let ghost ms = members.deep_view();
    let ghost os = optional.deep_view();
    let ghost rules = feature_rules(
        Partial { crates: cs, members: ms, optional: os },
        root_features.deep_view(),
        no_default_features,
    );
    // The packages as feature resolution sees them.
    let ghost pf = cs.map_values(feature_package_at(os));
    let mut entries: Vec<(String, PackageFeatureInfo)> = Vec::new();
    assert(entries.deep_view() =~= pf.take(0));
    for i in 0..crates.entries.len()
        invariant
            cs == crates.entries.deep_view(),
            os == optional.deep_view(),
            pf == cs.map_values(feature_package_at(os)),
            entries.deep_view() == pf.take(i as int),
    {
        let ghost o = entries.deep_view();
        assert(cs[i as int] == crates.entries@[i as int].deep_view());
        let names = optional.get(&crates.entries[i].0);
        entries.push((crates.entries[i].0.clone(), make_feature_package(&crates.entries[i].1, names)));
        assert(entries.deep_view() =~= o.push(pf[i as int]));
        assert(pf.take(i + 1) =~= pf.take(i as int).push(pf[i as int]));
    }
    assert(pf.take(cs.len() as int) =~= pf);
    let packages = StrMap { entries };
    // The roots, each with the features requested.
    let mut wanted = sorted::copy_texts(root_features);
    if !no_default_features {
        let ghost o = wanted.deep_view();
        wanted.push("default".to_owned());
        assert(wanted.deep_view() =~= o.push("default"@));
    }
    let ghost rt = ms.map_values(resolve::root_at(wanted.deep_view()));
    let mut roots: Vec<(String, Vec<String>)> = Vec::new();
    assert(roots.deep_view() =~= rt.take(0));
    for i in 0..members.entries.len()
        invariant
            ms == members.entries.deep_view(),
            rt == ms.map_values(resolve::root_at(wanted.deep_view())),
            roots.deep_view() == rt.take(i as int),
    {
        let ghost o = roots.deep_view();
        assert(ms[i as int] == members.entries@[i as int].deep_view());
        roots.push((members.entries[i].1.clone(), sorted::copy_texts(&wanted)));
        assert(roots.deep_view() =~= o.push(rt[i as int]));
        assert(rt.take(i + 1) =~= rt.take(i as int).push(rt[i as int]));
    }
    assert(rt.take(ms.len() as int) =~= rt);
    let resolution = feature_resolve::resolve_features(&packages, &roots);
    assert(rules == feature_resolve::rules_of(packages.deep_view(), roots.deep_view()));
    // The crates with what was found.
    let mut out: Vec<(String, CrateInfo)> = Vec::new();
    let n: usize = resolution.features.len();
    let mut k: usize = 0;
    for e in it: crates.entries
        invariant
            n == cs.len(),
            it.seq().len() == cs.len(),
            forall|j: int| 0 <= j < cs.len() ==> #[trigger] it.seq()[j].deep_view() == cs[j],
            k == it.index(),
            cs.len() == pf.len(),
            resolution.features@.len() == cs.len(),
            resolution.active_optional_deps@.len() == cs.len(),
            forall|i: int|
                0 <= i < cs.len() ==> feature_resolve::lists_features(
                    (#[trigger] resolution.features@[i]).1.deep_view(),
                    rules,
                    i,
                ),
            forall|i: int|
                0 <= i < cs.len() ==> feature_resolve::lists_deps(
                    (#[trigger] resolution.active_optional_deps@[i]).1.deep_view(),
                    rules,
                    i,
                ),
            out@.len() == k,
            forall|i: int| 0 <= i < k ==> features_applied(cs[i], (#[trigger] out@[i]).deep_view(), rules, i),
    {
        let ghost i = it.index();
        assert(it.seq()[i].deep_view() == cs[i]);
        assert(e.deep_view() == cs[i]);
        assert(feature_resolve::lists_features(resolution.features@[i].1.deep_view(), rules, i));
        assert(feature_resolve::lists_deps(resolution.active_optional_deps@[i].1.deep_view(), rules, i));
        let on = &resolution.active_optional_deps[k].1;
        let (id, c) = e;
        let info = CrateInfo {
            crate_name: c.crate_name,
            version: c.version,
            edition: c.edition,
            sha256: c.sha256,
            source: c.source,
            dependencies: keep_on(c.dependencies, on, Ghost(rules), Ghost(i)),
            build_dependencies: keep_on(c.build_dependencies, on, Ghost(rules), Ghost(i)),
            dev_dependencies: c.dev_dependencies,
            features: c.features,
            resolved_default_features: sorted::copy_texts(&resolution.features[k].1),
            proc_macro: c.proc_macro,
            build: c.build,
            lib_path: c.lib_path,
            lib_name: c.lib_name,
            crate_bin: c.crate_bin,
            lib_crate_types: c.lib_crate_types,
            links: c.links,
            authors: c.authors,
        };
        out.push((id, info));
        assert(features_applied(cs[i], out@[i].deep_view(), rules, i));
        k += 1;
    }
    let r = StrMap { entries: out };
    proof {
        let rv = r.deep_view();
        assert forall|i: int| 0 <= i < rv.len() implies features_applied(cs[i], #[trigger] rv[i], rules, i) by {
            assert(rv[i] == out@[i].deep_view());
        }
        assert forall|i: int, j: int| 0 <= i < j < rv.len() implies sorted::before(
            #[trigger] rv[i].0,
            #[trigger] rv[j].0,
        ) by {
            assert(features_applied(cs[i], rv[i], rules, i));
            assert(features_applied(cs[j], rv[j], rules, j));
            assert(sorted::before(cs[i].0, cs[j].0));
        }
    }
    r
}

// ---------------------------------------------------------------------------
// The workspace
// ---------------------------------------------------------------------------

/// What a workspace is resolved against, given its locked packages and its members.
pub open spec fn context_of(
    workspace_root: Seq<char>,
    packages: Seq<LockView>,
    members: Seq<MemberView>,
    cargo_lock: Seq<char>,
    crates_io_index: Seq<char>,
    target: TargetView,
    git_sources: Seq<(Seq<char>, Seq<char>)>,
    disk: DiskView,
    lookups: Seq<(JobView, LookupView)>,
) -> Context {
    Context {
        workspace_root,
        packages,
        hashes: lockfile::lock_hashes(cargo_lock),
        members,
        crates_io_index,
        target,
        git_sources,
        disk,
        lookups,
    }
}

/// The short ID of the root package, if there is one.
pub open spec fn root_id(root: Option<MemberView>, packages: Seq<LockView>) -> Option<Seq<char>> {
    match root {
        Some(m) => Some(lock_packages::short_of(packages, m.name, m.version)),
        None => None,
    }
}

/// Whether `w` is what the packages `s` resolve to.
pub open spec fn is_result(
    w: WorkspaceResult,
    s: Partial,
    root: Option<Seq<char>>,
    workspace_root: Seq<char>,
    root_features: Seq<Seq<char>>,
    no_default_features: bool,
) -> bool {
    &&& w.api_level == resolve::API_LEVEL
    &&& w.root.deep_view() == root
    &&& w.workspace_root@ == workspace_root
    &&& w.workspace_members.deep_view() == s.members
    &&& w.workspace_members.wf()
    &&& w.crates.wf()
    &&& w.crates.deep_view().len() == s.crates.len()
    &&& forall|i: int|
        0 <= i < s.crates.len() ==> features_applied(
            s.crates[i],
            #[trigger] w.crates.deep_view()[i],
            feature_rules(s, root_features, no_default_features),
            i,
        )
}

/// Resolves a workspace from its lock file and the registry index.
///
/// `workspace_root` is the directory of the workspace's manifest, `cargo_lock` the text of its lock
/// file, `crates_io_index` the index in which crates.io is looked up. `git_sources` gives the
/// checkout of each git source, by `url#rev`. `disk` holds the manifests that were read, and
/// `lookups` the index entries that were looked up.
pub fn resolve_from_lockfile(
    workspace_root: &str,
    cargo_lock: &str,
    crates_io_index: &str,
    target: &TargetDescription,
    root_features: &Vec<String>,
    no_default_features: bool,
    git_sources: &Vec<(String, String)>,
    disk: &Disk,
    lookups: &Vec<(PrefetchJob, Lookup)>,
) -> (r: Result<WorkspaceResult, String>)
    ensures
        match (lock_packages::locked(cargo_lock@), manifest::workspace_at(workspace_root@, disk.deep_view())) {
            (Err(e), _) => r matches Err(x) && x@ == e,
            (Ok(_), Err(e)) => r matches Err(x) && x@ == e,
            (Ok(packages), Ok(workspace)) => match packages_resolved(
                context_of(
                    workspace_root@,
                    packages,
                    workspace.members,
                    cargo_lock@,
                    crates_io_index@,
                    target.deep_view(),
                    git_sources.deep_view(),
                    disk.deep_view(),
                    lookups.deep_view(),
                ),
            ) {
                Err(e) => r matches Err(x) && x@ == e,
                Ok(s) => r matches Ok(w) && is_result(
                    w,
                    s,
                    root_id(workspace.root_package, packages),
                    workspace_root@,
                    root_features.deep_view(),
                    no_default_features,
                ),
            },
        },
{
    let packages = match lock_packages::parse_lock_packages(cargo_lock) {
        Ok(p) => p,
        Err(e) => {
            return Err(e);
        },
    };
    let hashes = lockfile::parse_lockfile(cargo_lock);
    let workspace = match manifest::parse_workspace(workspace_root, disk) {
        Ok(w) => w,
        Err(e) => {
            return Err(e);
        },
    };
    let short_id = ShortId::new(&packages);
    let inp = Inputs {
        workspace_root,
        packages: &packages,
        hashes: &hashes,
        members: &workspace.members,
        crates_io_index,
        target,
        git_sources,
        disk,
        lookups,
        short_id: &short_id,
    };
    let (crates, members, optional) = match resolve_packages(&inp) {
        Ok(s) => s,
        Err(e) => {
            return Err(e);
        },
    };
    let root = match &workspace.root_package {
        Some(m) => Some(short_id.get(&m.name, &m.version)),
        None => None,
    };
    let crates = apply_features(crates, &members, &optional, root_features, no_default_features);
    Ok(
        WorkspaceResult {
            api_level: resolve::API_LEVEL,
            root,
            workspace_root: workspace_root.to_owned(),
            workspace_members: members,
            crates,
        },
    )
}

// ---------------------------------------------------------------------------
// Laws
// ---------------------------------------------------------------------------

/// Whether a locked package has to be looked up in an index.
pub open spec fn needs_index(p: LockView, c: Context) -> bool {
    lists::first_with(c.members, lock_packages::is_member(p.name)) is None && registry::index_url_for(
        p.source,
        c.crates_io_index,
    ) is Some
}

/// A workspace resolves only if every package of a registry was found in its index: a crate is
/// never taken to have no dependencies because its entry could not be had.
pub proof fn lemma_resolved_means_looked_up(c: Context, k: int)
    requires
        packages_resolved(c) is Ok,
        0 <= k < c.packages.len(),
        needs_index(c.packages[k], c),
    ensures
        lock_packages::looked_up(
            c.lookups,
            registry::index_url_for(c.packages[k].source, c.crates_io_index)->Some_0,
            c.packages[k].name,
            c.packages[k].version,
        ) is Ok,
{
    let init = nothing_yet();
    lemma_each_package_ok(c.packages, init, c, k);
}

/// A workspace resolves only if every git package has a checkout that holds it.
pub proof fn lemma_resolved_means_checked_out(c: Context, k: int, url: Seq<char>, rev: Seq<char>)
    requires
        packages_resolved(c) is Ok,
        0 <= k < c.packages.len(),
        lists::first_with(c.members, lock_packages::is_member(c.packages[k].name)) is None,
        registry::index_url_for(c.packages[k].source, c.crates_io_index) is None,
        lock_packages::source_of(c.packages[k].source) == Some(SourceView::Git { url, rev, sub_path: None }),
    ensures
        sorted::entry_of(c.git_sources, url + "#"@ + rev) is Some,
{
    let init = nothing_yet();
    lemma_each_package_ok(c.packages, init, c, k);
}

proof fn lemma_each_package_ok(s: Seq<LockView>, init: Partial, c: Context, k: int)
    requires
        lists::try_fold(s, init, package_adder(c)) is Ok,
        0 <= k < s.len(),
    ensures
        lists::first_with(c.members, lock_packages::is_member(s[k].name)) is None ==> outside_crate(s[k], c) is Ok,
    decreases s.len(),
{
    if k < s.len() - 1 {
        lemma_each_package_ok(s.drop_last(), init, c, k);
    }
}

/// No optional dependency stays in a crate unless the features turn it on, and none that they turn
/// on is taken out.
pub proof fn lemma_optional_dependencies(
    before: (Seq<char>, CrateView),
    after: (Seq<char>, CrateView),
    rules: Seq<RuleView>,
    i: int,
    d: DepView,
)
    requires
        features_applied(before, after, rules, i),
    ensures
        after.1.dependencies.contains(d) ==> before.1.dependencies.contains(d) && (d.optional
            ==> feature_resolve::derivable(rules, FactView::Dep(i, resolve::local_name_of(d)))),
        before.1.dependencies.contains(d) && (d.optional ==> feature_resolve::derivable(
            rules,
            FactView::Dep(i, resolve::local_name_of(d)),
        )) ==> after.1.dependencies.contains(d),
{
    let s = before.1.dependencies;
    let p = is_on(rules, i);
    sorted::lemma_keep_holds(s, p);
    let r = sorted::keep(s, p);
    if r.contains(d) {
        let m = choose|m: int| 0 <= m < r.len() && r[m] == d;
        assert(p(r[m]));
    }
    if s.contains(d) && p(d) {
        let m = choose|m: int| 0 <= m < s.len() && s[m] == d;
        assert(p(s[m]));
    }
}

/// The short ID of a locked package.
pub open spec fn id_of(p: LockView, c: Context) -> Seq<char> {
    lock_packages::short_of(c.packages, p.name, p.version)
}

/// The crate of a locked package, before features.
pub open spec fn crate_for(p: LockView, c: Context) -> Result<CrateView, Seq<char>> {
    match lists::first_with(c.members, lock_packages::is_member(p.name)) {
        Some(m) => Ok(member_crate(p, m, c)),
        None => outside_crate(p, c),
    }
}

/// Whether an entry is that of one of the packages `q`.
pub open spec fn is_entry_of(e: (Seq<char>, CrateView), q: Seq<LockView>, c: Context) -> bool {
    exists|k: int| 0 <= k < q.len() && e.0 == id_of(#[trigger] q[k], c) && crate_for(q[k], c) == Ok::<
        CrateView,
        Seq<char>,
    >(e.1)
}

/// Whether an entry of the members is that of one of the packages `q`: it gives the name of a member
/// and the short ID of the package that is this member.
pub open spec fn is_member_of(e: (Seq<char>, Seq<char>), q: Seq<LockView>, c: Context) -> bool {
    exists|k: int|
        0 <= k < q.len() && e.1 == id_of(#[trigger] q[k], c) && q[k].name == e.0 && match lists::first_with(
            c.members,
            lock_packages::is_member(q[k].name),
        ) {
            Some(m) => m.name == e.0,
            None => false,
        }
}

/// Whether `s` has what the packages `q` come to, and nothing else.
spec fn comes_to(q: Seq<LockView>, s: Partial, c: Context) -> bool {
    &&& sorted::ascending(s.crates)
    &&& sorted::ascending(s.members)
    &&& forall|k: int| 0 <= k < q.len() ==> sorted::entry_of(s.crates, id_of(#[trigger] q[k], c)) is Some
    &&& forall|k: int|
        0 <= k < q.len() ==> match lists::first_with(c.members, lock_packages::is_member((#[trigger] q[k]).name)) {
            Some(m) => sorted::entry_of(s.members, m.name) is Some,
            None => true,
        }
    &&& forall|i: int| 0 <= i < s.crates.len() ==> is_entry_of(#[trigger] s.crates[i], q, c)
    &&& forall|i: int| 0 <= i < s.members.len() ==> is_member_of(#[trigger] s.members[i], q, c)
}

proof fn lemma_comes_to(q: Seq<LockView>, s: Partial, c: Context)
    requires
        lists::try_fold(q, nothing_yet(), package_adder(c)) == Ok::<Partial, Seq<char>>(s),
    ensures
        comes_to(q, s, c),
    decreases q.len(),
{
    if q.len() > 0 {
        let init = nothing_yet();
        let r = q.drop_last();
        let p = q.last();
        let id = id_of(p, c);
        let before = lists::try_fold(r, init, package_adder(c))->Ok_0;
        lemma_comes_to(r, before, c);
        let x = crate_for(p, c)->Ok_0;
        assert(s.crates == sorted::with_entry(before.crates, id, x));
        sorted::lemma_with_entry_ascending(before.crates, id, x);
        let m = lists::first_with(c.members, lock_packages::is_member(p.name));
        if m is Some {
            sorted::lemma_with_entry_ascending(before.members, m->Some_0.name, id);
        }
        assert forall|k: int| 0 <= k < q.len() implies sorted::entry_of(s.crates, id_of(#[trigger] q[k], c)) is Some by {
            sorted::lemma_with_entry_reads(before.crates, id, x, id_of(q[k], c));
            if k < r.len() {
                assert(sorted::entry_of(before.crates, id_of(r[k], c)) is Some);
            }
        }
        assert forall|k: int| 0 <= k < q.len() implies match lists::first_with(
            c.members,
            lock_packages::is_member((#[trigger] q[k]).name),
        ) {
            Some(n) => sorted::entry_of(s.members, n.name) is Some,
            None => true,
        } by {
            let n = lists::first_with(c.members, lock_packages::is_member(q[k].name));
            if n is Some {
                if m is Some {
                    sorted::lemma_with_entry_reads(before.members, m->Some_0.name, id, n->Some_0.name);
                }
                if k < r.len() {
                    assert(q[k] == r[k]);
                }
            }
        }
        assert forall|i: int| 0 <= i < s.crates.len() implies is_entry_of(#[trigger] s.crates[i], q, c) by {
            let e = s.crates[i];
            sorted::lemma_with_entry_from(before.crates, id, x, i);
            if e == (id, x) {
                assert(q[q.len() - 1] == p);
            } else {
                let j = choose|j: int| 0 <= j < before.crates.len() && before.crates[j] == e;
                assert(is_entry_of(before.crates[j], r, c));
                let k = choose|k: int|
                    0 <= k < r.len() && e.0 == id_of(#[trigger] r[k], c) && crate_for(r[k], c) == Ok::<
                        CrateView,
                        Seq<char>,
                    >(e.1);
                assert(q[k] == r[k]);
            }
        }
        assert forall|i: int| 0 <= i < s.members.len() implies is_member_of(#[trigger] s.members[i], q, c) by {
            let e = s.members[i];
            if m is Some {
                sorted::lemma_with_entry_from(before.members, m->Some_0.name, id, i);
            }
            if m is Some && e == (m->Some_0.name, id) {
                assert(q[q.len() - 1] == p);
                lists::lemma_first_with(c.members, lock_packages::is_member(p.name));
            } else {
                let j = choose|j: int| 0 <= j < before.members.len() && before.members[j] == e;
                if m is None {
                    assert(before.members[i] == e);
                }
                assert(is_member_of(before.members[j], r, c));
                let k = choose|k: int|
                    0 <= k < r.len() && e.1 == id_of(#[trigger] r[k], c) && r[k].name == e.0
                        && match lists::first_with(c.members, lock_packages::is_member(r[k].name)) {
                        Some(n) => n.name == e.0,
                        None => false,
                    };
                assert(q[k] == r[k]);
            }
        }
    }
}

/// An edge of a package's crate leads to a locked package of its name.
proof fn lemma_edge_is_locked(p: LockView, c: Context, x: CrateView, d: DepView)
    requires
        crate_for(p, c) == Ok::<CrateView, Seq<char>>(x),
        resolve::has_edge(x, d),
    ensures
        lock_packages::is_locked(d, c.packages),
{
    let refs = p.dependencies;
    match lists::first_with(c.members, lock_packages::is_member(p.name)) {
        Some(m) => {
            let deps = if x.dependencies.contains(d) {
                m.dependencies
            } else if x.build_dependencies.contains(d) {
                m.build_dependencies
            } else {
                m.dev_dependencies
            };
            lock_packages::lemma_member_edge(deps, refs, c.packages, c.target, d);
        },
        None => match registry::index_url_for(p.source, c.crates_io_index) {
            Some(url) => {
                let v = lock_packages::looked_up(c.lookups, url, p.name, p.version)->Ok_0;
                let build = !x.dependencies.contains(d);
                lock_packages::lemma_index_edge(build, v, refs, c.packages, c.target, d);
            },
            None => match lock_packages::source_of(p.source) {
                Some(SourceView::Git { url, rev, sub_path }) => {
                    let path = sorted::entry_of(c.git_sources, url + "#"@ + rev)->Some_0;
                    let found = manifest::checkout_at(path, c.disk)->Ok_0;
                    let m = sorted::entry_of(found, p.name)->Some_0;
                    let deps = if x.dependencies.contains(d) {
                        m.dependencies
                    } else {
                        m.build_dependencies
                    };
                    lock_packages::lemma_member_edge(deps, refs, c.packages, c.target, d);
                },
                _ => {},
            },
        },
    }
}

/// Every locked package has a crate in the result, under its short ID, and no crate is there that is
/// not that of a locked package.
pub proof fn lemma_crates_are_locked_packages(c: Context, s: Partial)
    requires
        packages_resolved(c) == Ok::<Partial, Seq<char>>(s),
    ensures
        forall|k: int|
            0 <= k < c.packages.len() ==> sorted::entry_of(s.crates, id_of(#[trigger] c.packages[k], c)) is Some,
        forall|i: int| 0 <= i < s.crates.len() ==> is_entry_of(#[trigger] s.crates[i], c.packages, c),
{
    lemma_comes_to(c.packages, s, c);
}

/// Every locked workspace member is listed under its name, each name that is listed is that of a
/// locked member, and what it is listed with is a crate of the result.
pub proof fn lemma_members_have_crates(c: Context, s: Partial)
    requires
        packages_resolved(c) == Ok::<Partial, Seq<char>>(s),
    ensures
        forall|k: int|
            0 <= k < c.packages.len() ==> match lists::first_with(
                c.members,
                lock_packages::is_member((#[trigger] c.packages[k]).name),
            ) {
                Some(m) => sorted::entry_of(s.members, m.name) is Some,
                None => true,
            },
        forall|i: int| 0 <= i < s.members.len() ==> is_member_of(#[trigger] s.members[i], c.packages, c),
        forall|i: int|
            0 <= i < s.members.len() ==> sorted::entry_of(s.crates, (#[trigger] s.members[i]).1) is Some,
{
    lemma_comes_to(c.packages, s, c);
    assert forall|i: int| 0 <= i < s.members.len() implies sorted::entry_of(
        s.crates,
        (#[trigger] s.members[i]).1,
    ) is Some by {
        assert(is_member_of(s.members[i], c.packages, c));
    }
}

/// A workspace member is a local crate, and has no hash.
pub proof fn lemma_member_is_local(p: LockView, m: MemberView, c: Context)
    requires
        lists::first_with(c.members, lock_packages::is_member(p.name)) == Some(m),
    ensures
        crate_for(p, c) matches Ok(x) && x.sha256 is None && x.source == Some(
            SourceView::Local { path: resolve::local_path(m.manifest_dir, c.workspace_root) },
        ),
{
}

/// The result is closed: every dependency of one of its crates is one of its crates. It is the crate
/// that the dependency names, as long as no locked name holds a space, which Cargo allows in none.
pub proof fn lemma_edges_lead_to_crates(
    c: Context,
    s: Partial,
    w: WorkspaceResult,
    root: Option<Seq<char>>,
    workspace_root: Seq<char>,
    root_features: Seq<Seq<char>>,
    no_default_features: bool,
    i: int,
    d: DepView,
)
    requires
        packages_resolved(c) == Ok::<Partial, Seq<char>>(s),
        is_result(w, s, root, workspace_root, root_features, no_default_features),
        0 <= i < w.crates.deep_view().len(),
        resolve::has_edge(w.crates.deep_view()[i].1, d),
    ensures
        sorted::entry_of(w.crates.deep_view(), d.package_id) is Some,
        (forall|k: int| 0 <= k < c.packages.len() ==> !(#[trigger] c.packages[k]).name.contains(' '))
            ==> sorted::entry_of(w.crates.deep_view(), d.package_id)->Some_0.crate_name == d.name,
{
    let after = w.crates.deep_view();
    let rules = feature_rules(s, root_features, no_default_features);
    lemma_comes_to(c.packages, s, c);
    assert(features_applied(s.crates[i], after[i], rules, i));
    sorted::lemma_keep_holds(s.crates[i].1.dependencies, is_on(rules, i));
    sorted::lemma_keep_holds(s.crates[i].1.build_dependencies, is_on(rules, i));
    assert(resolve::has_edge(s.crates[i].1, d)) by {
        if after[i].1.dependencies.contains(d) {
            let m = choose|m: int| 0 <= m < after[i].1.dependencies.len() && after[i].1.dependencies[m] == d;
            assert(s.crates[i].1.dependencies.contains(after[i].1.dependencies[m]));
        } else if after[i].1.build_dependencies.contains(d) {
            let m = choose|m: int|
                0 <= m < after[i].1.build_dependencies.len() && after[i].1.build_dependencies[m] == d;
            assert(s.crates[i].1.build_dependencies.contains(after[i].1.build_dependencies[m]));
        }
    }
    assert(is_entry_of(s.crates[i], c.packages, c));
    let k = choose|k: int|
        0 <= k < c.packages.len() && s.crates[i].0 == id_of(#[trigger] c.packages[k], c) && crate_for(
            c.packages[k],
            c,
        ) == Ok::<CrateView, Seq<char>>(s.crates[i].1);
    lemma_edge_is_locked(c.packages[k], c, s.crates[i].1, d);
    let j = choose|j: int|
        0 <= j < c.packages.len() && d.name == (#[trigger] c.packages[j]).name && d.package_id
            == lock_packages::short_of(c.packages, c.packages[j].name, c.packages[j].version);
    assert(sorted::entry_of(s.crates, id_of(c.packages[j], c)) is Some);
    sorted::lemma_entry_of(s.crates, d.package_id);
    sorted::lemma_entry_of(after, d.package_id);
    let x = sorted::entry_of(s.crates, d.package_id)->Some_0;
    let n = choose|n: int| 0 <= n < s.crates.len() && #[trigger] s.crates[n] == (d.package_id, x);
    assert(features_applied(s.crates[n], after[n], rules, n));
    assert(after[n].0 == d.package_id);
    if forall|k: int| 0 <= k < c.packages.len() ==> !(#[trigger] c.packages[k]).name.contains(' ') {
        let y = sorted::entry_of(after, d.package_id)->Some_0;
        let a = choose|a: int| 0 <= a < after.len() && #[trigger] after[a] == (d.package_id, y);
        assert(features_applied(s.crates[a], after[a], rules, a));
        assert(is_entry_of(s.crates[a], c.packages, c));
        let q = choose|q: int|
            0 <= q < c.packages.len() && s.crates[a].0 == id_of(#[trigger] c.packages[q], c) && crate_for(
                c.packages[q],
                c,
            ) == Ok::<CrateView, Seq<char>>(s.crates[a].1);
        lists::lemma_first_with(c.members, lock_packages::is_member(c.packages[q].name));
        assert(y.crate_name == c.packages[q].name);
        if q < j {
            lock_packages::lemma_short_ids_unique(c.packages, q, j);
        } else if j < q {
            lock_packages::lemma_short_ids_unique(c.packages, j, q);
        }
    }
}

pub open spec fn is_called(x: Seq<char>) -> spec_fn(DepView) -> bool {
    |d: DepView| resolve::local_name_of(d) == x
}

pub open spec fn is_plain() -> spec_fn(DepView) -> bool {
    |d: DepView| !d.optional
}

/// Whether feature `f` of a package names the dependency `x` with `dep:`.
pub open spec fn names_dep(p: PackageFeatureView, f: Seq<char>, x: Seq<char>) -> bool {
    exists|k: int, m: int|
        0 <= k < p.features.len() && 0 <= m < p.features[k].1.len() && p.features[k].0 == f
            && feature_resolve::item_of(#[trigger] p.features[k].1[m]) == feature_resolve::ItemView::DepOnly(x)
}

/// The place of a crate, as feature resolution counts it.
proof fn lemma_crate_place(s: Partial, i: int)
    requires
        sorted::ascending(s.crates),
        0 <= i < s.crates.len(),
    ensures
        feature_resolve::place_of(feature_packages(s), s.crates[i].0) == Some(i),
{
    let pf = feature_packages(s);
    let id = s.crates[i].0;
    feature_resolve::lemma_place_in_range(pf, id);
    assert(pf[i].0 == id);
    sorted::lemma_before_irreflexive(id);
    let k = feature_resolve::place_of(pf, id)->Some_0;
    assert(pf[k].0 == id && s.crates[k].0 == id);
    if k < i {
        assert(sorted::before(s.crates[k].0, s.crates[i].0));
    }
}

/// What an edge list keeps: of the edges called `x` all or none, and every edge that is not optional.
proof fn lemma_kept_edges(deps: Seq<DepView>, rules: Seq<RuleView>, i: int, x: Seq<char>)
    requires
        forall|k: int| 0 <= k < deps.len() && resolve::local_name_of(#[trigger] deps[k]) == x ==> deps[k].optional,
    ensures
        feature_resolve::derivable(rules, FactView::Dep(i, x)) ==> sorted::keep(
            sorted::keep(deps, is_on(rules, i)),
            is_called(x),
        ) == sorted::keep(deps, is_called(x)),
        !feature_resolve::derivable(rules, FactView::Dep(i, x)) ==> sorted::keep(
            sorted::keep(deps, is_on(rules, i)),
            is_called(x),
        ) == Seq::<DepView>::empty(),
        sorted::keep(sorted::keep(deps, is_on(rules, i)), is_plain()) == sorted::keep(deps, is_plain()),
{
    sorted::lemma_keep_kept(deps, is_on(rules, i), is_called(x));
    sorted::lemma_keep_kept(deps, is_on(rules, i), is_plain());
    assert forall|k: int| 0 <= k < deps.len() && is_plain()(#[trigger] deps[k]) implies is_on(rules, i)(deps[k]) by {}
    if feature_resolve::derivable(rules, FactView::Dep(i, x)) {
        assert forall|k: int| 0 <= k < deps.len() && is_called(x)(#[trigger] deps[k]) implies is_on(rules, i)(
            deps[k],
        ) by {}
    } else {
        assert forall|k: int| 0 <= k < deps.len() && is_called(x)(#[trigger] deps[k]) implies !is_on(rules, i)(
            deps[k],
        ) by {}
    }
}

/// No feature is on in a crate whose package does not have it.
pub proof fn lemma_features_are_own(
    s: Partial,
    w: WorkspaceResult,
    root: Option<Seq<char>>,
    workspace_root: Seq<char>,
    root_features: Seq<Seq<char>>,
    no_default_features: bool,
    i: int,
    f: Seq<char>,
)
    requires
        is_result(w, s, root, workspace_root, root_features, no_default_features),
        0 <= i < s.crates.len(),
        w.crates.deep_view()[i].1.resolved_default_features.contains(f),
    ensures
        feature_resolve::has_feature(feature_packages(s)[i].1, f),
{
    let rules = feature_rules(s, root_features, no_default_features);
    assert(features_applied(s.crates[i], w.crates.deep_view()[i], rules, i));
    feature_resolve::lemma_only_own_features(
        feature_packages(s),
        s.members.map_values(resolve::root_at(requested(root_features, no_default_features))),
        i,
        f,
    );
}

/// An optional dependency of a member comes with the feature that names it, and only with that: of two
/// resolutions of one workspace, without and with the feature `f` requested, the one has no edge
/// called `x`, the other has the edges called `x` that are locked, and both have every edge that is
/// not optional. No dependency on the member asks for `f` or for a feature `x`.
pub proof fn lemma_feature_brings_dependency(
    c: Context,
    s: Partial,
    a: WorkspaceResult,
    b: WorkspaceResult,
    root: Option<Seq<char>>,
    workspace_root: Seq<char>,
    without: Seq<Seq<char>>,
    with: Seq<Seq<char>>,
    no_default_features: bool,
    i: int,
    k: int,
    f: Seq<char>,
    x: Seq<char>,
)
    requires
        packages_resolved(c) == Ok::<Partial, Seq<char>>(s),
        is_result(a, s, root, workspace_root, without, no_default_features),
        is_result(b, s, root, workspace_root, with, no_default_features),
        0 <= i < s.crates.len(),
        0 <= k < s.members.len(),
        s.members[k].1 == s.crates[i].0,
        feature_resolve::not_asked(feature_packages(s), i, f),
        feature_resolve::not_asked(feature_packages(s), i, x),
        names_dep(feature_packages(s)[i].1, f, x),
        feature_resolve::only_by(feature_packages(s)[i].1, f, x),
        !requested(without, no_default_features).contains(f),
        !requested(without, no_default_features).contains(x),
        requested(with, no_default_features).contains(f),
        forall|n: int|
            0 <= n < s.crates[i].1.dependencies.len() && resolve::local_name_of(
                #[trigger] s.crates[i].1.dependencies[n],
            ) == x ==> s.crates[i].1.dependencies[n].optional,
    ensures
        ({
            let declared = s.crates[i].1.dependencies;
            let da = a.crates.deep_view()[i].1.dependencies;
            let db = b.crates.deep_view()[i].1.dependencies;
            &&& sorted::keep(da, is_called(x)) == Seq::<DepView>::empty()
            &&& sorted::keep(db, is_called(x)) == sorted::keep(declared, is_called(x))
            &&& sorted::keep(da, is_plain()) == sorted::keep(declared, is_plain())
            &&& sorted::keep(db, is_plain()) == sorted::keep(declared, is_plain())
        }),
{
    let pf = feature_packages(s);
    let ra = s.members.map_values(resolve::root_at(requested(without, no_default_features)));
    let rb = s.members.map_values(resolve::root_at(requested(with, no_default_features)));
    let rules_a = feature_rules(s, without, no_default_features);
    let rules_b = feature_rules(s, with, no_default_features);
    let declared = s.crates[i].1.dependencies;
    lemma_comes_to(c.packages, s, c);
    lemma_crate_place(s, i);
    assert(features_applied(s.crates[i], a.crates.deep_view()[i], rules_a, i));
    assert(features_applied(s.crates[i], b.crates.deep_view()[i], rules_b, i));
    feature_resolve::lemma_off_unless_requested(pf, ra, i, f, x);
    lemma_kept_edges(declared, rules_a, i, x);
    feature_resolve::lemma_roots_on(pf, rb, k, i);
    let wanted = requested(with, no_default_features);
    let n = choose|n: int| 0 <= n < wanted.len() && wanted[n] == f;
    let p = pf[i].1;
    let (q, m) = choose|q: int, m: int|
        0 <= q < p.features.len() && 0 <= m < p.features[q].1.len() && p.features[q].0 == f
            && feature_resolve::item_of(#[trigger] p.features[q].1[m]) == feature_resolve::ItemView::DepOnly(x);
    sorted::lemma_entry_of(p.features, f);
    assert(feature_resolve::has_feature(p, rb[k].1[n]));
    feature_resolve::lemma_feature_expands(pf, rb, i, q, m);
    lemma_kept_edges(declared, rules_b, i, x);
}

// ---------------------------------------------------------------------------
// What a crate takes from where it is described
// ---------------------------------------------------------------------------

/// The crate of a workspace member says what its manifest says; its edges of each kind are those of the
/// declarations of that kind; and it lies where the manifest lies.
pub proof fn lemma_member_crate(p: LockView, m: MemberView, c: Context, d: DepView)
    requires
        lists::first_with(c.members, lock_packages::is_member(p.name)) == Some(m),
    ensures
        crate_for(p, c) matches Ok(x) && {
            &&& x.crate_name == m.name && m.name == p.name
            &&& x.version == m.version
            &&& x.edition == m.edition
            &&& x.sha256 is None
            &&& x.source == Some(SourceView::Local { path: resolve::local_path(m.manifest_dir, c.workspace_root) })
            &&& x.features == m.features
            &&& x.proc_macro == m.proc_macro
            &&& x.build == m.build_script
            &&& x.lib_path == m.lib_path
            &&& x.lib_name == m.lib_name
            &&& x.crate_bin == m.bin_targets
            &&& x.lib_crate_types == m.lib_crate_types
            &&& x.links == m.links
            &&& x.authors == m.authors
            &&& x.dependencies.contains(d) <==> exists|k: int|
                0 <= k < m.dependencies.len() && lock_packages::declaration_yields(
                    #[trigger] m.dependencies[k],
                    d,
                    p.dependencies,
                    c.packages,
                    c.target,
                )
            &&& x.build_dependencies.contains(d) <==> exists|k: int|
                0 <= k < m.build_dependencies.len() && lock_packages::declaration_yields(
                    #[trigger] m.build_dependencies[k],
                    d,
                    p.dependencies,
                    c.packages,
                    c.target,
                )
            &&& x.dev_dependencies.contains(d) <==> exists|k: int|
                0 <= k < m.dev_dependencies.len() && lock_packages::declaration_yields(
                    #[trigger] m.dev_dependencies[k],
                    d,
                    p.dependencies,
                    c.packages,
                    c.target,
                )
        },
{
    lists::lemma_first_with(c.members, lock_packages::is_member(p.name));
    lock_packages::lemma_declared_edges(m.dependencies, p.dependencies, c.packages, c.target, d);
    lock_packages::lemma_declared_edges(m.build_dependencies, p.dependencies, c.packages, c.target, d);
    lock_packages::lemma_declared_edges(m.dev_dependencies, p.dependencies, c.packages, c.target, d);
}

/// What only a build finds out is left open for a crate that is no member.
pub open spec fn left_open(x: CrateView) -> bool {
    &&& x.edition.len() == 0
    &&& x.dev_dependencies.len() == 0
    &&& x.resolved_default_features.len() == 0
    &&& !x.proc_macro
    &&& x.build is None
    &&& x.lib_path is None
    &&& x.lib_name is None
    &&& x.crate_bin.len() == 0
    &&& x.lib_crate_types.len() == 0
    &&& x.authors.len() == 0
}

/// The crate of a package of a registry is made from the index: its edges are build dependencies exactly if
/// an entry of that kind stands for them, and dependencies exactly if an entry of kind `normal`, or of none,
/// does; its features and `links` are those of the version; and its hash is the lock file's.
pub proof fn lemma_registry_crate(p: LockView, c: Context, url: Seq<char>, v: IndexVersionView, d: DepView)
    requires
        lists::first_with(c.members, lock_packages::is_member(p.name)) is None,
        registry::index_url_for(p.source, c.crates_io_index) == Some(url),
        lock_packages::looked_up(c.lookups, url, p.name, p.version) == Ok::<IndexVersionView, Seq<char>>(v),
    ensures
        crate_for(p, c) matches Ok(x) && {
            &&& x.crate_name == p.name
            &&& x.version == p.version
            &&& x.sha256 == lockfile::hash_for(c.hashes, p.name, p.version)
            &&& x.source == lock_packages::source_of(p.source)
            &&& x.features == sorted::map_of(v.features)
            &&& x.links == v.links
            &&& left_open(x)
            &&& x.build_dependencies.contains(d) <==> exists|k: int|
                0 <= k < v.deps.len() && (#[trigger] v.deps[k]).kind == Some(DependencyKind::Build)
                    && lock_packages::index_entry_yields(v.deps[k], d, p.dependencies, c.packages, c.target)
            &&& x.dependencies.contains(d) <==> exists|k: int|
                0 <= k < v.deps.len() && ((#[trigger] v.deps[k]).kind is None || v.deps[k].kind == Some(
                    DependencyKind::Normal,
                )) && lock_packages::index_entry_yields(v.deps[k], d, p.dependencies, c.packages, c.target)
        },
{
    lock_packages::lemma_index_edges_by_kind(v, p.dependencies, c.packages, c.target, d);
}

/// The crate of a package from git is made from the manifest that its checkout has for its name: its edges
/// are those of the declarations, without those for development, and it lies below the checkout where the
/// manifest lies.
pub proof fn lemma_git_crate(
    p: LockView,
    c: Context,
    url: Seq<char>,
    rev: Seq<char>,
    path: Seq<char>,
    found: Seq<(Seq<char>, MemberView)>,
    m: MemberView,
    d: DepView,
)
    requires
        lists::first_with(c.members, lock_packages::is_member(p.name)) is None,
        registry::index_url_for(p.source, c.crates_io_index) is None,
        lock_packages::source_of(p.source) == Some(SourceView::Git { url, rev, sub_path: None }),
        sorted::entry_of(c.git_sources, url + "#"@ + rev) == Some(path),
        manifest::checkout_at(path, c.disk) == Ok::<Seq<(Seq<char>, MemberView)>, Seq<char>>(found),
        sorted::entry_of(found, p.name) == Some(m),
    ensures
        crate_for(p, c) matches Ok(x) && {
            &&& x.crate_name == p.name
            &&& x.version == p.version
            &&& x.sha256 == lockfile::hash_for(c.hashes, p.name, p.version)
            &&& x.source == Some(SourceView::Git { url, rev, sub_path: sub_path_of(m.manifest_dir, path) })
            &&& x.features == m.features
            &&& x.links == m.links
            &&& left_open(x)
            &&& x.dependencies.contains(d) <==> exists|k: int|
                0 <= k < m.dependencies.len() && lock_packages::declaration_yields(
                    #[trigger] m.dependencies[k],
                    d,
                    p.dependencies,
                    c.packages,
                    c.target,
                )
            &&& x.build_dependencies.contains(d) <==> exists|k: int|
                0 <= k < m.build_dependencies.len() && lock_packages::declaration_yields(
                    #[trigger] m.build_dependencies[k],
                    d,
                    p.dependencies,
                    c.packages,
                    c.target,
                )
        },
{
    lock_packages::lemma_declared_edges(m.dependencies, p.dependencies, c.packages, c.target, d);
    lock_packages::lemma_declared_edges(m.build_dependencies, p.dependencies, c.packages, c.target, d);
}

/// A package that is neither a member nor of a registry nor from git has a crate without edges, features and
/// `links`.
pub proof fn lemma_other_crate(p: LockView, c: Context)
    requires
        lists::first_with(c.members, lock_packages::is_member(p.name)) is None,
        registry::index_url_for(p.source, c.crates_io_index) is None,
        !(lock_packages::source_of(p.source) matches Some(SourceView::Git { url, rev, sub_path })),
    ensures
        crate_for(p, c) matches Ok(x) && {
            &&& x.crate_name == p.name
            &&& x.version == p.version
            &&& x.sha256 == lockfile::hash_for(c.hashes, p.name, p.version)
            &&& x.source == lock_packages::source_of(p.source)
            &&& x.dependencies.len() == 0
            &&& x.build_dependencies.len() == 0
            &&& x.features.len() == 0
            &&& x.links is None
            &&& left_open(x)
        },
{
}

/// Where a crate lies below its checkout: nothing for the checkout itself, and for a directory in it its path
/// from there.
pub proof fn lemma_sub_path(checkout: Seq<char>, rel: Seq<char>)
    requires
        rel.len() > 0,
        rel[0] != '/',
    ensures
        sub_path_of(checkout, checkout) is None,
        sub_path_of(checkout + "/"@ + rel, checkout) == Some(rel),
{
    reveal_strlit("/");
    text::lemma_after_prefix(checkout, Seq::empty());
    assert(checkout + Seq::empty() =~= checkout);
    let tail = "/"@ + rel;
    assert(checkout + "/"@ + rel =~= checkout + tail);
    text::lemma_after_prefix(checkout, tail);
    text::lemma_first_where_is(tail, text::is_not('/'), 1);
    assert(tail.skip(1) =~= rel);
    text::lemma_first_where_is(Seq::empty(), text::is_not('/'), 0);
}

/// Resolving features changes nothing of a crate but its features that are on and its edges: those that are
/// optional and off are gone, all others stay, of build dependencies as of dependencies, and development
/// dependencies are not touched.
pub proof fn lemma_features_change_edges_only(
    before: (Seq<char>, CrateView),
    after: (Seq<char>, CrateView),
    rules: Seq<RuleView>,
    i: int,
    d: DepView,
)
    requires
        features_applied(before, after, rules, i),
    ensures
        after.0 == before.0,
        after.1.crate_name == before.1.crate_name,
        after.1.version == before.1.version,
        after.1.edition == before.1.edition,
        after.1.sha256 == before.1.sha256,
        after.1.source == before.1.source,
        after.1.dev_dependencies == before.1.dev_dependencies,
        after.1.features == before.1.features,
        after.1.proc_macro == before.1.proc_macro,
        after.1.build == before.1.build,
        after.1.lib_path == before.1.lib_path,
        after.1.lib_name == before.1.lib_name,
        after.1.crate_bin == before.1.crate_bin,
        after.1.lib_crate_types == before.1.lib_crate_types,
        after.1.links == before.1.links,
        after.1.authors == before.1.authors,
        after.1.dependencies.contains(d) <==> before.1.dependencies.contains(d) && (d.optional
            ==> feature_resolve::derivable(rules, FactView::Dep(i, resolve::local_name_of(d)))),
        after.1.build_dependencies.contains(d) <==> before.1.build_dependencies.contains(d) && (d.optional
            ==> feature_resolve::derivable(rules, FactView::Dep(i, resolve::local_name_of(d)))),
{
    let p = is_on(rules, i);
    lemma_edge_kept(before.1.dependencies, p, d);
    lemma_edge_kept(before.1.build_dependencies, p, d);
}

proof fn lemma_edge_kept(s: Seq<DepView>, p: spec_fn(DepView) -> bool, d: DepView)
    ensures
        sorted::keep(s, p).contains(d) <==> s.contains(d) && p(d),
{
    sorted::lemma_keep_holds(s, p);
    let r = sorted::keep(s, p);
    if r.contains(d) {
        let m = choose|m: int| 0 <= m < r.len() && r[m] == d;
        assert(p(r[m]));
    }
    if s.contains(d) && p(d) {
        let m = choose|m: int| 0 <= m < s.len() && s[m] == d;
        assert(p(s[m]));
    }
}

/// What feature resolution sees of a crate: its dependencies for build and run under their local names, with
/// what is asked of them, and the names of those that are optional.
pub proof fn lemma_seen_by_features(c: CrateView, names: Option<Seq<Seq<char>>>, f: DepFeatureView, x: Seq<char>)
    ensures
        feature_package(c, names).dependencies.contains(f) <==> exists|d: DepView|
            (c.dependencies.contains(d) || c.build_dependencies.contains(d)) && f.name == #[trigger] resolve::local_name_of(
                d,
            ) && f.package_id == d.package_id && f.uses_default_features == d.uses_default_features && f.features
                == d.features,
        feature_package(c, names).optional_deps.contains(x) <==> exists|d: DepView|
            (c.dependencies.contains(d) || c.build_dependencies.contains(d)) && d.optional && x
                == #[trigger] resolve::local_name_of(d),
{
    let deps = c.dependencies + c.build_dependencies;
    let g = dep_feature_at();
    let all = deps.map_values(g);
    if all.contains(f) {
        let i = choose|i: int| 0 <= i < all.len() && all[i] == f;
        let d = deps[i];
        assert(deps.contains(d));
        lists::lemma_concat_from(c.dependencies, c.build_dependencies, d);
        assert(f.name == resolve::local_name_of(d));
    }
    if exists|d: DepView|
        (c.dependencies.contains(d) || c.build_dependencies.contains(d)) && f.name == #[trigger] resolve::local_name_of(d)
            && f.package_id == d.package_id && f.uses_default_features == d.uses_default_features && f.features
            == d.features {
        let d = choose|d: DepView|
            (c.dependencies.contains(d) || c.build_dependencies.contains(d)) && f.name == #[trigger] resolve::local_name_of(
                d,
            ) && f.package_id == d.package_id && f.uses_default_features == d.uses_default_features && f.features
                == d.features;
        lists::lemma_concat_has(c.dependencies, c.build_dependencies, d);
        let i = choose|i: int| 0 <= i < deps.len() && deps[i] == d;
        assert(all[i] == f);
    }
    let h = optional_name_at();
    if deps.filter_map(h).contains(x) {
        lists::lemma_gathered_from(deps, h, x);
        let i = choose|i: int| 0 <= i < deps.len() && h(#[trigger] deps[i]) == Some(x);
        assert(deps.contains(deps[i]));
        lists::lemma_concat_from(c.dependencies, c.build_dependencies, deps[i]);
        assert(x == resolve::local_name_of(deps[i]));
    }
    if exists|d: DepView|
        (c.dependencies.contains(d) || c.build_dependencies.contains(d)) && d.optional && x
            == #[trigger] resolve::local_name_of(d) {
        let d = choose|d: DepView|
            (c.dependencies.contains(d) || c.build_dependencies.contains(d)) && d.optional && x
                == #[trigger] resolve::local_name_of(d);
        lists::lemma_concat_has(c.dependencies, c.build_dependencies, d);
        let i = choose|i: int| 0 <= i < deps.len() && deps[i] == d;
        assert(h(deps[i]) == Some(x));
        lists::lemma_filter_map_has(deps, h, i, x);
    }
}

/// An optional dependency counts as a feature that turns it on, unless the crate has a feature of that name
/// or names the dependency with `dep:`; the crate's own features stay as they are.
pub proof fn lemma_implied_features(c: CrateView, names: Seq<Seq<char>>, x: Seq<char>)
    requires
        sorted::ascending(c.features),
    ensures
        ({
            let p = feature_package(c, Some(names));
            let plain = plain_package(c);
            &&& sorted::entry_of(c.features, x) matches Some(items) ==> sorted::entry_of(p.features, x) == Some(items)
            &&& sorted::entry_of(c.features, x) is None && names.contains(x) && !feature_resolve::is_named(plain, x)
                ==> sorted::entry_of(p.features, x) == Some(seq!["dep:"@ + x])
            &&& sorted::entry_of(c.features, x) is None && (!names.contains(x) || feature_resolve::is_named(plain, x))
                ==> sorted::entry_of(p.features, x) is None
        }),
{
    let plain = plain_package(c);
    let f = implied_at(plain);
    let more = names.filter_map(f);
    let all = c.features + more;
    sorted::lemma_map_of_reads(all, x);
    sorted::lemma_map_of_itself(c.features);
    sorted::lemma_map_of_reads(c.features, x);
    lists::lemma_last_with_joined(c.features, more, sorted::has_key(x));
    lists::lemma_last_with(more, sorted::has_key(x));
    if let Some(e) = lists::last_with(more, sorted::has_key(x)) {
        lists::lemma_gathered_from(names, f, e);
        let k = choose|k: int| 0 <= k < names.len() && f(#[trigger] names[k]) == Some(e);
        assert(names.contains(names[k]));
        assert(e == (x, seq!["dep:"@ + x]));
    } else {
        if sorted::entry_of(c.features, x) is None && names.contains(x) && !feature_resolve::is_named(plain, x) {
            let k = choose|k: int| 0 <= k < names.len() && names[k] == x;
            let e = (x, seq!["dep:"@ + x]);
            assert(f(names[k]) == Some(e));
            lists::lemma_filter_map_has(names, f, k, e);
            let n = choose|n: int| 0 <= n < more.len() && more[n] == e;
            assert(!sorted::has_key(x)(more[n]));
        }
    }
}

/// The optional dependencies of a package, for whatever target: those that its manifest or its index entry
/// declares as such, under the names by which features call them.
pub proof fn lemma_optional_names(m: MemberView, v: IndexVersionView, x: Seq<char>)
    ensures
        manifest_optional(m).contains(x) <==> (exists|k: int|
            0 <= k < m.dependencies.len() && (#[trigger] m.dependencies[k]).optional && m.dependencies[k].name == x) || (
        exists|k: int|
            0 <= k < m.build_dependencies.len() && (#[trigger] m.build_dependencies[k]).optional
                && m.build_dependencies[k].name == x),
        index_optional(v).contains(x) <==> exists|k: int|
            0 <= k < v.deps.len() && (#[trigger] v.deps[k]).optional && v.deps[k].name == x,
{
    let f = manifest_optional_at();
    let deps = m.dependencies + m.build_dependencies;
    if manifest_optional(m).contains(x) {
        lists::lemma_gathered_from(deps, f, x);
        let k = choose|k: int| 0 <= k < deps.len() && f(#[trigger] deps[k]) == Some(x);
        if k < m.dependencies.len() {
            assert(deps[k] == m.dependencies[k]);
        } else {
            assert(deps[k] == m.build_dependencies[k - m.dependencies.len()]);
        }
    }
    if exists|k: int|
        0 <= k < m.dependencies.len() && (#[trigger] m.dependencies[k]).optional && m.dependencies[k].name == x {
        let k = choose|k: int|
            0 <= k < m.dependencies.len() && (#[trigger] m.dependencies[k]).optional && m.dependencies[k].name == x;
        assert(deps[k] == m.dependencies[k]);
        lists::lemma_filter_map_has(deps, f, k, x);
    }
    if exists|k: int|
        0 <= k < m.build_dependencies.len() && (#[trigger] m.build_dependencies[k]).optional
            && m.build_dependencies[k].name == x {
        let k = choose|k: int|
            0 <= k < m.build_dependencies.len() && (#[trigger] m.build_dependencies[k]).optional
                && m.build_dependencies[k].name == x;
        assert(deps[m.dependencies.len() + k] == m.build_dependencies[k]);
        lists::lemma_filter_map_has(deps, f, m.dependencies.len() + k, x);
    }
    let g = index_optional_at();
    if index_optional(v).contains(x) {
        lists::lemma_gathered_from(v.deps, g, x);
        let k = choose|k: int| 0 <= k < v.deps.len() && g(#[trigger] v.deps[k]) == Some(x);
        assert(v.deps[k].optional);
    }
    if exists|k: int| 0 <= k < v.deps.len() && (#[trigger] v.deps[k]).optional && v.deps[k].name == x {
        let k = choose|k: int| 0 <= k < v.deps.len() && (#[trigger] v.deps[k]).optional && v.deps[k].name == x;
        lists::lemma_filter_map_has(v.deps, g, k, x);
    }
}

/// What is asked of every member: the features given, and `default` unless it is to be done without.
pub proof fn lemma_requested(root_features: Seq<Seq<char>>, no_default_features: bool, f: Seq<char>)
    ensures
        requested(root_features, no_default_features).contains(f) <==> root_features.contains(f) || (
        !no_default_features && f == "default"@),
{
    let r = requested(root_features, no_default_features);
    if root_features.contains(f) {
        let i = choose|i: int| 0 <= i < root_features.len() && root_features[i] == f;
        assert(r[i] == f);
    }
    if !no_default_features {
        assert(r[root_features.len() as int] == "default"@);
    }
    if r.contains(f) {
        let i = choose|i: int| 0 <= i < r.len() && r[i] == f;
        if i < root_features.len() {
            assert(root_features[i] == f);
        }
    }
}

/// The result names the workspace that was asked for, and its root package by the short ID of the member
/// that the root manifest describes.
pub proof fn lemma_result_root(
    w: WorkspaceResult,
    s: Partial,
    root: Option<MemberView>,
    packages: Seq<LockView>,
    workspace_root: Seq<char>,
    root_features: Seq<Seq<char>>,
    no_default_features: bool,
)
    requires
        is_result(w, s, root_id(root, packages), workspace_root, root_features, no_default_features),
    ensures
        w.workspace_root@ == workspace_root,
        w.workspace_members.deep_view() == s.members,
        match root {
            Some(m) => w.root.deep_view() == Some(lock_packages::short_of(packages, m.name, m.version)),
            None => w.root.deep_view() is None,
        },
{
}

/// What a package that cannot be resolved is refused with: a git package without a checkout, with the entry that
/// should name one; one that its checkout does not hold; and a registry package that was not found in its index.
pub proof fn lemma_refusals(
    p: LockView,
    url: Seq<char>,
    rev: Seq<char>,
    sha256: Option<Seq<char>>,
    c: Context,
    path: Seq<char>,
    e: Seq<char>,
)
    ensures
        sorted::entry_of(c.git_sources, url + "#"@ + rev) is None ==> git_crate(p, url, rev, sha256, c) == Err::<
            CrateView,
            Seq<char>,
        >(
            "git source for "@ + p.name + " "@ + p.version + " not provided: expected gitSources.\""@ + (url + "#"@ + rev)
                + "\" to point at a checkout (lib/default.nix should derive this automatically from Cargo.lock)"@,
        ),
        sorted::entry_of(c.git_sources, url + "#"@ + rev) == Some(path) ==> (manifest::checkout_at(path, c.disk) matches Ok(
            found,
        ) ==> sorted::entry_of(found, p.name) is None ==> git_crate(p, url, rev, sha256, c) == Err::<CrateView, Seq<char>>(
            "package "@ + p.name + " not found in git checkout "@ + path + " ("@ + (url + "#"@ + rev) + ")"@,
        )),
        sorted::entry_of(c.git_sources, url + "#"@ + rev) == Some(path) ==> (manifest::checkout_at(path, c.disk)
            matches Err(w) ==> git_crate(p, url, rev, sha256, c) == Err::<CrateView, Seq<char>>(w)),
        registry::index_url_for(p.source, c.crates_io_index) == Some(url) && lock_packages::looked_up(
            c.lookups,
            url,
            p.name,
            p.version,
        ) == Err::<IndexVersionView, Seq<char>>(e) ==> outside_crate(p, c) == Err::<CrateView, Seq<char>>(
            "failed to look up "@ + p.name + " "@ + p.version + " in index '"@ + url + "': "@ + e,
        ),
{
}

/// The optional dependencies of a package from a registry are those of its index entry, those of a git package
/// those of the manifest in its checkout.
pub proof fn lemma_outside_optional(
    p: LockView,
    c: Context,
    url: Seq<char>,
    rev: Seq<char>,
    v: IndexVersionView,
    path: Seq<char>,
    m: MemberView,
    x: Seq<char>,
)
    ensures
        registry::index_url_for(p.source, c.crates_io_index) == Some(url) && lock_packages::looked_up(
            c.lookups,
            url,
            p.name,
            p.version,
        ) == Ok::<IndexVersionView, Seq<char>>(v) ==> (outside_optional(p, c).contains(x) <==> exists|k: int|
            0 <= k < v.deps.len() && (#[trigger] v.deps[k]).optional && v.deps[k].name == x),
        sorted::entry_of(c.git_sources, url + "#"@ + rev) == Some(path) ==> (manifest::checkout_at(path, c.disk) matches Ok(
            found,
        ) ==> sorted::entry_of(found, p.name) == Some(m) ==> git_optional(p, url, rev, c) == manifest_optional(m)),
        registry::index_url_for(p.source, c.crates_io_index) is None && lock_packages::source_of(p.source) == Some(
            SourceView::Git { url, rev, sub_path: None },
        ) ==> outside_optional(p, c) == git_optional(p, url, rev, c),
{
    lemma_optional_names(m, v, x);
}

} // verus!
