//! The result of resolving a workspace, and its resolution from the output of `cargo metadata`.

use crate::cfg_eval;
use crate::cfg_eval::{TargetDescription, TargetView};
use crate::disk;
use crate::feature_resolve;
use crate::feature_resolve::{
    DepFeatureInfo, DepFeatureView, FactView, ItemView, PackageFeatureInfo, PackageFeatureView, RuleView,
};
use crate::lists;
use crate::lock_packages;
use crate::lockfile;
use crate::lockfile::{HashView, LockfileHashes};
use crate::metadata;
use crate::metadata::{
    DepKind, Dependency, DependencyView, Metadata, MetadataView, Node, NodeView, Package, PackageView, ResolveView,
    Target, TargetInfoView,
};
use crate::paths;
use crate::positions;
use crate::positions::Positions;
use crate::sorted;
use crate::sorted::{Keyed, StrMap};
use crate::text;
use crate::version;
use crate::version::{Version, VersionReq};
use vstd::prelude::*;

verus! {

// ---------------------------------------------------------------------------
// Results
// ---------------------------------------------------------------------------

/// The level of the interface between the resolver and the Nix code that reads its result.
pub const API_LEVEL: u32 = 1;

/// The result of resolving a cargo workspace.
#[derive(Debug, Clone)]
pub struct WorkspaceResult {
    pub api_level: u32,
    /// Package ID of the root crate; none for pure workspaces.
    pub root: Option<String>,
    /// Absolute path to the workspace root directory.
    pub workspace_root: String,
    /// Workspace member name to package ID.
    pub workspace_members: StrMap<String>,
    /// Package ID to crate.
    pub crates: StrMap<CrateInfo>,
}

/// Information about a single resolved crate.
#[derive(Debug, Clone)]
pub struct CrateInfo {
    pub crate_name: String,
    pub version: String,
    pub edition: String,
    pub sha256: Option<String>,
    pub source: Option<SourceInfo>,
    pub dependencies: Vec<DepInfo>,
    pub build_dependencies: Vec<DepInfo>,
    pub dev_dependencies: Vec<DepInfo>,
    pub features: StrMap<Vec<String>>,
    pub resolved_default_features: Vec<String>,
    pub proc_macro: bool,
    pub build: Option<String>,
    pub lib_path: Option<String>,
    pub lib_name: Option<String>,
    pub crate_bin: Vec<BinTarget>,
    pub lib_crate_types: Vec<String>,
    pub links: Option<String>,
    pub authors: Vec<String>,
}

/// One dependency edge.
#[derive(Debug, Clone, PartialEq, Eq)]
pub struct DepInfo {
    pub name: String,
    pub package_id: String,
    pub rename: Option<String>,
    pub uses_default_features: bool,
    pub features: Vec<String>,
    pub optional: bool,
}

/// Where a crate's source comes from.
#[derive(Debug, Clone, PartialEq, Eq)]
pub enum SourceInfo {
    CratesIo,
    Registry { index: String },
    Local { path: String },
    Git { url: String, rev: String, sub_path: Option<String> },
}

/// A binary of a crate.
#[derive(Debug, Clone, PartialEq, Eq)]
pub struct BinTarget {
    pub name: String,
    pub path: String,
}

/// The view of a [`WorkspaceResult`].
pub struct WorkspaceView {
    pub api_level: u32,
    pub root: Option<Seq<char>>,
    pub workspace_root: Seq<char>,
    pub workspace_members: Seq<(Seq<char>, Seq<char>)>,
    pub crates: Seq<(Seq<char>, CrateView)>,
}

/// The view of a [`CrateInfo`].
pub struct CrateView {
    pub crate_name: Seq<char>,
    pub version: Seq<char>,
    pub edition: Seq<char>,
    pub sha256: Option<Seq<char>>,
    pub source: Option<SourceView>,
    pub dependencies: Seq<DepView>,
    pub build_dependencies: Seq<DepView>,
    pub dev_dependencies: Seq<DepView>,
    pub features: Seq<(Seq<char>, Seq<Seq<char>>)>,
    pub resolved_default_features: Seq<Seq<char>>,
    pub proc_macro: bool,
    pub build: Option<Seq<char>>,
    pub lib_path: Option<Seq<char>>,
    pub lib_name: Option<Seq<char>>,
    pub crate_bin: Seq<BinView>,
    pub lib_crate_types: Seq<Seq<char>>,
    pub links: Option<Seq<char>>,
    pub authors: Seq<Seq<char>>,
}

/// The view of a [`DepInfo`].
pub struct DepView {
    pub name: Seq<char>,
    pub package_id: Seq<char>,
    pub rename: Option<Seq<char>>,
    pub uses_default_features: bool,
    pub features: Seq<Seq<char>>,
    pub optional: bool,
}

/// The view of a [`SourceInfo`].
pub enum SourceView {
    CratesIo,
    Registry { index: Seq<char> },
    Local { path: Seq<char> },
    Git { url: Seq<char>, rev: Seq<char>, sub_path: Option<Seq<char>> },
}

/// The view of a [`BinTarget`].
pub struct BinView {
    pub name: Seq<char>,
    pub path: Seq<char>,
}

impl DeepView for WorkspaceResult {
    type V = WorkspaceView;

    open spec fn deep_view(&self) -> WorkspaceView {
        WorkspaceView {
            api_level: self.api_level,
            root: self.root.deep_view(),
            workspace_root: self.workspace_root@,
            workspace_members: self.workspace_members.deep_view(),
            crates: self.crates.deep_view(),
        }
    }
}

impl DeepView for CrateInfo {
    type V = CrateView;

    open spec fn deep_view(&self) -> CrateView {
        CrateView {
            crate_name: self.crate_name@,
            version: self.version@,
            edition: self.edition@,
            sha256: self.sha256.deep_view(),
            source: self.source.deep_view(),
            dependencies: self.dependencies.deep_view(),
            build_dependencies: self.build_dependencies.deep_view(),
            dev_dependencies: self.dev_dependencies.deep_view(),
            features: self.features.deep_view(),
            resolved_default_features: self.resolved_default_features.deep_view(),
            proc_macro: self.proc_macro,
            build: self.build.deep_view(),
            lib_path: self.lib_path.deep_view(),
            lib_name: self.lib_name.deep_view(),
            crate_bin: self.crate_bin.deep_view(),
            lib_crate_types: self.lib_crate_types.deep_view(),
            links: self.links.deep_view(),
            authors: self.authors.deep_view(),
        }
    }
}

impl DeepView for DepInfo {
    type V = DepView;

    open spec fn deep_view(&self) -> DepView {
        DepView {
            name: self.name@,
            package_id: self.package_id@,
            rename: self.rename.deep_view(),
            uses_default_features: self.uses_default_features,
            features: self.features.deep_view(),
            optional: self.optional,
        }
    }
}

impl DeepView for SourceInfo {
    type V = SourceView;

    open spec fn deep_view(&self) -> SourceView {
        match self {
            SourceInfo::CratesIo => SourceView::CratesIo,
            SourceInfo::Registry { index } => SourceView::Registry { index: index@ },
            SourceInfo::Local { path } => SourceView::Local { path: path@ },
            SourceInfo::Git { url, rev, sub_path } => SourceView::Git {
                url: url@,
                rev: rev@,
                sub_path: sub_path.deep_view(),
            },
        }
    }
}

impl DeepView for BinTarget {
    type V = BinView;

    open spec fn deep_view(&self) -> BinView {
        BinView { name: self.name@, path: self.path@ }
    }
}

/// The name under which a crate knows a dependency: its rename, or the package's own name.
pub open spec fn local_name_of(d: DepView) -> Seq<char> {
    match d.rename {
        Some(r) => r,
        None => d.name,
    }
}

impl DepInfo {
    /// The name under which the crate knows this dependency, as its manifest writes it.
    pub fn local_name(&self) -> (r: &str)
        ensures
            r@ == local_name_of(self.deep_view()),
    {
        match &self.rename {
            Some(n) => n.as_str(),
            None => self.name.as_str(),
        }
    }
}

impl Keyed for DepInfo {
    open spec fn key_of(v: DepView) -> Seq<char> {
        v.package_id
    }

    fn key(&self) -> (r: &str) {
        self.package_id.as_str()
    }
}

/// A copy of a list of binaries.
pub fn copy_bins(v: &Vec<BinTarget>) -> (r: Vec<BinTarget>)
    ensures
        r.deep_view() == v.deep_view(),
{
    let mut out: Vec<BinTarget> = Vec::new();
    let ghost s = v.deep_view();
    for i in 0..v.len()
        invariant
            s == v.deep_view(),
            out.deep_view() == s.take(i as int),
    {
        let ghost o = out.deep_view();
        out.push(BinTarget { name: v[i].name.clone(), path: v[i].path.clone() });
        assert(out.deep_view() =~= o.push(s[i as int]));
        assert(s.take(i + 1) =~= s.take(i as int).push(s[i as int]));
    }
    assert(s.take(s.len() as int) =~= s);
    out
}

/// A name with hyphens replaced by underscores, as cargo does.
pub open spec fn normalized(name: Seq<char>) -> Seq<char> {
    text::with_char_replaced(name, '-', "_"@)
}

/// Normalizes a package name: hyphens become underscores, as cargo does.
pub fn normalize_name(name: &str) -> (r: String)
    ensures
        r@ == normalized(name@),
{
    text::replace_char(name, '-', "_")
}

/// A normalized name is as long as the name, differs from it only at hyphens, and holds none.
pub proof fn lemma_normalized(name: Seq<char>)
    ensures
        normalized(name).len() == name.len(),
        forall|i: int|
            0 <= i < name.len() ==> #[trigger] normalized(name)[i] == if name[i] == '-' {
                '_'
            } else {
                name[i]
            },
    decreases name.len(),
{
    reveal_strlit("_");
    if name.len() > 0 {
        let t = name.drop_last();
        lemma_normalized(t);
        assert forall|i: int| 0 <= i < name.len() implies #[trigger] normalized(name)[i] == if name[i] == '-' {
            '_'
        } else {
            name[i]
        } by {
            if i < t.len() {
                assert(normalized(t)[i] == normalized(name)[i]);
            }
        }
    }
}

/// Normalizing a normalized name changes nothing.
pub proof fn lemma_normalized_idempotent(name: Seq<char>)
    ensures
        normalized(normalized(name)) == normalized(name),
{
    lemma_normalized(name);
    lemma_normalized(normalized(name));
    assert(normalized(normalized(name)) =~= normalized(name));
}

// ---------------------------------------------------------------------------
// Package IDs
// ---------------------------------------------------------------------------

/// How many packages have a name.
pub open spec fn package_count(packages: Seq<PackageView>, name: Seq<char>) -> nat
    decreases packages.len(),
{
    if packages.len() == 0 {
        0
    } else {
        package_count(packages.drop_last(), name) + if packages.last().name == name {
            1nat
        } else {
            0nat
        }
    }
}

/// What follows the last `#` of a package ID, or all of it.
pub open spec fn fragment_of(id: Seq<char>) -> Seq<char> {
    match text::cut_last(id, '#') {
        Some((a, b)) => b,
        None => id,
    }
}

/// The short form of a package ID: the name where that is unique, else name and version. An ID of
/// another form than `..#name@version` stays as it is.
pub open spec fn shortened(id: Seq<char>, packages: Seq<PackageView>) -> Seq<char> {
    match text::cut_last(fragment_of(id), '@') {
        Some((name, version)) => if package_count(packages, name) <= 1 {
            name
        } else {
            name + " "@ + version
        },
        None => id,
    }
}

pub open spec fn id_at() -> spec_fn(PackageView) -> Seq<char> {
    |p: PackageView| p.id
}

pub open spec fn name_at() -> spec_fn(PackageView) -> Seq<char> {
    |p: PackageView| p.name
}

/// The packages of a workspace, which are found by their IDs and counted by their names.
pub struct Packages<'a> {
    list: &'a Vec<Package>,
    ids: Positions,
    names: Positions,
}

impl<'a> DeepView for Packages<'a> {
    type V = Seq<PackageView>;

    closed spec fn deep_view(&self) -> Seq<PackageView> {
        self.list.deep_view()
    }
}

impl<'a> Packages<'a> {
    #[verifier::type_invariant]
    spec fn inv(&self) -> bool {
        &&& self.ids.keys() == self.list.deep_view().map_values(id_at())
        &&& self.names.keys() == self.list.deep_view().map_values(name_at())
    }

    pub fn of(list: &'a Vec<Package>) -> (r: Packages<'a>)
        ensures
            r.deep_view() == list.deep_view(),
    {
        let ghost s = list.deep_view();
        let mut ids: Vec<&str> = Vec::new();
        let mut names: Vec<&str> = Vec::new();
        for i in 0..list.len()
            invariant
                s == list.deep_view(),
                ids@.len() == i,
                names@.len() == i,
                forall|j: int| 0 <= j < i ==> (#[trigger] ids@[j])@ == s[j].id,
                forall|j: int| 0 <= j < i ==> (#[trigger] names@[j])@ == s[j].name,
        {
            assert(s[i as int] == list@[i as int].deep_view());
            ids.push(list[i].id.as_str());
            names.push(list[i].name.as_str());
        }
        assert(ids.deep_view() =~= s.map_values(id_at()));
        assert(names.deep_view() =~= s.map_values(name_at()));
        Packages { list, ids: Positions::of(&ids), names: Positions::of(&names) }
    }

    /// How many packages have a name.
    fn count(&self, name: &str) -> (r: usize)
        ensures
            r == package_count(self.deep_view(), name@),
    {
        proof {
            use_type_invariant(self);
            lemma_package_count(self.deep_view(), name@);
        }
        self.names.count(name)
    }

    /// The package with an ID.
    fn find(&self, id: &str) -> (r: Option<&'a Package>)
        ensures
            r.deep_view() == package_by_id(self.deep_view(), id@),
    {
        let ghost s = self.deep_view();
        let ghost keys = self.ids.keys();
        proof {
            use_type_invariant(self);
            assert forall|j: int| 0 <= j < s.len() implies keys[j] == (#[trigger] s[j]).id by {}
        }
        match self.ids.last(id) {
            Some(i) => {
                proof {
                    assert forall|j: int| i < j < s.len() implies !has_id(id@)(#[trigger] s[j]) by {
                        assert(keys[j] != id@);
                    }
                    lists::lemma_last_with_is(s, has_id(id@), i as int);
                    assert(s[i as int] == self.list@[i as int].deep_view());
                }
                Some(&self.list[i])
            },
            None => {
                proof {
                    assert forall|j: int| 0 <= j < s.len() implies !has_id(id@)(#[trigger] s[j]) by {
                        assert(keys[j] != id@);
                    }
                    lists::lemma_last_with_is(s, has_id(id@), -1);
                }
                None
            },
        }
    }
}

proof fn lemma_package_count(packages: Seq<PackageView>, name: Seq<char>)
    ensures
        package_count(packages, name) == positions::occurrences(packages.map_values(name_at()), name),
    decreases packages.len(),
{
    if packages.len() > 0 {
        let s = packages.map_values(name_at());
        lemma_package_count(packages.drop_last(), name);
        assert(s.drop_last() =~= packages.drop_last().map_values(name_at()));
    }
}

/// Shortens a package ID to `name`, or to `name version` where several packages have the name.
pub fn shorten_id(id: &str, packages: &Packages) -> (r: String)
    ensures
        r@ == shortened(id@, packages.deep_view()),
{
    let fragment = match text::rsplit_once(id, '#') {
        Some((_, b)) => b,
        None => id,
    };
    match text::rsplit_once(fragment, '@') {
        Some((name, version)) => {
            if packages.count(name) <= 1 {
                name.to_owned()
            } else {
                text::cat3(name, " ", version)
            }
        },
        None => id.to_owned(),
    }
}

pub open spec fn has_id(id: Seq<char>) -> spec_fn(PackageView) -> bool {
    |p: PackageView| p.id == id
}

/// The package with an ID.
pub open spec fn package_by_id(packages: Seq<PackageView>, id: Seq<char>) -> Option<PackageView> {
    lists::last_with(packages, has_id(id))
}

pub open spec fn is_node_of(id: Seq<char>) -> spec_fn(NodeView) -> bool {
    |n: NodeView| n.id == id
}

/// What Cargo resolved a package to.
pub open spec fn node_by_id(nodes: Seq<NodeView>, id: Seq<char>) -> Option<NodeView> {
    lists::last_with(nodes, is_node_of(id))
}

pub open spec fn node_id_at() -> spec_fn(NodeView) -> Seq<char> {
    |n: NodeView| n.id
}

/// What Cargo resolved the packages of a workspace to, found by ID.
pub struct Nodes<'a> {
    list: &'a Vec<Node>,
    ids: Positions,
}

impl<'a> DeepView for Nodes<'a> {
    type V = Seq<NodeView>;

    closed spec fn deep_view(&self) -> Seq<NodeView> {
        self.list.deep_view()
    }
}

impl<'a> Nodes<'a> {
    #[verifier::type_invariant]
    spec fn inv(&self) -> bool {
        self.ids.keys() == self.list.deep_view().map_values(node_id_at())
    }

    pub fn of(list: &'a Vec<Node>) -> (r: Nodes<'a>)
        ensures
            r.deep_view() == list.deep_view(),
    {
        let ghost s = list.deep_view();
        let mut ids: Vec<&str> = Vec::new();
        for i in 0..list.len()
            invariant
                s == list.deep_view(),
                ids@.len() == i,
                forall|j: int| 0 <= j < i ==> (#[trigger] ids@[j])@ == s[j].id,
        {
            assert(s[i as int] == list@[i as int].deep_view());
            ids.push(list[i].id.as_str());
        }
        assert(ids.deep_view() =~= s.map_values(node_id_at()));
        Nodes { list, ids: Positions::of(&ids) }
    }

    /// The node of a package.
    fn find(&self, id: &str) -> (r: Option<&'a Node>)
        ensures
            r.deep_view() == node_by_id(self.deep_view(), id@),
    {
        let ghost s = self.deep_view();
        let ghost keys = self.ids.keys();
        proof {
            use_type_invariant(self);
            assert forall|j: int| 0 <= j < s.len() implies keys[j] == (#[trigger] s[j]).id by {}
        }
        match self.ids.last(id) {
            Some(i) => {
                proof {
                    assert forall|j: int| i < j < s.len() implies !is_node_of(id@)(#[trigger] s[j]) by {
                        assert(keys[j] != id@);
                    }
                    lists::lemma_last_with_is(s, is_node_of(id@), i as int);
                    assert(s[i as int] == self.list@[i as int].deep_view());
                }
                Some(&self.list[i])
            },
            None => {
                proof {
                    assert forall|j: int| 0 <= j < s.len() implies !is_node_of(id@)(#[trigger] s[j]) by {
                        assert(keys[j] != id@);
                    }
                    lists::lemma_last_with_is(s, is_node_of(id@), -1);
                }
                None
            },
        }
    }
}

// ---------------------------------------------------------------------------
// Paths and sources
// ---------------------------------------------------------------------------

/// The path of a source file relative to its package's directory.
pub fn relative_src_path(src_path: &str, manifest_path: &str) -> (r: String)
    ensures
        r@ == paths::relative_to(src_path@, paths::dir_of(manifest_path@)),
{
    paths::relative(src_path, &paths::parent_dir(manifest_path))
}

/// The path of a local crate: as seen from the root of the workspace, `.` for the root itself. One
/// that lies elsewhere has the path that it has.
pub open spec fn local_path(dir: Seq<char>, workspace_root: Seq<char>) -> Seq<char> {
    if paths::relative_to(dir, workspace_root).len() == 0 {
        "."@
    } else {
        paths::relative_to(dir, workspace_root)
    }
}

pub fn find_local_path(dir: &str, workspace_root: &str) -> (r: String)
    ensures
        r@ == local_path(dir@, workspace_root@),
{
    let r = paths::relative(dir, workspace_root);
    if r.as_str().is_empty() {
        ".".to_owned()
    } else {
        r
    }
}

/// Where a package comes from. A sparse registry is treated like crates.io.
pub open spec fn package_source(p: PackageView, workspace_root: Seq<char>) -> Option<SourceView> {
    match p.source {
        Some(repr) => if repr == "registry+https://github.com/rust-lang/crates.io-index"@ {
            Some(SourceView::CratesIo)
        } else if text::has_prefix(repr, "git+"@) {
            lock_packages::git_source(repr)
        } else if text::has_prefix(repr, "sparse+"@) {
            Some(SourceView::CratesIo)
        } else {
            None
        },
        None => Some(SourceView::Local { path: local_path(paths::dir_of(p.manifest_path), workspace_root) }),
    }
}

/// Determines where a package comes from: a package without a source is local, and its path is
/// relative to the root of the workspace.
pub fn resolve_source(pkg: &Package, workspace_root: &str) -> (r: Option<SourceInfo>)
    ensures
        r.deep_view() == package_source(pkg.deep_view(), workspace_root@),
{
    match &pkg.source {
        Some(repr) => {
            if text::same(repr, "registry+https://github.com/rust-lang/crates.io-index") {
                Some(SourceInfo::CratesIo)
            } else if text::starts_with(repr, "git+") {
                lock_packages::parse_git_source(repr)
            } else if text::starts_with(repr, "sparse+") {
                Some(SourceInfo::CratesIo)
            } else {
                None
            }
        },
        None => Some(
            SourceInfo::Local { path: find_local_path(&paths::parent_dir(&pkg.manifest_path), workspace_root) },
        ),
    }
}

/// The hash of a package's archive. A local package has no archive, and so none.
pub open spec fn package_hash(p: PackageView, hashes: Seq<HashView>) -> Option<Seq<char>> {
    match p.source {
        Some(_) => lockfile::hash_for(hashes, p.name, p.version),
        None => None,
    }
}

/// The hash of a package's archive, from the lock file.
pub fn get_sha256(pkg: &Package, lockfile_hashes: &LockfileHashes) -> (r: Option<String>)
    ensures
        r.deep_view() == package_hash(pkg.deep_view(), lockfile_hashes.deep_view()),
{
    match &pkg.source {
        Some(_) => lockfile_hashes.get(&pkg.name, &pkg.version),
        None => None,
    }
}

// ---------------------------------------------------------------------------
// Dependencies
// ---------------------------------------------------------------------------

/// The resolved dependency with a package of this name, hyphens and underscores being the same.
pub open spec fn candidate_at(name: Seq<char>, packages: Seq<PackageView>) -> spec_fn(Seq<char>) -> Option<PackageView> {
    |id: Seq<char>|
        match package_by_id(packages, id) {
            Some(p) => if normalized(p.name) == normalized(name) {
                Some(p)
            } else {
                None
            },
            None => None,
        }
}

pub open spec fn version_allowed(req: Seq<char>) -> spec_fn(PackageView) -> bool {
    |p: PackageView|
        match version::version_parsed(p.version) {
            Some(v) => version::requirement_allows(req, v),
            None => false,
        }
}

/// The package that Cargo resolved a declaration to: the one dependency of that name, or among
/// several the first whose version is allowed.
pub open spec fn resolved_package(d: DependencyView, node: NodeView, packages: Seq<PackageView>) -> Option<PackageView> {
    let candidates = node.deps.filter_map(candidate_at(d.name, packages));
    if candidates.len() == 1 {
        Some(candidates[0])
    } else {
        lists::first_with(candidates, version_allowed(d.req))
    }
}

/// The name under which a package declares a dependency, and its features name it.
pub open spec fn declared_name(d: DependencyView) -> Seq<char> {
    match d.rename {
        Some(n) => n,
        None => d.name,
    }
}

/// The package that a declaration leads to: none if it is for other targets, or if Cargo resolved it
/// to nothing.
pub open spec fn leads_to(
    d: DependencyView,
    node: NodeView,
    packages: Seq<PackageView>,
    t: TargetView,
) -> Option<PackageView> {
    if cfg_eval::applies_to(d.target, t) {
        resolved_package(d, node, packages)
    } else {
        None
    }
}

/// The dependency edge for a declaration: none if it leads to nothing, or if it is optional and not
/// among those that are `on`.
pub open spec fn declared_dep(
    d: DependencyView,
    node: NodeView,
    packages: Seq<PackageView>,
    t: TargetView,
    on: spec_fn(Seq<char>) -> bool,
) -> Option<DepView> {
    if d.optional && !on(declared_name(d)) {
        None
    } else {
        match leads_to(d, node, packages, t) {
            None => None,
            Some(q) => Some(
                DepView {
                    name: d.name,
                    package_id: shortened(q.id, packages),
                    rename: match d.rename {
                        Some(n) => Some(normalized(n)),
                        None => None,
                    },
                    uses_default_features: d.uses_default_features,
                    features: d.features,
                    optional: d.optional,
                },
            ),
        }
    }
}

pub open spec fn declared_dep_at(
    kind: DepKind,
    node: NodeView,
    packages: Seq<PackageView>,
    t: TargetView,
    on: spec_fn(Seq<char>) -> bool,
) -> spec_fn(DependencyView) -> Option<DepView> {
    |d: DependencyView|
        if d.kind == kind {
            declared_dep(d, node, packages, t, on)
        } else {
            None
        }
}

/// The dependencies of one kind, sorted by package ID; none for a package that Cargo did not resolve.
pub open spec fn package_deps(
    kind: DepKind,
    p: PackageView,
    node: Option<NodeView>,
    packages: Seq<PackageView>,
    t: TargetView,
    on: spec_fn(Seq<char>) -> bool,
) -> Seq<DepView> {
    match node {
        Some(n) => sorted::sorted_by_key::<DepInfo>(
            p.dependencies.filter_map(declared_dep_at(kind, n, packages, t, on)),
        ),
        None => Seq::empty(),
    }
}

/// Whether a text is in a list.
pub open spec fn is_in(list: Seq<Seq<char>>) -> spec_fn(Seq<char>) -> bool {
    |x: Seq<char>| list.contains(x)
}

fn find_resolved<'a>(d: &Dependency, node: &Node, packages: &Packages<'a>) -> (r: Option<&'a Package>)
    ensures
        r.deep_view() == resolved_package(d.deep_view(), node.deep_view(), packages.deep_view()),
{
    let ghost all = packages.deep_view();
    let ghost s = node.deps.deep_view();
    let ghost f = candidate_at(d.name@, all);
    let wanted = normalize_name(&d.name);
    let mut candidates: Vec<&'a Package> = Vec::new();
    assert(candidates.deep_view() =~= s.take(0).filter_map(f));
    for i in 0..node.deps.len()
        invariant
            all == packages.deep_view(),
            s == node.deps.deep_view(),
            f == candidate_at(d.name@, all),
            wanted@ == normalized(d.name@),
            candidates.deep_view() == s.take(i as int).filter_map(f),
    {
        let ghost o = candidates.deep_view();
        assert(s.take(i + 1).drop_last() =~= s.take(i as int));
        assert(s.take(i + 1).last() == node.deps@[i as int]@);
        if let Some(p) = packages.find(&node.deps[i]) {
            if text::same(&normalize_name(&p.name), &wanted) {
                let ghost pv = p.deep_view();
                candidates.push(p);
                assert(candidates.deep_view() =~= o + seq![pv]);
            }
        }
    }
    assert(s.take(s.len() as int) =~= s);
    let ghost cs = candidates.deep_view();
    if candidates.len() == 1 {
        assert(cs[0] == candidates@[0].deep_view());
        return Some(candidates[0]);
    }
    let req = VersionReq { text: d.req.clone() };
    for i in 0..candidates.len()
        invariant
            cs == candidates.deep_view(),
            cs == node.deep_view().deps.filter_map(candidate_at(d.name@, packages.deep_view())),
            cs.len() != 1,
            req.deep_view() == d.req@,
            forall|j: int| 0 <= j < i ==> !version_allowed(d.req@)(#[trigger] cs[j]),
    {
        assert(cs[i as int] == candidates@[i as int].deep_view());
        if let Some(v) = Version::parse(&candidates[i].version) {
            if req.matches(&v) {
                proof {
                    lists::lemma_first_with_is(cs, version_allowed(d.req@), i as int);
                }
                return Some(candidates[i]);
            }
        }
    }
    proof {
        lists::lemma_first_with_is(cs, version_allowed(d.req@), cs.len() as int);
    }
    None
}

fn name_declared(d: &Dependency) -> (r: &str)
    ensures
        r@ == declared_name(d.deep_view()),
{
    match &d.rename {
        Some(n) => n.as_str(),
        None => d.name.as_str(),
    }
}

fn find_led_to<'a>(
    d: &Dependency,
    node: &Node,
    packages: &Packages<'a>,
    target: &TargetDescription,
) -> (r: Option<&'a Package>)
    ensures
        r.deep_view() == leads_to(d.deep_view(), node.deep_view(), packages.deep_view(), target.deep_view()),
{
    if cfg_eval::applies(&d.target, target) {
        find_resolved(d, node, packages)
    } else {
        None
    }
}

fn resolve_dependency(
    d: &Dependency,
    node: &Node,
    packages: &Packages,
    target: &TargetDescription,
    on: &Vec<String>,
) -> (r: Option<DepInfo>)
    ensures
        r.deep_view() == declared_dep(
            d.deep_view(),
            node.deep_view(),
            packages.deep_view(),
            target.deep_view(),
            is_in(on.deep_view()),
        ),
{
    if d.optional && !sorted::has_text(on, name_declared(d)) {
        return None;
    }
    match find_led_to(d, node, packages, target) {
        None => None,
        Some(p) => {
            let rename = match &d.rename {
                Some(n) => Some(normalize_name(n)),
                None => None,
            };
            Some(
                DepInfo {
                    name: d.name.clone(),
                    package_id: shorten_id(&p.id, packages),
                    rename,
                    uses_default_features: d.uses_default_features,
                    features: sorted::copy_texts(&d.features),
                    optional: d.optional,
                },
            )
        },
    }
}

fn resolve_kind(
    kind: DepKind,
    pkg: &Package,
    node: &Node,
    packages: &Packages,
    target: &TargetDescription,
    on: &Vec<String>,
) -> (r: Vec<DepInfo>)
    ensures
        r.deep_view() == package_deps(
            kind,
            pkg.deep_view(),
            Some(node.deep_view()),
            packages.deep_view(),
            target.deep_view(),
            is_in(on.deep_view()),
        ),
{
    let ghost s = pkg.dependencies.deep_view();
    let ghost f = declared_dep_at(
        kind,
        node.deep_view(),
        packages.deep_view(),
        target.deep_view(),
        is_in(on.deep_view()),
    );
    let mut out: Vec<DepInfo> = Vec::new();
    assert(out.deep_view() =~= s.take(0).filter_map(f));
    for i in 0..pkg.dependencies.len()
        invariant
            s == pkg.dependencies.deep_view(),
            f == declared_dep_at(
                kind,
                node.deep_view(),
                packages.deep_view(),
                target.deep_view(),
                is_in(on.deep_view()),
            ),
            out.deep_view() == s.take(i as int).filter_map(f),
    {
        let ghost o = out.deep_view();
        assert(s.take(i + 1).drop_last() =~= s.take(i as int));
        assert(s.take(i + 1).last() == pkg.dependencies@[i as int].deep_view());
        let d = &pkg.dependencies[i];
        if d.kind == kind {
            if let Some(x) = resolve_dependency(d, node, packages, target, on) {
                let ghost xv = x.deep_view();
                out.push(x);
                assert(out.deep_view() =~= o + seq![xv]);
            }
        }
    }
    assert(s.take(s.len() as int) =~= s);
    sorted::sort_by_key(out)
}

/// Resolves the dependencies of a package, normal, build and development, by joining what it
/// declares with what Cargo resolved. `on` names the optional dependencies that are on.
pub fn resolve_dependencies(
    pkg: &Package,
    node: Option<&Node>,
    packages: &Packages,
    target: &TargetDescription,
    on: &Vec<String>,
) -> (r: (Vec<DepInfo>, Vec<DepInfo>, Vec<DepInfo>))
    ensures
        ({
            let p = pkg.deep_view();
            let n = node.deep_view();
            let all = packages.deep_view();
            let t = target.deep_view();
            let o = is_in(on.deep_view());
            &&& r.0.deep_view() == package_deps(DepKind::Normal, p, n, all, t, o)
            &&& r.1.deep_view() == package_deps(DepKind::Build, p, n, all, t, o)
            &&& r.2.deep_view() == package_deps(DepKind::Development, p, n, all, t, o)
        }),
{
    match node {
        Some(n) => (
            resolve_kind(DepKind::Normal, pkg, n, packages, target, on),
            resolve_kind(DepKind::Build, pkg, n, packages, target, on),
            resolve_kind(DepKind::Development, pkg, n, packages, target, on),
        ),
        None => {
            let none: Vec<DepInfo> = Vec::new();
            assert(none.deep_view() =~= Seq::empty());
            let none2: Vec<DepInfo> = Vec::new();
            assert(none2.deep_view() =~= Seq::empty());
            let none3: Vec<DepInfo> = Vec::new();
            assert(none3.deep_view() =~= Seq::empty());
            (none, none2, none3)
        },
    }
}

// ---------------------------------------------------------------------------
// Targets
// ---------------------------------------------------------------------------

pub open spec fn kind_is(k: Seq<char>) -> spec_fn(TargetInfoView) -> bool {
    |t: TargetInfoView| t.kind.contains(k)
}

/// Whether a target is the package's library.
pub open spec fn is_lib_target() -> spec_fn(TargetInfoView) -> bool {
    |t: TargetInfoView|
        t.kind.contains("lib"@) || t.kind.contains("cdylib"@) || t.kind.contains("dylib"@) || t.kind.contains(
            "rlib"@,
        ) || t.kind.contains("proc-macro"@)
}

/// Whether the crate types of a target count among the library's.
pub open spec fn has_lib_kind(kinds: Seq<Seq<char>>) -> bool {
    exists|i: int| 0 <= i < kinds.len() && (text::has_suffix(#[trigger] kinds[i], "lib"@) || kinds[i] == "proc-macro"@)
}

pub open spec fn lib_types_at() -> spec_fn(TargetInfoView) -> Seq<Seq<char>> {
    |t: TargetInfoView|
        if has_lib_kind(t.kind) {
            t.crate_types
        } else {
            Seq::empty()
        }
}

pub open spec fn bin_target_at(manifest_path: Seq<char>) -> spec_fn(TargetInfoView) -> Option<BinView> {
    |t: TargetInfoView|
        if t.kind.contains("bin"@) {
            Some(BinView { name: t.name, path: paths::relative_to(t.src_path, paths::dir_of(manifest_path)) })
        } else {
            None
        }
}

pub open spec fn target_path(t: Option<TargetInfoView>, manifest_path: Seq<char>) -> Option<Seq<char>> {
    match t {
        Some(t) => Some(paths::relative_to(t.src_path, paths::dir_of(manifest_path))),
        None => None,
    }
}

fn find_lib_target(targets: &Vec<Target>) -> (r: Option<&Target>)
    ensures
        r.deep_view() == lists::first_with(targets.deep_view(), is_lib_target()),
{
    let ghost s = targets.deep_view();
    for i in 0..targets.len()
        invariant
            s == targets.deep_view(),
            forall|j: int| 0 <= j < i ==> !is_lib_target()(#[trigger] s[j]),
    {
        assert(s[i as int] == targets@[i as int].deep_view());
        let k = &targets[i].kind;
        if sorted::has_text(k, "lib") || sorted::has_text(k, "cdylib") || sorted::has_text(k, "dylib")
            || sorted::has_text(k, "rlib") || sorted::has_text(k, "proc-macro") {
            proof {
                lists::lemma_first_with_is(s, is_lib_target(), i as int);
            }
            return Some(&targets[i]);
        }
    }
    proof {
        lists::lemma_first_with_is(s, is_lib_target(), s.len() as int);
    }
    None
}

fn find_kind<'a>(targets: &'a Vec<Target>, kind: &str) -> (r: Option<&'a Target>)
    ensures
        r.deep_view() == lists::first_with(targets.deep_view(), kind_is(kind@)),
{
    let ghost s = targets.deep_view();
    for i in 0..targets.len()
        invariant
            s == targets.deep_view(),
            forall|j: int| 0 <= j < i ==> !kind_is(kind@)(#[trigger] s[j]),
    {
        assert(s[i as int] == targets@[i as int].deep_view());
        if sorted::has_text(&targets[i].kind, kind) {
            proof {
                lists::lemma_first_with_is(s, kind_is(kind@), i as int);
            }
            return Some(&targets[i]);
        }
    }
    proof {
        lists::lemma_first_with_is(s, kind_is(kind@), s.len() as int);
    }
    None
}

fn any_lib_kind(kinds: &Vec<String>) -> (r: bool)
    ensures
        r == has_lib_kind(kinds.deep_view()),
{
    let ghost s = kinds.deep_view();
    for i in 0..kinds.len()
        invariant
            s == kinds.deep_view(),
            forall|j: int|
                0 <= j < i ==> !(text::has_suffix(#[trigger] s[j], "lib"@) || s[j] == "proc-macro"@),
    {
        assert(s[i as int] == kinds@[i as int]@);
        if text::ends_with(&kinds[i], "lib") || text::same(&kinds[i], "proc-macro") {
            return true;
        }
    }
    false
}

fn list_bins(targets: &Vec<Target>, manifest_path: &str) -> (r: Vec<BinTarget>)
    ensures
        r.deep_view() == targets.deep_view().filter_map(bin_target_at(manifest_path@)),
{
    let ghost s = targets.deep_view();
    let ghost f = bin_target_at(manifest_path@);
    let mut out: Vec<BinTarget> = Vec::new();
    assert(out.deep_view() =~= s.take(0).filter_map(f));
    for i in 0..targets.len()
        invariant
            s == targets.deep_view(),
            f == bin_target_at(manifest_path@),
            out.deep_view() == s.take(i as int).filter_map(f),
    {
        let ghost o = out.deep_view();
        assert(s.take(i + 1).drop_last() =~= s.take(i as int));
        assert(s.take(i + 1).last() == targets@[i as int].deep_view());
        if sorted::has_text(&targets[i].kind, "bin") {
            let b = BinTarget {
                name: targets[i].name.clone(),
                path: relative_src_path(&targets[i].src_path, manifest_path),
            };
            let ghost bv = b.deep_view();
            out.push(b);
            assert(out.deep_view() =~= o + seq![bv]);
        }
    }
    assert(s.take(s.len() as int) =~= s);
    out
}

fn list_lib_types(targets: &Vec<Target>) -> (r: Vec<String>)
    ensures
        r.deep_view() == sorted::set_of(lists::flat(targets.deep_view(), lib_types_at())),
{
    let ghost s = targets.deep_view();
    let ghost f = lib_types_at();
    let mut out: Vec<String> = Vec::new();
    assert(s.take(0) =~= Seq::empty());
    assert(out.deep_view() =~= Seq::empty());
    for i in 0..targets.len()
        invariant
            s == targets.deep_view(),
            f == lib_types_at(),
            out.deep_view() == sorted::set_of(lists::flat(s.take(i as int), f)),
    {
        assert(s.take(i + 1).drop_last() =~= s.take(i as int));
        assert(s.take(i + 1).last() == targets@[i as int].deep_view());
        let ghost done = lists::flat(s.take(i as int), f);
        if any_lib_kind(&targets[i].kind) {
            let types = &targets[i].crate_types;
            let ghost tv = types.deep_view();
            assert(done + tv.take(0) =~= done);
            for k in 0..types.len()
                invariant
                    tv == types.deep_view(),
                    out.deep_view() == sorted::set_of(done + tv.take(k as int)),
            {
                let ghost more = done + tv.take(k + 1);
                assert(more.drop_last() =~= done + tv.take(k as int));
                assert(more.last() == types@[k as int]@);
                sorted::insert_text(&mut out, types[k].clone());
            }
            assert(tv.take(tv.len() as int) =~= tv);
        } else {
            assert(done + Seq::<Seq<char>>::empty() =~= done);
        }
    }
    assert(s.take(s.len() as int) =~= s);
    out
}

// ---------------------------------------------------------------------------
// Features
// ---------------------------------------------------------------------------

/// A dependency that is no development dependency, as feature resolution sees it.
pub open spec fn feature_dep_at(node: NodeView, packages: Seq<PackageView>, t: TargetView) -> spec_fn(
    DependencyView,
) -> Option<DepFeatureView> {
    |d: DependencyView|
        match leads_to(d, node, packages, t) {
            Some(q) => if d.kind == DepKind::Development {
                None
            } else {
                Some(
                    DepFeatureView {
                        name: declared_name(d),
                        package_id: shortened(q.id, packages),
                        uses_default_features: d.uses_default_features,
                        features: d.features,
                    },
                )
            },
            None => None,
        }
}

pub open spec fn optional_at() -> spec_fn(DependencyView) -> Option<Seq<char>> {
    |d: DependencyView|
        if d.optional {
            Some(declared_name(d))
        } else {
            None
        }
}

/// A package as feature resolution sees it.
pub open spec fn feature_package(
    p: PackageView,
    node: Option<NodeView>,
    packages: Seq<PackageView>,
    t: TargetView,
) -> PackageFeatureView {
    PackageFeatureView {
        features: sorted::map_of(p.features),
        dependencies: match node {
            Some(n) => p.dependencies.filter_map(feature_dep_at(n, packages, t)),
            None => Seq::empty(),
        },
        optional_deps: p.dependencies.filter_map(optional_at()),
    }
}

/// The features that a dependency asks for.
pub open spec fn features_asked(features: Seq<Seq<char>>, uses_default_features: bool) -> Seq<Seq<char>> {
    if uses_default_features {
        features.push("default"@)
    } else {
        features
    }
}

/// A development dependency, with the features that it asks for.
pub open spec fn dev_root_at(node: NodeView, packages: Seq<PackageView>, t: TargetView) -> spec_fn(
    DependencyView,
) -> Option<(Seq<char>, Seq<Seq<char>>)> {
    |d: DependencyView|
        match leads_to(d, node, packages, t) {
            Some(q) => if d.kind == DepKind::Development && !d.optional {
                Some((shortened(q.id, packages), features_asked(d.features, d.uses_default_features)))
            } else {
                None
            },
            None => None,
        }
}

/// The development dependencies of the package with an ID, each with the features that it asks for.
pub open spec fn dev_roots_at(packages: Seq<PackageView>, nodes: Seq<NodeView>, t: TargetView) -> spec_fn(
    Seq<char>,
) -> Seq<(Seq<char>, Seq<Seq<char>>)> {
    |id: Seq<char>|
        match (package_by_id(packages, id), node_by_id(nodes, id)) {
            (Some(p), Some(n)) => p.dependencies.filter_map(dev_root_at(n, packages, t)),
            _ => Seq::empty(),
        }
}

pub open spec fn root_at(features: Seq<Seq<char>>) -> spec_fn((Seq<char>, Seq<char>)) -> (Seq<char>, Seq<Seq<char>>) {
    |e: (Seq<char>, Seq<char>)| (e.1, features)
}

/// Where feature resolution starts: at every workspace member with the features requested, and at
/// what the members need for their own development.
pub open spec fn metadata_roots(
    m: MetadataView,
    nodes: Seq<NodeView>,
    t: TargetView,
    root_features: Seq<Seq<char>>,
) -> Seq<(Seq<char>, Seq<Seq<char>>)> {
    members_of(m).map_values(root_at(root_features)) + lists::flat(
        m.workspace_members,
        dev_roots_at(m.packages, nodes, t),
    )
}

fn find_feature_dep(
    d: &Dependency,
    node: &Node,
    packages: &Packages,
    target: &TargetDescription,
) -> (r: Option<DepFeatureInfo>)
    ensures
        r.deep_view() == feature_dep_at(node.deep_view(), packages.deep_view(), target.deep_view())(d.deep_view()),
{
    match find_led_to(d, node, packages, target) {
        Some(q) => {
            if d.kind == DepKind::Development {
                None
            } else {
                Some(
                    DepFeatureInfo {
                        name: name_declared(d).to_owned(),
                        package_id: shorten_id(&q.id, packages),
                        uses_default_features: d.uses_default_features,
                        features: sorted::copy_texts(&d.features),
                    },
                )
            }
        },
        None => None,
    }
}

fn list_feature_deps(
    pkg: &Package,
    node: &Node,
    packages: &Packages,
    target: &TargetDescription,
) -> (r: Vec<DepFeatureInfo>)
    ensures
        r.deep_view() == pkg.deep_view().dependencies.filter_map(
            feature_dep_at(node.deep_view(), packages.deep_view(), target.deep_view()),
        ),
{
    let ghost s = pkg.dependencies.deep_view();
    let ghost f = feature_dep_at(node.deep_view(), packages.deep_view(), target.deep_view());
    let mut out: Vec<DepFeatureInfo> = Vec::new();
    assert(out.deep_view() =~= s.take(0).filter_map(f));
    for i in 0..pkg.dependencies.len()
        invariant
            s == pkg.dependencies.deep_view(),
            f == feature_dep_at(node.deep_view(), packages.deep_view(), target.deep_view()),
            out.deep_view() == s.take(i as int).filter_map(f),
    {
        let ghost o = out.deep_view();
        assert(s.take(i + 1).drop_last() =~= s.take(i as int));
        assert(s.take(i + 1).last() == pkg.dependencies@[i as int].deep_view());
        if let Some(x) = find_feature_dep(&pkg.dependencies[i], node, packages, target) {
            let ghost xv = x.deep_view();
            out.push(x);
            assert(out.deep_view() =~= o + seq![xv]);
        }
    }
    assert(s.take(s.len() as int) =~= s);
    out
}

fn list_optional(pkg: &Package) -> (r: Vec<String>)
    ensures
        r.deep_view() == pkg.deep_view().dependencies.filter_map(optional_at()),
{
    let ghost s = pkg.dependencies.deep_view();
    let mut out: Vec<String> = Vec::new();
    assert(out.deep_view() =~= s.take(0).filter_map(optional_at()));
    for i in 0..pkg.dependencies.len()
        invariant
            s == pkg.dependencies.deep_view(),
            out.deep_view() == s.take(i as int).filter_map(optional_at()),
    {
        let ghost o = out.deep_view();
        assert(s.take(i + 1).drop_last() =~= s.take(i as int));
        assert(s.take(i + 1).last() == pkg.dependencies@[i as int].deep_view());
        let d = &pkg.dependencies[i];
        if d.optional {
            out.push(name_declared(d).to_owned());
            assert(out.deep_view() =~= o + seq![declared_name(d.deep_view())]);
        }
    }
    assert(s.take(s.len() as int) =~= s);
    out
}

fn list_features(pkg: &Package) -> (r: StrMap<Vec<String>>)
    ensures
        r.deep_view() == sorted::map_of(pkg.deep_view().features),
        r.wf(),
{
    let ghost fs = pkg.features.deep_view();
    let mut features: StrMap<Vec<String>> = StrMap::new();
    assert(fs.take(0) =~= Seq::empty());
    for i in 0..pkg.features.len()
        invariant
            fs == pkg.features.deep_view(),
            features.deep_view() == sorted::map_of(fs.take(i as int)),
            features.wf(),
    {
        assert(fs.take(i + 1).drop_last() =~= fs.take(i as int));
        assert(fs.take(i + 1).last() == pkg.features@[i as int].deep_view());
        features.insert(pkg.features[i].0.clone(), sorted::copy_texts(&pkg.features[i].1));
    }
    assert(fs.take(fs.len() as int) =~= fs);
    features
}

fn make_feature_package(
    pkg: &Package,
    node: Option<&Node>,
    packages: &Packages,
    target: &TargetDescription,
) -> (r: PackageFeatureInfo)
    ensures
        r.deep_view() == feature_package(
            pkg.deep_view(),
            node.deep_view(),
            packages.deep_view(),
            target.deep_view(),
        ),
{
    let dependencies: Vec<DepFeatureInfo> = match node {
        Some(n) => list_feature_deps(pkg, n, packages, target),
        None => {
            let none: Vec<DepFeatureInfo> = Vec::new();
            assert(none.deep_view() =~= Seq::empty());
            none
        },
    };
    PackageFeatureInfo { features: list_features(pkg), dependencies, optional_deps: list_optional(pkg) }
}

fn add_dev_roots(
    roots: &mut Vec<(String, Vec<String>)>,
    pkg: &Package,
    node: &Node,
    packages: &Packages,
    target: &TargetDescription,
)
    ensures
        final(roots).deep_view() == old(roots).deep_view() + pkg.deep_view().dependencies.filter_map(
            dev_root_at(node.deep_view(), packages.deep_view(), target.deep_view()),
        ),
{
    let ghost s = pkg.dependencies.deep_view();
    let ghost f = dev_root_at(node.deep_view(), packages.deep_view(), target.deep_view());
    let ghost start = roots.deep_view();
    assert(roots.deep_view() =~= start + s.take(0).filter_map(f));
    for i in 0..pkg.dependencies.len()
        invariant
            s == pkg.dependencies.deep_view(),
            f == dev_root_at(node.deep_view(), packages.deep_view(), target.deep_view()),
            roots.deep_view() == start + s.take(i as int).filter_map(f),
    {
        let ghost o = roots.deep_view();
        let ghost done = s.take(i as int).filter_map(f);
        assert(s.take(i + 1).drop_last() =~= s.take(i as int));
        assert(s.take(i + 1).last() == pkg.dependencies@[i as int].deep_view());
        let d = &pkg.dependencies[i];
        if d.kind == DepKind::Development && !d.optional {
            if let Some(q) = find_led_to(d, node, packages, target) {
                let mut asked = sorted::copy_texts(&d.features);
                if d.uses_default_features {
                    let ghost before = asked.deep_view();
                    asked.push("default".to_owned());
                    assert(asked.deep_view() =~= before.push("default"@));
                }
                let root = (shorten_id(&q.id, packages), asked);
                let ghost rv = root.deep_view();
                roots.push(root);
                assert(roots.deep_view() =~= o.push(rv));
                assert(s.take(i + 1).filter_map(f) =~= done + seq![rv]);
                assert(start + (done + seq![rv]) =~= roots.deep_view());
            }
        }
    }
    assert(s.take(s.len() as int) =~= s);
}

// ---------------------------------------------------------------------------
// The workspace
// ---------------------------------------------------------------------------

/// What the crates of a workspace are made of.
pub struct Surroundings {
    pub packages: Seq<PackageView>,
    pub nodes: Seq<NodeView>,
    pub hashes: Seq<HashView>,
    pub target: TargetView,
    pub workspace_root: Seq<char>,
}

/// The crate that a package resolves to, given the features and the optional dependencies that are
/// on.
pub open spec fn package_crate(
    p: PackageView,
    c: Surroundings,
    on: spec_fn(Seq<char>) -> bool,
    features: Seq<Seq<char>>,
) -> CrateView {
    let node = node_by_id(c.nodes, p.id);
    let lib = lists::first_with(p.targets, is_lib_target());
    CrateView {
        crate_name: p.name,
        version: p.version,
        edition: p.edition,
        sha256: package_hash(p, c.hashes),
        source: package_source(p, c.workspace_root),
        dependencies: package_deps(DepKind::Normal, p, node, c.packages, c.target, on),
        build_dependencies: package_deps(DepKind::Build, p, node, c.packages, c.target, on),
        dev_dependencies: package_deps(DepKind::Development, p, node, c.packages, c.target, on),
        features: sorted::map_of(p.features),
        resolved_default_features: features,
        proc_macro: lists::first_with(p.targets, kind_is("proc-macro"@)) is Some,
        build: target_path(lists::first_with(p.targets, kind_is("custom-build"@)), p.manifest_path),
        lib_path: target_path(lib, p.manifest_path),
        lib_name: match lib {
            Some(l) => Some(normalized(l.name)),
            None => None,
        },
        crate_bin: p.targets.filter_map(bin_target_at(p.manifest_path)),
        lib_crate_types: sorted::set_of(lists::flat(p.targets, lib_types_at())),
        links: p.links,
        authors: p.authors,
    }
}

/// A package, and what feature resolution sees of it.
pub struct Draft<'a> {
    pub package: &'a Package,
    pub features: PackageFeatureInfo,
}

/// The view of a [`Draft`].
pub struct DraftView {
    pub package: PackageView,
    pub features: PackageFeatureView,
}

impl<'a> DeepView for Draft<'a> {
    type V = DraftView;

    open spec fn deep_view(&self) -> DraftView {
        DraftView { package: self.package.deep_view(), features: self.features.deep_view() }
    }
}

pub open spec fn draft_at(packages: Seq<PackageView>, nodes: Seq<NodeView>, t: TargetView) -> spec_fn(
    PackageView,
) -> (Seq<char>, DraftView) {
    |p: PackageView|
        (
            shortened(p.id, packages),
            DraftView { package: p, features: feature_package(p, node_by_id(nodes, p.id), packages, t) },
        )
}

/// The packages by short ID.
pub open spec fn drafts_of(packages: Seq<PackageView>, nodes: Seq<NodeView>, t: TargetView) -> Seq<
    (Seq<char>, DraftView),
> {
    sorted::map_of(packages.map_values(draft_at(packages, nodes, t)))
}

pub open spec fn draft_features_at() -> spec_fn((Seq<char>, DraftView)) -> (Seq<char>, PackageFeatureView) {
    |e: (Seq<char>, DraftView)| (e.0, e.1.features)
}

pub open spec fn member_entry_at(packages: Seq<PackageView>) -> spec_fn(Seq<char>) -> Option<(Seq<char>, Seq<char>)> {
    |id: Seq<char>|
        match package_by_id(packages, id) {
            Some(p) => Some((p.name, shortened(id, packages))),
            None => None,
        }
}

/// The workspace members by name, each with its short ID.
pub open spec fn members_of(m: MetadataView) -> Seq<(Seq<char>, Seq<char>)> {
    sorted::map_of(m.workspace_members.filter_map(member_entry_at(m.packages)))
}

pub open spec fn root_entry(root: Option<Seq<char>>, packages: Seq<PackageView>) -> Option<Seq<char>> {
    match root {
        Some(id) => match package_by_id(packages, id) {
            Some(p) => Some(shortened(id, packages)),
            None => None,
        },
        None => None,
    }
}

/// The rules by which the features of a workspace are resolved, starting from those requested of its
/// members.
pub open spec fn metadata_rules(
    m: MetadataView,
    nodes: Seq<NodeView>,
    t: TargetView,
    root_features: Seq<Seq<char>>,
) -> Seq<RuleView> {
    feature_resolve::rules_of(
        drafts_of(m.packages, nodes, t).map_values(draft_features_at()),
        metadata_roots(m, nodes, t, root_features),
    )
}

/// Whether the rules turn the optional dependency with a name on, in package `i`.
pub open spec fn dep_on(rules: Seq<RuleView>, i: int) -> spec_fn(Seq<char>) -> bool {
    |x: Seq<char>| feature_resolve::derivable(rules, FactView::Dep(i, x))
}

/// Whether `after` is the crate of the package at place `i`: it has the features that the rules turn
/// on, in order, and the optional dependencies that they turn on.
pub open spec fn is_crate_of(
    draft: (Seq<char>, DraftView),
    after: (Seq<char>, CrateView),
    c: Surroundings,
    rules: Seq<RuleView>,
    i: int,
) -> bool {
    &&& after.0 == draft.0
    &&& feature_resolve::lists_features(after.1.resolved_default_features, rules, i)
    &&& after.1 == package_crate(draft.1.package, c, dep_on(rules, i), after.1.resolved_default_features)
}

/// What the crates of metadata are made of.
pub open spec fn surroundings_of(
    m: MetadataView,
    nodes: Seq<NodeView>,
    hashes: Seq<HashView>,
    t: TargetView,
) -> Surroundings {
    Surroundings { packages: m.packages, nodes, hashes, target: t, workspace_root: m.workspace_root }
}

/// Whether `w` is what metadata with the resolved graph `r` resolves to.
pub open spec fn is_metadata_result(
    w: WorkspaceView,
    m: MetadataView,
    r: ResolveView,
    hashes: Seq<HashView>,
    t: TargetView,
    root_features: Seq<Seq<char>>,
) -> bool {
    let drafts = drafts_of(m.packages, r.nodes, t);
    let rules = metadata_rules(m, r.nodes, t, root_features);
    &&& w.api_level == API_LEVEL
    &&& w.root == root_entry(r.root, m.packages)
    &&& w.workspace_root == m.workspace_root
    &&& w.workspace_members == members_of(m)
    &&& w.crates.len() == drafts.len()
    &&& forall|i: int|
        0 <= i < drafts.len() ==> is_crate_of(
            drafts[i],
            #[trigger] w.crates[i],
            surroundings_of(m, r.nodes, hashes, t),
            rules,
            i,
        )
}

/// Whether `r` is what metadata and the hashes of a lock file resolve to. Without a resolved graph it
/// is an error.
pub open spec fn metadata_resolved(
    m: MetadataView,
    hashes: Seq<HashView>,
    t: TargetView,
    root_features: Seq<Seq<char>>,
    r: Result<WorkspaceView, Seq<char>>,
) -> bool {
    match m.resolve {
        None => r == Err::<WorkspaceView, Seq<char>>("No resolve section in metadata"@),
        Some(graph) => r matches Ok(w) && is_metadata_result(w, m, graph, hashes, t, root_features),
    }
}

fn make_crate(
    pkg: &Package,
    metadata: &Metadata,
    packages: &Packages,
    nodes: &Nodes,
    hashes: &LockfileHashes,
    target: &TargetDescription,
    on: &Vec<String>,
    features: &Vec<String>,
) -> (r: CrateInfo)
    requires
        packages.deep_view() == metadata.deep_view().packages,
    ensures
        r.deep_view() == package_crate(
            pkg.deep_view(),
            surroundings_of(metadata.deep_view(), nodes.deep_view(), hashes.deep_view(), target.deep_view()),
            is_in(on.deep_view()),
            features.deep_view(),
        ),
        r.features.wf(),
{
    let node = nodes.find(&pkg.id);
    let (dependencies, build_dependencies, dev_dependencies) = resolve_dependencies(
        pkg,
        node,
        packages,
        target,
        on,
    );
    let lib = find_lib_target(&pkg.targets);
    let lib_path = match lib {
        Some(t) => Some(relative_src_path(&t.src_path, &pkg.manifest_path)),
        None => None,
    };
    let lib_name = match lib {
        Some(t) => Some(normalize_name(&t.name)),
        None => None,
    };
    let build = match find_kind(&pkg.targets, "custom-build") {
        Some(t) => Some(relative_src_path(&t.src_path, &pkg.manifest_path)),
        None => None,
    };
    CrateInfo {
        crate_name: pkg.name.clone(),
        version: pkg.version.clone(),
        edition: pkg.edition.clone(),
        sha256: get_sha256(pkg, hashes),
        source: resolve_source(pkg, &metadata.workspace_root),
        dependencies,
        build_dependencies,
        dev_dependencies,
        features: list_features(pkg),
        resolved_default_features: sorted::copy_texts(features),
        proc_macro: find_kind(&pkg.targets, "proc-macro").is_some(),
        build,
        lib_path,
        lib_name,
        crate_bin: list_bins(&pkg.targets, &pkg.manifest_path),
        lib_crate_types: list_lib_types(&pkg.targets),
        links: sorted::copy_opt(&pkg.links),
        authors: sorted::copy_texts(&pkg.authors),
    }
}

fn list_members(metadata: &Metadata, packages: &Packages) -> (r: StrMap<String>)
    requires
        packages.deep_view() == metadata.deep_view().packages,
    ensures
        r.deep_view() == members_of(metadata.deep_view()),
        r.wf(),
{
    let ghost all = packages.deep_view();
    let ghost ids = metadata.workspace_members.deep_view();
    let ghost f = member_entry_at(all);
    let mut members: StrMap<String> = StrMap::new();
    assert(ids.take(0).filter_map(f) =~= Seq::empty());
    for i in 0..metadata.workspace_members.len()
        invariant
            all == packages.deep_view(),
            ids == metadata.workspace_members.deep_view(),
            f == member_entry_at(all),
            members.deep_view() == sorted::map_of(ids.take(i as int).filter_map(f)),
            members.wf(),
    {
        let ghost done = ids.take(i as int).filter_map(f);
        assert(ids.take(i + 1).drop_last() =~= ids.take(i as int));
        assert(ids.take(i + 1).last() == metadata.workspace_members@[i as int]@);
        let id = &metadata.workspace_members[i];
        if let Some(p) = packages.find(id) {
            let short = shorten_id(id, packages);
            proof {
                let more = ids.take(i + 1).filter_map(f);
                assert(more =~= done + seq![(p.name@, short@)]);
                assert(more.drop_last() =~= done);
            }
            members.insert(p.name.clone(), short);
        }
    }
    assert(ids.take(ids.len() as int) =~= ids);
    members
}

fn list_roots(
    metadata: &Metadata,
    packages: &Packages,
    nodes: &Nodes,
    members: &StrMap<String>,
    target: &TargetDescription,
    root_features: &Vec<String>,
) -> (r: Vec<(String, Vec<String>)>)
    requires
        packages.deep_view() == metadata.deep_view().packages,
        members.deep_view() == members_of(metadata.deep_view()),
    ensures
        r.deep_view() == metadata_roots(
            metadata.deep_view(),
            nodes.deep_view(),
            target.deep_view(),
            root_features.deep_view(),
        ),
{
    let ghost ms = members.deep_view();
    let ghost rt = ms.map_values(root_at(root_features.deep_view()));
    let mut roots: Vec<(String, Vec<String>)> = Vec::new();
    assert(roots.deep_view() =~= rt.take(0));
    for i in 0..members.entries.len()
        invariant
            ms == members.entries.deep_view(),
            rt == ms.map_values(root_at(root_features.deep_view())),
            roots.deep_view() == rt.take(i as int),
    {
        let ghost o = roots.deep_view();
        assert(ms[i as int] == members.entries@[i as int].deep_view());
        roots.push((members.entries[i].1.clone(), sorted::copy_texts(root_features)));
        assert(roots.deep_view() =~= o.push(rt[i as int]));
        assert(rt.take(i + 1) =~= rt.take(i as int).push(rt[i as int]));
    }
    assert(rt.take(ms.len() as int) =~= rt);
    let ghost ids = metadata.workspace_members.deep_view();
    let ghost g = dev_roots_at(packages.deep_view(), nodes.deep_view(), target.deep_view());
    assert(ids.take(0) =~= Seq::empty());
    assert(roots.deep_view() =~= rt + lists::flat(ids.take(0), g));
    for i in 0..metadata.workspace_members.len()
        invariant
            ids == metadata.workspace_members.deep_view(),
            g == dev_roots_at(packages.deep_view(), nodes.deep_view(), target.deep_view()),
            roots.deep_view() == rt + lists::flat(ids.take(i as int), g),
    {
        let ghost o = roots.deep_view();
        let ghost done = lists::flat(ids.take(i as int), g);
        assert(ids.take(i + 1).drop_last() =~= ids.take(i as int));
        assert(ids.take(i + 1).last() == metadata.workspace_members@[i as int]@);
        let id = &metadata.workspace_members[i];
        if let (Some(p), Some(n)) = (packages.find(id), nodes.find(id)) {
            add_dev_roots(&mut roots, p, n, packages, target);
        }
        assert(rt + (done + g(id@)) =~= rt + done + g(id@));
        assert(roots.deep_view() =~= o + g(id@));
    }
    assert(ids.take(ids.len() as int) =~= ids);
    roots
}

fn make_drafts<'a>(
    metadata: &'a Metadata,
    packages: &Packages,
    nodes: &Nodes,
    target: &TargetDescription,
) -> (r: StrMap<Draft<'a>>)
    requires
        packages.deep_view() == metadata.deep_view().packages,
    ensures
        r.deep_view() == drafts_of(metadata.deep_view().packages, nodes.deep_view(), target.deep_view()),
        r.wf(),
{
    let list = &metadata.packages;
    let ghost all = list.deep_view();
    let ghost g = draft_at(all, nodes.deep_view(), target.deep_view());
    let ghost full = all.map_values(g);
    let mut drafts: StrMap<Draft<'a>> = StrMap::new();
    assert(full.take(0) =~= Seq::empty());
    for i in 0..list.len()
        invariant
            all == list.deep_view(),
            all == packages.deep_view(),
            g == draft_at(all, nodes.deep_view(), target.deep_view()),
            full == all.map_values(g),
            drafts.deep_view() == sorted::map_of(full.take(i as int)),
            drafts.wf(),
    {
        assert(all[i as int] == list@[i as int].deep_view());
        assert(full.take(i + 1).drop_last() =~= full.take(i as int));
        assert(full.take(i + 1).last() == full[i as int]);
        let p = &list[i];
        let features = make_feature_package(p, nodes.find(&p.id), packages, target);
        drafts.insert(shorten_id(&p.id, packages), Draft { package: p, features });
    }
    assert(full.take(all.len() as int) =~= full);
    drafts
}

/// Resolves the features of all packages and makes their crates.
fn finish_crates(
    drafts: StrMap<Draft>,
    roots: &Vec<(String, Vec<String>)>,
    metadata: &Metadata,
    packages: &Packages,
    nodes: &Nodes,
    hashes: &LockfileHashes,
    target: &TargetDescription,
) -> (r: StrMap<CrateInfo>)
    requires
        drafts.wf(),
        packages.deep_view() == metadata.deep_view().packages,
    ensures
        r.wf(),
        r.deep_view().len() == drafts.deep_view().len(),
        forall|i: int|
            0 <= i < drafts.deep_view().len() ==> is_crate_of(
                drafts.deep_view()[i],
                #[trigger] r.deep_view()[i],
                surroundings_of(metadata.deep_view(), nodes.deep_view(), hashes.deep_view(), target.deep_view()),
                feature_resolve::rules_of(
                    drafts.deep_view().map_values(draft_features_at()),
                    roots.deep_view(),
                ),
                i,
            ),
{
    let ghost ds = drafts.deep_view();
    let ghost pf = ds.map_values(draft_features_at());
    let ghost c = surroundings_of(
        metadata.deep_view(),
        nodes.deep_view(),
        hashes.deep_view(),
        target.deep_view(),
    );
    let ghost rules = feature_resolve::rules_of(pf, roots.deep_view());
    let mut ids: Vec<String> = Vec::new();
    let mut owners: Vec<&Package> = Vec::new();
    let mut entries: Vec<(String, PackageFeatureInfo)> = Vec::new();
    assert(entries.deep_view() =~= pf.take(0));
    for e in it: drafts.entries
        invariant
            it.seq().len() == ds.len(),
            forall|j: int| 0 <= j < ds.len() ==> #[trigger] it.seq()[j].deep_view() == ds[j],
            pf == ds.map_values(draft_features_at()),
            entries.deep_view() == pf.take(it.index()),
            ids@.len() == it.index(),
            owners@.len() == it.index(),
            forall|j: int| 0 <= j < it.index() ==> (#[trigger] ids@[j])@ == ds[j].0,
            forall|j: int| 0 <= j < it.index() ==> (#[trigger] owners@[j]).deep_view() == ds[j].1.package,
    {
        let ghost i = it.index();
        let ghost o = entries.deep_view();
        assert(it.seq()[i].deep_view() == ds[i]);
        assert(e.deep_view() == ds[i]);
        let (id, draft) = e;
        ids.push(id.clone());
        owners.push(draft.package);
        entries.push((id, draft.features));
        assert(entries.deep_view() =~= o.push(pf[i]));
        assert(pf.take(i + 1) =~= pf.take(i).push(pf[i]));
    }
    assert(pf.take(ds.len() as int) =~= pf);
    let listed = StrMap { entries };
    let resolution = feature_resolve::resolve_features(&listed, roots);
    let mut out: Vec<(String, CrateInfo)> = Vec::new();
    for i in 0..ids.len()
        invariant
            ids@.len() == ds.len(),
            owners@.len() == ds.len(),
            listed.deep_view() == pf,
            packages.deep_view() == metadata.deep_view().packages,
            pf.len() == ds.len(),
            rules == feature_resolve::rules_of(pf, roots.deep_view()),
            c == surroundings_of(
                metadata.deep_view(),
                nodes.deep_view(),
                hashes.deep_view(),
                target.deep_view(),
            ),
            resolution.features@.len() == ds.len(),
            resolution.active_optional_deps@.len() == ds.len(),
            forall|j: int|
                0 <= j < ds.len() ==> feature_resolve::lists_features(
                    (#[trigger] resolution.features@[j]).1.deep_view(),
                    rules,
                    j,
                ),
            forall|j: int|
                0 <= j < ds.len() ==> feature_resolve::lists_deps(
                    (#[trigger] resolution.active_optional_deps@[j]).1.deep_view(),
                    rules,
                    j,
                ),
            forall|j: int| 0 <= j < ds.len() ==> (#[trigger] ids@[j])@ == ds[j].0,
            forall|j: int| 0 <= j < ds.len() ==> (#[trigger] owners@[j]).deep_view() == ds[j].1.package,
            out@.len() == i,
            forall|j: int| 0 <= j < i ==> is_crate_of(ds[j], (#[trigger] out@[j]).deep_view(), c, rules, j),
    {
        let on = &resolution.active_optional_deps[i].1;
        let features = &resolution.features[i].1;
        let info = make_crate(owners[i], metadata, packages, nodes, hashes, target, on, features);
        proof {
            let j = i as int;
            assert(feature_resolve::lists_features(resolution.features@[j].1.deep_view(), rules, j));
            assert(feature_resolve::lists_deps(resolution.active_optional_deps@[j].1.deep_view(), rules, j));
            assert(is_in(on.deep_view()) =~= dep_on(rules, j));
        }
        out.push((ids[i].clone(), info));
        assert(is_crate_of(ds[i as int], out@[i as int].deep_view(), c, rules, i as int));
    }
    let r = StrMap { entries: out };
    proof {
        let rv = r.deep_view();
        assert forall|i: int| 0 <= i < ds.len() implies is_crate_of(ds[i], #[trigger] rv[i], c, rules, i) by {
            assert(rv[i] == out@[i].deep_view());
        }
        assert forall|i: int, j: int| 0 <= i < j < rv.len() implies sorted::before(
            #[trigger] rv[i].0,
            #[trigger] rv[j].0,
        ) by {
            assert(is_crate_of(ds[i], rv[i], c, rules, i));
            assert(is_crate_of(ds[j], rv[j], c, rules, j));
            assert(sorted::before(ds[i].0, ds[j].0));
        }
    }
    r
}

/// Resolves a workspace from metadata that was read, and the hashes of its lock file. Features are
/// resolved starting from `root_features` for every workspace member; Cargo's own graph tells which
/// package a dependency leads to.
pub fn resolve_metadata(
    metadata: &Metadata,
    hashes: &LockfileHashes,
    target: &TargetDescription,
    root_features: &Vec<String>,
) -> (r: Result<WorkspaceResult, String>)
    ensures
        metadata_resolved(
            metadata.deep_view(),
            hashes.deep_view(),
            target.deep_view(),
            root_features.deep_view(),
            match r {
                Ok(w) => Ok::<WorkspaceView, Seq<char>>(w.deep_view()),
                Err(e) => Err::<WorkspaceView, Seq<char>>(e@),
            },
        ),
        r matches Ok(w) ==> w.workspace_members.wf() && w.crates.wf(),
{
    let resolve = match &metadata.resolve {
        Some(r) => r,
        None => {
            return Err("No resolve section in metadata".to_owned());
        },
    };
    let packages = Packages::of(&metadata.packages);
    let nodes = Nodes::of(&resolve.nodes);
    let members = list_members(metadata, &packages);
    let root = match &resolve.root {
        Some(id) => match packages.find(id) {
            Some(_) => Some(shorten_id(id, &packages)),
            None => None,
        },
        None => None,
    };
    let roots = list_roots(metadata, &packages, &nodes, &members, target, root_features);
    let drafts = make_drafts(metadata, &packages, &nodes, target);
    let crates = finish_crates(drafts, &roots, metadata, &packages, &nodes, hashes, target);
    Ok(
        WorkspaceResult {
            api_level: API_LEVEL,
            root,
            workspace_root: metadata.workspace_root.clone(),
            workspace_members: members,
            crates,
        },
    )
}

/// Whether `r` is what the output of `cargo metadata` and the text of a `Cargo.lock` resolve to.
pub open spec fn workspace_resolved(
    metadata_json: Seq<char>,
    cargo_lock: Seq<char>,
    t: TargetView,
    root_features: Seq<Seq<char>>,
    r: Result<WorkspaceView, Seq<char>>,
) -> bool {
    match metadata::metadata_read(metadata_json) {
        Err(e) => r == Err::<WorkspaceView, Seq<char>>(e),
        Ok(m) => metadata_resolved(m, lockfile::lock_hashes(cargo_lock), t, root_features, r),
    }
}

/// Resolves a workspace from the output of `cargo metadata` and the text of its `Cargo.lock`, starting
/// from the features requested of its members.
pub fn resolve_workspace(
    metadata_json: &str,
    cargo_lock: &str,
    target: &TargetDescription,
    root_features: &Vec<String>,
) -> (r: Result<WorkspaceResult, String>)
    ensures
        workspace_resolved(
            metadata_json@,
            cargo_lock@,
            target.deep_view(),
            root_features.deep_view(),
            match r {
                Ok(w) => Ok::<WorkspaceView, Seq<char>>(w.deep_view()),
                Err(e) => Err::<WorkspaceView, Seq<char>>(e@),
            },
        ),
        r matches Ok(w) ==> w.workspace_members.wf() && w.crates.wf(),
{
    let metadata = match metadata::parse_metadata(metadata_json) {
        Ok(m) => m,
        Err(e) => {
            return Err(e);
        },
    };
    let hashes = lockfile::parse_lockfile(cargo_lock);
    resolve_metadata(&metadata, &hashes, target, root_features)
}

// ---------------------------------------------------------------------------
// Laws
// ---------------------------------------------------------------------------

/// The edges of a package are its declarations of that kind, as far as they are for the target, are
/// not optional or are on, and were resolved by Cargo: none of these is missing, and there is no
/// other.
pub proof fn lemma_edges_are_declared(
    kind: DepKind,
    p: PackageView,
    node: NodeView,
    packages: Seq<PackageView>,
    t: TargetView,
    on: spec_fn(Seq<char>) -> bool,
    d: DepView,
)
    ensures
        package_deps(kind, p, Some(node), packages, t, on).contains(d) <==> exists|k: int|
            0 <= k < p.dependencies.len() && p.dependencies[k].kind == kind && declared_dep(
                #[trigger] p.dependencies[k],
                node,
                packages,
                t,
                on,
            ) == Some(d),
{
    broadcast use vstd::seq_lib::group_to_multiset_ensures;

    let f = declared_dep_at(kind, node, packages, t, on);
    let all = p.dependencies.filter_map(f);
    let deps = package_deps(kind, p, Some(node), packages, t, on);
    sorted::lemma_sorted_by_key::<DepInfo>(all);
    assert(deps.contains(d) <==> all.contains(d)) by {
        assert(deps.contains(d) <==> deps.to_multiset().count(d) > 0);
        assert(all.contains(d) <==> all.to_multiset().count(d) > 0);
    }
    if all.contains(d) {
        lists::lemma_gathered_from(p.dependencies, f, d);
        let k = choose|k: int| 0 <= k < p.dependencies.len() && f(#[trigger] p.dependencies[k]) == Some(d);
        assert(declared_dep(p.dependencies[k], node, packages, t, on) == Some(d));
    }
    if exists|k: int|
        0 <= k < p.dependencies.len() && p.dependencies[k].kind == kind && declared_dep(
            #[trigger] p.dependencies[k],
            node,
            packages,
            t,
            on,
        ) == Some(d) {
        let k = choose|k: int|
            0 <= k < p.dependencies.len() && p.dependencies[k].kind == kind && declared_dep(
                #[trigger] p.dependencies[k],
                node,
                packages,
                t,
                on,
            ) == Some(d);
        lists::lemma_filter_map_has(p.dependencies, f, k, d);
    }
}

/// A dependency that is not for the target is no edge of its package, whatever is on.
pub proof fn lemma_other_targets_left_out(
    d: DependencyView,
    node: NodeView,
    packages: Seq<PackageView>,
    t: TargetView,
    on: spec_fn(Seq<char>) -> bool,
)
    requires
        !cfg_eval::applies_to(d.target, t),
    ensures
        declared_dep(d, node, packages, t, on) is None,
{
}

/// A local package is a local crate, with a path that is relative to the workspace, and has no hash.
pub proof fn lemma_local_crate(
    p: PackageView,
    c: Surroundings,
    on: spec_fn(Seq<char>) -> bool,
    features: Seq<Seq<char>>,
)
    requires
        p.source is None,
    ensures
        package_crate(p, c, on, features).sha256 is None,
        package_crate(p, c, on, features).source == Some(
            SourceView::Local { path: local_path(paths::dir_of(p.manifest_path), c.workspace_root) },
        ),
{
}

/// A crate in a directory of the workspace has the path of that directory below the workspace, and
/// one in the root of the workspace has `.`. The root is written without what follows its last name.
pub proof fn lemma_local_path(rel: Seq<char>, workspace_root: Seq<char>)
    requires
        workspace_root.len() > 0,
        workspace_root.last() != '/',
        paths::trimmed(workspace_root, paths::body_start(workspace_root)) == workspace_root,
        paths::is_plain(rel),
    ensures
        local_path(
            paths::dir_of(disk::joined_path(disk::joined_path(workspace_root, rel), "Cargo.toml"@)),
            workspace_root,
        ) == rel,
        local_path(paths::dir_of(disk::joined_path(workspace_root, "Cargo.toml"@)), workspace_root) == "."@,
{
    reveal_strlit("Cargo.toml");
    assert(!"Cargo.toml"@.contains('/'));
    paths::lemma_dir_joined(workspace_root, rel, "Cargo.toml"@);
    paths::lemma_dir_in(workspace_root, "Cargo.toml"@);
    paths::lemma_below_joined(workspace_root, rel);
    paths::lemma_below_itself(workspace_root);
}

/// Whether `d` is an edge of a crate, of any kind.
pub open spec fn has_edge(c: CrateView, d: DepView) -> bool {
    c.dependencies.contains(d) || c.build_dependencies.contains(d) || c.dev_dependencies.contains(d)
}

/// The crates have the IDs of the drafts.
proof fn lemma_has_crate(
    w: WorkspaceView,
    m: MetadataView,
    r: ResolveView,
    hashes: Seq<HashView>,
    t: TargetView,
    root_features: Seq<Seq<char>>,
    id: Seq<char>,
)
    requires
        is_metadata_result(w, m, r, hashes, t, root_features),
        package_by_id(m.packages, id) is Some,
    ensures
        sorted::entry_of(w.crates, shortened(id, m.packages)) is Some,
{
    let drafts = drafts_of(m.packages, r.nodes, t);
    lists::lemma_last_with(m.packages, has_id(id));
    let q = package_by_id(m.packages, id)->Some_0;
    let j = choose|j: int| 0 <= j < m.packages.len() && m.packages[j] == q;
    let s = m.packages.map_values(draft_at(m.packages, r.nodes, t));
    let short = shortened(id, m.packages);
    assert(s[j].0 == short);
    sorted::lemma_map_of_has(s, j);
    sorted::lemma_entry_of(drafts, short);
    sorted::lemma_entry_of(w.crates, short);
    let d = sorted::entry_of(drafts, short)->Some_0;
    let n = choose|n: int| 0 <= n < drafts.len() && #[trigger] drafts[n] == (short, d);
    assert(is_crate_of(
        drafts[n],
        w.crates[n],
        surroundings_of(m, r.nodes, hashes, t),
        metadata_rules(m, r.nodes, t, root_features),
        n,
    ));
    assert(w.crates[n].0 == short);
}

/// Every package of the metadata has a crate in the result.
pub proof fn lemma_every_package_has_crate(
    w: WorkspaceView,
    m: MetadataView,
    r: ResolveView,
    hashes: Seq<HashView>,
    t: TargetView,
    root_features: Seq<Seq<char>>,
    k: int,
)
    requires
        is_metadata_result(w, m, r, hashes, t, root_features),
        0 <= k < m.packages.len(),
    ensures
        sorted::entry_of(w.crates, shortened(m.packages[k].id, m.packages)) is Some,
{
    lists::lemma_last_with(m.packages, has_id(m.packages[k].id));
    assert(has_id(m.packages[k].id)(m.packages[k]));
    lemma_has_crate(w, m, r, hashes, t, root_features, m.packages[k].id);
}

/// The result is closed: every dependency of one of its crates is one of its crates.
pub proof fn lemma_edges_lead_to_crates(
    w: WorkspaceView,
    m: MetadataView,
    r: ResolveView,
    hashes: Seq<HashView>,
    t: TargetView,
    root_features: Seq<Seq<char>>,
    i: int,
    d: DepView,
)
    requires
        is_metadata_result(w, m, r, hashes, t, root_features),
        0 <= i < w.crates.len(),
        has_edge(w.crates[i].1, d),
    ensures
        sorted::entry_of(w.crates, d.package_id) is Some,
{
    let drafts = drafts_of(m.packages, r.nodes, t);
    let rules = metadata_rules(m, r.nodes, t, root_features);
    let on = dep_on(rules, i);
    assert(is_crate_of(drafts[i], w.crates[i], surroundings_of(m, r.nodes, hashes, t), rules, i));
    let p = drafts[i].1.package;
    let found = node_by_id(r.nodes, p.id);
    let kind = if w.crates[i].1.dependencies.contains(d) {
        DepKind::Normal
    } else if w.crates[i].1.build_dependencies.contains(d) {
        DepKind::Build
    } else {
        DepKind::Development
    };
    assert(package_deps(kind, p, found, m.packages, t, on).contains(d));
    let node = found->Some_0;
    assert(found is Some);
    lemma_edges_are_declared(kind, p, node, m.packages, t, on, d);
    let k = choose|k: int|
        0 <= k < p.dependencies.len() && p.dependencies[k].kind == kind && declared_dep(
            #[trigger] p.dependencies[k],
            node,
            m.packages,
            t,
            on,
        ) == Some(d);
    let dep = p.dependencies[k];
    let q = resolved_package(dep, node, m.packages)->Some_0;
    let f = candidate_at(dep.name, m.packages);
    let candidates = node.deps.filter_map(f);
    lists::lemma_first_with(candidates, version_allowed(dep.req));
    assert(candidates.contains(q));
    lists::lemma_gathered_from(node.deps, f, q);
    let n = choose|n: int| 0 <= n < node.deps.len() && f(#[trigger] node.deps[n]) == Some(q);
    lists::lemma_last_with(m.packages, has_id(node.deps[n]));
    lemma_has_crate(w, m, r, hashes, t, root_features, node.deps[n]);
}

/// Every workspace member is listed under its name, and it and the root are crates of the result.
pub proof fn lemma_members_have_crates(
    w: WorkspaceView,
    m: MetadataView,
    r: ResolveView,
    hashes: Seq<HashView>,
    t: TargetView,
    root_features: Seq<Seq<char>>,
)
    requires
        is_metadata_result(w, m, r, hashes, t, root_features),
    ensures
        forall|k: int|
            0 <= k < m.workspace_members.len() ==> match package_by_id(m.packages, #[trigger] m.workspace_members[k]) {
                Some(p) => sorted::entry_of(w.workspace_members, p.name) is Some,
                None => true,
            },
        forall|i: int|
            0 <= i < w.workspace_members.len() ==> sorted::entry_of(
                w.crates,
                (#[trigger] w.workspace_members[i]).1,
            ) is Some,
        w.root matches Some(id) ==> sorted::entry_of(w.crates, id) is Some,
{
    let f = member_entry_at(m.packages);
    let s = m.workspace_members.filter_map(f);
    assert forall|k: int| 0 <= k < m.workspace_members.len() implies match package_by_id(
        m.packages,
        #[trigger] m.workspace_members[k],
    ) {
        Some(p) => sorted::entry_of(w.workspace_members, p.name) is Some,
        None => true,
    } by {
        match f(m.workspace_members[k]) {
            Some(e) => {
                lists::lemma_filter_map_has(m.workspace_members, f, k, e);
                let j = choose|j: int| 0 <= j < s.len() && s[j] == e;
                sorted::lemma_map_of_has(s, j);
            },
            None => {},
        }
    }
    assert forall|i: int| 0 <= i < w.workspace_members.len() implies sorted::entry_of(
        w.crates,
        (#[trigger] w.workspace_members[i]).1,
    ) is Some by {
        let e = w.workspace_members[i];
        sorted::lemma_map_of_from(s, i);
        lists::lemma_gathered_from(m.workspace_members, f, e);
        let k = choose|k: int| 0 <= k < m.workspace_members.len() && f(#[trigger] m.workspace_members[k]) == Some(e);
        lemma_has_crate(w, m, r, hashes, t, root_features, m.workspace_members[k]);
    }
    match r.root {
        Some(id) => {
            if package_by_id(m.packages, id) is Some {
                lemma_has_crate(w, m, r, hashes, t, root_features, id);
            }
        },
        None => {},
    }
}

/// The place of a draft, as feature resolution counts it.
proof fn lemma_draft_place(packages: Seq<PackageView>, nodes: Seq<NodeView>, t: TargetView, i: int)
    requires
        0 <= i < drafts_of(packages, nodes, t).len(),
    ensures
        feature_resolve::place_of(
            drafts_of(packages, nodes, t).map_values(draft_features_at()),
            drafts_of(packages, nodes, t)[i].0,
        ) == Some(i),
{
    let drafts = drafts_of(packages, nodes, t);
    let pf = drafts.map_values(draft_features_at());
    let id = drafts[i].0;
    sorted::lemma_map_of_ascending(packages.map_values(draft_at(packages, nodes, t)));
    feature_resolve::lemma_place_in_range(pf, id);
    assert(pf[i].0 == id);
    sorted::lemma_before_irreflexive(id);
    let k = feature_resolve::place_of(pf, id)->Some_0;
    assert(pf[k].0 == id && drafts[k].0 == id);
    if k < i {
        assert(sorted::before(drafts[k].0, drafts[i].0));
    }
}

/// Every feature that is requested is on in every workspace member that has it.
pub proof fn lemma_requested_features_on(
    w: WorkspaceView,
    m: MetadataView,
    r: ResolveView,
    hashes: Seq<HashView>,
    t: TargetView,
    root_features: Seq<Seq<char>>,
    k: int,
    i: int,
    f: Seq<char>,
)
    requires
        is_metadata_result(w, m, r, hashes, t, root_features),
        0 <= k < w.workspace_members.len(),
        0 <= i < w.crates.len(),
        w.crates[i].0 == w.workspace_members[k].1,
        root_features.contains(f),
        feature_resolve::has_feature(drafts_of(m.packages, r.nodes, t)[i].1.features, f),
    ensures
        w.crates[i].1.resolved_default_features.contains(f),
{
    let drafts = drafts_of(m.packages, r.nodes, t);
    let pf = drafts.map_values(draft_features_at());
    let roots = metadata_roots(m, r.nodes, t, root_features);
    let rules = metadata_rules(m, r.nodes, t, root_features);
    assert(is_crate_of(drafts[i], w.crates[i], surroundings_of(m, r.nodes, hashes, t), rules, i));
    lemma_draft_place(m.packages, r.nodes, t, i);
    assert(roots[k] == (w.workspace_members[k].1, root_features));
    feature_resolve::lemma_roots_on(pf, roots, k, i);
    let n = choose|n: int| 0 <= n < root_features.len() && root_features[n] == f;
    assert(pf[i].1 == drafts[i].1.features);
    assert(feature_resolve::has_feature(pf[i].1, roots[k].1[n]));
}

/// No feature is on in a crate whose package does not have it.
pub proof fn lemma_features_are_own(
    w: WorkspaceView,
    m: MetadataView,
    r: ResolveView,
    hashes: Seq<HashView>,
    t: TargetView,
    root_features: Seq<Seq<char>>,
    i: int,
    f: Seq<char>,
)
    requires
        is_metadata_result(w, m, r, hashes, t, root_features),
        0 <= i < w.crates.len(),
        w.crates[i].1.resolved_default_features.contains(f),
    ensures
        feature_resolve::has_feature(drafts_of(m.packages, r.nodes, t)[i].1.features, f),
{
    let drafts = drafts_of(m.packages, r.nodes, t);
    let pf = drafts.map_values(draft_features_at());
    let rules = metadata_rules(m, r.nodes, t, root_features);
    assert(is_crate_of(drafts[i], w.crates[i], surroundings_of(m, r.nodes, hashes, t), rules, i));
    feature_resolve::lemma_only_own_features(pf, metadata_roots(m, r.nodes, t, root_features), i, f);
    assert(pf[i].1 == drafts[i].1.features);
}

/// Features are unified: of the features that its package has, a crate has each that any dependency on
/// it asks for, of those that are part of the build, and its default features if any of those uses
/// them.
pub proof fn lemma_asked_features_on(
    w: WorkspaceView,
    m: MetadataView,
    r: ResolveView,
    hashes: Seq<HashView>,
    t: TargetView,
    root_features: Seq<Seq<char>>,
    i: int,
    k: int,
    j: int,
)
    requires
        is_metadata_result(w, m, r, hashes, t, root_features),
        0 <= i < w.crates.len(),
        0 <= j < w.crates.len(),
        ({
            let p = drafts_of(m.packages, r.nodes, t)[i].1.features;
            &&& 0 <= k < p.dependencies.len()
            &&& p.dependencies[k].package_id == w.crates[j].0
            &&& feature_resolve::derivable(
                metadata_rules(m, r.nodes, t, root_features),
                feature_resolve::edge_on(i, p, p.dependencies[k].name),
            )
        }),
    ensures
        ({
            let d = drafts_of(m.packages, r.nodes, t)[i].1.features.dependencies[k];
            let p = drafts_of(m.packages, r.nodes, t)[j].1.features;
            let on = w.crates[j].1.resolved_default_features;
            &&& forall|n: int|
                0 <= n < d.features.len() && feature_resolve::has_feature(p, #[trigger] d.features[n])
                    ==> on.contains(d.features[n])
            &&& d.uses_default_features && feature_resolve::has_feature(p, "default"@) ==> on.contains("default"@)
        }),
{
    let drafts = drafts_of(m.packages, r.nodes, t);
    let pf = drafts.map_values(draft_features_at());
    let rules = metadata_rules(m, r.nodes, t, root_features);
    let d = drafts[i].1.features.dependencies[k];
    assert(is_crate_of(drafts[j], w.crates[j], surroundings_of(m, r.nodes, hashes, t), rules, j));
    lemma_draft_place(m.packages, r.nodes, t, j);
    assert(pf[i].1 == drafts[i].1.features);
    feature_resolve::lemma_dependency_gets_features(pf, metadata_roots(m, r.nodes, t, root_features), i, k, j);
    let p = drafts[j].1.features;
    assert(pf[j].1 == p);
    let on = w.crates[j].1.resolved_default_features;
    assert forall|n: int|
        0 <= n < d.features.len() && feature_resolve::has_feature(p, #[trigger] d.features[n]) implies on.contains(
        d.features[n],
    ) by {
        assert(feature_resolve::has_feature(pf[j].1, pf[i].1.dependencies[k].features[n]));
        assert(feature_resolve::derivable(rules, FactView::Feature(j, d.features[n])));
    }
}

/// Features expand: a crate that has a feature has the features that it lists, of those that its
/// package has, and the optional dependencies that it names with `dep:` are on.
pub proof fn lemma_features_expand(
    w: WorkspaceView,
    m: MetadataView,
    r: ResolveView,
    hashes: Seq<HashView>,
    t: TargetView,
    root_features: Seq<Seq<char>>,
    i: int,
    k: int,
    n: int,
)
    requires
        is_metadata_result(w, m, r, hashes, t, root_features),
        0 <= i < w.crates.len(),
        0 <= k < w.crates[i].1.features.len(),
        0 <= n < w.crates[i].1.features[k].1.len(),
        w.crates[i].1.resolved_default_features.contains(w.crates[i].1.features[k].0),
    ensures
        match feature_resolve::item_of(w.crates[i].1.features[k].1[n]) {
            ItemView::Plain(g) => feature_resolve::has_feature(drafts_of(m.packages, r.nodes, t)[i].1.features, g)
                ==> w.crates[i].1.resolved_default_features.contains(g),
            ItemView::DepOnly(x) => dep_on(metadata_rules(m, r.nodes, t, root_features), i)(x),
            _ => true,
        },
{
    let drafts = drafts_of(m.packages, r.nodes, t);
    let pf = drafts.map_values(draft_features_at());
    let rules = metadata_rules(m, r.nodes, t, root_features);
    assert(is_crate_of(drafts[i], w.crates[i], surroundings_of(m, r.nodes, hashes, t), rules, i));
    let s = m.packages.map_values(draft_at(m.packages, r.nodes, t));
    sorted::lemma_map_of_from(s, i);
    let q = choose|q: int| 0 <= q < s.len() && s[q] == drafts[i];
    assert(drafts[i].1.features.features == w.crates[i].1.features);
    assert(pf[i].1 == drafts[i].1.features);
    feature_resolve::lemma_feature_expands(pf, metadata_roots(m, r.nodes, t, root_features), i, k, n);
}

/// An optional dependency that leads to a package is an edge exactly if the features turn it on.
pub proof fn lemma_optional_edge(
    d: DependencyView,
    node: NodeView,
    packages: Seq<PackageView>,
    t: TargetView,
    rules: Seq<RuleView>,
    i: int,
)
    requires
        d.optional,
        leads_to(d, node, packages, t) is Some,
    ensures
        declared_dep(d, node, packages, t, dep_on(rules, i)) is Some <==> feature_resolve::derivable(
            rules,
            FactView::Dep(i, declared_name(d)),
        ),
{
}

/// Metadata resolves to one result only.
pub proof fn lemma_one_result(
    m: MetadataView,
    hashes: Seq<HashView>,
    t: TargetView,
    root_features: Seq<Seq<char>>,
    a: Result<WorkspaceView, Seq<char>>,
    b: Result<WorkspaceView, Seq<char>>,
)
    requires
        metadata_resolved(m, hashes, t, root_features, a),
        metadata_resolved(m, hashes, t, root_features, b),
    ensures
        a == b,
{
    if m.resolve is Some {
        let r = m.resolve->Some_0;
        let v = a->Ok_0;
        let w = b->Ok_0;
        let drafts = drafts_of(m.packages, r.nodes, t);
        let rules = metadata_rules(m, r.nodes, t, root_features);
        let c = surroundings_of(m, r.nodes, hashes, t);
        assert forall|i: int| 0 <= i < drafts.len() implies v.crates[i] == w.crates[i] by {
            assert(is_crate_of(drafts[i], v.crates[i], c, rules, i));
            assert(is_crate_of(drafts[i], w.crates[i], c, rules, i));
            feature_resolve::lemma_one_list(
                v.crates[i].1.resolved_default_features,
                w.crates[i].1.resolved_default_features,
                rules,
                i,
            );
        }
        assert(v.crates =~= w.crates);
    }
}

/// The texts of a workspace resolve to one result only.
pub proof fn lemma_one_answer(
    metadata_json: Seq<char>,
    cargo_lock: Seq<char>,
    t: TargetView,
    root_features: Seq<Seq<char>>,
    a: Result<WorkspaceView, Seq<char>>,
    b: Result<WorkspaceView, Seq<char>>,
)
    requires
        workspace_resolved(metadata_json, cargo_lock, t, root_features, a),
        workspace_resolved(metadata_json, cargo_lock, t, root_features, b),
    ensures
        a == b,
{
    match metadata::metadata_read(metadata_json) {
        Ok(m) => {
            lemma_one_result(m, lockfile::lock_hashes(cargo_lock), t, root_features, a, b);
        },
        Err(_) => {},
    }
}

// ---------------------------------------------------------------------------
// What a crate takes from its package
// ---------------------------------------------------------------------------

/// The library of a package is its first target of one of the kinds that Cargo has for libraries: its
/// source, as seen from the manifest, is the crate's, and its name, with underscores for hyphens, is the
/// crate's library name.
pub proof fn lemma_library_target(
    p: PackageView,
    c: Surroundings,
    on: spec_fn(Seq<char>) -> bool,
    features: Seq<Seq<char>>,
    k: int,
    kind: Seq<char>,
)
    requires
        0 <= k < p.targets.len(),
        p.targets[k].kind.contains(kind),
        kind == "lib"@ || kind == "rlib"@ || kind == "dylib"@ || kind == "cdylib"@ || kind == "proc-macro"@,
        forall|j: int|
            0 <= j < k ==> !(#[trigger] p.targets[j]).kind.contains("lib"@) && !p.targets[j].kind.contains("rlib"@)
                && !p.targets[j].kind.contains("dylib"@) && !p.targets[j].kind.contains("cdylib"@)
                && !p.targets[j].kind.contains("proc-macro"@),
    ensures
        package_crate(p, c, on, features).lib_path == Some(
            paths::relative_to(p.targets[k].src_path, paths::dir_of(p.manifest_path)),
        ),
        package_crate(p, c, on, features).lib_name matches Some(n) && n.len() == p.targets[k].name.len() && forall|i: int|
            0 <= i < n.len() ==> #[trigger] n[i] == if p.targets[k].name[i] == '-' {
                '_'
            } else {
                p.targets[k].name[i]
            },
{
    lists::lemma_first_with_is(p.targets, is_lib_target(), k);
    lemma_normalized(p.targets[k].name);
}

/// A package without a target of a library's kind has a crate without a library.
pub proof fn lemma_no_library_target(
    p: PackageView,
    c: Surroundings,
    on: spec_fn(Seq<char>) -> bool,
    features: Seq<Seq<char>>,
)
    requires
        forall|j: int|
            0 <= j < p.targets.len() ==> !(#[trigger] p.targets[j]).kind.contains("lib"@) && !p.targets[j].kind.contains(
                "rlib"@,
            ) && !p.targets[j].kind.contains("dylib"@) && !p.targets[j].kind.contains("cdylib"@)
                && !p.targets[j].kind.contains("proc-macro"@),
    ensures
        package_crate(p, c, on, features).lib_path is None,
        package_crate(p, c, on, features).lib_name is None,
        !package_crate(p, c, on, features).proc_macro,
{
    lists::lemma_first_with_is(p.targets, is_lib_target(), p.targets.len() as int);
    lists::lemma_first_with_is(p.targets, kind_is("proc-macro"@), p.targets.len() as int);
}

/// A crate is a proc macro exactly if a target of its package is one, and a crate that is one has a
/// library.
pub proof fn lemma_proc_macro(
    p: PackageView,
    c: Surroundings,
    on: spec_fn(Seq<char>) -> bool,
    features: Seq<Seq<char>>,
)
    ensures
        package_crate(p, c, on, features).proc_macro <==> exists|k: int|
            0 <= k < p.targets.len() && (#[trigger] p.targets[k]).kind.contains("proc-macro"@),
        package_crate(p, c, on, features).proc_macro ==> package_crate(p, c, on, features).lib_path is Some && package_crate(
            p,
            c,
            on,
            features,
        ).lib_name is Some,
{
    lists::lemma_first_with(p.targets, kind_is("proc-macro"@));
    lists::lemma_first_with(p.targets, is_lib_target());
    if let Some(t) = lists::first_with(p.targets, kind_is("proc-macro"@)) {
        let k = choose|k: int| 0 <= k < p.targets.len() && p.targets[k] == t;
        assert(p.targets[k].kind.contains("proc-macro"@));
        if lists::first_with(p.targets, is_lib_target()) is None {
            assert(!is_lib_target()(p.targets[k]));
        }
    } else {
        assert forall|k: int| 0 <= k < p.targets.len() implies !(#[trigger] p.targets[k]).kind.contains(
            "proc-macro"@,
        ) by {
            assert(!kind_is("proc-macro"@)(p.targets[k]));
        }
    }
}

/// The build script is the source of the first target of that kind; without such a target there is none.
pub proof fn lemma_build_target(
    p: PackageView,
    c: Surroundings,
    on: spec_fn(Seq<char>) -> bool,
    features: Seq<Seq<char>>,
    k: int,
)
    requires
        0 <= k <= p.targets.len(),
        k < p.targets.len() ==> p.targets[k].kind.contains("custom-build"@),
        forall|j: int| 0 <= j < k ==> !(#[trigger] p.targets[j]).kind.contains("custom-build"@),
    ensures
        package_crate(p, c, on, features).build == if k < p.targets.len() {
            Some(paths::relative_to(p.targets[k].src_path, paths::dir_of(p.manifest_path)))
        } else {
            None
        },
{
    lists::lemma_first_with_is(p.targets, kind_is("custom-build"@), k);
}

/// The binaries of a crate are the targets of that kind, each with its name and its source as seen from
/// the manifest.
pub proof fn lemma_bin_targets(
    p: PackageView,
    c: Surroundings,
    on: spec_fn(Seq<char>) -> bool,
    features: Seq<Seq<char>>,
    b: BinView,
)
    ensures
        package_crate(p, c, on, features).crate_bin.contains(b) <==> exists|k: int|
            0 <= k < p.targets.len() && (#[trigger] p.targets[k]).kind.contains("bin"@) && b.name == p.targets[k].name
                && b.path == paths::relative_to(p.targets[k].src_path, paths::dir_of(p.manifest_path)),
{
    let f = bin_target_at(p.manifest_path);
    let bins = p.targets.filter_map(f);
    if bins.contains(b) {
        lists::lemma_gathered_from(p.targets, f, b);
        let k = choose|k: int| 0 <= k < p.targets.len() && f(#[trigger] p.targets[k]) == Some(b);
        assert(p.targets[k].kind.contains("bin"@));
    }
    if exists|k: int|
        0 <= k < p.targets.len() && (#[trigger] p.targets[k]).kind.contains("bin"@) && b.name == p.targets[k].name
            && b.path == paths::relative_to(p.targets[k].src_path, paths::dir_of(p.manifest_path)) {
        let k = choose|k: int|
            0 <= k < p.targets.len() && (#[trigger] p.targets[k]).kind.contains("bin"@) && b.name == p.targets[k].name
                && b.path == paths::relative_to(p.targets[k].src_path, paths::dir_of(p.manifest_path));
        assert(f(p.targets[k]) == Some(b));
        lists::lemma_filter_map_has(p.targets, f, k, b);
    }
}

/// The crate types of the library are those of the targets with a kind that ends in `lib`, or is that of
/// proc macros; each is there once, in order.
pub proof fn lemma_library_types(
    p: PackageView,
    c: Surroundings,
    on: spec_fn(Seq<char>) -> bool,
    features: Seq<Seq<char>>,
    x: Seq<char>,
)
    ensures
        package_crate(p, c, on, features).lib_crate_types.contains(x) <==> exists|k: int, n: int|
            0 <= k < p.targets.len() && 0 <= n < p.targets[k].kind.len() && (text::has_suffix(
                #[trigger] p.targets[k].kind[n],
                "lib"@,
            ) || p.targets[k].kind[n] == "proc-macro"@) && p.targets[k].crate_types.contains(x),
        sorted::texts_ascending(package_crate(p, c, on, features).lib_crate_types),
{
    let f = lib_types_at();
    let all = lists::flat(p.targets, f);
    sorted::lemma_set_of(all);
    if all.contains(x) {
        lists::lemma_flat_from(p.targets, f, x);
        let k = choose|k: int| 0 <= k < p.targets.len() && f(#[trigger] p.targets[k]).contains(x);
        assert(has_lib_kind(p.targets[k].kind));
        let kinds = p.targets[k].kind;
        let n = choose|n: int|
            0 <= n < kinds.len() && (text::has_suffix(#[trigger] kinds[n], "lib"@) || kinds[n] == "proc-macro"@);
        assert(p.targets[k].kind[n] == kinds[n]);
    }
    if exists|k: int, n: int|
        0 <= k < p.targets.len() && 0 <= n < p.targets[k].kind.len() && (text::has_suffix(
            #[trigger] p.targets[k].kind[n],
            "lib"@,
        ) || p.targets[k].kind[n] == "proc-macro"@) && p.targets[k].crate_types.contains(x) {
        let (k, n) = choose|k: int, n: int|
            0 <= k < p.targets.len() && 0 <= n < p.targets[k].kind.len() && (text::has_suffix(
                #[trigger] p.targets[k].kind[n],
                "lib"@,
            ) || p.targets[k].kind[n] == "proc-macro"@) && p.targets[k].crate_types.contains(x);
        assert(has_lib_kind(p.targets[k].kind));
        lists::lemma_flat_has(p.targets, f, k, x);
    }
}

/// What a crate takes from its package unchanged, and its features, each under its name as the package
/// gives it last.
pub proof fn lemma_taken_over(
    p: PackageView,
    c: Surroundings,
    on: spec_fn(Seq<char>) -> bool,
    features: Seq<Seq<char>>,
    k: int,
)
    ensures
        package_crate(p, c, on, features).crate_name == p.name,
        package_crate(p, c, on, features).version == p.version,
        package_crate(p, c, on, features).edition == p.edition,
        package_crate(p, c, on, features).links == p.links,
        package_crate(p, c, on, features).authors == p.authors,
        package_crate(p, c, on, features).resolved_default_features == features,
        sorted::ascending(package_crate(p, c, on, features).features),
        0 <= k < p.features.len() && (forall|j: int| k < j < p.features.len() ==> (#[trigger] p.features[j]).0
            != p.features[k].0) ==> sorted::entry_of(package_crate(p, c, on, features).features, p.features[k].0) == Some(
            p.features[k].1,
        ),
        forall|f: Seq<char>|
            (forall|j: int| 0 <= j < p.features.len() ==> (#[trigger] p.features[j]).0 != f) ==> (#[trigger] sorted::entry_of(
                package_crate(p, c, on, features).features,
                f,
            )) is None,
{
    let s = p.features;
    sorted::lemma_map_of_ascending(s);
    if 0 <= k < s.len() && (forall|j: int| k < j < s.len() ==> (#[trigger] s[j]).0 != s[k].0) {
        sorted::lemma_map_of_reads(s, s[k].0);
        lists::lemma_last_with_is(s, sorted::has_key(s[k].0), k);
    }
    assert forall|f: Seq<char>| (forall|j: int| 0 <= j < s.len() ==> (#[trigger] s[j]).0 != f) implies (
    #[trigger] sorted::entry_of(package_crate(p, c, on, features).features, f)) is None by {
        sorted::lemma_map_of_reads(s, f);
        lists::lemma_last_with_is(s, sorted::has_key(f), -1);
    }
}

/// Where the crate of a package comes from, by the source that Cargo gives it; a package with a source has
/// the hash that the lock file has for its name and version.
pub proof fn lemma_package_source(
    p: PackageView,
    c: Surroundings,
    on: spec_fn(Seq<char>) -> bool,
    features: Seq<Seq<char>>,
    url: Seq<char>,
    rev: Seq<char>,
    s: Seq<char>,
)
    requires
        !url.contains('?'),
        !rev.contains('#'),
    ensures
        ({
            let x = package_crate(p, c, on, features);
            &&& p.source == Some("registry+https://github.com/rust-lang/crates.io-index"@) ==> x.source == Some(
                SourceView::CratesIo,
            )
            &&& p.source == Some("git+"@ + url + "#"@ + rev) ==> x.source == Some(
                SourceView::Git { url, rev, sub_path: None },
            )
            &&& p.source == Some("sparse+"@ + s) ==> x.source == Some(SourceView::CratesIo)
            &&& p.source is Some ==> x.sha256 == lockfile::hash_for(c.hashes, p.name, p.version)
            &&& p.source is None <==> x.source matches Some(SourceView::Local { path })
        }),
{
    reveal_strlit("git+");
    reveal_strlit("sparse+");
    reveal_strlit("#");
    reveal_strlit("registry+https://github.com/rust-lang/crates.io-index");
    let io = "registry+https://github.com/rust-lang/crates.io-index"@;
    let a = "git+"@ + url + "#"@ + rev;
    let b = "sparse+"@ + s;
    text::lemma_after_prefix("git+"@, url + "#"@ + rev);
    assert(a =~= "git+"@ + (url + "#"@ + rev));
    text::lemma_cut_last_at(url, '#', rev);
    assert(url + "#"@ + rev =~= url.push('#') + rev);
    text::lemma_before_first_none(url, '?');
    text::lemma_after_prefix("sparse+"@, s);
    assert(a[0] == 'g' && b[0] == 's' && io[0] == 'r');
    if text::has_prefix(b, "git+"@) {
        assert(b.take(4)[0] == 's');
        assert("git+"@[0] == 'g');
    }
}

/// Whether a declaration stands for the edge `d` of a package that Cargo resolved to `node`.
pub open spec fn dependency_yields(
    e: DependencyView,
    d: DepView,
    node: NodeView,
    packages: Seq<PackageView>,
    t: TargetView,
    on: spec_fn(Seq<char>) -> bool,
) -> bool {
    &&& cfg_eval::applies_to(e.target, t)
    &&& match resolved_package(e, node, packages) {
        Some(q) => d.package_id == shortened(q.id, packages),
        None => false,
    }
    &&& e.optional ==> match e.rename {
        Some(n) => on(n),
        None => on(e.name),
    }
    &&& d.name == e.name
    &&& match e.rename {
        Some(n) => d.rename == Some(normalized(n)),
        None => d.rename is None,
    }
    &&& d.uses_default_features == e.uses_default_features
    &&& d.features == e.features
    &&& d.optional == e.optional
}

proof fn lemma_kind_edges(
    kind: DepKind,
    p: PackageView,
    node: NodeView,
    packages: Seq<PackageView>,
    t: TargetView,
    on: spec_fn(Seq<char>) -> bool,
    d: DepView,
)
    ensures
        package_deps(kind, p, Some(node), packages, t, on).contains(d) <==> exists|k: int|
            0 <= k < p.dependencies.len() && (#[trigger] p.dependencies[k]).kind == kind && dependency_yields(
                p.dependencies[k],
                d,
                node,
                packages,
                t,
                on,
            ),
{
    lemma_edges_are_declared(kind, p, node, packages, t, on, d);
    if package_deps(kind, p, Some(node), packages, t, on).contains(d) {
        let k = choose|k: int|
            0 <= k < p.dependencies.len() && p.dependencies[k].kind == kind && declared_dep(
                #[trigger] p.dependencies[k],
                node,
                packages,
                t,
                on,
            ) == Some(d);
        assert(dependency_yields(p.dependencies[k], d, node, packages, t, on));
    }
    if exists|k: int|
        0 <= k < p.dependencies.len() && (#[trigger] p.dependencies[k]).kind == kind && dependency_yields(
            p.dependencies[k],
            d,
            node,
            packages,
            t,
            on,
        ) {
        let k = choose|k: int|
            0 <= k < p.dependencies.len() && (#[trigger] p.dependencies[k]).kind == kind && dependency_yields(
                p.dependencies[k],
                d,
                node,
                packages,
                t,
                on,
            );
        assert(declared_dep(p.dependencies[k], node, packages, t, on) == Some(d));
    }
}

/// The edges of a crate go by the kinds of its package's declarations: normal ones are its dependencies,
/// build ones its build dependencies, development ones its development dependencies, and no others are.
pub proof fn lemma_edges_by_kind(
    p: PackageView,
    c: Surroundings,
    on: spec_fn(Seq<char>) -> bool,
    features: Seq<Seq<char>>,
    node: NodeView,
    d: DepView,
)
    requires
        node_by_id(c.nodes, p.id) == Some(node),
    ensures
        package_crate(p, c, on, features).dependencies.contains(d) <==> exists|k: int|
            0 <= k < p.dependencies.len() && (#[trigger] p.dependencies[k]).kind == DepKind::Normal && dependency_yields(
                p.dependencies[k],
                d,
                node,
                c.packages,
                c.target,
                on,
            ),
        package_crate(p, c, on, features).build_dependencies.contains(d) <==> exists|k: int|
            0 <= k < p.dependencies.len() && (#[trigger] p.dependencies[k]).kind == DepKind::Build && dependency_yields(
                p.dependencies[k],
                d,
                node,
                c.packages,
                c.target,
                on,
            ),
        package_crate(p, c, on, features).dev_dependencies.contains(d) <==> exists|k: int|
            0 <= k < p.dependencies.len() && (#[trigger] p.dependencies[k]).kind == DepKind::Development
                && dependency_yields(p.dependencies[k], d, node, c.packages, c.target, on),
{
    lemma_kind_edges(DepKind::Normal, p, node, c.packages, c.target, on, d);
    lemma_kind_edges(DepKind::Build, p, node, c.packages, c.target, on, d);
    lemma_kind_edges(DepKind::Development, p, node, c.packages, c.target, on, d);
}

/// A package that Cargo did not resolve has a crate without edges; one that it did is resolved by the
/// node with the package's ID.
pub proof fn lemma_unresolved(
    p: PackageView,
    c: Surroundings,
    on: spec_fn(Seq<char>) -> bool,
    features: Seq<Seq<char>>,
)
    ensures
        match node_by_id(c.nodes, p.id) {
            Some(n) => n.id == p.id && c.nodes.contains(n),
            None => (forall|k: int| 0 <= k < c.nodes.len() ==> (#[trigger] c.nodes[k]).id != p.id) && package_crate(
                p,
                c,
                on,
                features,
            ).dependencies.len() == 0 && package_crate(p, c, on, features).build_dependencies.len() == 0 && package_crate(
                p,
                c,
                on,
                features,
            ).dev_dependencies.len() == 0,
        },
{
    lists::lemma_last_with(c.nodes, is_node_of(p.id));
    if node_by_id(c.nodes, p.id) is None {
        assert forall|k: int| 0 <= k < c.nodes.len() implies (#[trigger] c.nodes[k]).id != p.id by {
            assert(!is_node_of(p.id)(c.nodes[k]));
        }
    }
}

/// The package that a declaration is resolved to is one of those that Cargo gives for the package, with
/// the name that is declared, hyphens and underscores being the same; and where more than one has that
/// name, its version is one that is asked for.
pub proof fn lemma_resolved_package(d: DependencyView, node: NodeView, packages: Seq<PackageView>)
    ensures
        resolved_package(d, node, packages) matches Some(q) ==> packages.contains(q) && node.deps.contains(q.id)
            && normalized(q.name) == normalized(d.name) && (node.deps.filter_map(candidate_at(d.name, packages)).len()
            == 1 || match version::version_parsed(q.version) {
            Some(v) => version::requirement_allows(d.req, v),
            None => false,
        }),
        resolved_package(d, node, packages) is None ==> forall|k: int|
            0 <= k < node.deps.len() ==> match package_by_id(packages, #[trigger] node.deps[k]) {
                Some(q) => normalized(q.name) != normalized(d.name) || match version::version_parsed(q.version) {
                    Some(v) => !version::requirement_allows(d.req, v),
                    None => true,
                },
                None => true,
            },
{
    let f = candidate_at(d.name, packages);
    let candidates = node.deps.filter_map(f);
    lists::lemma_first_with(candidates, version_allowed(d.req));
    match resolved_package(d, node, packages) {
        Some(q) => {
            if candidates.len() == 1 {
                assert(candidates.contains(candidates[0]));
            }
            lists::lemma_gathered_from(node.deps, f, q);
            let k = choose|k: int| 0 <= k < node.deps.len() && f(#[trigger] node.deps[k]) == Some(q);
            lists::lemma_last_with(packages, has_id(node.deps[k]));
            assert(q.id == node.deps[k]);
        },
        None => {
            assert forall|k: int| 0 <= k < node.deps.len() implies match package_by_id(
                packages,
                #[trigger] node.deps[k],
            ) {
                Some(q) => normalized(q.name) != normalized(d.name) || match version::version_parsed(q.version) {
                    Some(v) => !version::requirement_allows(d.req, v),
                    None => true,
                },
                None => true,
            } by {
                if let Some(q) = package_by_id(packages, node.deps[k]) {
                    if normalized(q.name) == normalized(d.name) {
                        assert(f(node.deps[k]) == Some(q));
                        lists::lemma_filter_map_has(node.deps, f, k, q);
                        let i = choose|i: int| 0 <= i < candidates.len() && candidates[i] == q;
                        assert(!version_allowed(d.req)(candidates[i]));
                    }
                }
            }
        },
    }
}

proof fn lemma_packages_counted(packages: Seq<PackageView>, name: Seq<char>)
    ensures
        package_count(packages, name) > 1 <==> exists|i: int, j: int|
            0 <= i < j < packages.len() && (#[trigger] packages[i]).name == name && (#[trigger] packages[j]).name == name,
        package_count(packages, name) > 0 <==> exists|i: int|
            0 <= i < packages.len() && (#[trigger] packages[i]).name == name,
    decreases packages.len(),
{
    if packages.len() > 0 {
        let t = packages.drop_last();
        let n = packages.len() - 1;
        lemma_packages_counted(t, name);
        assert forall|i: int| 0 <= i < n implies t[i] == #[trigger] packages[i] by {}
        if exists|i: int| 0 <= i < t.len() && (#[trigger] t[i]).name == name {
            let i = choose|i: int| 0 <= i < t.len() && (#[trigger] t[i]).name == name;
            assert(packages[i].name == name);
        }
        if packages.last().name == name {
            assert(packages[n].name == name);
        }
        if package_count(t, name) > 1 {
            let (i, j) = choose|i: int, j: int|
                0 <= i < j < t.len() && (#[trigger] t[i]).name == name && (#[trigger] t[j]).name == name;
            assert(packages[i].name == name && packages[j].name == name);
        }
        if exists|i: int, j: int|
            0 <= i < j < packages.len() && (#[trigger] packages[i]).name == name && (#[trigger] packages[j]).name == name {
            let (i, j) = choose|i: int, j: int|
                0 <= i < j < packages.len() && (#[trigger] packages[i]).name == name && (#[trigger] packages[j]).name
                    == name;
            assert(t[i].name == name);
            if j < n {
                assert(t[j].name == name);
            }
        }
        if exists|i: int| 0 <= i < packages.len() && (#[trigger] packages[i]).name == name {
            let i = choose|i: int| 0 <= i < packages.len() && (#[trigger] packages[i]).name == name;
            if i < n {
                assert(t[i].name == name);
            }
        }
    }
}

/// The short form of an ID that ends in `#name@version`: the name, and the version behind it where
/// another package has that name too.
pub proof fn lemma_short_form(head: Seq<char>, name: Seq<char>, version: Seq<char>, packages: Seq<PackageView>)
    requires
        !name.contains('#'),
        !version.contains('#'),
        !version.contains('@'),
    ensures
        shortened(head + "#"@ + name + "@"@ + version, packages) == if exists|i: int, j: int|
            0 <= i < j < packages.len() && (#[trigger] packages[i]).name == name && (#[trigger] packages[j]).name
                == name {
            name + " "@ + version
        } else {
            name
        },
{
    reveal_strlit("#");
    reveal_strlit("@");
    let tail = name + "@"@ + version;
    assert(tail =~= name.push('@') + version);
    if tail.contains('#') {
        let k = choose|k: int| 0 <= k < tail.len() && tail[k] == '#';
        if k < name.len() {
            assert(name[k] == '#');
        } else if k > name.len() {
            assert(version[k - name.len() - 1] == '#');
        }
    }
    text::lemma_cut_last_at(head, '#', tail);
    assert(head + "#"@ + name + "@"@ + version =~= head.push('#') + tail);
    text::lemma_cut_last_at(name, '@', version);
    lemma_packages_counted(packages, name);
}

/// What feature resolution sees of a package: its dependencies for build and run under the names by which
/// its features call them, and the names of all that are optional.
pub proof fn lemma_feature_package(
    p: PackageView,
    node: NodeView,
    packages: Seq<PackageView>,
    t: TargetView,
    d: DepFeatureView,
    x: Seq<char>,
)
    ensures
        feature_package(p, Some(node), packages, t).dependencies.contains(d) <==> exists|k: int|
            0 <= k < p.dependencies.len() && ((#[trigger] p.dependencies[k]).kind == DepKind::Normal
                || p.dependencies[k].kind == DepKind::Build) && cfg_eval::applies_to(p.dependencies[k].target, t) && (
            match resolved_package(p.dependencies[k], node, packages) {
                Some(q) => d.package_id == shortened(q.id, packages),
                None => false,
            }) && d.name == (match p.dependencies[k].rename {
                Some(n) => n,
                None => p.dependencies[k].name,
            }) && d.uses_default_features == p.dependencies[k].uses_default_features && d.features
                == p.dependencies[k].features,
        feature_package(p, Some(node), packages, t).optional_deps.contains(x) <==> exists|k: int|
            0 <= k < p.dependencies.len() && (#[trigger] p.dependencies[k]).optional && x == (
            match p.dependencies[k].rename {
                Some(n) => n,
                None => p.dependencies[k].name,
            }),
{
    let f = feature_dep_at(node, packages, t);
    let deps = p.dependencies;
    if deps.filter_map(f).contains(d) {
        lists::lemma_gathered_from(deps, f, d);
        let k = choose|k: int| 0 <= k < deps.len() && f(#[trigger] deps[k]) == Some(d);
        assert(deps[k].kind == DepKind::Normal || deps[k].kind == DepKind::Build);
    }
    assert forall|k: int|
        0 <= k < deps.len() && ((#[trigger] deps[k]).kind == DepKind::Normal || deps[k].kind == DepKind::Build)
            && cfg_eval::applies_to(deps[k].target, t) && (match resolved_package(deps[k], node, packages) {
            Some(q) => d.package_id == shortened(q.id, packages),
            None => false,
        }) && d.name == (match deps[k].rename {
            Some(n) => n,
            None => deps[k].name,
        }) && d.uses_default_features == deps[k].uses_default_features && d.features == deps[k].features implies deps.filter_map(
        f,
    ).contains(d) by {
        assert(f(deps[k]) == Some(d));
        lists::lemma_filter_map_has(deps, f, k, d);
    }
    let g = optional_at();
    if deps.filter_map(g).contains(x) {
        lists::lemma_gathered_from(deps, g, x);
        let k = choose|k: int| 0 <= k < deps.len() && g(#[trigger] deps[k]) == Some(x);
        assert(deps[k].optional);
    }
    assert forall|k: int| 0 <= k < deps.len() && (#[trigger] deps[k]).optional && x == (match deps[k].rename {
        Some(n) => n,
        None => deps[k].name,
    }) implies deps.filter_map(g).contains(x) by {
        assert(g(deps[k]) == Some(x));
        lists::lemma_filter_map_has(deps, g, k, x);
    }
}

/// The roots of feature resolution: every member with the features that are asked for, and every
/// development dependency of a member that is not optional, with those that it asks for itself and
/// `default` unless it does without.
pub proof fn lemma_roots(
    m: MetadataView,
    nodes: Seq<NodeView>,
    t: TargetView,
    root_features: Seq<Seq<char>>,
    k: int,
    j: int,
    p: PackageView,
    n: NodeView,
    q: PackageView,
)
    ensures
        0 <= k < members_of(m).len() ==> metadata_roots(m, nodes, t, root_features).contains(
            (members_of(m)[k].1, root_features),
        ),
        0 <= k < m.workspace_members.len() && package_by_id(m.packages, m.workspace_members[k]) == Some(p) && node_by_id(
            nodes,
            m.workspace_members[k],
        ) == Some(n) && 0 <= j < p.dependencies.len() && p.dependencies[j].kind == DepKind::Development
            && !p.dependencies[j].optional && leads_to(p.dependencies[j], n, m.packages, t) == Some(q)
            ==> metadata_roots(m, nodes, t, root_features).contains(
            (
                shortened(q.id, m.packages),
                if p.dependencies[j].uses_default_features {
                    p.dependencies[j].features + seq!["default"@]
                } else {
                    p.dependencies[j].features
                },
            ),
        ),
{
    let a = members_of(m).map_values(root_at(root_features));
    let g = dev_roots_at(m.packages, nodes, t);
    let b = lists::flat(m.workspace_members, g);
    if 0 <= k < members_of(m).len() {
        assert(a[k] == (members_of(m)[k].1, root_features));
        lists::lemma_concat_has(a, b, (members_of(m)[k].1, root_features));
    }
    if 0 <= k < m.workspace_members.len() && package_by_id(m.packages, m.workspace_members[k]) == Some(p) && node_by_id(
        nodes,
        m.workspace_members[k],
    ) == Some(n) && 0 <= j < p.dependencies.len() && p.dependencies[j].kind == DepKind::Development
        && !p.dependencies[j].optional && leads_to(p.dependencies[j], n, m.packages, t) == Some(q) {
        let d = p.dependencies[j];
        let asked = if d.uses_default_features {
            d.features + seq!["default"@]
        } else {
            d.features
        };
        assert(d.features.push("default"@) =~= d.features + seq!["default"@]);
        let x = (shortened(q.id, m.packages), asked);
        lists::lemma_filter_map_has(p.dependencies, dev_root_at(n, m.packages, t), j, x);
        assert(g(m.workspace_members[k]).contains(x));
        lists::lemma_flat_has(m.workspace_members, g, k, x);
        lists::lemma_concat_has(a, b, x);
    }
}

/// Every member that metadata lists is found under its name with the short form of its ID, and the root
/// is the short form of the ID that the resolved graph gives.
pub proof fn lemma_members_and_root(
    w: WorkspaceView,
    m: MetadataView,
    r: ResolveView,
    hashes: Seq<HashView>,
    t: TargetView,
    root_features: Seq<Seq<char>>,
    k: int,
    p: PackageView,
)
    requires
        is_metadata_result(w, m, r, hashes, t, root_features),
    ensures
        w.workspace_root == m.workspace_root,
        0 <= k < m.workspace_members.len() && package_by_id(m.packages, m.workspace_members[k]) == Some(p) && (forall|j: int|
            k < j < m.workspace_members.len() ==> match package_by_id(m.packages, #[trigger] m.workspace_members[j]) {
                Some(q) => q.name != p.name,
                None => true,
            }) ==> sorted::entry_of(w.workspace_members, p.name) == Some(shortened(m.workspace_members[k], m.packages)),
        match r.root {
            Some(id) => w.root == match package_by_id(m.packages, id) {
                Some(_) => Some(shortened(id, m.packages)),
                None => None,
            },
            None => w.root is None,
        },
{
    let f = member_entry_at(m.packages);
    let ids = m.workspace_members;
    if 0 <= k < ids.len() && package_by_id(m.packages, ids[k]) == Some(p) && (forall|j: int|
        k < j < ids.len() ==> match package_by_id(m.packages, #[trigger] ids[j]) {
            Some(q) => q.name != p.name,
            None => true,
        }) {
        let e = (p.name, shortened(ids[k], m.packages));
        let all = ids.filter_map(f);
        let a = ids.take(k).filter_map(f);
        let rest = ids.skip(k);
        lists::lemma_filter_map_split(ids, f, k);
        lists::lemma_filter_map_split(rest, f, 1);
        assert(rest.take(1).drop_last().filter_map(f) =~= Seq::empty());
        assert(f(rest.take(1).last()) == Some(e));
        assert(rest.take(1).filter_map(f) =~= seq![e]);
        let b = rest.skip(1).filter_map(f);
        assert(all =~= a + seq![e] + b);
        let n = a.len() as int;
        assert(all[n] == e);
        assert forall|i: int| n < i < all.len() implies !sorted::has_key(p.name)(#[trigger] all[i]) by {
            let x = all[i];
            assert(b[i - n - 1] == x);
            assert(b.contains(x));
            lists::lemma_gathered_from(rest.skip(1), f, x);
            let j = choose|j: int| 0 <= j < rest.skip(1).len() && f(#[trigger] rest.skip(1)[j]) == Some(x);
            assert(rest.skip(1)[j] == ids[k + 1 + j]);
        }
        sorted::lemma_map_of_reads(all, p.name);
        lists::lemma_last_with_is(all, sorted::has_key(p.name), n);
    }
}

/// Metadata without a resolved graph is refused, and with one it is not.
pub proof fn lemma_needs_graph(
    m: MetadataView,
    hashes: Seq<HashView>,
    t: TargetView,
    root_features: Seq<Seq<char>>,
    r: Result<WorkspaceView, Seq<char>>,
)
    requires
        metadata_resolved(m, hashes, t, root_features, r),
    ensures
        r is Err <==> m.resolve is None,
        r matches Err(e) ==> e == "No resolve section in metadata"@,
{
}

/// A development dependency is a root of its own only if it is one, is not optional, and leads to a package; it
/// then asks that package for its features, and for `default` unless it does without.
pub proof fn lemma_dev_roots(
    node: NodeView,
    packages: Seq<PackageView>,
    t: TargetView,
    d: DependencyView,
    r: (Seq<char>, Seq<Seq<char>>),
)
    requires
        dev_root_at(node, packages, t)(d) == Some(r),
    ensures
        d.kind == DepKind::Development,
        !d.optional,
        leads_to(d, node, packages, t) matches Some(q) && r.0 == shortened(q.id, packages),
        forall|f: Seq<char>| #[trigger] d.features.contains(f) ==> r.1.contains(f),
        d.uses_default_features ==> r.1.contains("default"@),
        !d.uses_default_features ==> r.1 == d.features,
{
    if d.uses_default_features {
        assert(r.1[d.features.len() as int] == "default"@);
        assert forall|f: Seq<char>| #[trigger] d.features.contains(f) implies r.1.contains(f) by {
            let i = choose|i: int| 0 <= i < d.features.len() && d.features[i] == f;
            assert(r.1[i] == f);
        }
    }
}

} // verus!
