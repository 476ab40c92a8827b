//! The output of `cargo metadata`, as far as it is used.
//!
//! It is read by the `cargo_metadata` crate, whose values are carried over by way of their JSON form.

use crate::json_tree;
use crate::json_tree::{Json, JsonView};
use crate::lists;
use crate::sorted;
use crate::text;
use vstd::prelude::*;

verus! {

/// The JSON form of what `serde_json` reads from a text as a `cargo_metadata::Metadata`, or the
/// words of its complaint.
pub uninterp spec fn metadata_parsed(text: Seq<char>) -> Result<JsonView, Seq<char>>;

/// `serde_json::from_str` into a `cargo_metadata::Metadata`, which `serde_json::to_value` turns into
/// its JSON form. A function of the text alone.
#[verifier::external_body]
fn metadata_from_str(text: &str) -> (r: Result<serde_json::Value, serde_json::Error>)
    ensures
        metadata_parsed(text@) == match r {
            Ok(v) => Ok::<JsonView, Seq<char>>(json_tree::json_held(v)),
            Err(e) => Err::<JsonView, Seq<char>>(json_tree::json_error_text(e)),
        },
{
    let metadata = serde_json::from_str::<cargo_metadata::Metadata>(text)?;
    serde_json::to_value(&metadata)
}

/// The kind of a dependency. A kind that is not known counts as normal.
#[derive(Debug, Clone, Copy, PartialEq, Eq, Structural)]
pub enum DepKind {
    Normal,
    Development,
    Build,
}

/// A declared dependency.
#[derive(Debug)]
pub struct Dependency {
    pub name: String,
    pub req: String,
    pub kind: DepKind,
    pub optional: bool,
    pub uses_default_features: bool,
    pub features: Vec<String>,
    pub target: Option<String>,
    pub rename: Option<String>,
}

/// A target of a package: its library, a binary, its build script, and so on.
#[derive(Debug)]
pub struct Target {
    pub name: String,
    pub kind: Vec<String>,
    pub crate_types: Vec<String>,
    pub src_path: String,
}

/// A package.
#[derive(Debug)]
pub struct Package {
    pub name: String,
    pub version: String,
    pub authors: Vec<String>,
    pub id: String,
    pub source: Option<String>,
    pub dependencies: Vec<Dependency>,
    pub targets: Vec<Target>,
    pub features: Vec<(String, Vec<String>)>,
    pub manifest_path: String,
    pub edition: String,
    pub links: Option<String>,
}

/// What Cargo resolved a package to: its dependencies by ID, and its features.
#[derive(Debug)]
pub struct Node {
    pub id: String,
    /// The package IDs of the dependencies.
    pub deps: Vec<String>,
    pub features: Vec<String>,
}

/// The resolved graph.
#[derive(Debug)]
pub struct Resolve {
    pub nodes: Vec<Node>,
    pub root: Option<String>,
}

/// The output of `cargo metadata`.
#[derive(Debug)]
pub struct Metadata {
    pub packages: Vec<Package>,
    pub workspace_members: Vec<String>,
    pub resolve: Option<Resolve>,
    pub workspace_root: String,
}

pub struct DependencyView {
    pub name: Seq<char>,
    pub req: Seq<char>,
    pub kind: DepKind,
    pub optional: bool,
    pub uses_default_features: bool,
    pub features: Seq<Seq<char>>,
    pub target: Option<Seq<char>>,
    pub rename: Option<Seq<char>>,
}

pub struct TargetInfoView {
    pub name: Seq<char>,
    pub kind: Seq<Seq<char>>,
    pub crate_types: Seq<Seq<char>>,
    pub src_path: Seq<char>,
}

pub struct PackageView {
    pub name: Seq<char>,
    pub version: Seq<char>,
    pub authors: Seq<Seq<char>>,
    pub id: Seq<char>,
    pub source: Option<Seq<char>>,
    pub dependencies: Seq<DependencyView>,
    pub targets: Seq<TargetInfoView>,
    pub features: Seq<(Seq<char>, Seq<Seq<char>>)>,
    pub manifest_path: Seq<char>,
    pub edition: Seq<char>,
    pub links: Option<Seq<char>>,
}

pub struct NodeView {
    pub id: Seq<char>,
    pub deps: Seq<Seq<char>>,
    pub features: Seq<Seq<char>>,
}

pub struct ResolveView {
    pub nodes: Seq<NodeView>,
    pub root: Option<Seq<char>>,
}

pub struct MetadataView {
    pub packages: Seq<PackageView>,
    pub workspace_members: Seq<Seq<char>>,
    pub resolve: Option<ResolveView>,
    pub workspace_root: Seq<char>,
}

impl DeepView for Dependency {
    type V = DependencyView;

    open spec fn deep_view(&self) -> DependencyView {
        DependencyView {
            name: self.name@,
            req: self.req@,
            kind: self.kind,
            optional: self.optional,
            uses_default_features: self.uses_default_features,
            features: self.features.deep_view(),
            target: self.target.deep_view(),
            rename: self.rename.deep_view(),
        }
    }
}

impl DeepView for Target {
    type V = TargetInfoView;

    open spec fn deep_view(&self) -> TargetInfoView {
        TargetInfoView {
            name: self.name@,
            kind: self.kind.deep_view(),
            crate_types: self.crate_types.deep_view(),
            src_path: self.src_path@,
        }
    }
}

impl DeepView for Package {
    type V = PackageView;

    open spec fn deep_view(&self) -> PackageView {
        PackageView {
            name: self.name@,
            version: self.version@,
            authors: self.authors.deep_view(),
            id: self.id@,
            source: self.source.deep_view(),
            dependencies: self.dependencies.deep_view(),
            targets: self.targets.deep_view(),
            features: self.features.deep_view(),
            manifest_path: self.manifest_path@,
            edition: self.edition@,
            links: self.links.deep_view(),
        }
    }
}

impl DeepView for Node {
    type V = NodeView;

    open spec fn deep_view(&self) -> NodeView {
        NodeView { id: self.id@, deps: self.deps.deep_view(), features: self.features.deep_view() }
    }
}

impl DeepView for Resolve {
    type V = ResolveView;

    open spec fn deep_view(&self) -> ResolveView {
        ResolveView { nodes: self.nodes.deep_view(), root: self.root.deep_view() }
    }
}

impl DeepView for Metadata {
    type V = MetadataView;

    open spec fn deep_view(&self) -> MetadataView {
        MetadataView {
            packages: self.packages.deep_view(),
            workspace_members: self.workspace_members.deep_view(),
            resolve: self.resolve.deep_view(),
            workspace_root: self.workspace_root@,
        }
    }
}

pub open spec fn kind_of(s: Seq<char>) -> DepKind {
    if s == "dev"@ {
        DepKind::Development
    } else if s == "build"@ {
        DepKind::Build
    } else {
        DepKind::Normal
    }
}

pub open spec fn dependency_in(v: JsonView) -> Option<DependencyView> {
    match (
        (json_tree::text_under(v, "name"@), json_tree::text_under(v, "req"@), json_tree::text_under(v, "kind"@)),
        (
            json_tree::bool_under(v, "optional"@),
            json_tree::bool_under(v, "uses_default_features"@),
            json_tree::texts_under(v, "features"@),
        ),
        (json_tree::opt_text_under(v, "target"@), json_tree::opt_text_under(v, "rename"@)),
    ) {
        (
            (Some(name), Some(req), Some(kind)),
            (Some(optional), Some(uses_default_features), Some(features)),
            (Some(target), Some(rename)),
        ) => Some(
            DependencyView {
                name,
                req,
                kind: kind_of(kind),
                optional,
                uses_default_features,
                features,
                target,
                rename,
            },
        ),
        _ => None,
    }
}

pub open spec fn target_in(v: JsonView) -> Option<TargetInfoView> {
    match (
        json_tree::text_under(v, "name"@),
        json_tree::texts_under(v, "kind"@),
        json_tree::texts_under(v, "crate_types"@),
        json_tree::text_under(v, "src_path"@),
    ) {
        (Some(name), Some(kind), Some(crate_types), Some(src_path)) => Some(
            TargetInfoView { name, kind, crate_types, src_path },
        ),
        _ => None,
    }
}

pub open spec fn dependency_at() -> spec_fn(JsonView) -> Option<DependencyView> {
    |v: JsonView| dependency_in(v)
}

pub open spec fn target_at() -> spec_fn(JsonView) -> Option<TargetInfoView> {
    |v: JsonView| target_in(v)
}

pub open spec fn feature_entry_at() -> spec_fn((Seq<char>, JsonView)) -> Option<(Seq<char>, Seq<Seq<char>>)> {
    |e: (Seq<char>, JsonView)|
        match json_tree::texts_of(e.1) {
            Some(t) => Some((e.0, t)),
            None => None,
        }
}

pub open spec fn feature_table_in(v: Option<JsonView>) -> Option<Seq<(Seq<char>, Seq<Seq<char>>)>> {
    match v {
        Some(JsonView::Object(o)) => lists::all_of(o, feature_entry_at()),
        _ => None,
    }
}

pub open spec fn list_in<B>(items: Option<Seq<JsonView>>, f: spec_fn(JsonView) -> Option<B>) -> Option<Seq<B>> {
    match items {
        Some(a) => lists::all_of(a, f),
        None => None,
    }
}

pub open spec fn package_in(v: JsonView) -> Option<PackageView> {
    match (
        (
            json_tree::text_under(v, "name"@),
            json_tree::text_under(v, "version"@),
            json_tree::texts_under(v, "authors"@),
            json_tree::text_under(v, "id"@),
        ),
        (
            json_tree::opt_text_under(v, "source"@),
            list_in(json_tree::items_under(v, "dependencies"@), dependency_at()),
            list_in(json_tree::items_under(v, "targets"@), target_at()),
            feature_table_in(json_tree::member_of(v, "features"@)),
        ),
        (
            json_tree::text_under(v, "manifest_path"@),
            json_tree::text_under(v, "edition"@),
            json_tree::opt_text_under(v, "links"@),
        ),
    ) {
        (
            (Some(name), Some(version), Some(authors), Some(id)),
            (Some(source), Some(dependencies), Some(targets), Some(features)),
            (Some(manifest_path), Some(edition), Some(links)),
        ) => Some(
            PackageView {
                name,
                version,
                authors,
                id,
                source,
                dependencies,
                targets,
                features,
                manifest_path,
                edition,
                links,
            },
        ),
        _ => None,
    }
}

pub open spec fn package_at() -> spec_fn(JsonView) -> Option<PackageView> {
    |v: JsonView| package_in(v)
}

pub open spec fn node_dep_at() -> spec_fn(JsonView) -> Option<Seq<char>> {
    |v: JsonView| json_tree::text_under(v, "pkg"@)
}

pub open spec fn node_in(v: JsonView) -> Option<NodeView> {
    match (
        json_tree::text_under(v, "id"@),
        list_in(json_tree::items_under(v, "deps"@), node_dep_at()),
        json_tree::texts_under(v, "features"@),
    ) {
        (Some(id), Some(deps), Some(features)) => Some(NodeView { id, deps, features }),
        _ => None,
    }
}

pub open spec fn node_at() -> spec_fn(JsonView) -> Option<NodeView> {
    |v: JsonView| node_in(v)
}

/// The resolved graph, `None` inside if there is none.
pub open spec fn resolve_in(v: Option<JsonView>) -> Option<Option<ResolveView>> {
    match v {
        Some(JsonView::Null) => Some(None),
        None => Some(None),
        Some(r) => match (
            list_in(json_tree::items_under(r, "nodes"@), node_at()),
            json_tree::opt_text_under(r, "root"@),
        ) {
            (Some(nodes), Some(root)) => Some(Some(ResolveView { nodes, root })),
            _ => None,
        },
    }
}

/// The metadata that its JSON form stands for.
pub open spec fn metadata_in(v: JsonView) -> Option<MetadataView> {
    match (
        list_in(json_tree::items_under(v, "packages"@), package_at()),
        json_tree::texts_under(v, "workspace_members"@),
        resolve_in(json_tree::member_of(v, "resolve"@)),
        json_tree::text_under(v, "workspace_root"@),
    ) {
        (Some(packages), Some(workspace_members), Some(resolve), Some(workspace_root)) => Some(
            MetadataView { packages, workspace_members, resolve, workspace_root },
        ),
        _ => None,
    }
}

fn read_dependency(v: &Json) -> (r: Option<Dependency>)
    ensures
        r.deep_view() == dependency_in(v.deep_view()),
{
    let a = (v.text("name"), v.text("req"), v.text("kind"));
    let b = (v.flag("optional"), v.flag("uses_default_features"), v.texts("features"));
    let c = (v.opt_text("target"), v.opt_text("rename"));
    match (a, b, c) {
        (
            (Some(name), Some(req), Some(kind)),
            (Some(optional), Some(uses_default_features), Some(features)),
            (Some(target), Some(rename)),
        ) => {
            let kind = if text::same(&kind, "dev") {
                DepKind::Development
            } else if text::same(&kind, "build") {
                DepKind::Build
            } else {
                DepKind::Normal
            };
            Some(Dependency { name, req, kind, optional, uses_default_features, features, target, rename })
        },
        _ => None,
    }
}

fn read_target(v: &Json) -> (r: Option<Target>)
    ensures
        r.deep_view() == target_in(v.deep_view()),
{
    match (v.text("name"), v.texts("kind"), v.texts("crate_types"), v.text("src_path")) {
        (Some(name), Some(kind), Some(crate_types), Some(src_path)) => Some(
            Target { name, kind, crate_types, src_path },
        ),
        _ => None,
    }
}

fn read_dependencies(v: &Json) -> (r: Option<Vec<Dependency>>)
    ensures
        r.deep_view() == list_in(json_tree::items_under(v.deep_view(), "dependencies"@), dependency_at()),
{
    let a = match v.items("dependencies") {
        Some(a) => a,
        None => {
            return None;
        },
    };
    let ghost s = a.deep_view();
    let ghost f = dependency_at();
    let mut out: Vec<Dependency> = Vec::new();
    assert(s.take(0) =~= Seq::empty());
    assert(out.deep_view() =~= Seq::empty());
    for i in 0..a.len()
        invariant
            s == a.deep_view(),
            f == dependency_at(),
            json_tree::items_under(v.deep_view(), "dependencies"@) == Some(s),
            lists::all_of(s.take(i as int), f) == Some(out.deep_view()),
    {
        let ghost o = out.deep_view();
        assert(s.take(i + 1).drop_last() =~= s.take(i as int));
        assert(s.take(i + 1).last() == a@[i as int].deep_view());
        match read_dependency(&a[i]) {
            Some(x) => {
                let ghost xv = x.deep_view();
                out.push(x);
                assert(out.deep_view() =~= o.push(xv));
            },
            None => {
                proof {
                    lists::lemma_all_of_fails(s, f, i + 1);
                }
                return None;
            },
        }
    }
    assert(s.take(s.len() as int) =~= s);
    Some(out)
}

fn read_targets(v: &Json) -> (r: Option<Vec<Target>>)
    ensures
        r.deep_view() == list_in(json_tree::items_under(v.deep_view(), "targets"@), target_at()),
{
    let a = match v.items("targets") {
        Some(a) => a,
        None => {
            return None;
        },
    };
    let ghost s = a.deep_view();
    let ghost f = target_at();
    let mut out: Vec<Target> = Vec::new();
    assert(s.take(0) =~= Seq::empty());
    assert(out.deep_view() =~= Seq::empty());
    for i in 0..a.len()
        invariant
            s == a.deep_view(),
            f == target_at(),
            json_tree::items_under(v.deep_view(), "targets"@) == Some(s),
            lists::all_of(s.take(i as int), f) == Some(out.deep_view()),
    {
        let ghost o = out.deep_view();
        assert(s.take(i + 1).drop_last() =~= s.take(i as int));
        assert(s.take(i + 1).last() == a@[i as int].deep_view());
        match read_target(&a[i]) {
            Some(x) => {
                let ghost xv = x.deep_view();
                out.push(x);
                assert(out.deep_view() =~= o.push(xv));
            },
            None => {
                proof {
                    lists::lemma_all_of_fails(s, f, i + 1);
                }
                return None;
            },
        }
    }
    assert(s.take(s.len() as int) =~= s);
    Some(out)
}

fn read_features(v: Option<&Json>) -> (r: Option<Vec<(String, Vec<String>)>>)
    ensures
        r.deep_view() == feature_table_in(v.deep_view()),
{
    let t = match v {
        Some(t) => t,
        None => {
            return None;
        },
    };
    match t {
        Json::Object(a) => {
            let ghost s = a.deep_view();
            assert(t.deep_view()->Object_0 =~= s);
            let ghost f = feature_entry_at();
            let mut out: Vec<(String, Vec<String>)> = Vec::new();
            assert(s.take(0) =~= Seq::empty());
            assert(out.deep_view() =~= Seq::empty());
            for i in 0..a.len()
                invariant
                    s == a.deep_view(),
                    f == feature_entry_at(),
                    v.deep_view() == Some(JsonView::Object(s)),
                    lists::all_of(s.take(i as int), f) == Some(out.deep_view()),
            {
                let ghost o = out.deep_view();
                assert(s.take(i + 1).drop_last() =~= s.take(i as int));
                assert(s.take(i + 1).last() == a@[i as int].deep_view());
                match a[i].1.as_texts() {
                    Some(x) => {
                        let ghost xv = (a@[i as int].0@, x.deep_view());
                        out.push((a[i].0.clone(), x));
                        assert(out.deep_view() =~= o.push(xv));
                    },
                    None => {
                        proof {
                            lists::lemma_all_of_fails(s, f, i + 1);
                        }
                        return None;
                    },
                }
            }
            assert(s.take(s.len() as int) =~= s);
            Some(out)
        },
        _ => None,
    }
}

fn read_package(v: &Json) -> (r: Option<Package>)
    ensures
        r.deep_view() == package_in(v.deep_view()),
{
    let a = (v.text("name"), v.text("version"), v.texts("authors"), v.text("id"));
    let b = (
        v.opt_text("source"),
        read_dependencies(v),
        read_targets(v),
        read_features(v.get("features")),
    );
    let c = (v.text("manifest_path"), v.text("edition"), v.opt_text("links"));
    match (a, b, c) {
        (
            (Some(name), Some(version), Some(authors), Some(id)),
            (Some(source), Some(dependencies), Some(targets), Some(features)),
            (Some(manifest_path), Some(edition), Some(links)),
        ) => Some(
            Package {
                name,
                version,
                authors,
                id,
                source,
                dependencies,
                targets,
                features,
                manifest_path,
                edition,
                links,
            },
        ),
        _ => None,
    }
}

fn read_node(v: &Json) -> (r: Option<Node>)
    ensures
        r.deep_view() == node_in(v.deep_view()),
{
    let a = match v.items("deps") {
        Some(a) => a,
        None => {
            return None;
        },
    };
    let ghost s = a.deep_view();
    let ghost f = node_dep_at();
    let mut deps: Vec<String> = Vec::new();
    assert(s.take(0) =~= Seq::empty());
    assert(deps.deep_view() =~= Seq::empty());
    for i in 0..a.len()
        invariant
            s == a.deep_view(),
            f == node_dep_at(),
            json_tree::items_under(v.deep_view(), "deps"@) == Some(s),
            lists::all_of(s.take(i as int), f) == Some(deps.deep_view()),
    {
        let ghost o = deps.deep_view();
        assert(s.take(i + 1).drop_last() =~= s.take(i as int));
        assert(s.take(i + 1).last() == a@[i as int].deep_view());
        match a[i].text("pkg") {
            Some(x) => {
                let ghost xv = x@;
                deps.push(x);
                assert(deps.deep_view() =~= o.push(xv));
            },
            None => {
                proof {
                    lists::lemma_all_of_fails(s, f, i + 1);
                }
                return None;
            },
        }
    }
    assert(s.take(s.len() as int) =~= s);
    match (v.text("id"), v.texts("features")) {
        (Some(id), Some(features)) => Some(Node { id, deps, features }),
        _ => None,
    }
}

fn read_nodes(v: &Json) -> (r: Option<Vec<Node>>)
    ensures
        r.deep_view() == list_in(json_tree::items_under(v.deep_view(), "nodes"@), node_at()),
{
    let a = match v.items("nodes") {
        Some(a) => a,
        None => {
            return None;
        },
    };
    let ghost s = a.deep_view();
    let ghost f = node_at();
    let mut out: Vec<Node> = Vec::new();
    assert(s.take(0) =~= Seq::empty());
    assert(out.deep_view() =~= Seq::empty());
    for i in 0..a.len()
        invariant
            s == a.deep_view(),
            f == node_at(),
            json_tree::items_under(v.deep_view(), "nodes"@) == Some(s),
            lists::all_of(s.take(i as int), f) == Some(out.deep_view()),
    {
        let ghost o = out.deep_view();
        assert(s.take(i + 1).drop_last() =~= s.take(i as int));
        assert(s.take(i + 1).last() == a@[i as int].deep_view());
        match read_node(&a[i]) {
            Some(x) => {
                let ghost xv = x.deep_view();
                out.push(x);
                assert(out.deep_view() =~= o.push(xv));
            },
            None => {
                proof {
                    lists::lemma_all_of_fails(s, f, i + 1);
                }
                return None;
            },
        }
    }
    assert(s.take(s.len() as int) =~= s);
    Some(out)
}

fn read_packages(v: &Json) -> (r: Option<Vec<Package>>)
    ensures
        r.deep_view() == list_in(json_tree::items_under(v.deep_view(), "packages"@), package_at()),
{
    let a = match v.items("packages") {
        Some(a) => a,
        None => {
            return None;
        },
    };
    let ghost s = a.deep_view();
    let ghost f = package_at();
    let mut out: Vec<Package> = Vec::new();
    assert(s.take(0) =~= Seq::empty());
    assert(out.deep_view() =~= Seq::empty());
    for i in 0..a.len()
        invariant
            s == a.deep_view(),
            f == package_at(),
            json_tree::items_under(v.deep_view(), "packages"@) == Some(s),
            lists::all_of(s.take(i as int), f) == Some(out.deep_view()),
    {
        let ghost o = out.deep_view();
        assert(s.take(i + 1).drop_last() =~= s.take(i as int));
        assert(s.take(i + 1).last() == a@[i as int].deep_view());
        match read_package(&a[i]) {
            Some(x) => {
                let ghost xv = x.deep_view();
                out.push(x);
                assert(out.deep_view() =~= o.push(xv));
            },
            None => {
                proof {
                    lists::lemma_all_of_fails(s, f, i + 1);
                }
                return None;
            },
        }
    }
    assert(s.take(s.len() as int) =~= s);
    Some(out)
}

fn read_resolve(v: Option<&Json>) -> (r: Option<Option<Resolve>>)
    ensures
        r.deep_view() == resolve_in(v.deep_view()),
{
    match v {
        None => Some(None),
        Some(Json::Null) => Some(None),
        Some(x) => match (read_nodes(x), x.opt_text("root")) {
            (Some(nodes), Some(root)) => Some(Some(Resolve { nodes, root })),
            _ => None,
        },
    }
}

/// Reads metadata out of its JSON form.
pub fn metadata_from_json(v: &Json) -> (r: Option<Metadata>)
    ensures
        r.deep_view() == metadata_in(v.deep_view()),
{
    match (
        read_packages(v),
        v.texts("workspace_members"),
        read_resolve(v.get("resolve")),
        v.text("workspace_root"),
    ) {
        (Some(packages), Some(workspace_members), Some(resolve), Some(workspace_root)) => Some(
            Metadata { packages, workspace_members, resolve, workspace_root },
        ),
        _ => None,
    }
}

/// The metadata that a text holds.
pub open spec fn metadata_read(text: Seq<char>) -> Result<MetadataView, Seq<char>> {
    match metadata_parsed(text) {
        Err(e) => Err("Failed to parse metadata: "@ + e),
        Ok(j) => match metadata_in(j) {
            Some(m) => Ok(m),
            None => Err("Failed to parse metadata: unexpected form"@),
        },
    }
}

/// Reads the output of `cargo metadata`.
pub fn parse_metadata(text: &str) -> (r: Result<Metadata, String>)
    ensures
        metadata_read(text@) == match r {
            Ok(m) => Ok::<MetadataView, Seq<char>>(m.deep_view()),
            Err(e) => Err::<MetadataView, Seq<char>>(e@),
        },
{
    match metadata_from_str(text) {
        Ok(v) => match metadata_from_json(&json_tree::json_of(&v)) {
            Some(m) => Ok(m),
            None => Err("Failed to parse metadata: unexpected form".to_owned()),
        },
        Err(e) => Err(text::cat2("Failed to parse metadata: ", &json_tree::json_complaint(&e))),
    }
}

// ---------------------------------------------------------------------------
// Read by name
// ---------------------------------------------------------------------------

/// Whether a value is the text, if there is one, and absent or null otherwise.
pub open spec fn is_opt_text(v: Option<JsonView>, s: Option<Seq<char>>) -> bool {
    match s {
        Some(t) => v == Some(JsonView::Text(t)),
        None => v is None || v == Some(JsonView::Null),
    }
}

/// Whether a value is the array of the texts.
pub open spec fn is_texts(v: Option<JsonView>, s: Seq<Seq<char>>) -> bool {
    match v {
        Some(JsonView::Array(a)) => a.len() == s.len() && forall|i: int|
            0 <= i < s.len() ==> #[trigger] a[i] == JsonView::Text(s[i]),
        _ => false,
    }
}

proof fn lemma_texts_under(v: JsonView, key: Seq<char>)
    ensures
        json_tree::texts_under(v, key) matches Some(s) ==> is_texts(json_tree::member_of(v, key), s),
{
    if let Some(s) = json_tree::texts_under(v, key) {
        let a = json_tree::member_of(v, key)->0->Array_0;
        lists::lemma_all_of(a, json_tree::json_text_at());
        assert forall|i: int| 0 <= i < s.len() implies #[trigger] a[i] == JsonView::Text(s[i]) by {
            assert(json_tree::json_text_at()(a[i]) == Some(s[i]));
        }
    }
}

/// A declared dependency says what stands under the names that Cargo uses; its kind is that of development
/// for `dev`, of build for `build`, and else normal.
pub proof fn lemma_dependency_read(v: JsonView, kind: Seq<char>)
    ensures
        dependency_in(v) matches Some(d) ==> {
            &&& json_tree::member_of(v, "name"@) == Some(JsonView::Text(d.name))
            &&& json_tree::member_of(v, "req"@) == Some(JsonView::Text(d.req))
            &&& json_tree::member_of(v, "optional"@) == Some(JsonView::Bool(d.optional))
            &&& json_tree::member_of(v, "uses_default_features"@) == Some(JsonView::Bool(d.uses_default_features))
            &&& is_texts(json_tree::member_of(v, "features"@), d.features)
            &&& is_opt_text(json_tree::member_of(v, "target"@), d.target)
            &&& is_opt_text(json_tree::member_of(v, "rename"@), d.rename)
            &&& json_tree::member_of(v, "kind"@) == Some(JsonView::Text(kind)) ==> {
                &&& d.kind == DepKind::Development <==> kind == "dev"@
                &&& d.kind == DepKind::Build <==> kind == "build"@
                &&& d.kind == DepKind::Normal <==> kind != "dev"@ && kind != "build"@
            }
        },
{
    reveal_strlit("dev");
    reveal_strlit("build");
    assert("dev"@.len() != "build"@.len());
    lemma_texts_under(v, "features"@);
}

/// A target says what stands under the names that Cargo uses.
pub proof fn lemma_target_read(v: JsonView)
    ensures
        target_in(v) matches Some(t) ==> {
            &&& json_tree::member_of(v, "name"@) == Some(JsonView::Text(t.name))
            &&& is_texts(json_tree::member_of(v, "kind"@), t.kind)
            &&& is_texts(json_tree::member_of(v, "crate_types"@), t.crate_types)
            &&& json_tree::member_of(v, "src_path"@) == Some(JsonView::Text(t.src_path))
        },
{
    lemma_texts_under(v, "kind"@);
    lemma_texts_under(v, "crate_types"@);
}

/// A package says what stands under the names that Cargo uses: each of its dependencies and targets is what
/// the item at its place says, and each of its features what the entry at its place says.
pub proof fn lemma_package_read(v: JsonView)
    ensures
        package_in(v) matches Some(p) ==> {
            &&& json_tree::member_of(v, "name"@) == Some(JsonView::Text(p.name))
            &&& json_tree::member_of(v, "version"@) == Some(JsonView::Text(p.version))
            &&& is_texts(json_tree::member_of(v, "authors"@), p.authors)
            &&& json_tree::member_of(v, "id"@) == Some(JsonView::Text(p.id))
            &&& is_opt_text(json_tree::member_of(v, "source"@), p.source)
            &&& json_tree::member_of(v, "manifest_path"@) == Some(JsonView::Text(p.manifest_path))
            &&& json_tree::member_of(v, "edition"@) == Some(JsonView::Text(p.edition))
            &&& is_opt_text(json_tree::member_of(v, "links"@), p.links)
            &&& json_tree::member_of(v, "dependencies"@) matches Some(JsonView::Array(a)) && a.len() == p.dependencies.len()
                && forall|i: int| 0 <= i < a.len() ==> dependency_in(#[trigger] a[i]) == Some(p.dependencies[i])
            &&& json_tree::member_of(v, "targets"@) matches Some(JsonView::Array(a)) && a.len() == p.targets.len()
                && forall|i: int| 0 <= i < a.len() ==> target_in(#[trigger] a[i]) == Some(p.targets[i])
            &&& json_tree::member_of(v, "features"@) matches Some(JsonView::Object(o)) && o.len() == p.features.len()
                && forall|i: int|
                0 <= i < o.len() ==> (#[trigger] o[i]).0 == p.features[i].0 && json_tree::texts_of(o[i].1) == Some(
                    p.features[i].1,
                )
        },
{
    if let Some(p) = package_in(v) {
        lemma_texts_under(v, "authors"@);
        let a = json_tree::member_of(v, "dependencies"@)->0->Array_0;
        lists::lemma_all_of(a, dependency_at());
        assert forall|i: int| 0 <= i < a.len() implies dependency_in(#[trigger] a[i]) == Some(p.dependencies[i]) by {
            assert(dependency_at()(a[i]) == Some(p.dependencies[i]));
        }
        let b = json_tree::member_of(v, "targets"@)->0->Array_0;
        lists::lemma_all_of(b, target_at());
        assert forall|i: int| 0 <= i < b.len() implies target_in(#[trigger] b[i]) == Some(p.targets[i]) by {
            assert(target_at()(b[i]) == Some(p.targets[i]));
        }
        let o = json_tree::member_of(v, "features"@)->0->Object_0;
        lists::lemma_all_of(o, feature_entry_at());
        assert forall|i: int| 0 <= i < o.len() implies (#[trigger] o[i]).0 == p.features[i].0 && json_tree::texts_of(
            o[i].1,
        ) == Some(p.features[i].1) by {
            assert(feature_entry_at()(o[i]) == Some(p.features[i]));
        }
    }
}

/// What Cargo resolved a package to: its ID, and the IDs of the packages that it depends on, item by item.
pub proof fn lemma_node_read(v: JsonView)
    ensures
        node_in(v) matches Some(n) ==> {
            &&& json_tree::member_of(v, "id"@) == Some(JsonView::Text(n.id))
            &&& is_texts(json_tree::member_of(v, "features"@), n.features)
            &&& json_tree::member_of(v, "deps"@) matches Some(JsonView::Array(a)) && a.len() == n.deps.len() && forall|
                i: int,
            |
                0 <= i < a.len() ==> json_tree::member_of(#[trigger] a[i], "pkg"@) == Some(JsonView::Text(n.deps[i]))
        },
{
    if let Some(n) = node_in(v) {
        lemma_texts_under(v, "features"@);
        let a = json_tree::member_of(v, "deps"@)->0->Array_0;
        lists::lemma_all_of(a, node_dep_at());
        assert forall|i: int| 0 <= i < a.len() implies json_tree::member_of(#[trigger] a[i], "pkg"@) == Some(
            JsonView::Text(n.deps[i]),
        ) by {
            assert(node_dep_at()(a[i]) == Some(n.deps[i]));
        }
    }
}

/// Whether a value is the resolved graph: its root, and its nodes, item by item.
pub open spec fn reads_graph(g: JsonView, r: ResolveView) -> bool {
    &&& is_opt_text(json_tree::member_of(g, "root"@), r.root)
    &&& json_tree::member_of(g, "nodes"@) matches Some(JsonView::Array(a)) && a.len() == r.nodes.len() && forall|i: int|
        0 <= i < a.len() ==> node_in(#[trigger] a[i]) == Some(r.nodes[i])
}

/// Metadata has its packages and members in the order in which they stand, and a resolved graph exactly if
/// there is one that is not null.
pub proof fn lemma_metadata_read(v: JsonView)
    ensures
        metadata_in(v) matches Some(m) ==> {
            &&& is_texts(json_tree::member_of(v, "workspace_members"@), m.workspace_members)
            &&& json_tree::member_of(v, "workspace_root"@) == Some(JsonView::Text(m.workspace_root))
            &&& json_tree::member_of(v, "packages"@) matches Some(JsonView::Array(a)) && a.len() == m.packages.len()
                && forall|i: int| 0 <= i < a.len() ==> package_in(#[trigger] a[i]) == Some(m.packages[i])
            &&& m.resolve is None <==> json_tree::member_of(v, "resolve"@) is None || json_tree::member_of(v, "resolve"@)
                == Some(JsonView::Null)
            &&& m.resolve matches Some(r) ==> reads_graph(json_tree::member_of(v, "resolve"@)->0, r)
        },
{
    if let Some(m) = metadata_in(v) {
        lemma_texts_under(v, "workspace_members"@);
        let a = json_tree::member_of(v, "packages"@)->0->Array_0;
        lists::lemma_all_of(a, package_at());
        assert forall|i: int| 0 <= i < a.len() implies package_in(#[trigger] a[i]) == Some(m.packages[i]) by {
            assert(package_at()(a[i]) == Some(m.packages[i]));
        }
        if let Some(r) = m.resolve {
            let g = json_tree::member_of(v, "resolve"@)->0;
            let b = json_tree::member_of(g, "nodes"@)->0->Array_0;
            lists::lemma_all_of(b, node_at());
            assert forall|i: int| 0 <= i < b.len() implies node_in(#[trigger] b[i]) == Some(r.nodes[i]) by {
                assert(node_at()(b[i]) == Some(r.nodes[i]));
            }
        }
    }
}

/// Metadata that is none is refused with words that say so, and those of the parser.
pub proof fn lemma_metadata_refused(text: Seq<char>, e: Seq<char>, j: JsonView)
    ensures
        metadata_parsed(text) == Err::<JsonView, Seq<char>>(e) ==> metadata_read(text) == Err::<MetadataView, Seq<char>>(
            "Failed to parse metadata: "@ + e,
        ),
        metadata_parsed(text) == Ok::<JsonView, Seq<char>>(j) && json_tree::member_of(j, "workspace_root"@) is None
            ==> metadata_read(text) is Err,
        metadata_parsed(text) == Ok::<JsonView, Seq<char>>(j) ==> (metadata_in(j) matches Some(m) ==> metadata_read(text)
            == Ok::<MetadataView, Seq<char>>(m)),
{
}

} // verus!
