//! `Cargo.toml` manifests: a workspace and its members, and git checkouts.

use crate::disk;
use crate::disk::{Disk, DiskView};
use crate::lists;
use crate::resolve;
use crate::resolve::{BinTarget, BinView};
use crate::sorted;
use crate::sorted::StrMap;
use crate::text;
use crate::toml_tree;
use crate::toml_tree::{Toml, Tree};
use vstd::prelude::*;

verus! {

// ---------------------------------------------------------------------------
// Dependencies
// ---------------------------------------------------------------------------

/// One entry of a `[dependencies]` table.
#[derive(Debug, Clone)]
pub struct ManifestDep {
    pub name: String,
    pub package: Option<String>,
    pub version_req: Option<String>,
    pub optional: bool,
    pub default_features: bool,
    pub features: Vec<String>,
    pub target: Option<String>,
}

/// The view of a [`ManifestDep`].
pub struct ManifestDepView {
    pub name: Seq<char>,
    pub package: Option<Seq<char>>,
    pub version_req: Option<Seq<char>>,
    pub optional: bool,
    pub default_features: bool,
    pub features: Seq<Seq<char>>,
    pub target: Option<Seq<char>>,
}

impl DeepView for ManifestDep {
    type V = ManifestDepView;

    open spec fn deep_view(&self) -> ManifestDepView {
        ManifestDepView {
            name: self.name@,
            package: self.package.deep_view(),
            version_req: self.version_req.deep_view(),
            optional: self.optional,
            default_features: self.default_features,
            features: self.features.deep_view(),
            target: self.target.deep_view(),
        }
    }
}

pub open spec fn is_dep_named(name: Seq<char>) -> spec_fn(ManifestDepView) -> bool {
    |d: ManifestDepView| d.name == name
}

/// What the workspace declares for `name` under `[workspace.dependencies]`.
pub open spec fn inherited(ws: Seq<ManifestDepView>, name: Seq<char>) -> Option<ManifestDepView> {
    lists::first_with(ws, is_dep_named(name))
}

/// The truth value of `default-features`, under either spelling of the key.
pub open spec fn default_features_in(t: Toml) -> Option<bool> {
    match toml_tree::field(t, "default-features"@) {
        Some(v) => toml_tree::bool_in(Some(v)),
        None => toml_tree::bool_in(toml_tree::field(t, "default_features"@)),
    }
}

/// The dependency that an entry declares.
///
/// A text is a version requirement. A table with `workspace = true` inherits package, version and
/// features from the workspace, if that declares it, and adds its own features; it can turn default
/// features on, never off. Any other table speaks for itself. Anything else is a bare dependency.
pub open spec fn dep_declared(name: Seq<char>, val: Toml, ws: Seq<ManifestDepView>) -> ManifestDepView {
    match val {
        Toml::Text(version) => ManifestDepView {
            name,
            package: None,
            version_req: Some(version),
            optional: false,
            default_features: true,
            features: Seq::empty(),
            target: None,
        },
        Toml::Table(_) => {
            let optional = toml_tree::bool_in(toml_tree::field(val, "optional"@)) == Some(true);
            let features = toml_tree::texts_in(toml_tree::field(val, "features"@));
            let inherits = toml_tree::bool_in(toml_tree::field(val, "workspace"@)) == Some(true);
            match (inherits, inherited(ws, name)) {
                (true, Some(w)) => ManifestDepView {
                    name,
                    package: w.package,
                    version_req: w.version_req,
                    optional,
                    default_features: default_features_in(val) == Some(true) || w.default_features,
                    features: w.features + features,
                    target: None,
                },
                _ => ManifestDepView {
                    name,
                    package: toml_tree::text_in(toml_tree::field(val, "package"@)),
                    version_req: toml_tree::text_in(toml_tree::field(val, "version"@)),
                    optional,
                    default_features: default_features_in(val) != Some(false),
                    features,
                    target: None,
                },
            }
        },
        _ => ManifestDepView {
            name,
            package: None,
            version_req: None,
            optional: false,
            default_features: true,
            features: Seq::empty(),
            target: None,
        },
    }
}

pub open spec fn dep_at(ws: Seq<ManifestDepView>) -> spec_fn((Seq<char>, Toml)) -> ManifestDepView {
    |e: (Seq<char>, Toml)| dep_declared(e.0, e.1, ws)
}

/// The dependencies that a table declares, in its order.
pub open spec fn deps_declared(deps: Option<Toml>, ws: Seq<ManifestDepView>) -> Seq<ManifestDepView> {
    toml_tree::entries_in(deps).map_values(dep_at(ws))
}

fn find_inherited<'a>(ws: &'a Vec<ManifestDep>, name: &str) -> (r: Option<&'a ManifestDep>)
    ensures
        r.deep_view() == inherited(ws.deep_view(), name@),
{
    let ghost s = ws.deep_view();
    for i in 0..ws.len()
        invariant
            s == ws.deep_view(),
            forall|j: int| 0 <= j < i ==> !is_dep_named(name@)(#[trigger] s[j]),
    {
        assert(s[i as int] == ws@[i as int].deep_view());
        if text::same(&ws[i].name, name) {
            proof {
                lists::lemma_first_with_is(s, is_dep_named(name@), i as int);
            }
            return Some(&ws[i]);
        }
    }
    proof {
        lists::lemma_first_with_is(s, is_dep_named(name@), s.len() as int);
    }
    None
}

fn default_features_of(t: &Tree) -> (r: Option<bool>)
    ensures
        r == default_features_in(t.deep_view()),
{
    match t.get("default-features") {
        Some(v) => v.as_bool(),
        None => toml_tree::flag_in(t.get("default_features")),
    }
}

fn parse_manifest_dep(name: &str, val: &Tree, workspace_deps: &Vec<ManifestDep>) -> (r: ManifestDep)
    ensures
        r.deep_view() == dep_declared(name@, val.deep_view(), workspace_deps.deep_view()),
{
    match val {
        Tree::Text(version) => {
            let r = ManifestDep {
                name: name.to_owned(),
                package: None,
                version_req: Some(version.clone()),
                optional: false,
                default_features: true,
                features: Vec::new(),
                target: None,
            };
            assert(r.deep_view().features =~= Seq::empty());
            r
        },
        Tree::Table(_) => {
            let optional = toml_tree::flag_in(val.get("optional")) == Some(true);
            let member_default_features = default_features_of(val);
            let member_features = toml_tree::toml_str_array(val.get("features"));
            if toml_tree::flag_in(val.get("workspace")) == Some(true) {
                if let Some(ws) = find_inherited(workspace_deps, name) {
                    let mut features = sorted::copy_texts(&ws.features);
                    sorted::extend_texts(&mut features, &member_features);
                    let default_features = match member_default_features {
                        Some(true) => true,
                        _ => ws.default_features,
                    };
                    return ManifestDep {
                        name: name.to_owned(),
                        package: sorted::copy_opt(&ws.package),
                        version_req: sorted::copy_opt(&ws.version_req),
                        optional,
                        default_features,
                        features,
                        target: None,
                    };
                }
            }
            ManifestDep {
                name: name.to_owned(),
                package: toml_tree::string_in(val.get("package")),
                version_req: toml_tree::string_in(val.get("version")),
                optional,
                default_features: member_default_features != Some(false),
                features: member_features,
                target: None,
            }
        },
        _ => {
            let r = ManifestDep {
                name: name.to_owned(),
                package: None,
                version_req: None,
                optional: false,
                default_features: true,
                features: Vec::new(),
                target: None,
            };
            assert(r.deep_view().features =~= Seq::empty());
            r
        },
    }
}

/// Reads a `[dependencies]` table. `workspace_deps` is what `[workspace.dependencies]` declares.
pub fn parse_manifest_deps(deps: Option<&Tree>, workspace_deps: &Vec<ManifestDep>) -> (r: Vec<ManifestDep>)
    ensures
        r.deep_view() == deps_declared(deps.deep_view(), workspace_deps.deep_view()),
{
    let mut out: Vec<ManifestDep> = Vec::new();
    let ghost ws = workspace_deps.deep_view();
    if let Some(d) = deps {
        if let Some(t) = d.as_table() {
            let ghost s = t.deep_view();
            let ghost full = s.map_values(dep_at(ws));
            for i in 0..t.len()
                invariant
                    s == t.deep_view(),
                    ws == workspace_deps.deep_view(),
                    full == s.map_values(dep_at(ws)),
                    out.deep_view() == full.take(i as int),
            {
                let ghost o = out.deep_view();
                let dep = parse_manifest_dep(&t[i].0, &t[i].1, workspace_deps);
                let ghost dv = dep.deep_view();
                assert(s[i as int] == t@[i as int].deep_view());
                assert(full[i as int] == dv);
                out.push(dep);
                assert(out.deep_view() =~= o.push(dv));
                assert(full.take(i + 1) =~= full.take(i as int).push(dv));
            }
            assert(full.take(s.len() as int) =~= full);
            return out;
        }
    }
    assert(out.deep_view() =~= deps_declared(deps.deep_view(), ws));
    out
}

// ---------------------------------------------------------------------------
// Members
// ---------------------------------------------------------------------------

/// Fields of `[workspace.package]` that `field.workspace = true` inherits.
#[derive(Debug, Clone)]
pub struct WorkspacePackage {
    pub edition: Option<String>,
    pub version: Option<String>,
}

/// The view of a [`WorkspacePackage`].
pub struct WorkspacePackageView {
    pub edition: Option<Seq<char>>,
    pub version: Option<Seq<char>>,
}

impl DeepView for WorkspacePackage {
    type V = WorkspacePackageView;

    open spec fn deep_view(&self) -> WorkspacePackageView {
        WorkspacePackageView { edition: self.edition.deep_view(), version: self.version.deep_view() }
    }
}

impl Default for WorkspacePackage {
    fn default() -> (r: WorkspacePackage)
        ensures
            r.deep_view() == (WorkspacePackageView { edition: None, version: None }),
    {
        WorkspacePackage { edition: None, version: None }
    }
}

/// A package whose manifest was read: a workspace member, or a crate of a git checkout.
#[derive(Debug, Clone)]
pub struct WorkspaceMember {
    pub name: String,
    pub version: String,
    pub manifest_dir: String,
    pub dependencies: Vec<ManifestDep>,
    pub build_dependencies: Vec<ManifestDep>,
    pub dev_dependencies: Vec<ManifestDep>,
    pub features: StrMap<Vec<String>>,
    pub edition: String,
    pub links: Option<String>,
    pub proc_macro: bool,
    pub build_script: Option<String>,
    pub lib_path: Option<String>,
    pub lib_name: Option<String>,
    pub lib_crate_types: Vec<String>,
    pub bin_targets: Vec<BinTarget>,
    pub authors: Vec<String>,
}

/// The view of a [`WorkspaceMember`].
pub struct MemberView {
    pub name: Seq<char>,
    pub version: Seq<char>,
    pub manifest_dir: Seq<char>,
    pub dependencies: Seq<ManifestDepView>,
    pub build_dependencies: Seq<ManifestDepView>,
    pub dev_dependencies: Seq<ManifestDepView>,
    pub features: Seq<(Seq<char>, Seq<Seq<char>>)>,
    pub edition: Seq<char>,
    pub links: Option<Seq<char>>,
    pub proc_macro: bool,
    pub build_script: Option<Seq<char>>,
    pub lib_path: Option<Seq<char>>,
    pub lib_name: Option<Seq<char>>,
    pub lib_crate_types: Seq<Seq<char>>,
    pub bin_targets: Seq<BinView>,
    pub authors: Seq<Seq<char>>,
}

impl DeepView for WorkspaceMember {
    type V = MemberView;

    open spec fn deep_view(&self) -> MemberView {
        MemberView {
            name: self.name@,
            version: self.version@,
            manifest_dir: self.manifest_dir@,
            dependencies: self.dependencies.deep_view(),
            build_dependencies: self.build_dependencies.deep_view(),
            dev_dependencies: self.dev_dependencies.deep_view(),
            features: self.features.deep_view(),
            edition: self.edition@,
            links: self.links.deep_view(),
            proc_macro: self.proc_macro,
            build_script: self.build_script.deep_view(),
            lib_path: self.lib_path.deep_view(),
            lib_name: self.lib_name.deep_view(),
            lib_crate_types: self.lib_crate_types.deep_view(),
            bin_targets: self.bin_targets.deep_view(),
            authors: self.authors.deep_view(),
        }
    }
}

/// A package field that is a text, or `{ workspace = true }` for the workspace's value.
pub open spec fn inherited_text(pkg: Toml, key: Seq<char>, ws_value: Option<Seq<char>>) -> Option<Seq<char>> {
    match toml_tree::field(pkg, key) {
        Some(Toml::Text(s)) => Some(s),
        Some(v) => if toml_tree::bool_in(toml_tree::field(v, "workspace"@)) == Some(true) {
            ws_value
        } else {
            None
        },
        None => None,
    }
}

/// Reads a text-valued package field, honouring `field.workspace = true`.
pub fn inherit_pkg_str<'a>(pkg: &'a Tree, key: &str, ws_value: Option<&'a str>) -> (r: Option<&'a str>)
    ensures
        r.deep_view() == inherited_text(pkg.deep_view(), key@, ws_value.deep_view()),
{
    match pkg.get(key) {
        Some(v) => match v.as_str() {
            Some(s) => Some(s),
            None => if toml_tree::flag_in(v.get("workspace")) == Some(true) {
                ws_value
            } else {
                None
            },
        },
        None => None,
    }
}

/// The build script of a package: what `build` says, else `build.rs` if there is such a file.
pub open spec fn build_script_of(pkg: Toml, dir: Seq<char>, d: DiskView) -> Option<Seq<char>> {
    match toml_tree::field(pkg, "build"@) {
        Some(Toml::Boolean(true)) => Some("build.rs"@),
        Some(Toml::Boolean(false)) => None,
        Some(Toml::Text(s)) => Some(s),
        _ => if disk::file_exists(d, disk::joined_path(dir, "build.rs"@)) {
            Some("build.rs"@)
        } else {
            None
        },
    }
}

/// A `[[bin]]` entry with both a name and a path.
pub open spec fn bin_in(item: Toml) -> Option<BinView> {
    match (
        toml_tree::text_in(toml_tree::field(item, "name"@)),
        toml_tree::text_in(toml_tree::field(item, "path"@)),
    ) {
        (Some(name), Some(path)) => Some(BinView { name, path }),
        _ => None,
    }
}

pub open spec fn bin_at() -> spec_fn(Toml) -> Option<BinView> {
    |item: Toml| bin_in(item)
}

pub open spec fn feature_at() -> spec_fn((Seq<char>, Toml)) -> (Seq<char>, Seq<Seq<char>>) {
    |e: (Seq<char>, Toml)| (e.0, toml_tree::texts_in(Some(e.1)))
}

/// The feature table of a manifest.
pub open spec fn features_declared(toml: Toml) -> Seq<(Seq<char>, Seq<Seq<char>>)> {
    sorted::map_of(toml_tree::entries_in(toml_tree::field(toml, "features"@)).map_values(feature_at()))
}

/// A dependency that is declared for one target only.
pub open spec fn with_target(target: Seq<char>) -> spec_fn(ManifestDepView) -> ManifestDepView {
    |d: ManifestDepView| ManifestDepView { target: Some(target), ..d }
}

pub open spec fn target_deps_at(key: Seq<char>, ws: Seq<ManifestDepView>) -> spec_fn(
    (Seq<char>, Toml),
) -> Seq<ManifestDepView> {
    |e: (Seq<char>, Toml)| deps_declared(toml_tree::field(e.1, key), ws).map_values(with_target(e.0))
}

/// The dependencies under `key`: those for every target, then those of each `[target]` table.
pub open spec fn all_deps_declared(toml: Toml, key: Seq<char>, ws: Seq<ManifestDepView>) -> Seq<ManifestDepView> {
    deps_declared(toml_tree::field(toml, key), ws) + lists::flat(
        toml_tree::entries_in(toml_tree::field(toml, "target"@)),
        target_deps_at(key, ws),
    )
}

pub open spec fn or_text(v: Option<Seq<char>>, default: Seq<char>) -> Seq<char> {
    match v {
        Some(s) => s,
        None => default,
    }
}

/// The key `crate-type` of a `[lib]` table, under either spelling.
pub open spec fn crate_types_in(lib: Option<Toml>) -> Seq<Seq<char>> {
    match toml_tree::opt_field(lib, "crate-type"@) {
        Some(v) => toml_tree::texts_in(Some(v)),
        None => toml_tree::texts_in(toml_tree::opt_field(lib, "crate_type"@)),
    }
}

/// The package that a manifest describes; none if it has no name.
pub open spec fn member_declared(
    toml: Toml,
    pkg: Toml,
    dir: Seq<char>,
    ws: Seq<ManifestDepView>,
    ws_pkg: WorkspacePackageView,
    d: DiskView,
) -> Option<MemberView> {
    match toml_tree::text_in(toml_tree::field(pkg, "name"@)) {
        None => None,
        Some(name) => {
            let lib = toml_tree::field(toml, "lib"@);
            Some(
                MemberView {
                    name,
                    version: or_text(inherited_text(pkg, "version"@, ws_pkg.version), "0.0.0"@),
                    manifest_dir: dir,
                    dependencies: all_deps_declared(toml, "dependencies"@, ws),
                    build_dependencies: all_deps_declared(toml, "build-dependencies"@, ws),
                    dev_dependencies: all_deps_declared(toml, "dev-dependencies"@, ws),
                    features: features_declared(toml),
                    edition: or_text(inherited_text(pkg, "edition"@, ws_pkg.edition), "2021"@),
                    links: toml_tree::text_in(toml_tree::field(pkg, "links"@)),
                    proc_macro: toml_tree::bool_in(toml_tree::opt_field(lib, "proc-macro"@)) == Some(true),
                    build_script: build_script_of(pkg, dir, d),
                    lib_path: toml_tree::text_in(toml_tree::opt_field(lib, "path"@)),
                    lib_name: match toml_tree::text_in(toml_tree::opt_field(lib, "name"@)) {
                        Some(n) => Some(resolve::normalized(n)),
                        None => None,
                    },
                    lib_crate_types: crate_types_in(lib),
                    bin_targets: toml_tree::items_in(toml_tree::field(toml, "bin"@)).filter_map(bin_at()),
                    authors: toml_tree::texts_in(toml_tree::field(pkg, "authors"@)),
                },
            )
        },
    }
}

fn find_build_script(pkg: &Tree, dir: &str, disk: &Disk) -> (r: Option<String>)
    ensures
        r.deep_view() == build_script_of(pkg.deep_view(), dir@, disk.deep_view()),
{
    match pkg.get("build") {
        Some(Tree::Boolean(true)) => Some("build.rs".to_owned()),
        Some(Tree::Boolean(false)) => None,
        Some(Tree::Text(s)) => Some(s.clone()),
        _ => {
            if disk.has(&disk::join_path(dir, "build.rs")) {
                Some("build.rs".to_owned())
            } else {
                None
            }
        },
    }
}

fn parse_bins(bins: Option<&Tree>) -> (r: Vec<BinTarget>)
    ensures
        r.deep_view() == toml_tree::items_in(bins.deep_view()).filter_map(bin_at()),
{
    let mut out: Vec<BinTarget> = Vec::new();
    if let Some(b) = bins {
        if let Some(a) = b.as_array() {
            let ghost s = a.deep_view();
            for i in 0..a.len()
                invariant
                    s == a.deep_view(),
                    out.deep_view() == s.take(i as int).filter_map(bin_at()),
            {
                let ghost o = out.deep_view();
                assert(s.take(i + 1).drop_last() =~= s.take(i as int));
                assert(s.take(i + 1).last() == a@[i as int].deep_view());
                match (toml_tree::string_in(a[i].get("name")), toml_tree::string_in(a[i].get("path"))) {
                    (Some(name), Some(path)) => {
                        let ghost bv = BinView { name: name@, path: path@ };
                        out.push(BinTarget { name, path });
                        assert(out.deep_view() =~= o + seq![bv]);
                    },
                    _ => {},
                }
            }
            assert(s.take(s.len() as int) =~= s);
            return out;
        }
    }
    assert(out.deep_view() =~= toml_tree::items_in(bins.deep_view()).filter_map(bin_at()));
    out
}

fn parse_features(toml: &Tree) -> (r: StrMap<Vec<String>>)
    ensures
        r.deep_view() == features_declared(toml.deep_view()),
        r.wf(),
{
    let mut out: StrMap<Vec<String>> = StrMap::new();
    if let Some(f) = toml.get("features") {
        if let Some(t) = f.as_table() {
            let ghost s = t.deep_view();
            let ghost full = s.map_values(feature_at());
            assert(full.take(0) =~= Seq::empty());
            for i in 0..t.len()
                invariant
                    s == t.deep_view(),
                    full == s.map_values(feature_at()),
                    out.deep_view() == sorted::map_of(full.take(i as int)),
                    out.wf(),
            {
                assert(s[i as int] == t@[i as int].deep_view());
                assert(full.take(i + 1).drop_last() =~= full.take(i as int));
                assert(full.take(i + 1).last() == full[i as int]);
                out.insert(t[i].0.clone(), toml_tree::toml_str_array(Some(&t[i].1)));
            }
            assert(full.take(s.len() as int) =~= full);
            return out;
        }
    }
    assert(toml_tree::entries_in(toml_tree::field(toml.deep_view(), "features"@)).map_values(feature_at())
        =~= Seq::empty());
    out
}

/// Puts `deps`, each declared for `target`, behind those of `out`.
fn append_for_target(out: &mut Vec<ManifestDep>, deps: Vec<ManifestDep>, target: &str)
    ensures
        final(out).deep_view() == old(out).deep_view() + deps.deep_view().map_values(with_target(target@)),
{
    let ghost start = out.deep_view();
    let ghost s = deps.deep_view();
    let ghost full = s.map_values(with_target(target@));
    assert(start + full.take(0) =~= start);
    for d in it: deps
        invariant
            it.seq().len() == s.len(),
            forall|j: int| 0 <= j < s.len() ==> #[trigger] it.seq()[j].deep_view() == s[j],
            full == s.map_values(with_target(target@)),
            out.deep_view() == start + full.take(it.index()),
    {
        let ghost i = it.index();
        let ghost o = out.deep_view();
        assert(it.seq()[i].deep_view() == s[i]);
        assert(d.deep_view() == s[i]);
        out.push(
            ManifestDep {
                name: d.name,
                package: d.package,
                version_req: d.version_req,
                optional: d.optional,
                default_features: d.default_features,
                features: d.features,
                target: Some(target.to_owned()),
            },
        );
        assert(out.deep_view() =~= o.push(full[i]));
        assert(full.take(i + 1) =~= full.take(i).push(full[i]));
    }
    assert(full.take(s.len() as int) =~= full);
}

fn parse_all_deps(toml: &Tree, key: &str, workspace_deps: &Vec<ManifestDep>) -> (r: Vec<ManifestDep>)
    ensures
        r.deep_view() == all_deps_declared(toml.deep_view(), key@, workspace_deps.deep_view()),
{
    let mut out = parse_manifest_deps(toml.get(key), workspace_deps);
    let ghost ws = workspace_deps.deep_view();
    let ghost start = out.deep_view();
    let ghost f = target_deps_at(key@, ws);
    if let Some(v) = toml.get("target") {
        if let Some(t) = v.as_table() {
            let ghost s = t.deep_view();
            assert(start + lists::flat(s.take(0), f) =~= start);
            for i in 0..t.len()
                invariant
                    s == t.deep_view(),
                    ws == workspace_deps.deep_view(),
                    f == target_deps_at(key@, ws),
                    out.deep_view() == start + lists::flat(s.take(i as int), f),
            {
                assert(s[i as int] == t@[i as int].deep_view());
                assert(s.take(i + 1).drop_last() =~= s.take(i as int));
                assert(s.take(i + 1).last() == s[i as int]);
                let deps = parse_manifest_deps(t[i].1.get(key), workspace_deps);
                append_for_target(&mut out, deps, &t[i].0);
                assert(out.deep_view() =~= start + lists::flat(s.take(i + 1), f));
            }
            assert(s.take(s.len() as int) =~= s);
            return out;
        }
    }
    assert(out.deep_view() =~= all_deps_declared(toml.deep_view(), key@, ws));
    out
}

fn text_or(v: Option<&str>, default: &str) -> (r: String)
    ensures
        r@ == or_text(v.deep_view(), default@),
{
    match v {
        Some(s) => s.to_owned(),
        None => default.to_owned(),
    }
}

/// Reads the manifest of one package, whose `[package]` table is `pkg`.
pub fn parse_member_manifest(
    toml: &Tree,
    pkg: &Tree,
    manifest_dir: &str,
    workspace_deps: &Vec<ManifestDep>,
    ws_pkg: &WorkspacePackage,
    disk: &Disk,
) -> (r: Result<WorkspaceMember, String>)
    ensures
        match r {
            Ok(m) => member_declared(
                toml.deep_view(),
                pkg.deep_view(),
                manifest_dir@,
                workspace_deps.deep_view(),
                ws_pkg.deep_view(),
                disk.deep_view(),
            ) == Some(m.deep_view()) && m.features.wf(),
            Err(e) => toml_tree::text_in(toml_tree::field(pkg.deep_view(), "name"@)) is None && e@
                == "package.name missing"@,
        },
{
    let name = match toml_tree::string_in(pkg.get("name")) {
        Some(n) => n,
        None => {
            return Err("package.name missing".to_owned());
        },
    };
    let version = text_or(inherit_pkg_str(pkg, "version", text::opt_str(&ws_pkg.version)), "0.0.0");
    let edition = text_or(inherit_pkg_str(pkg, "edition", text::opt_str(&ws_pkg.edition)), "2021");
    let lib = toml.get("lib");
    let lib_name = match toml_tree::str_in(toml_tree::get_in(lib, "name")) {
        Some(n) => Some(resolve::normalize_name(n)),
        None => None,
    };
    let crate_types = match toml_tree::get_in(lib, "crate-type") {
        Some(v) => toml_tree::toml_str_array(Some(v)),
        None => toml_tree::toml_str_array(toml_tree::get_in(lib, "crate_type")),
    };
    Ok(
        WorkspaceMember {
            name,
            version,
            manifest_dir: manifest_dir.to_owned(),
            dependencies: parse_all_deps(toml, "dependencies", workspace_deps),
            build_dependencies: parse_all_deps(toml, "build-dependencies", workspace_deps),
            dev_dependencies: parse_all_deps(toml, "dev-dependencies", workspace_deps),
            features: parse_features(toml),
            edition,
            links: toml_tree::string_in(pkg.get("links")),
            proc_macro: toml_tree::flag_in(toml_tree::get_in(lib, "proc-macro")) == Some(true),
            build_script: find_build_script(pkg, manifest_dir, disk),
            lib_path: toml_tree::string_in(toml_tree::get_in(lib, "path")),
            lib_name,
            lib_crate_types: crate_types,
            bin_targets: parse_bins(toml.get("bin")),
            authors: toml_tree::toml_str_array(pkg.get("authors")),
        },
    )
}

// ---------------------------------------------------------------------------
// Member directories
// ---------------------------------------------------------------------------

/// Whether a member pattern names the directories below another.
pub open spec fn is_glob(pattern: Seq<char>) -> bool {
    text::has_suffix(pattern, "/*"@) || text::has_suffix(pattern, "\\*"@)
}

/// The directory whose entries a pattern stands for, or the one that it names.
pub open spec fn glob_dir(base: Seq<char>, pattern: Seq<char>) -> Seq<char> {
    if is_glob(pattern) {
        disk::joined_path(base, pattern.take(pattern.len() - 2))
    } else {
        disk::joined_path(base, pattern)
    }
}

/// Whether a directory holds a manifest.
pub open spec fn has_manifest(d: DiskView) -> spec_fn(Seq<char>) -> bool {
    |dir: Seq<char>| disk::file_exists(d, disk::joined_path(dir, "Cargo.toml"@))
}

/// The directories with a manifest that a member pattern stands for.
pub open spec fn glob_expanded(base: Seq<char>, pattern: Seq<char>, d: DiskView) -> Seq<Seq<char>> {
    if is_glob(pattern) {
        sorted::keep(disk::dir_listed(d, glob_dir(base, pattern)), has_manifest(d))
    } else if has_manifest(d)(glob_dir(base, pattern)) {
        seq![glob_dir(base, pattern)]
    } else {
        Seq::empty()
    }
}

/// Tells apart the two kinds of member patterns: `true` with the directory to list, `false` with
/// the one directory meant.
pub fn glob_request(base: &str, pattern: &str) -> (r: (bool, String))
    ensures
        r.0 == is_glob(pattern@),
        r.1@ == glob_dir(base@, pattern@),
{
    if text::ends_with(pattern, "/*") || text::ends_with(pattern, "\\*") {
        proof {
            reveal_strlit("/*");
            reveal_strlit("\\*");
        }
        let v = text::chars_of(pattern);
        let prefix = text::text_of(&v, 0, v.len() - 2);
        assert(prefix@ =~= pattern@.take(pattern@.len() - 2));
        (true, disk::join_path(base, &prefix))
    } else {
        (false, disk::join_path(base, pattern))
    }
}

/// Expands a workspace member pattern. A trailing `/*` is the only form of wildcard.
pub fn expand_glob(base: &str, pattern: &str, disk: &Disk) -> (r: Vec<String>)
    ensures
        r.deep_view() == glob_expanded(base@, pattern@, disk.deep_view()),
{
    let (listed, dir) = glob_request(base, pattern);
    let mut out: Vec<String> = Vec::new();
    let ghost d = disk.deep_view();
    if listed {
        let entries = disk.list(&dir);
        let ghost s = entries.deep_view();
        assert(s.take(0) =~= Seq::empty());
        for i in 0..entries.len()
            invariant
                s == entries.deep_view(),
                d == disk.deep_view(),
                out.deep_view() == sorted::keep(s.take(i as int), has_manifest(d)),
        {
            let ghost o = out.deep_view();
            proof {
                sorted::lemma_keep_step(s, has_manifest(d), i as int);
                assert(s[i as int] == entries@[i as int]@);
            }
            if disk.has(&disk::join_path(&entries[i], "Cargo.toml")) {
                out.push(entries[i].clone());
                assert(out.deep_view() =~= o.push(s[i as int]));
            }
        }
        assert(s.take(s.len() as int) =~= s);
    } else if disk.has(&disk::join_path(&dir, "Cargo.toml")) {
        out.push(dir);
        assert(out.deep_view() =~= seq![glob_dir(base@, pattern@)]);
    } else {
        assert(out.deep_view() =~= Seq::empty());
    }
    out
}

pub open spec fn globs_at(base: Seq<char>, d: DiskView) -> spec_fn(Seq<char>) -> Seq<Seq<char>> {
    |pattern: Seq<char>| glob_expanded(base, pattern, d)
}

/// The member patterns of a root manifest.
pub open spec fn patterns_in(root_toml: Toml) -> Seq<Seq<char>> {
    toml_tree::texts_in(toml_tree::opt_field(toml_tree::field(root_toml, "workspace"@), "members"@))
}

/// The member patterns of a root manifest.
pub fn member_patterns(root_toml: &Tree) -> (r: Vec<String>)
    ensures
        r.deep_view() == patterns_in(root_toml.deep_view()),
{
    toml_tree::toml_str_array(toml_tree::get_in(root_toml.get("workspace"), "members"))
}

/// The directories of all members, pattern by pattern.
pub open spec fn member_dirs(base: Seq<char>, root_toml: Toml, d: DiskView) -> Seq<Seq<char>> {
    lists::flat(patterns_in(root_toml), globs_at(base, d))
}

fn list_member_dirs(base: &str, root_toml: &Tree, disk: &Disk) -> (r: Vec<String>)
    ensures
        r.deep_view() == member_dirs(base@, root_toml.deep_view(), disk.deep_view()),
{
    let patterns = member_patterns(root_toml);
    let ghost s = patterns.deep_view();
    let ghost d = disk.deep_view();
    let mut out: Vec<String> = Vec::new();
    assert(out.deep_view() =~= lists::flat(s.take(0), globs_at(base@, d)));
    for i in 0..patterns.len()
        invariant
            s == patterns.deep_view(),
            d == disk.deep_view(),
            out.deep_view() == lists::flat(s.take(i as int), globs_at(base@, d)),
    {
        assert(s.take(i + 1).drop_last() =~= s.take(i as int));
        assert(s.take(i + 1).last() == patterns@[i as int]@);
        let dirs = expand_glob(base, &patterns[i], disk);
        sorted::extend_texts(&mut out, &dirs);
    }
    assert(s.take(s.len() as int) =~= s);
    out
}

// ---------------------------------------------------------------------------
// Workspaces
// ---------------------------------------------------------------------------

/// The members of a workspace, and its root package if it has one.
#[derive(Debug, Clone)]
pub struct WorkspaceManifest {
    pub members: Vec<WorkspaceMember>,
    pub root_package: Option<WorkspaceMember>,
}

/// The view of a [`WorkspaceManifest`].
pub struct ManifestView {
    pub members: Seq<MemberView>,
    pub root_package: Option<MemberView>,
}

impl DeepView for WorkspaceManifest {
    type V = ManifestView;

    open spec fn deep_view(&self) -> ManifestView {
        ManifestView { members: self.members.deep_view(), root_package: self.root_package.deep_view() }
    }
}

/// What a root manifest declares under `[workspace.dependencies]`.
pub open spec fn workspace_deps_in(root_toml: Toml) -> Seq<ManifestDepView> {
    deps_declared(toml_tree::opt_field(toml_tree::field(root_toml, "workspace"@), "dependencies"@), Seq::empty())
}

/// What a root manifest declares under `[workspace.package]`.
pub open spec fn workspace_package_in(root_toml: Toml) -> WorkspacePackageView {
    let p = toml_tree::opt_field(toml_tree::field(root_toml, "workspace"@), "package"@);
    WorkspacePackageView {
        edition: toml_tree::text_in(toml_tree::opt_field(p, "edition"@)),
        version: toml_tree::text_in(toml_tree::opt_field(p, "version"@)),
    }
}

fn read_workspace_deps(root_toml: &Tree) -> (r: Vec<ManifestDep>)
    ensures
        r.deep_view() == workspace_deps_in(root_toml.deep_view()),
{
    let none: Vec<ManifestDep> = Vec::new();
    assert(none.deep_view() =~= Seq::empty());
    parse_manifest_deps(toml_tree::get_in(root_toml.get("workspace"), "dependencies"), &none)
}

fn read_workspace_package(root_toml: &Tree) -> (r: WorkspacePackage)
    ensures
        r.deep_view() == workspace_package_in(root_toml.deep_view()),
{
    let p = toml_tree::get_in(root_toml.get("workspace"), "package");
    WorkspacePackage {
        edition: toml_tree::string_in(toml_tree::get_in(p, "edition")),
        version: toml_tree::string_in(toml_tree::get_in(p, "version")),
    }
}

/// What the members of a workspace are read against: its root manifest and the disk.
pub struct Surroundings {
    pub deps: Seq<ManifestDepView>,
    pub package: WorkspacePackageView,
    pub disk: DiskView,
}

pub open spec fn surroundings(root_toml: Toml, d: DiskView) -> Surroundings {
    Surroundings { deps: workspace_deps_in(root_toml), package: workspace_package_in(root_toml), disk: d }
}

/// The package that the manifest `toml` in `dir` describes, if it has a `[package]` table; an error
/// if that has no name.
pub open spec fn package_in(toml: Toml, dir: Seq<char>, w: Surroundings) -> Result<Option<MemberView>, Seq<char>> {
    match toml_tree::field(toml, "package"@) {
        None => Ok(None),
        Some(pkg) => match member_declared(toml, pkg, dir, w.deps, w.package, w.disk) {
            Some(m) => Ok(Some(m)),
            None => Err("package.name missing"@),
        },
    }
}

fn read_package(
    toml: &Tree,
    dir: &str,
    workspace_deps: &Vec<ManifestDep>,
    ws_pkg: &WorkspacePackage,
    disk: &Disk,
) -> (r: Result<Option<WorkspaceMember>, String>)
    ensures
        package_in(
            toml.deep_view(),
            dir@,
            (Surroundings {
                deps: workspace_deps.deep_view(),
                package: ws_pkg.deep_view(),
                disk: disk.deep_view(),
            }),
        ) == match r {
            Ok(m) => Ok::<Option<MemberView>, Seq<char>>(m.deep_view()),
            Err(e) => Err::<Option<MemberView>, Seq<char>>(e@),
        },
        r matches Ok(Some(m)) ==> m.features.wf(),
{
    match toml.get("package") {
        None => Ok(None),
        Some(pkg) => match parse_member_manifest(toml, pkg, dir, workspace_deps, ws_pkg, disk) {
            Ok(m) => Ok(Some(m)),
            Err(e) => Err(e),
        },
    }
}

/// Whether `m` is the root package, going by its name.
pub open spec fn is_root(root: Option<MemberView>, m: MemberView) -> bool {
    root matches Some(r) && r.name == m.name
}

/// The members with what the directory `dir` adds to them.
pub open spec fn member_added(
    members: Seq<MemberView>,
    dir: Seq<char>,
    root: Option<MemberView>,
    w: Surroundings,
) -> Result<Seq<MemberView>, Seq<char>> {
    let path = disk::joined_path(dir, "Cargo.toml"@);
    if !disk::file_exists(w.disk, path) {
        Ok(members)
    } else {
        match disk::file_read(w.disk, path) {
            Err(e) => Err("Failed to read "@ + path + ": "@ + e),
            Ok(s) => match toml_tree::toml_parsed(s) {
                Err(e) => Err("Failed to parse "@ + path + ": "@ + e),
                Ok(toml) => match package_in(toml, dir, w) {
                    Err(e) => Err(e),
                    Ok(Some(m)) => if is_root(root, m) {
                        Ok(members)
                    } else {
                        Ok(members.push(m))
                    },
                    Ok(None) => Ok(members),
                },
            },
        }
    }
}

pub open spec fn member_adder(root: Option<MemberView>, w: Surroundings) -> spec_fn(
    Seq<MemberView>,
    Seq<char>,
) -> Result<Seq<MemberView>, Seq<char>> {
    |members: Seq<MemberView>, dir: Seq<char>| member_added(members, dir, root, w)
}

pub open spec fn opt_member(m: Option<MemberView>) -> Seq<MemberView> {
    match m {
        Some(m) => seq![m],
        None => Seq::empty(),
    }
}

/// The workspace whose root manifest is `toml`.
pub open spec fn workspace_declared(root: Seq<char>, toml: Toml, d: DiskView) -> Result<ManifestView, Seq<char>> {
    let w = surroundings(toml, d);
    match package_in(toml, root, w) {
        Err(e) => Err(e),
        Ok(root_package) => match lists::try_fold(
            member_dirs(root, toml, d),
            opt_member(root_package),
            member_adder(root_package, w),
        ) {
            Ok(members) => Ok(ManifestView { members, root_package }),
            Err(e) => Err(e),
        },
    }
}

/// The workspace at `root`: its root package first, then the members in the order of the patterns.
pub open spec fn workspace_at(root: Seq<char>, d: DiskView) -> Result<ManifestView, Seq<char>> {
    let path = disk::joined_path(root, "Cargo.toml"@);
    match disk::file_read(d, path) {
        Err(e) => Err("Failed to read "@ + path + ": "@ + e),
        Ok(s) => match toml_tree::toml_parsed(s) {
            Err(e) => Err("Failed to parse Cargo.toml: "@ + e),
            Ok(toml) => workspace_declared(root, toml, d),
        },
    }
}

pub open spec fn members_wf(members: Seq<WorkspaceMember>) -> bool {
    forall|i: int| 0 <= i < members.len() ==> (#[trigger] members[i]).features.wf()
}

/// Adds to `members` what the directory `dir` holds.
fn add_member(
    members: &mut Vec<WorkspaceMember>,
    dir: &str,
    root_package: &Option<WorkspaceMember>,
    workspace_deps: &Vec<ManifestDep>,
    ws_pkg: &WorkspacePackage,
    disk: &Disk,
) -> (r: Result<(), String>)
    requires
        members_wf(old(members)@),
    ensures
        ({
            let w = Surroundings {
                deps: workspace_deps.deep_view(),
                package: ws_pkg.deep_view(),
                disk: disk.deep_view(),
            };
            member_added(old(members).deep_view(), dir@, root_package.deep_view(), w) == match r {
                Ok(_) => Ok::<Seq<MemberView>, Seq<char>>(final(members).deep_view()),
                Err(e) => Err::<Seq<MemberView>, Seq<char>>(e@),
            }
        }),
        members_wf(final(members)@),
{
    let path = disk::join_path(dir, "Cargo.toml");
    if !disk.has(&path) {
        return Ok(());
    }
    let content = match disk.read(&path) {
        Ok(s) => s,
        Err(e) => {
            return Err(text::cat4("Failed to read ", &path, ": ", &e));
        },
    };
    let toml = match toml_tree::parse(&content) {
        Ok(t) => t,
        Err(e) => {
            return Err(text::cat4("Failed to parse ", &path, ": ", &e));
        },
    };
    match read_package(&toml, dir, workspace_deps, ws_pkg, disk) {
        Err(e) => Err(e),
        Ok(Some(m)) => {
            let known = match root_package {
                Some(rp) => rp.name == m.name,
                None => false,
            };
            if !known {
                let ghost o = members.deep_view();
                let ghost mv = m.deep_view();
                members.push(m);
                assert(members.deep_view() =~= o.push(mv));
            }
            Ok(())
        },
        Ok(None) => Ok(()),
    }
}

/// Reads the root manifest of a workspace and those of all its members.
pub fn parse_workspace(workspace_root: &str, disk: &Disk) -> (r: Result<WorkspaceManifest, String>)
    ensures
        workspace_at(workspace_root@, disk.deep_view()) == match r {
            Ok(w) => Ok::<ManifestView, Seq<char>>(w.deep_view()),
            Err(e) => Err::<ManifestView, Seq<char>>(e@),
        },
        r matches Ok(w) ==> members_wf(w.members@),
{
    let path = disk::join_path(workspace_root, "Cargo.toml");
    let content = match disk.read(&path) {
        Ok(s) => s,
        Err(e) => {
            return Err(text::cat4("Failed to read ", &path, ": ", &e));
        },
    };
    let root_toml = match toml_tree::parse(&content) {
        Ok(t) => t,
        Err(e) => {
            return Err(text::cat2("Failed to parse Cargo.toml: ", &e));
        },
    };
    let workspace_deps = read_workspace_deps(&root_toml);
    let ws_pkg = read_workspace_package(&root_toml);
    let root_package = match read_package(&root_toml, workspace_root, &workspace_deps, &ws_pkg, disk) {
        Ok(m) => m,
        Err(e) => {
            return Err(e);
        },
    };
    let mut members: Vec<WorkspaceMember> = Vec::new();
    if root_package.is_some() {
        match read_package(&root_toml, workspace_root, &workspace_deps, &ws_pkg, disk) {
            Ok(Some(m)) => {
                members.push(m);
            },
            _ => {},
        }
    }
    let ghost w = surroundings(root_toml.deep_view(), disk.deep_view());
    let ghost rp = root_package.deep_view();
    let ghost init = opt_member(rp);
    let ghost f = member_adder(rp, w);
    assert(members.deep_view() =~= init);
    let dirs = list_member_dirs(workspace_root, &root_toml, disk);
    let ghost s = dirs.deep_view();
    assert(s.take(0) =~= Seq::empty());
    for i in 0..dirs.len()
        invariant
            s == dirs.deep_view(),
            rp == root_package.deep_view(),
            w == (Surroundings {
                deps: workspace_deps.deep_view(),
                package: ws_pkg.deep_view(),
                disk: disk.deep_view(),
            }),
            w == surroundings(root_toml.deep_view(), disk.deep_view()),
            f == member_adder(rp, w),
            init == opt_member(rp),
            s == member_dirs(workspace_root@, root_toml.deep_view(), disk.deep_view()),
            package_in(root_toml.deep_view(), workspace_root@, w) == Ok::<Option<MemberView>, Seq<char>>(rp),
            workspace_at(workspace_root@, disk.deep_view()) == workspace_declared(
                workspace_root@,
                root_toml.deep_view(),
                disk.deep_view(),
            ),
            lists::try_fold(s.take(i as int), init, f) == Ok::<Seq<MemberView>, Seq<char>>(members.deep_view()),
            members_wf(members@),
    {
        assert(s.take(i + 1).drop_last() =~= s.take(i as int));
        assert(s.take(i + 1).last() == dirs@[i as int]@);
        match add_member(&mut members, &dirs[i], &root_package, &workspace_deps, &ws_pkg, disk) {
            Ok(_) => {},
            Err(e) => {
                proof {
                    lists::lemma_try_fold_fails(s, init, f, i + 1);
                }
                return Err(e);
            },
        }
    }
    assert(s.take(s.len() as int) =~= s);
    Ok(WorkspaceManifest { members, root_package })
}

// ---------------------------------------------------------------------------
// Git checkouts
// ---------------------------------------------------------------------------

/// The packages that a git checkout holds, by name. One checkout may hold many.
#[derive(Debug, Clone)]
pub struct GitCheckout {
    pub members: StrMap<WorkspaceMember>,
}

impl DeepView for GitCheckout {
    type V = Seq<(Seq<char>, MemberView)>;

    open spec fn deep_view(&self) -> Seq<(Seq<char>, MemberView)> {
        self.members.deep_view()
    }
}

/// The packages with the one that a manifest describes, if it describes one.
pub open spec fn package_found(
    found: Seq<(Seq<char>, MemberView)>,
    toml: Toml,
    dir: Seq<char>,
    w: Surroundings,
) -> Result<Seq<(Seq<char>, MemberView)>, Seq<char>> {
    match package_in(toml, dir, w) {
        Err(e) => Err(e),
        Ok(Some(m)) => Ok(sorted::with_entry(found, m.name, m)),
        Ok(None) => Ok(found),
    }
}

/// The packages with what the directory `dir` adds. A manifest that cannot be read adds nothing.
pub open spec fn dir_found(
    found: Seq<(Seq<char>, MemberView)>,
    dir: Seq<char>,
    w: Surroundings,
) -> Result<Seq<(Seq<char>, MemberView)>, Seq<char>> {
    let path = disk::joined_path(dir, "Cargo.toml"@);
    match disk::file_read(w.disk, path) {
        Err(e) => Ok(found),
        Ok(s) => match toml_tree::toml_parsed(s) {
            Err(e) => Err("git checkout: parse "@ + path + ": "@ + e),
            Ok(toml) => package_found(found, toml, dir, w),
        },
    }
}

pub open spec fn dir_finder(w: Surroundings) -> spec_fn(Seq<(Seq<char>, MemberView)>, Seq<char>) -> Result<
    Seq<(Seq<char>, MemberView)>,
    Seq<char>,
> {
    |found: Seq<(Seq<char>, MemberView)>, dir: Seq<char>| dir_found(found, dir, w)
}

/// The packages of the checkout at `root`.
pub open spec fn checkout_at(root: Seq<char>, d: DiskView) -> Result<Seq<(Seq<char>, MemberView)>, Seq<char>> {
    match disk::file_read(d, disk::joined_path(root, "Cargo.toml"@)) {
        Err(e) => Err("git checkout "@ + root + ": failed to read Cargo.toml: "@ + e),
        Ok(s) => match toml_tree::toml_parsed(s) {
            Err(e) => Err("git checkout "@ + root + ": parse Cargo.toml: "@ + e),
            Ok(toml) => {
                let w = surroundings(toml, d);
                match package_found(Seq::empty(), toml, root, w) {
                    Err(e) => Err(e),
                    Ok(found) => lists::try_fold(member_dirs(root, toml, d), found, dir_finder(w)),
                }
            },
        },
    }
}

/// Adds the package of a manifest to those found.
fn find_package(
    found: &mut StrMap<WorkspaceMember>,
    toml: &Tree,
    dir: &str,
    workspace_deps: &Vec<ManifestDep>,
    ws_pkg: &WorkspacePackage,
    disk: &Disk,
) -> (r: Result<(), String>)
    ensures
        ({
            let w = Surroundings {
                deps: workspace_deps.deep_view(),
                package: ws_pkg.deep_view(),
                disk: disk.deep_view(),
            };
            package_found(old(found).deep_view(), toml.deep_view(), dir@, w) == match r {
                Ok(_) => Ok::<Seq<(Seq<char>, MemberView)>, Seq<char>>(final(found).deep_view()),
                Err(e) => Err::<Seq<(Seq<char>, MemberView)>, Seq<char>>(e@),
            }
        }),
        old(found).wf() ==> final(found).wf(),
{
    match read_package(toml, dir, workspace_deps, ws_pkg, disk) {
        Err(e) => Err(e),
        Ok(Some(m)) => {
            let name = m.name.clone();
            found.insert(name, m);
            Ok(())
        },
        Ok(None) => Ok(()),
    }
}

/// Adds what a directory holds to the packages found.
fn find_in_dir(
    found: &mut StrMap<WorkspaceMember>,
    dir: &str,
    workspace_deps: &Vec<ManifestDep>,
    ws_pkg: &WorkspacePackage,
    disk: &Disk,
) -> (r: Result<(), String>)
    ensures
        ({
            let w = Surroundings {
                deps: workspace_deps.deep_view(),
                package: ws_pkg.deep_view(),
                disk: disk.deep_view(),
            };
            dir_found(old(found).deep_view(), dir@, w) == match r {
                Ok(_) => Ok::<Seq<(Seq<char>, MemberView)>, Seq<char>>(final(found).deep_view()),
                Err(e) => Err::<Seq<(Seq<char>, MemberView)>, Seq<char>>(e@),
            }
        }),
        old(found).wf() ==> final(found).wf(),
{
    let path = disk::join_path(dir, "Cargo.toml");
    let content = match disk.read(&path) {
        Ok(s) => s,
        Err(_) => {
            return Ok(());
        },
    };
    match toml_tree::parse(&content) {
        Ok(toml) => find_package(found, &toml, dir, workspace_deps, ws_pkg, disk),
        Err(e) => Err(text::cat4("git checkout: parse ", &path, ": ", &e)),
    }
}

impl GitCheckout {
    /// Reads the packages of the checkout at `root`.
    pub fn scan(root: &str, disk: &Disk) -> (r: Result<GitCheckout, String>)
        ensures
            checkout_at(root@, disk.deep_view()) == match r {
                Ok(c) => Ok::<Seq<(Seq<char>, MemberView)>, Seq<char>>(c.deep_view()),
                Err(e) => Err::<Seq<(Seq<char>, MemberView)>, Seq<char>>(e@),
            },
            r matches Ok(c) ==> c.members.wf(),
    {
        let content = match disk.read(&disk::join_path(root, "Cargo.toml")) {
            Ok(s) => s,
            Err(e) => {
                return Err(text::cat4("git checkout ", root, ": failed to read Cargo.toml: ", &e));
            },
        };
        let root_toml = match toml_tree::parse(&content) {
            Ok(t) => t,
            Err(e) => {
                return Err(text::cat4("git checkout ", root, ": parse Cargo.toml: ", &e));
            },
        };
        let workspace_deps = read_workspace_deps(&root_toml);
        let ws_pkg = read_workspace_package(&root_toml);
        let ghost w = surroundings(root_toml.deep_view(), disk.deep_view());
        let mut members: StrMap<WorkspaceMember> = StrMap::new();
        match find_package(&mut members, &root_toml, root, &workspace_deps, &ws_pkg, disk) {
            Ok(_) => {},
            Err(e) => {
                return Err(e);
            },
        }
        let ghost init = members.deep_view();
        let ghost f = dir_finder(w);
        let dirs = list_member_dirs(root, &root_toml, disk);
        let ghost s = dirs.deep_view();
        assert(s.take(0) =~= Seq::empty());
        for i in 0..dirs.len()
            invariant
                s == dirs.deep_view(),
                w == (Surroundings {
                    deps: workspace_deps.deep_view(),
                    package: ws_pkg.deep_view(),
                    disk: disk.deep_view(),
                }),
                f == dir_finder(w),
                checkout_at(root@, disk.deep_view()) == lists::try_fold(s, init, f),
                lists::try_fold(s.take(i as int), init, f) == Ok::<Seq<(Seq<char>, MemberView)>, Seq<char>>(
                    members.deep_view(),
                ),
                members.wf(),
        {
            assert(s.take(i + 1).drop_last() =~= s.take(i as int));
            assert(s.take(i + 1).last() == dirs@[i as int]@);
            match find_in_dir(&mut members, &dirs[i], &workspace_deps, &ws_pkg, disk) {
                Ok(_) => {},
                Err(e) => {
                    proof {
                        lists::lemma_try_fold_fails(s, init, f, i + 1);
                    }
                    return Err(e);
                },
            }
        }
        assert(s.take(s.len() as int) =~= s);
        Ok(GitCheckout { members })
    }

    /// The package called `name`.
    pub fn find(&self, name: &str) -> (r: Option<&WorkspaceMember>)
        ensures
            r.deep_view() == sorted::entry_of(self.deep_view(), name@),
    {
        self.members.get(name)
    }
}

// ---------------------------------------------------------------------------
// Laws
// ---------------------------------------------------------------------------

/// A member that inherits a dependency can widen its default features, never narrow them, and has
/// the workspace's features before its own.
pub proof fn lemma_inherited_dependency(
    name: Seq<char>,
    entries: Seq<(Seq<char>, Toml)>,
    ws: Seq<ManifestDepView>,
    w: ManifestDepView,
)
    requires
        toml_tree::bool_in(sorted::entry_of(entries, "workspace"@)) == Some(true),
        inherited(ws, name) == Some(w),
    ensures
        ({
            let d = dep_declared(name, Toml::Table(entries), ws);
            &&& w.default_features ==> d.default_features
            &&& d.default_features ==> w.default_features || default_features_in(Toml::Table(entries)) == Some(true)
            &&& d.version_req == w.version_req
            &&& d.package == w.package
            &&& w.features.is_prefix_of(d.features)
        }),
{
    let d = dep_declared(name, Toml::Table(entries), ws);
    assert(w.features.is_prefix_of(d.features)) by {
        assert(d.features.subrange(0, w.features.len() as int) =~= w.features);
    }
}

/// A version or edition that a package states itself is what it has, whatever the workspace says.
pub proof fn lemma_explicit_wins(pkg: Toml, key: Seq<char>, value: Seq<char>, ws_value: Option<Seq<char>>)
    requires
        toml_tree::field(pkg, key) == Some(Toml::Text(value)),
    ensures
        inherited_text(pkg, key, ws_value) == Some(value),
{
}

/// The root package of a workspace is its first member, and no later one has its name.
pub proof fn lemma_root_not_repeated(root: Seq<char>, d: DiskView)
    ensures
        workspace_at(root, d) matches Ok(m) ==> (m.root_package matches Some(r) ==> m.members.len() > 0
            && m.members[0] == r && forall|i: int| 0 < i < m.members.len() ==> (#[trigger] m.members[i]).name
            != r.name),
{
    match workspace_at(root, d) {
        Ok(m) => {
            match m.root_package {
                Some(r) => {
                    let s = disk::file_read(d, disk::joined_path(root, "Cargo.toml"@))->Ok_0;
                    let toml = toml_tree::toml_parsed(s)->Ok_0;
                    let w = surroundings(toml, d);
                    lemma_adding_keeps_root(member_dirs(root, toml, d), r, w);
                },
                None => {},
            }
        },
        Err(_) => {},
    }
}

proof fn lemma_adding_keeps_root(dirs: Seq<Seq<char>>, r: MemberView, w: Surroundings)
    ensures
        lists::try_fold(dirs, seq![r], member_adder(Some(r), w)) matches Ok(ms) ==> ms.len() > 0 && ms[0] == r
            && forall|i: int| 0 < i < ms.len() ==> (#[trigger] ms[i]).name != r.name,
    decreases dirs.len(),
{
    if dirs.len() > 0 {
        lemma_adding_keeps_root(dirs.drop_last(), r, w);
    }
}

// ---------------------------------------------------------------------------
// Read by name
// ---------------------------------------------------------------------------

/// What a manifest that does not inherit says of a dependency: a text is its version and nothing else, and a
/// table says what stands under the names that Cargo uses.
pub proof fn lemma_declared_dependency(
    name: Seq<char>,
    version: Seq<char>,
    t: Seq<(Seq<char>, Toml)>,
    ws: Seq<ManifestDepView>,
)
    requires
        toml_tree::bool_in(sorted::entry_of(t, "workspace"@)) != Some(true),
    ensures
        ({
            let a = dep_declared(name, Toml::Text(version), ws);
            let d = dep_declared(name, Toml::Table(t), ws);
            &&& a.name == name && a.package is None && a.version_req == Some(version) && !a.optional && a.default_features
                && a.features.len() == 0 && a.target is None
            &&& d.name == name
            &&& d.package == toml_tree::text_in(sorted::entry_of(t, "package"@))
            &&& d.version_req == toml_tree::text_in(sorted::entry_of(t, "version"@))
            &&& d.optional <==> sorted::entry_of(t, "optional"@) == Some(Toml::Boolean(true))
            &&& sorted::entry_of(t, "default-features"@) == Some(Toml::Boolean(false)) ==> !d.default_features
            &&& sorted::entry_of(t, "default-features"@) is None && sorted::entry_of(t, "default_features"@) == Some(
                Toml::Boolean(false),
            ) ==> !d.default_features
            &&& sorted::entry_of(t, "default-features"@) is None && sorted::entry_of(t, "default_features"@) is None
                ==> d.default_features
            &&& sorted::entry_of(t, "default-features"@) == Some(Toml::Boolean(true)) ==> d.default_features
            &&& d.features == toml_tree::texts_in(sorted::entry_of(t, "features"@))
            &&& d.target is None
        }),
{
}

/// What a manifest says of a dependency that it inherits: package and version are the workspace's, the
/// features are the workspace's and then its own, and only it says whether the dependency is optional.
pub proof fn lemma_inherited_fields(
    name: Seq<char>,
    t: Seq<(Seq<char>, Toml)>,
    ws: Seq<ManifestDepView>,
    k: int,
)
    requires
        sorted::entry_of(t, "workspace"@) == Some(Toml::Boolean(true)),
        0 <= k < ws.len(),
        ws[k].name == name,
        forall|j: int| 0 <= j < k ==> (#[trigger] ws[j]).name != name,
    ensures
        ({
            let d = dep_declared(name, Toml::Table(t), ws);
            &&& d.name == name
            &&& d.package == ws[k].package
            &&& d.version_req == ws[k].version_req
            &&& d.features == ws[k].features + toml_tree::texts_in(sorted::entry_of(t, "features"@))
            &&& d.optional <==> sorted::entry_of(t, "optional"@) == Some(Toml::Boolean(true))
            &&& ws[k].default_features ==> d.default_features
            &&& !ws[k].default_features ==> (d.default_features <==> default_features_in(Toml::Table(t)) == Some(true))
            &&& d.target is None
        }),
{
    lists::lemma_first_with_is(ws, is_dep_named(name), k);
}

/// What a manifest says of its package, under the names that Cargo uses. Version and edition may be the
/// workspace's, and are `0.0.0` and `2021` where nothing says otherwise.
pub proof fn lemma_declared_package(
    toml: Toml,
    pkg: Toml,
    dir: Seq<char>,
    ws: Seq<ManifestDepView>,
    ws_pkg: WorkspacePackageView,
    d: DiskView,
    name: Seq<char>,
    lib: Toml,
)
    requires
        toml_tree::field(pkg, "name"@) == Some(Toml::Text(name)),
        toml_tree::field(toml, "lib"@) == Some(lib),
    ensures
        member_declared(toml, pkg, dir, ws, ws_pkg, d) matches Some(m) && {
            &&& m.name == name
            &&& m.manifest_dir == dir
            &&& toml_tree::field(pkg, "version"@) matches Some(Toml::Text(v)) ==> m.version == v
            &&& toml_tree::field(pkg, "version"@) is None ==> m.version == "0.0.0"@
            &&& toml_tree::field(pkg, "edition"@) matches Some(Toml::Text(v)) ==> m.edition == v
            &&& toml_tree::field(pkg, "edition"@) is None ==> m.edition == "2021"@
            &&& toml_tree::field(pkg, "links"@) matches Some(Toml::Text(v)) ==> m.links == Some(v)
            &&& toml_tree::field(pkg, "links"@) is None ==> m.links is None
            &&& m.authors == toml_tree::texts_in(toml_tree::field(pkg, "authors"@))
            &&& m.proc_macro <==> toml_tree::field(lib, "proc-macro"@) == Some(Toml::Boolean(true))
            &&& toml_tree::field(lib, "path"@) matches Some(Toml::Text(v)) ==> m.lib_path == Some(v)
            &&& toml_tree::field(lib, "path"@) is None ==> m.lib_path is None
            &&& toml_tree::field(lib, "name"@) matches Some(Toml::Text(v)) ==> m.lib_name == Some(resolve::normalized(v))
            &&& toml_tree::field(lib, "name"@) is None ==> m.lib_name is None
            &&& toml_tree::field(lib, "crate-type"@) is Some ==> m.lib_crate_types == toml_tree::texts_in(
                toml_tree::field(lib, "crate-type"@),
            )
            &&& toml_tree::field(lib, "crate-type"@) is None ==> m.lib_crate_types == toml_tree::texts_in(
                toml_tree::field(lib, "crate_type"@),
            )
            &&& toml_tree::field(pkg, "build"@) == Some(Toml::Boolean(false)) ==> m.build_script is None
            &&& toml_tree::field(pkg, "build"@) == Some(Toml::Boolean(true)) ==> m.build_script == Some("build.rs"@)
            &&& toml_tree::field(pkg, "build"@) matches Some(Toml::Text(v)) ==> m.build_script == Some(v)
            &&& toml_tree::field(pkg, "build"@) is None ==> (m.build_script is Some <==> disk::file_exists(
                d,
                disk::joined_path(dir, "build.rs"@),
            )) && (m.build_script matches Some(b) ==> b == "build.rs"@)
        },
{
}

/// A package without a `[lib]` table has none of what stands there, and one that inherits its version or its
/// edition has the workspace's.
pub proof fn lemma_without_lib_table(
    toml: Toml,
    pkg: Toml,
    dir: Seq<char>,
    ws: Seq<ManifestDepView>,
    ws_pkg: WorkspacePackageView,
    d: DiskView,
    t: Seq<(Seq<char>, Toml)>,
    v: Seq<char>,
)
    requires
        sorted::entry_of(t, "workspace"@) == Some(Toml::Boolean(true)),
    ensures
        member_declared(toml, pkg, dir, ws, ws_pkg, d) matches Some(m) ==> {
            &&& toml_tree::field(toml, "lib"@) is None ==> m.lib_path is None && m.lib_name is None && !m.proc_macro
                && m.lib_crate_types.len() == 0
            &&& toml_tree::field(pkg, "version"@) == Some(Toml::Table(t)) && ws_pkg.version == Some(v) ==> m.version == v
            &&& toml_tree::field(pkg, "edition"@) == Some(Toml::Table(t)) && ws_pkg.edition == Some(v) ==> m.edition == v
        },
        member_declared(toml, pkg, dir, ws, ws_pkg, d) is None <==> !(toml_tree::field(pkg, "name"@) matches Some(
            Toml::Text(_),
        )),
{
}

proof fn lemma_listed_deps(deps: Option<Toml>, ws: Seq<ManifestDepView>, x: ManifestDepView)
    ensures
        deps_declared(deps, ws).contains(x) <==> exists|k: int|
            0 <= k < toml_tree::entries_in(deps).len() && x == dep_declared(
                (#[trigger] toml_tree::entries_in(deps)[k]).0,
                toml_tree::entries_in(deps)[k].1,
                ws,
            ),
{
    let e = toml_tree::entries_in(deps);
    let r = deps_declared(deps, ws);
    if r.contains(x) {
        let k = choose|k: int| 0 <= k < r.len() && r[k] == x;
        assert(x == dep_declared(e[k].0, e[k].1, ws));
    }
    if exists|k: int|
        0 <= k < toml_tree::entries_in(deps).len() && x == dep_declared(
            (#[trigger] toml_tree::entries_in(deps)[k]).0,
            toml_tree::entries_in(deps)[k].1,
            ws,
        ) {
        let k = choose|k: int|
            0 <= k < toml_tree::entries_in(deps).len() && x == dep_declared(
                (#[trigger] toml_tree::entries_in(deps)[k]).0,
                toml_tree::entries_in(deps)[k].1,
                ws,
            );
        assert(r[k] == x);
    }
}

/// Whether a dependency is declared in the table `key` of a manifest: for every target, or for the one that
/// it names.
pub open spec fn declared_under(toml: Toml, key: Seq<char>, ws: Seq<ManifestDepView>, x: ManifestDepView) -> bool {
    match x.target {
        None => exists|k: int|
            0 <= k < toml_tree::entries_in(toml_tree::field(toml, key)).len() && x == dep_declared(
                (#[trigger] toml_tree::entries_in(toml_tree::field(toml, key))[k]).0,
                toml_tree::entries_in(toml_tree::field(toml, key))[k].1,
                ws,
            ),
        Some(t) => exists|n: int, k: int|
            0 <= n < toml_tree::entries_in(toml_tree::field(toml, "target"@)).len() && 0 <= k < toml_tree::entries_in(
                toml_tree::field(toml_tree::entries_in(toml_tree::field(toml, "target"@))[n].1, key),
            ).len() && toml_tree::entries_in(toml_tree::field(toml, "target"@))[n].0 == t && x == (ManifestDepView {
                target: Some(t),
                ..dep_declared(
                    (#[trigger] toml_tree::entries_in(
                        toml_tree::field(toml_tree::entries_in(toml_tree::field(toml, "target"@))[n].1, key),
                    )[k]).0,
                    toml_tree::entries_in(
                        toml_tree::field(toml_tree::entries_in(toml_tree::field(toml, "target"@))[n].1, key),
                    )[k].1,
                    ws,
                )
            }),
    }
}

proof fn lemma_no_target(name: Seq<char>, val: Toml, ws: Seq<ManifestDepView>)
    ensures
        dep_declared(name, val, ws).target is None,
{
}

proof fn lemma_all_declared(toml: Toml, key: Seq<char>, ws: Seq<ManifestDepView>, x: ManifestDepView)
    ensures
        all_deps_declared(toml, key, ws).contains(x) <==> declared_under(toml, key, ws, x),
{
    let plain = toml_tree::field(toml, key);
    let targets = toml_tree::entries_in(toml_tree::field(toml, "target"@));
    let f = target_deps_at(key, ws);
    let a = deps_declared(plain, ws);
    let b = lists::flat(targets, f);
    lemma_listed_deps(plain, ws, x);
    if all_deps_declared(toml, key, ws).contains(x) {
        lists::lemma_concat_from(a, b, x);
        if a.contains(x) {
            let e = toml_tree::entries_in(plain);
            let k = choose|k: int|
                0 <= k < toml_tree::entries_in(plain).len() && x == dep_declared(
                    (#[trigger] toml_tree::entries_in(plain)[k]).0,
                    toml_tree::entries_in(plain)[k].1,
                    ws,
                );
            lemma_no_target(e[k].0, e[k].1, ws);
        } else {
            lists::lemma_flat_from(targets, f, x);
            let n = choose|n: int| 0 <= n < targets.len() && f(#[trigger] targets[n]).contains(x);
            let own = toml_tree::entries_in(toml_tree::field(targets[n].1, key));
            let made = f(targets[n]);
            let k = choose|k: int| 0 <= k < made.len() && made[k] == x;
            assert(x == (ManifestDepView { target: Some(targets[n].0), ..dep_declared(own[k].0, own[k].1, ws) }));
            assert(x.target == Some(targets[n].0));
        }
    }
    if declared_under(toml, key, ws, x) {
        match x.target {
            None => {
                lists::lemma_concat_has(a, b, x);
            },
            Some(t) => {
                let (n, k) = choose|n: int, k: int|
                    0 <= n < toml_tree::entries_in(toml_tree::field(toml, "target"@)).len() && 0 <= k
                        < toml_tree::entries_in(
                        toml_tree::field(toml_tree::entries_in(toml_tree::field(toml, "target"@))[n].1, key),
                    ).len() && toml_tree::entries_in(toml_tree::field(toml, "target"@))[n].0 == t && x == (
                    ManifestDepView {
                        target: Some(t),
                        ..dep_declared(
                            (#[trigger] toml_tree::entries_in(
                                toml_tree::field(toml_tree::entries_in(toml_tree::field(toml, "target"@))[n].1, key),
                            )[k]).0,
                            toml_tree::entries_in(
                                toml_tree::field(toml_tree::entries_in(toml_tree::field(toml, "target"@))[n].1, key),
                            )[k].1,
                            ws,
                        )
                    });
                let made = f(targets[n]);
                assert(made[k] == x);
                lists::lemma_flat_has(targets, f, n, x);
                lists::lemma_concat_has(a, b, x);
            },
        }
    }
}

/// The dependencies of a package are those of its `dependencies` tables, its build dependencies those of its
/// `build-dependencies` tables, and its development dependencies those of its `dev-dependencies` tables, each
/// for every target or for the one that its table names.
pub proof fn lemma_declared_by_kind(
    toml: Toml,
    pkg: Toml,
    dir: Seq<char>,
    ws: Seq<ManifestDepView>,
    ws_pkg: WorkspacePackageView,
    d: DiskView,
    x: ManifestDepView,
)
    ensures
        member_declared(toml, pkg, dir, ws, ws_pkg, d) matches Some(m) ==> {
            &&& m.dependencies.contains(x) <==> declared_under(toml, "dependencies"@, ws, x)
            &&& m.build_dependencies.contains(x) <==> declared_under(toml, "build-dependencies"@, ws, x)
            &&& m.dev_dependencies.contains(x) <==> declared_under(toml, "dev-dependencies"@, ws, x)
        },
{
    lemma_all_declared(toml, "dependencies"@, ws, x);
    lemma_all_declared(toml, "build-dependencies"@, ws, x);
    lemma_all_declared(toml, "dev-dependencies"@, ws, x);
}

/// The features of a package, each under its name with the texts that it lists, and its binaries, those that
/// have both a name and a path.
pub proof fn lemma_declared_features_and_bins(
    toml: Toml,
    pkg: Toml,
    dir: Seq<char>,
    ws: Seq<ManifestDepView>,
    ws_pkg: WorkspacePackageView,
    d: DiskView,
    f: Seq<char>,
    b: BinView,
)
    ensures
        member_declared(toml, pkg, dir, ws, ws_pkg, d) matches Some(m) ==> {
            &&& sorted::entry_of(m.features, f) == match lists::last_with(
                toml_tree::entries_in(toml_tree::field(toml, "features"@)),
                sorted::has_key(f),
            ) {
                Some(e) => Some(toml_tree::texts_in(Some(e.1))),
                None => None,
            }
            &&& m.bin_targets.contains(b) <==> exists|k: int|
                0 <= k < toml_tree::items_in(toml_tree::field(toml, "bin"@)).len() && toml_tree::field(
                    #[trigger] toml_tree::items_in(toml_tree::field(toml, "bin"@))[k],
                    "name"@,
                ) == Some(Toml::Text(b.name)) && toml_tree::field(
                    toml_tree::items_in(toml_tree::field(toml, "bin"@))[k],
                    "path"@,
                ) == Some(Toml::Text(b.path))
        },
{
    let s = toml_tree::entries_in(toml_tree::field(toml, "features"@));
    let r = s.map_values(feature_at());
    sorted::lemma_map_of_reads(r, f);
    lemma_last_mapped(s, f);
    let items = toml_tree::items_in(toml_tree::field(toml, "bin"@));
    let g = bin_at();
    if items.filter_map(g).contains(b) {
        lists::lemma_gathered_from(items, g, b);
        let k = choose|k: int| 0 <= k < items.len() && g(#[trigger] items[k]) == Some(b);
        assert(bin_in(items[k]) == Some(b));
    }
    assert forall|k: int|
        0 <= k < items.len() && toml_tree::field(#[trigger] items[k], "name"@) == Some(Toml::Text(b.name))
            && toml_tree::field(items[k], "path"@) == Some(Toml::Text(b.path)) implies items.filter_map(g).contains(b) by {
        assert(g(items[k]) == Some(b));
        lists::lemma_filter_map_has(items, g, k, b);
    }
}

proof fn lemma_last_mapped(s: Seq<(Seq<char>, Toml)>, f: Seq<char>)
    ensures
        lists::last_with(s.map_values(feature_at()), sorted::has_key(f)) == match lists::last_with(
            s,
            sorted::has_key(f),
        ) {
            Some(e) => Some((e.0, toml_tree::texts_in(Some(e.1)))),
            None => None,
        },
    decreases s.len(),
{
    if s.len() > 0 {
        let r = s.map_values(feature_at());
        assert(r.last() == feature_at()(s.last()));
        assert(r.drop_last() =~= s.drop_last().map_values(feature_at()));
        lemma_last_mapped(s.drop_last(), f);
    }
}

/// A pattern that ends in `/*` stands for the directories below the one before it that hold a manifest, and
/// any other for the directory that it names, if that does.
pub proof fn lemma_member_patterns(base: Seq<char>, dir: Seq<char>, d: DiskView, x: Seq<char>)
    requires
        dir.len() > 0,
        dir.last() != '*',
    ensures
        glob_expanded(base, dir + "/*"@, d).contains(x) <==> disk::dir_listed(d, disk::joined_path(base, dir)).contains(x)
            && disk::file_exists(d, disk::joined_path(x, "Cargo.toml"@)),
        glob_expanded(base, dir, d).contains(x) <==> x == disk::joined_path(base, dir) && disk::file_exists(
            d,
            disk::joined_path(x, "Cargo.toml"@),
        ),
{
    reveal_strlit("/*");
    reveal_strlit("\\*");
    text::lemma_before_suffix(dir, "/*"@);
    let p = has_manifest(d);
    let s = disk::dir_listed(d, disk::joined_path(base, dir));
    assert((dir + "/*"@).take(dir.len() as int) =~= dir);
    sorted::lemma_keep_holds(s, p);
    let r = sorted::keep(s, p);
    if r.contains(x) {
        let i = choose|i: int| 0 <= i < r.len() && r[i] == x;
        assert(p(r[i]));
    }
    if s.contains(x) && p(x) {
        let i = choose|i: int| 0 <= i < s.len() && s[i] == x;
        assert(p(s[i]));
    }
    assert(!is_glob(dir)) by {
        if text::has_suffix(dir, "/*"@) {
            assert(dir.skip(dir.len() - 2).last() == dir.last());
            assert("/*"@.last() == '*');
        }
        if text::has_suffix(dir, "\\*"@) {
            assert(dir.skip(dir.len() - 2).last() == dir.last());
            assert("\\*"@.last() == '*');
        }
    }
    let q = disk::joined_path(base, dir);
    if p(q) {
        assert(glob_expanded(base, dir, d)[0] == q);
    }
}

/// What a root manifest declares for all members: dependencies under `workspace.dependencies`, version and
/// edition under `workspace.package`, and the members' patterns under `workspace.members`.
pub proof fn lemma_workspace_tables(root: Toml, ws: Toml, pkg: Toml, x: ManifestDepView)
    requires
        toml_tree::field(root, "workspace"@) == Some(ws),
        toml_tree::field(ws, "package"@) == Some(pkg),
    ensures
        workspace_package_in(root).version == toml_tree::text_in(toml_tree::field(pkg, "version"@)),
        workspace_package_in(root).edition == toml_tree::text_in(toml_tree::field(pkg, "edition"@)),
        patterns_in(root) == toml_tree::texts_in(toml_tree::field(ws, "members"@)),
        workspace_deps_in(root).contains(x) <==> exists|k: int|
            0 <= k < toml_tree::entries_in(toml_tree::field(ws, "dependencies"@)).len() && x == dep_declared(
                (#[trigger] toml_tree::entries_in(toml_tree::field(ws, "dependencies"@))[k]).0,
                toml_tree::entries_in(toml_tree::field(ws, "dependencies"@))[k].1,
                Seq::empty(),
            ),
{
    lemma_listed_deps(toml_tree::field(ws, "dependencies"@), Seq::empty(), x);
}

/// Whether the manifest in `dir` describes the package `m`.
pub open spec fn describes(dir: Seq<char>, w: Surroundings, m: MemberView) -> bool {
    match disk::file_read(w.disk, disk::joined_path(dir, "Cargo.toml"@)) {
        Ok(s) => match toml_tree::toml_parsed(s) {
            Ok(toml) => match toml_tree::field(toml, "package"@) {
                Some(pkg) => member_declared(toml, pkg, dir, w.deps, w.package, w.disk) == Some(m),
                None => false,
            },
            Err(_) => false,
        },
        Err(_) => false,
    }
}

proof fn lemma_added(
    dirs: Seq<Seq<char>>,
    init: Seq<MemberView>,
    root: Option<MemberView>,
    w: Surroundings,
    x: MemberView,
)
    ensures
        lists::try_fold(dirs, init, member_adder(root, w)) matches Ok(ms) ==> (ms.contains(x) <==> init.contains(x) || (
        !is_root(root, x) && exists|k: int| 0 <= k < dirs.len() && describes(#[trigger] dirs[k], w, x))),
    decreases dirs.len(),
{
    if dirs.len() > 0 {
        let t = dirs.drop_last();
        lemma_added(t, init, root, w, x);
        if let Ok(ms) = lists::try_fold(dirs, init, member_adder(root, w)) {
            let before = lists::try_fold(t, init, member_adder(root, w))->Ok_0;
            let last = dirs.last();
            assert(Ok::<Seq<MemberView>, Seq<char>>(ms) == member_added(before, last, root, w));
            if before.contains(x) {
                let i = choose|i: int| 0 <= i < before.len() && before[i] == x;
                assert(ms[i] == x);
            }
            if ms.contains(x) && !before.contains(x) {
                let i = choose|i: int| 0 <= i < ms.len() && ms[i] == x;
                assert(i >= before.len() || before[i] == x);
                assert(describes(dirs[dirs.len() - 1], w, x));
                assert(!is_root(root, x));
            }
            if exists|k: int| 0 <= k < dirs.len() && describes(#[trigger] dirs[k], w, x) {
                let k = choose|k: int| 0 <= k < dirs.len() && describes(#[trigger] dirs[k], w, x);
                if k < t.len() {
                    assert(describes(t[k], w, x));
                } else if !is_root(root, x) {
                    assert(ms == before.push(x));
                    assert(ms[before.len() as int] == x);
                }
            }
            if exists|k: int| 0 <= k < t.len() && describes(#[trigger] t[k], w, x) {
                let k = choose|k: int| 0 <= k < t.len() && describes(#[trigger] t[k], w, x);
                assert(describes(dirs[k], w, x));
            }
        }
    }
}

/// The members of a workspace are its root package and the packages that the manifests of its member
/// directories describe, the root package not among these.
pub proof fn lemma_members(root: Seq<char>, toml: Toml, d: DiskView, x: MemberView)
    ensures
        workspace_declared(root, toml, d) matches Ok(m) ==> (m.members.contains(x) <==> m.root_package == Some(x) || (
        !is_root(m.root_package, x) && exists|k: int|
            0 <= k < member_dirs(root, toml, d).len() && describes(
                #[trigger] member_dirs(root, toml, d)[k],
                surroundings(toml, d),
                x,
            ))),
{
    if let Ok(m) = workspace_declared(root, toml, d) {
        let w = surroundings(toml, d);
        let init = opt_member(m.root_package);
        lemma_added(member_dirs(root, toml, d), init, m.root_package, w, x);
        if m.root_package == Some(x) {
            assert(init[0] == x);
        }
    }
}

/// The directories of the members are those that the patterns under `workspace.members` stand for.
pub proof fn lemma_member_dirs(root: Seq<char>, toml: Toml, ws: Toml, d: DiskView, dir: Seq<char>)
    requires
        toml_tree::field(toml, "workspace"@) == Some(ws),
    ensures
        member_dirs(root, toml, d).contains(dir) <==> exists|k: int|
            0 <= k < toml_tree::texts_in(toml_tree::field(ws, "members"@)).len() && glob_expanded(
                root,
                #[trigger] toml_tree::texts_in(toml_tree::field(ws, "members"@))[k],
                d,
            ).contains(dir),
{
    let p = patterns_in(toml);
    let f = globs_at(root, d);
    if member_dirs(root, toml, d).contains(dir) {
        lists::lemma_flat_from(p, f, dir);
        let k = choose|k: int| 0 <= k < p.len() && f(#[trigger] p[k]).contains(dir);
        assert(glob_expanded(root, p[k], d).contains(dir));
    }
    assert forall|k: int| 0 <= k < p.len() && glob_expanded(root, #[trigger] p[k], d).contains(dir) implies member_dirs(
        root,
        toml,
        d,
    ).contains(dir) by {
        assert(f(p[k]).contains(dir));
        lists::lemma_flat_has(p, f, k, dir);
    }
}

proof fn lemma_found(
    dirs: Seq<Seq<char>>,
    init: Seq<(Seq<char>, MemberView)>,
    w: Surroundings,
    n: Seq<char>,
)
    requires
        sorted::ascending(init),
    ensures
        lists::try_fold(dirs, init, dir_finder(w)) matches Ok(found) ==> {
            &&& sorted::ascending(found)
            &&& sorted::entry_of(found, n) matches Some(m) ==> sorted::entry_of(init, n) == Some(m) || (m.name == n
                && exists|k: int| 0 <= k < dirs.len() && describes(#[trigger] dirs[k], w, m))
            &&& forall|k: int, m: MemberView|
                0 <= k < dirs.len() && #[trigger] describes(dirs[k], w, m) && m.name == n ==> sorted::entry_of(found, n)
                    is Some
            &&& sorted::entry_of(init, n) is Some ==> sorted::entry_of(found, n) is Some
        },
    decreases dirs.len(),
{
    if dirs.len() > 0 {
        let t = dirs.drop_last();
        lemma_found(t, init, w, n);
        if let Ok(found) = lists::try_fold(dirs, init, dir_finder(w)) {
            let before = lists::try_fold(t, init, dir_finder(w))->Ok_0;
            let last = dirs.last();
            assert(Ok::<Seq<(Seq<char>, MemberView)>, Seq<char>>(found) == dir_found(before, last, w));
            if let Ok(s) = disk::file_read(w.disk, disk::joined_path(last, "Cargo.toml"@)) {
                if let Ok(toml) = toml_tree::toml_parsed(s) {
                    if let Ok(Some(m)) = package_in(toml, last, w) {
                        assert(found == sorted::with_entry(before, m.name, m));
                        sorted::lemma_with_entry_ascending(before, m.name, m);
                        sorted::lemma_with_entry_reads(before, m.name, m, n);
                        assert(describes(dirs[dirs.len() - 1], w, m));
                    }
                }
            }
            if let Some(m) = sorted::entry_of(found, n) {
                if sorted::entry_of(before, n) == Some(m) && sorted::entry_of(init, n) != Some(m) {
                    let k = choose|k: int| 0 <= k < t.len() && describes(#[trigger] t[k], w, m);
                    assert(describes(dirs[k], w, m));
                }
            }
            assert forall|k: int, m: MemberView|
                0 <= k < dirs.len() && #[trigger] describes(dirs[k], w, m) && m.name == n implies sorted::entry_of(found, n)
                is Some by {
                if k < t.len() {
                    assert(describes(t[k], w, m));
                } else {
                    assert(describes(last, w, m));
                }
            }
        }
    }
}

/// A package is found in a checkout under its name exactly if the manifest of the root or of a member directory
/// describes one of that name, and what is found is such a package.
pub proof fn lemma_checkout(root: Seq<char>, s: Seq<char>, toml: Toml, d: DiskView, n: Seq<char>)
    requires
        disk::file_read(d, disk::joined_path(root, "Cargo.toml"@)) == Ok::<Seq<char>, Seq<char>>(s),
        toml_tree::toml_parsed(s) == Ok::<Toml, Seq<char>>(toml),
    ensures
        checkout_at(root, d) matches Ok(found) ==> {
            &&& sorted::entry_of(found, n) matches Some(m) ==> m.name == n && (describes(root, surroundings(toml, d), m)
                || exists|k: int|
                0 <= k < member_dirs(root, toml, d).len() && describes(
                    #[trigger] member_dirs(root, toml, d)[k],
                    surroundings(toml, d),
                    m,
                ))
            &&& forall|k: int, m: MemberView|
                0 <= k < member_dirs(root, toml, d).len() && #[trigger] describes(
                    member_dirs(root, toml, d)[k],
                    surroundings(toml, d),
                    m,
                ) && m.name == n ==> sorted::entry_of(found, n) is Some
            &&& forall|m: MemberView|
                #[trigger] describes(root, surroundings(toml, d), m) && m.name == n ==> sorted::entry_of(found, n) is Some
        },
{
    if let Ok(found) = checkout_at(root, d) {
        let w = surroundings(toml, d);
        let none = Seq::<(Seq<char>, MemberView)>::empty();
        let init = package_found(none, toml, root, w)->Ok_0;
        if let Ok(Some(m)) = package_in(toml, root, w) {
            sorted::lemma_with_entry_ascending(none, m.name, m);
            sorted::lemma_with_entry_reads(none, m.name, m, n);
            assert(describes(root, w, m));
        }
        lemma_found(member_dirs(root, toml, d), init, w, n);
    }
}

/// What a workspace that cannot be read is refused with: the path of its root manifest, and what was wrong with
/// it; a package needs a name.
pub proof fn lemma_workspace_refusals(root: Seq<char>, d: DiskView, s: Seq<char>, e: Seq<char>, toml: Toml, pkg: Toml)
    ensures
        disk::file_read(d, disk::joined_path(root, "Cargo.toml"@)) == Err::<Seq<char>, Seq<char>>(e) ==> workspace_at(
            root,
            d,
        ) == Err::<ManifestView, Seq<char>>(
            "Failed to read "@ + disk::joined_path(root, "Cargo.toml"@) + ": "@ + e,
        ) && checkout_at(root, d) == Err::<Seq<(Seq<char>, MemberView)>, Seq<char>>(
            "git checkout "@ + root + ": failed to read Cargo.toml: "@ + e,
        ),
        disk::file_read(d, disk::joined_path(root, "Cargo.toml"@)) == Ok::<Seq<char>, Seq<char>>(s)
            && toml_tree::toml_parsed(s) == Err::<Toml, Seq<char>>(e) ==> workspace_at(root, d) == Err::<
            ManifestView,
            Seq<char>,
        >("Failed to parse Cargo.toml: "@ + e) && checkout_at(root, d) == Err::<Seq<(Seq<char>, MemberView)>, Seq<char>>(
            "git checkout "@ + root + ": parse Cargo.toml: "@ + e,
        ),
        disk::file_read(d, disk::joined_path(root, "Cargo.toml"@)) == Ok::<Seq<char>, Seq<char>>(s)
            && toml_tree::toml_parsed(s) == Ok::<Toml, Seq<char>>(toml) && toml_tree::field(toml, "package"@) == Some(pkg)
            && toml_tree::field(pkg, "name"@) is None ==> workspace_at(root, d) == Err::<ManifestView, Seq<char>>(
            "package.name missing"@,
        ),
{
}

/// What a directory adds to the members: its package behind them unless that is the root's, nothing if it has
/// no manifest or that describes no package, and an error that names its manifest if that cannot be read.
pub proof fn lemma_one_member(
    members: Seq<MemberView>,
    dir: Seq<char>,
    root: Option<MemberView>,
    w: Surroundings,
    m: MemberView,
    s: Seq<char>,
    e: Seq<char>,
)
    ensures
        describes(dir, w, m) && !is_root(root, m) ==> member_added(members, dir, root, w) == Ok::<
            Seq<MemberView>,
            Seq<char>,
        >(members.push(m)),
        describes(dir, w, m) && is_root(root, m) ==> member_added(members, dir, root, w) == Ok::<
            Seq<MemberView>,
            Seq<char>,
        >(members),
        is_root(root, m) <==> root is Some && root->0.name == m.name,
        !disk::file_exists(w.disk, disk::joined_path(dir, "Cargo.toml"@)) ==> member_added(members, dir, root, w) == Ok::<
            Seq<MemberView>,
            Seq<char>,
        >(members),
        disk::file_exists(w.disk, disk::joined_path(dir, "Cargo.toml"@)) && disk::file_read(
            w.disk,
            disk::joined_path(dir, "Cargo.toml"@),
        ) == Err::<Seq<char>, Seq<char>>(e) ==> member_added(members, dir, root, w) == Err::<Seq<MemberView>, Seq<char>>(
            "Failed to read "@ + disk::joined_path(dir, "Cargo.toml"@) + ": "@ + e,
        ),
        disk::file_read(w.disk, disk::joined_path(dir, "Cargo.toml"@)) == Ok::<Seq<char>, Seq<char>>(s)
            && toml_tree::toml_parsed(s) == Err::<Toml, Seq<char>>(e) ==> member_added(members, dir, root, w) == Err::<
            Seq<MemberView>,
            Seq<char>,
        >("Failed to parse "@ + disk::joined_path(dir, "Cargo.toml"@) + ": "@ + e),
{
}

} // verus!
