//! The configuration of a build, and what an installed crate says of itself.

use crate::json_tree;
use crate::json_tree::{Json, JsonView};
use crate::lists;
use crate::resolve;
use crate::sorted;
use crate::sorted::StrMap;
use crate::text;
use vstd::prelude::*;

verus! {

// ---------------------------------------------------------------------------
// Configuration
// ---------------------------------------------------------------------------

/// The attributes of a build.
#[derive(Debug, Clone)]
pub struct BuildConfig {
    pub crate_name: String,
    pub crate_version: String,
    pub lib_name: String,
    pub lib_path: String,
    pub build: String,
    pub workspace_member: Option<String>,
    pub crate_bin: Vec<CrateBin>,
    pub has_crate_bin: bool,
    pub crate_type: Vec<String>,
    pub crate_features: Vec<String>,
    pub release: bool,
    pub verbose: bool,
    pub build_tests: bool,
    pub codegen_units: u32,
    pub extra_link_flags: Vec<String>,
    pub extra_rustc_opts: Vec<String>,
    pub extra_rustc_opts_for_build_rs: Vec<String>,
    pub cap_lints: String,
    pub colors: String,
    /// Whether `src/lib.rs`, `src/main.rs` and the like, and `tests/` are looked for.
    pub autolib: bool,
    pub autobins: bool,
    pub autotests: bool,
    /// Store path of rustc, which is kept out of what is built.
    pub rustc_path: String,
    /// Library outputs of all dependencies, direct or not.
    pub complete_deps: Vec<String>,
    /// Library outputs of all build dependencies, direct or not.
    pub complete_build_deps: Vec<String>,
    /// The hash that tells this crate's artifacts apart.
    pub metadata: String,
    pub dep_externs: Vec<DepExtern>,
    pub build_dep_externs: Vec<DepExtern>,
    pub host_platform: PlatformInfo,
    pub build_platform: PlatformInfo,
    pub outputs: StrMap<String>,
    pub crate_authors: Vec<String>,
    pub crate_description: String,
    pub crate_homepage: String,
    pub crate_license: String,
    pub crate_license_file: String,
    pub crate_links: String,
    pub crate_readme: String,
    pub crate_repository: String,
    pub crate_rust_version: String,
}

/// A binary to build.
#[derive(Debug, Clone)]
pub struct CrateBin {
    pub name: Option<String>,
    pub path: Option<String>,
    pub required_features: Vec<String>,
}

/// A dependency to link against.
#[derive(Debug, Clone)]
pub struct DepExtern {
    pub extern_name: String,
    pub metadata: String,
    pub is_rename: bool,
    /// The library output of the dependency.
    pub lib_out: String,
    /// Whether it is a crate of the standard library.
    pub stdlib: bool,
}

/// A platform to build for or on.
#[derive(Debug, Clone)]
pub struct PlatformInfo {
    pub rustc_target_spec: String,
    pub lib_ext: String,
    /// The linker; none where rustc's own default is right.
    pub linker_path: Option<String>,
}

/// The view of a [`BuildConfig`].
pub struct ConfigView {
    pub crate_name: Seq<char>,
    pub crate_version: Seq<char>,
    pub lib_name: Seq<char>,
    pub lib_path: Seq<char>,
    pub build: Seq<char>,
    pub workspace_member: Option<Seq<char>>,
    pub crate_bin: Seq<CrateBinView>,
    pub has_crate_bin: bool,
    pub crate_type: Seq<Seq<char>>,
    pub crate_features: Seq<Seq<char>>,
    pub release: bool,
    pub verbose: bool,
    pub build_tests: bool,
    pub codegen_units: u32,
    pub extra_link_flags: Seq<Seq<char>>,
    pub extra_rustc_opts: Seq<Seq<char>>,
    pub extra_rustc_opts_for_build_rs: Seq<Seq<char>>,
    pub cap_lints: Seq<char>,
    pub colors: Seq<char>,
    pub autolib: bool,
    pub autobins: bool,
    pub autotests: bool,
    pub rustc_path: Seq<char>,
    pub complete_deps: Seq<Seq<char>>,
    pub complete_build_deps: Seq<Seq<char>>,
    pub metadata: Seq<char>,
    pub dep_externs: Seq<DepExternView>,
    pub build_dep_externs: Seq<DepExternView>,
    pub host_platform: PlatformInfoView,
    pub build_platform: PlatformInfoView,
    pub outputs: Seq<(Seq<char>, Seq<char>)>,
    pub crate_authors: Seq<Seq<char>>,
    pub crate_description: Seq<char>,
    pub crate_homepage: Seq<char>,
    pub crate_license: Seq<char>,
    pub crate_license_file: Seq<char>,
    pub crate_links: Seq<char>,
    pub crate_readme: Seq<char>,
    pub crate_repository: Seq<char>,
    pub crate_rust_version: Seq<char>,
}

/// The view of a [`CrateBin`].
pub struct CrateBinView {
    pub name: Option<Seq<char>>,
    pub path: Option<Seq<char>>,
    pub required_features: Seq<Seq<char>>,
}

/// The view of a [`DepExtern`].
pub struct DepExternView {
    pub extern_name: Seq<char>,
    pub metadata: Seq<char>,
    pub is_rename: bool,
    pub lib_out: Seq<char>,
    pub stdlib: bool,
}

/// The view of a [`PlatformInfo`].
pub struct PlatformInfoView {
    pub rustc_target_spec: Seq<char>,
    pub lib_ext: Seq<char>,
    pub linker_path: Option<Seq<char>>,
}

impl DeepView for BuildConfig {
    type V = ConfigView;

    open spec fn deep_view(&self) -> ConfigView {
        ConfigView {
            crate_name: self.crate_name@,
            crate_version: self.crate_version@,
            lib_name: self.lib_name@,
            lib_path: self.lib_path@,
            build: self.build@,
            workspace_member: self.workspace_member.deep_view(),
            crate_bin: self.crate_bin.deep_view(),
            has_crate_bin: self.has_crate_bin,
            crate_type: self.crate_type.deep_view(),
            crate_features: self.crate_features.deep_view(),
            release: self.release,
            verbose: self.verbose,
            build_tests: self.build_tests,
            codegen_units: self.codegen_units,
            extra_link_flags: self.extra_link_flags.deep_view(),
            extra_rustc_opts: self.extra_rustc_opts.deep_view(),
            extra_rustc_opts_for_build_rs: self.extra_rustc_opts_for_build_rs.deep_view(),
            cap_lints: self.cap_lints@,
            colors: self.colors@,
            autolib: self.autolib,
            autobins: self.autobins,
            autotests: self.autotests,
            rustc_path: self.rustc_path@,
            complete_deps: self.complete_deps.deep_view(),
            complete_build_deps: self.complete_build_deps.deep_view(),
            metadata: self.metadata@,
            dep_externs: self.dep_externs.deep_view(),
            build_dep_externs: self.build_dep_externs.deep_view(),
            host_platform: self.host_platform.deep_view(),
            build_platform: self.build_platform.deep_view(),
            outputs: self.outputs.deep_view(),
            crate_authors: self.crate_authors.deep_view(),
            crate_description: self.crate_description@,
            crate_homepage: self.crate_homepage@,
            crate_license: self.crate_license@,
            crate_license_file: self.crate_license_file@,
            crate_links: self.crate_links@,
            crate_readme: self.crate_readme@,
            crate_repository: self.crate_repository@,
            crate_rust_version: self.crate_rust_version@,
        }
    }
}

impl DeepView for CrateBin {
    type V = CrateBinView;

    open spec fn deep_view(&self) -> CrateBinView {
        CrateBinView {
            name: self.name.deep_view(),
            path: self.path.deep_view(),
            required_features: self.required_features.deep_view(),
        }
    }
}

impl DeepView for DepExtern {
    type V = DepExternView;

    open spec fn deep_view(&self) -> DepExternView {
        DepExternView {
            extern_name: self.extern_name@,
            metadata: self.metadata@,
            is_rename: self.is_rename,
            lib_out: self.lib_out@,
            stdlib: self.stdlib,
        }
    }
}

impl DeepView for PlatformInfo {
    type V = PlatformInfoView;

    open spec fn deep_view(&self) -> PlatformInfoView {
        PlatformInfoView {
            rustc_target_spec: self.rustc_target_spec@,
            lib_ext: self.lib_ext@,
            linker_path: self.linker_path.deep_view(),
        }
    }
}

/// Flags that are on unless they are turned off.
pub fn default_true() -> (r: bool)
    ensures
        r,
{
    true
}

pub fn default_codegen_units() -> (r: u32)
    ensures
        r == 1,
{
    1
}

pub fn default_cap_lints() -> (r: String)
    ensures
        r@ == "allow"@,
{
    "allow".to_owned()
}

/// Whether a build is for another platform than it runs on.
pub open spec fn crosses(c: ConfigView) -> bool {
    c.host_platform.rustc_target_spec != c.build_platform.rustc_target_spec
}

impl BuildConfig {
    /// The name of the library as rustc takes it.
    pub fn lib_name_normalized(&self) -> (r: String)
        ensures
            r@ == resolve::normalized(self.lib_name@),
    {
        resolve::normalize_name(&self.lib_name)
    }

    pub fn is_cross_compiling(&self) -> (r: bool)
        ensures
            r == crosses(self.deep_view()),
    {
        !text::same(&self.host_platform.rustc_target_spec, &self.build_platform.rustc_target_spec)
    }

    /// Where the main output goes. Every build has one.
    pub fn out_path(&self) -> (r: &str)
        requires
            sorted::entry_of(self.outputs.deep_view(), "out"@) is Some,
        ensures
            sorted::entry_of(self.outputs.deep_view(), "out"@) == Some(r@),
    {
        match self.outputs.get("out") {
            Some(s) => s.as_str(),
            None => "",
        }
    }

    /// Where the library output goes, if it is apart.
    pub fn lib_path_output(&self) -> (r: Option<&str>)
        ensures
            r.deep_view() == sorted::entry_of(self.outputs.deep_view(), "lib"@),
    {
        match self.outputs.get("lib") {
            Some(s) => Some(s.as_str()),
            None => None,
        }
    }
}

// ---------------------------------------------------------------------------
// Attributes that become environment variables
// ---------------------------------------------------------------------------

/// Whether a character may stand in the name of such an attribute.
pub open spec fn is_name_char(c: char) -> bool {
    'A' <= c <= 'Z' || c == '_' || '0' <= c <= '9'
}

/// Whether an attribute becomes an environment variable: its name is all capitals.
pub open spec fn is_env_name(k: Seq<char>) -> bool {
    k.len() > 0 && forall|i: int| 0 <= i < k.len() ==> is_name_char(#[trigger] k[i])
}

pub open spec fn is_exported() -> spec_fn((Seq<char>, Seq<char>)) -> bool {
    |e: (Seq<char>, Seq<char>)| is_env_name(e.0)
}

fn env_name(k: &str) -> (r: bool)
    ensures
        r == is_env_name(k@),
{
    let v = text::chars_of(k);
    for i in 0..v.len()
        invariant
            v@ == k@,
            forall|j: int| 0 <= j < i ==> is_name_char(#[trigger] v@[j]),
    {
        let c = v[i];
        if !(('A' <= c && c <= 'Z') || c == '_' || ('0' <= c && c <= '9')) {
            assert(!is_name_char(k@[i as int]));
            return false;
        }
    }
    v.len() > 0
}

/// The text attributes that become environment variables. With structured attributes they would
/// not be in the environment, where overrides of crates expect them.
pub fn exported_attrs(attrs: &Vec<(String, String)>) -> (r: Vec<(String, String)>)
    ensures
        r.deep_view() == sorted::keep(attrs.deep_view(), is_exported()),
{
    let ghost s = attrs.deep_view();
    let mut out: Vec<(String, String)> = Vec::new();
    assert(out.deep_view() =~= sorted::keep(s.take(0), is_exported()));
    for i in 0..attrs.len()
        invariant
            s == attrs.deep_view(),
            out.deep_view() == sorted::keep(s.take(i as int), is_exported()),
    {
        let ghost o = out.deep_view();
        proof {
            sorted::lemma_keep_step(s, is_exported(), i as int);
            assert(s[i as int] == attrs@[i as int].deep_view());
        }
        if env_name(&attrs[i].0) {
            out.push((attrs[i].0.clone(), attrs[i].1.clone()));
            assert(out.deep_view() =~= o.push(s[i as int]));
        }
    }
    assert(s.take(s.len() as int) =~= s);
    out
}

pub open spec fn text_attr_at() -> spec_fn((Seq<char>, JsonView)) -> Option<(Seq<char>, Seq<char>)> {
    |e: (Seq<char>, JsonView)|
        match e.1 {
            JsonView::Text(s) => Some((e.0, s)),
            _ => None,
        }
}

/// The pairs of an object whose value is a text.
pub open spec fn text_attrs(v: JsonView) -> Seq<(Seq<char>, Seq<char>)> {
    match v {
        JsonView::Object(o) => o.filter_map(text_attr_at()),
        _ => Seq::empty(),
    }
}

/// The attributes whose value is a text.
pub fn list_text_attrs(v: &Json) -> (r: Vec<(String, String)>)
    ensures
        r.deep_view() == text_attrs(v.deep_view()),
{
    let mut out: Vec<(String, String)> = Vec::new();
    match v {
        Json::Object(o) => {
            let ghost s = v.deep_view()->Object_0;
            let ghost f = text_attr_at();
            assert(out.deep_view() =~= s.take(0).filter_map(f));
            for i in 0..o.len()
                invariant
                    v.deep_view() == JsonView::Object(s),
                    v == Json::Object(*o),
                    f == text_attr_at(),
                    out.deep_view() == s.take(i as int).filter_map(f),
            {
                let ghost before = out.deep_view();
                assert(s[i as int] == (o@[i as int].0@, o@[i as int].1.deep_view()));
                assert(s.take(i + 1).drop_last() =~= s.take(i as int));
                assert(s.take(i + 1).last() == s[i as int]);
                if let Json::Text(x) = &o[i].1 {
                    out.push((o[i].0.clone(), x.clone()));
                    assert(out.deep_view() =~= before + seq![(o@[i as int].0@, x@)]);
                }
            }
            assert(s.take(s.len() as int) =~= s);
        },
        _ => {
            assert(out.deep_view() =~= Seq::empty());
        },
    }
    out
}

/// The environment variables that the JSON of a build's attributes asks for. Text that is no JSON
/// asks for none.
pub fn exported_in(text: &str) -> (r: Vec<(String, String)>)
    ensures
        r.deep_view() == match json_tree::json_parsed(text@) {
            Some(v) => sorted::keep(text_attrs(v), is_exported()),
            None => Seq::empty(),
        },
{
    match json_tree::parse(text) {
        Some(v) => exported_attrs(&list_text_attrs(&v)),
        None => {
            let none: Vec<(String, String)> = Vec::new();
            assert(none.deep_view() =~= Seq::empty());
            none
        },
    }
}

/// No attribute is exported whose value is not a text, or whose name is not all capitals, and every
/// other one is.
pub proof fn lemma_exported(v: JsonView, name: Seq<char>, value: Seq<char>)
    ensures
        sorted::keep(text_attrs(v), is_exported()).contains((name, value)) <==> is_env_name(name) && match v {
            JsonView::Object(o) => o.contains((name, JsonView::Text(value))),
            _ => false,
        },
{
    let s = text_attrs(v);
    let r = sorted::keep(s, is_exported());
    let e = (name, value);
    sorted::lemma_keep_holds(s, is_exported());
    if r.contains(e) {
        let n = choose|n: int| 0 <= n < r.len() && r[n] == e;
        assert(is_exported()(r[n]));
        assert(s.contains(e));
        let o = v->Object_0;
        lists::lemma_gathered_from(o, text_attr_at(), e);
        let k = choose|k: int| 0 <= k < o.len() && text_attr_at()(#[trigger] o[k]) == Some(e);
        assert(o[k] == (name, JsonView::Text(value)));
    }
    if let JsonView::Object(o) = v {
        if is_env_name(name) && o.contains((name, JsonView::Text(value))) {
            let k = choose|k: int| 0 <= k < o.len() && o[k] == (name, JsonView::Text(value));
            lists::lemma_filter_map_has(o, text_attr_at(), k, e);
            let n = choose|n: int| 0 <= n < s.len() && s[n] == e;
            assert(is_exported()(s[n]));
        }
    }
}

// ---------------------------------------------------------------------------
// Installed crates
// ---------------------------------------------------------------------------

/// What an installed crate says of itself to those that depend on it.
#[derive(Debug, Clone)]
pub struct CrateMetadata {
    pub lib_name: String,
    pub metadata: String,
    pub crate_types: Vec<String>,
    pub proc_macro: bool,
    /// The file names of what rustc made.
    pub artifacts: Vec<String>,
    pub links: String,
    pub links_vars: StrMap<String>,
}

/// The view of a [`CrateMetadata`].
pub struct CrateMetadataView {
    pub lib_name: Seq<char>,
    pub metadata: Seq<char>,
    pub crate_types: Seq<Seq<char>>,
    pub proc_macro: bool,
    pub artifacts: Seq<Seq<char>>,
    pub links: Seq<char>,
    pub links_vars: Seq<(Seq<char>, Seq<char>)>,
}

impl DeepView for CrateMetadata {
    type V = CrateMetadataView;

    open spec fn deep_view(&self) -> CrateMetadataView {
        CrateMetadataView {
            lib_name: self.lib_name@,
            metadata: self.metadata@,
            crate_types: self.crate_types.deep_view(),
            proc_macro: self.proc_macro,
            artifacts: self.artifacts.deep_view(),
            links: self.links@,
            links_vars: self.links_vars.deep_view(),
        }
    }
}

} // verus!
