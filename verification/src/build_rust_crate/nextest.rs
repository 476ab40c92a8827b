//! The list of test programs for a runner that did not build them.

use crate::build_rust_crate::config::{BuildConfig, ConfigView};
use crate::lists;
use crate::resolve;
use crate::sorted;
use crate::sorted::StrMap;
use crate::text;
use vstd::prelude::*;

verus! {

/// One test program.
#[derive(Debug, Clone)]
pub struct RustBinary {
    pub binary_id: String,
    pub binary_name: String,
    pub package_id: String,
    pub kind: String,
    pub binary_path: String,
    pub build_platform: String,
}

/// The view of a [`RustBinary`].
pub struct BinaryView {
    pub binary_id: Seq<char>,
    pub binary_name: Seq<char>,
    pub package_id: Seq<char>,
    pub kind: Seq<char>,
    pub binary_path: Seq<char>,
    pub build_platform: Seq<char>,
}

impl DeepView for RustBinary {
    type V = BinaryView;

    open spec fn deep_view(&self) -> BinaryView {
        BinaryView {
            binary_id: self.binary_id@,
            binary_name: self.binary_name@,
            package_id: self.package_id@,
            kind: self.kind@,
            binary_path: self.binary_path@,
            build_platform: self.build_platform@,
        }
    }
}

/// A platform, as the runner wants it.
#[derive(Debug, Clone)]
pub struct RunnerPlatform {
    pub triple: String,
    pub target_features: String,
}

/// The view of a [`RunnerPlatform`].
pub struct RunnerPlatformView {
    pub triple: Seq<char>,
    pub target_features: Seq<char>,
}

impl DeepView for RunnerPlatform {
    type V = RunnerPlatformView;

    open spec fn deep_view(&self) -> RunnerPlatformView {
        RunnerPlatformView { triple: self.triple@, target_features: self.target_features@ }
    }
}

/// How the programs were built. What the runner would need to build them itself is not there.
#[derive(Debug, Clone)]
pub struct RustBuildMeta {
    pub target_directory: String,
    pub base_output_directories: Vec<String>,
    pub non_test_binaries: StrMap<String>,
    pub build_script_out_dirs: StrMap<String>,
    pub linked_paths: Vec<String>,
    pub host_platform: RunnerPlatform,
    pub host_libdir_status: String,
    pub host_libdir_reason: String,
    pub targets: Vec<RunnerPlatform>,
    pub target_platforms: Vec<RunnerPlatform>,
    pub target_platform: Option<String>,
}

/// The view of a [`RustBuildMeta`].
pub struct BuildMetaView {
    pub target_directory: Seq<char>,
    pub base_output_directories: Seq<Seq<char>>,
    pub non_test_binaries: Seq<(Seq<char>, Seq<char>)>,
    pub build_script_out_dirs: Seq<(Seq<char>, Seq<char>)>,
    pub linked_paths: Seq<Seq<char>>,
    pub host_platform: RunnerPlatformView,
    pub host_libdir_status: Seq<char>,
    pub host_libdir_reason: Seq<char>,
    pub targets: Seq<RunnerPlatformView>,
    pub target_platforms: Seq<RunnerPlatformView>,
    pub target_platform: Option<Seq<char>>,
}

impl DeepView for RustBuildMeta {
    type V = BuildMetaView;

    open spec fn deep_view(&self) -> BuildMetaView {
        BuildMetaView {
            target_directory: self.target_directory@,
            base_output_directories: self.base_output_directories.deep_view(),
            non_test_binaries: self.non_test_binaries.deep_view(),
            build_script_out_dirs: self.build_script_out_dirs.deep_view(),
            linked_paths: self.linked_paths.deep_view(),
            host_platform: self.host_platform.deep_view(),
            host_libdir_status: self.host_libdir_status@,
            host_libdir_reason: self.host_libdir_reason@,
            targets: self.targets.deep_view(),
            target_platforms: self.target_platforms.deep_view(),
            target_platform: self.target_platform.deep_view(),
        }
    }
}

/// What the runner reads.
#[derive(Debug, Clone)]
pub struct BinariesMetadata {
    pub rust_build_meta: RustBuildMeta,
    pub rust_binaries: StrMap<RustBinary>,
}

/// The view of a [`BinariesMetadata`].
pub struct BinariesView {
    pub rust_build_meta: BuildMetaView,
    pub rust_binaries: Seq<(Seq<char>, BinaryView)>,
}

impl DeepView for BinariesMetadata {
    type V = BinariesView;

    open spec fn deep_view(&self) -> BinariesView {
        BinariesView {
            rust_build_meta: self.rust_build_meta.deep_view(),
            rust_binaries: self.rust_binaries.deep_view(),
        }
    }
}

/// The identity of the package. The list of packages that goes with this one is made for the same
/// directory, which does not exist.
pub open spec fn package_id(c: ConfigView) -> Seq<char> {
    let dir = match c.workspace_member {
        Some(m) => if m == "."@ {
            "/cargo-nix-plugin-metadata/ws"@
        } else {
            "/cargo-nix-plugin-metadata/ws/"@ + m
        },
        None => "/cargo-nix-plugin-metadata/ws"@,
    };
    "path+file://"@ + dir + "#"@ + c.crate_name + "@"@ + c.crate_version
}

fn id_of_package(config: &BuildConfig) -> (r: String)
    ensures
        r@ == package_id(config.deep_view()),
{
    let dir = match &config.workspace_member {
        Some(m) => {
            if text::same(m, ".") {
                "/cargo-nix-plugin-metadata/ws".to_owned()
            } else {
                text::cat2("/cargo-nix-plugin-metadata/ws/", m)
            }
        },
        None => "/cargo-nix-plugin-metadata/ws".to_owned(),
    };
    let head = text::cat4("path+file://", &dir, "#", &config.crate_name);
    text::cat3(&head, "@", &config.crate_version)
}

/// A target: its identity, its name, its file and its kind.
pub type TargetView = (Seq<char>, Seq<char>, Seq<char>, Seq<char>);

pub open spec fn bin_target_at(pkg: Seq<char>) -> spec_fn((Seq<char>, Seq<char>)) -> TargetView {
    |b: (Seq<char>, Seq<char>)| (pkg + "::bin/"@ + b.0, b.0, b.0, "bin"@)
}

/// A test, if a harness runs it: the runner knows no others.
pub open spec fn test_target_at(pkg: Seq<char>) -> spec_fn((Seq<char>, Seq<char>, bool)) -> Option<TargetView> {
    |t: (Seq<char>, Seq<char>, bool)|
        if t.2 {
            Some((pkg + "::"@ + t.0, t.0, t.0, "test"@))
        } else {
            None
        }
}

/// All targets of the crate that could be test programs.
pub open spec fn targets_of(
    c: ConfigView,
    bins: Seq<(Seq<char>, Seq<char>)>,
    tests: Seq<(Seq<char>, Seq<char>, bool)>,
) -> Seq<TargetView> {
    let name = resolve::normalized(c.lib_name);
    seq![(c.crate_name, name, name + "-"@ + c.metadata, "lib"@)] + bins.map_values(bin_target_at(c.crate_name))
        + tests.filter_map(test_target_at(c.crate_name))
}

/// The entry of a target whose file is there.
pub open spec fn entry_for(t: TargetView, c: ConfigView, dir: Seq<char>, present: Seq<Seq<char>>) -> Option<
    (Seq<char>, BinaryView),
> {
    if present.contains(t.2) {
        Some(
            (
                t.0,
                BinaryView {
                    binary_id: t.0,
                    binary_name: t.1,
                    package_id: package_id(c),
                    kind: t.3,
                    binary_path: dir + "/"@ + t.2,
                    build_platform: "target"@,
                },
            ),
        )
    } else {
        None
    }
}

pub open spec fn entry_at(c: ConfigView, dir: Seq<char>, present: Seq<Seq<char>>) -> spec_fn(TargetView) -> Option<
    (Seq<char>, BinaryView),
> {
    |t: TargetView| entry_for(t, c, dir, present)
}

pub open spec fn platform_of(c: ConfigView) -> RunnerPlatformView {
    RunnerPlatformView { triple: c.host_platform.rustc_target_spec, target_features: "unknown"@ }
}

pub open spec fn build_meta_of(c: ConfigView) -> BuildMetaView {
    BuildMetaView {
        target_directory: "/nonexistent"@,
        base_output_directories: seq!["debug"@],
        non_test_binaries: Seq::empty(),
        build_script_out_dirs: Seq::empty(),
        linked_paths: Seq::empty(),
        host_platform: platform_of(c),
        host_libdir_status: "unavailable"@,
        host_libdir_reason: "not-requested"@,
        targets: Seq::empty(),
        target_platforms: seq![platform_of(c)],
        target_platform: None,
    }
}

/// What the runner reads of a crate whose test programs stand in `dir`. Programs that are not there
/// were left out for features that they need, and are left out here.
pub open spec fn binaries_of(
    c: ConfigView,
    dir: Seq<char>,
    bins: Seq<(Seq<char>, Seq<char>)>,
    tests: Seq<(Seq<char>, Seq<char>, bool)>,
    present: Seq<Seq<char>>,
) -> BinariesView {
    BinariesView {
        rust_build_meta: build_meta_of(c),
        rust_binaries: sorted::map_of(targets_of(c, bins, tests).filter_map(entry_at(c, dir, present))),
    }
}

struct Target {
    id: String,
    name: String,
    file: String,
    kind: String,
}

impl DeepView for Target {
    type V = TargetView;

    closed spec fn deep_view(&self) -> TargetView {
        (self.id@, self.name@, self.file@, self.kind@)
    }
}

fn list_targets(
    config: &BuildConfig,
    bins: &Vec<(String, String)>,
    tests: &Vec<(String, String, bool)>,
) -> (r: Vec<Target>)
    ensures
        r.deep_view() == targets_of(config.deep_view(), bins.deep_view(), tests.deep_view()),
{
    let ghost pkg = config.crate_name@;
    let mut out: Vec<Target> = Vec::new();
    let name = config.lib_name_normalized();
    let file = text::cat3(&name, "-", &config.metadata);
    out.push(Target { id: config.crate_name.clone(), name, file, kind: "lib".to_owned() });
    let ghost head = out.deep_view();
    assert(head =~= seq![
        (
            pkg,
            resolve::normalized(config.lib_name@),
            resolve::normalized(config.lib_name@) + "-"@ + config.metadata@,
            "lib"@,
        ),
    ]);
    let ghost b = bins.deep_view();
    let ghost full = b.map_values(bin_target_at(pkg));
    assert(out.deep_view() =~= head + full.take(0));
    for i in 0..bins.len()
        invariant
            pkg == config.crate_name@,
            b == bins.deep_view(),
            full == b.map_values(bin_target_at(pkg)),
            out.deep_view() == head + full.take(i as int),
    {
        let ghost o = out.deep_view();
        assert(b[i as int] == bins@[i as int].deep_view());
        out.push(
            Target {
                id: text::cat3(&config.crate_name, "::bin/", &bins[i].0),
                name: bins[i].0.clone(),
                file: bins[i].0.clone(),
                kind: "bin".to_owned(),
            },
        );
        assert(out.deep_view() =~= o.push(full[i as int]));
        assert(full.take(i + 1) =~= full.take(i as int).push(full[i as int]));
    }
    assert(full.take(b.len() as int) =~= full);
    let ghost mid = out.deep_view();
    let ghost t = tests.deep_view();
    let ghost f = test_target_at(pkg);
    assert(out.deep_view() =~= mid + t.take(0).filter_map(f));
    for i in 0..tests.len()
        invariant
            pkg == config.crate_name@,
            t == tests.deep_view(),
            f == test_target_at(pkg),
            out.deep_view() == mid + t.take(i as int).filter_map(f),
    {
        let ghost o = out.deep_view();
        assert(t.take(i + 1).drop_last() =~= t.take(i as int));
        assert(t.take(i + 1).last() == tests@[i as int].deep_view());
        if tests[i].2 {
            out.push(
                Target {
                    id: text::cat3(&config.crate_name, "::", &tests[i].0),
                    name: tests[i].0.clone(),
                    file: tests[i].0.clone(),
                    kind: "test".to_owned(),
                },
            );
            assert(out.deep_view() =~= o.push(f(t[i as int]).unwrap()));
        }
        assert(out.deep_view() =~= mid + t.take(i + 1).filter_map(f));
    }
    assert(t.take(t.len() as int) =~= t);
    assert(out.deep_view() =~= targets_of(config.deep_view(), bins.deep_view(), tests.deep_view()));
    out
}

fn runner_platform(config: &BuildConfig) -> (r: RunnerPlatform)
    ensures
        r.deep_view() == platform_of(config.deep_view()),
{
    RunnerPlatform {
        triple: config.host_platform.rustc_target_spec.clone(),
        target_features: "unknown".to_owned(),
    }
}

fn build_meta(config: &BuildConfig) -> (r: RustBuildMeta)
    ensures
        r.deep_view() == build_meta_of(config.deep_view()),
{
    let mut dirs: Vec<String> = Vec::new();
    dirs.push("debug".to_owned());
    let mut platforms: Vec<RunnerPlatform> = Vec::new();
    platforms.push(runner_platform(config));
    let r = RustBuildMeta {
        target_directory: "/nonexistent".to_owned(),
        base_output_directories: dirs,
        non_test_binaries: StrMap::new(),
        build_script_out_dirs: StrMap::new(),
        linked_paths: Vec::new(),
        host_platform: runner_platform(config),
        host_libdir_status: "unavailable".to_owned(),
        host_libdir_reason: "not-requested".to_owned(),
        targets: Vec::new(),
        target_platforms: platforms,
        target_platform: None,
    };
    proof {
        let v = build_meta_of(config.deep_view());
        assert(r.base_output_directories.deep_view() =~= v.base_output_directories);
        assert(r.linked_paths.deep_view() =~= v.linked_paths);
        assert(r.targets.deep_view() =~= v.targets);
        assert(r.target_platforms.deep_view() =~= v.target_platforms);
    }
    r
}

/// What the runner reads of a crate whose test programs stand in `tests_dir`. `bins` and `tests` are
/// the binaries and integration tests of the crate, and `present` the files of that directory.
pub fn binaries_metadata(
    config: &BuildConfig,
    tests_dir: &str,
    bins: &Vec<(String, String)>,
    tests: &Vec<(String, String, bool)>,
    present: &Vec<String>,
) -> (r: BinariesMetadata)
    ensures
        r.deep_view() == binaries_of(
            config.deep_view(),
            tests_dir@,
            bins.deep_view(),
            tests.deep_view(),
            present.deep_view(),
        ),
        r.rust_binaries.wf(),
{
    let targets = list_targets(config, bins, tests);
    let ghost s = targets.deep_view();
    let ghost f = entry_at(config.deep_view(), tests_dir@, present.deep_view());
    let id = id_of_package(config);
    let mut list: Vec<(String, RustBinary)> = Vec::new();
    assert(list.deep_view() =~= s.take(0).filter_map(f));
    for i in 0..targets.len()
        invariant
            s == targets.deep_view(),
            f == entry_at(config.deep_view(), tests_dir@, present.deep_view()),
            id@ == package_id(config.deep_view()),
            list.deep_view() == s.take(i as int).filter_map(f),
    {
        let ghost o = list.deep_view();
        assert(s.take(i + 1).drop_last() =~= s.take(i as int));
        assert(s.take(i + 1).last() == targets@[i as int].deep_view());
        let t = &targets[i];
        if sorted::has_text(present, &t.file) {
            let e = (
                t.id.clone(),
                RustBinary {
                    binary_id: t.id.clone(),
                    binary_name: t.name.clone(),
                    package_id: id.clone(),
                    kind: t.kind.clone(),
                    binary_path: text::cat3(tests_dir, "/", &t.file),
                    build_platform: "target".to_owned(),
                },
            );
            let ghost ev = e.deep_view();
            list.push(e);
            assert(list.deep_view() =~= o + seq![ev]);
        }
    }
    assert(s.take(s.len() as int) =~= s);
    BinariesMetadata { rust_build_meta: build_meta(config), rust_binaries: StrMap::from_list(list) }
}

proof fn lemma_entry_present(s: Seq<TargetView>, c: ConfigView, dir: Seq<char>, present: Seq<Seq<char>>, id: Seq<char>)
    ensures
        lists::last_with(s.filter_map(entry_at(c, dir, present)), sorted::has_key(id)) matches Some(e) ==> e.0 == id
            && exists|i: int| 0 <= i < s.len() && #[trigger] entry_for(s[i], c, dir, present) == Some(e),
    decreases s.len(),
{
    let f = entry_at(c, dir, present);
    if s.len() > 0 {
        let t = s.drop_last();
        lemma_entry_present(t, c, dir, present, id);
        let a = t.filter_map(f);
        let b = s.filter_map(f);
        if let Some(e) = lists::last_with(b, sorted::has_key(id)) {
            if entry_for(s.last(), c, dir, present) is Some {
                assert(b.drop_last() =~= a);
                if b.last().0 == id {
                    assert(entry_for(s[s.len() - 1], c, dir, present) == Some(e));
                } else {
                    let i = choose|i: int| 0 <= i < t.len() && #[trigger] entry_for(t[i], c, dir, present) == Some(e);
                    assert(s[i] == t[i]);
                }
            } else {
                assert(b =~= a);
                let i = choose|i: int| 0 <= i < t.len() && #[trigger] entry_for(t[i], c, dir, present) == Some(e);
                assert(s[i] == t[i]);
            }
        }
    }
}

/// Every program that the runner reads of is there: it is found under its own identity, and its file
/// is one of those of the directory.
pub proof fn lemma_listed_binaries_are_there(
    c: ConfigView,
    dir: Seq<char>,
    bins: Seq<(Seq<char>, Seq<char>)>,
    tests: Seq<(Seq<char>, Seq<char>, bool)>,
    present: Seq<Seq<char>>,
    id: Seq<char>,
)
    ensures
        sorted::entry_of(binaries_of(c, dir, bins, tests, present).rust_binaries, id) matches Some(b) ==> b.binary_id
            == id && b.package_id == package_id(c) && exists|i: int|
            0 <= i < present.len() && b.binary_path == dir + "/"@ + #[trigger] present[i],
{
    let s = targets_of(c, bins, tests);
    let f = entry_at(c, dir, present);
    sorted::lemma_map_of_reads(s.filter_map(f), id);
    lemma_entry_present(s, c, dir, present, id);
    if let Some(b) = sorted::entry_of(binaries_of(c, dir, bins, tests, present).rust_binaries, id) {
        let e = lists::last_with(s.filter_map(f), sorted::has_key(id)).unwrap();
        let i = choose|i: int| 0 <= i < s.len() && #[trigger] entry_for(s[i], c, dir, present) == Some(e);
        let j = choose|j: int| 0 <= j < present.len() && present[j] == s[i].2;
        assert(b.binary_path == dir + "/"@ + present[j]);
    }
}

/// The list of programs read back: the library's unit tests, if their file is there, under the name of the
/// package, with the name of the library, the kind of one, and the path of the file that carries the hash.
pub proof fn lemma_unit_tests_listed(
    c: ConfigView,
    dir: Seq<char>,
    bins: Seq<(Seq<char>, Seq<char>)>,
    tests: Seq<(Seq<char>, Seq<char>, bool)>,
    present: Seq<Seq<char>>,
)
    requires
        present.contains(resolve::normalized(c.lib_name) + "-"@ + c.metadata),
    ensures
        sorted::entry_of(binaries_of(c, dir, bins, tests, present).rust_binaries, c.crate_name) matches Some(b)
            && b.binary_id == c.crate_name && b.binary_name == resolve::normalized(c.lib_name) && b.kind == "lib"@
            && b.binary_path == dir + "/"@ + (resolve::normalized(c.lib_name) + "-"@ + c.metadata) && b.build_platform
            == "target"@ && b.package_id == package_id(c),
{
    let s = targets_of(c, bins, tests);
    let f = entry_at(c, dir, present);
    let g = s.filter_map(f);
    let id = c.crate_name;
    let name = resolve::normalized(c.lib_name);
    let t = (c.crate_name, name, name + "-"@ + c.metadata, "lib"@);
    assert(s[0] == t);
    let e = entry_for(t, c, dir, present)->0;
    lists::lemma_filter_map_has(s, f, 0, e);
    sorted::lemma_map_of_reads(g, id);
    lists::lemma_last_with(g, sorted::has_key(id));
    let i = choose|i: int| 0 <= i < g.len() && g[i] == e;
    assert(sorted::has_key(id)(g[i]));
    lemma_entry_present(s, c, dir, present, id);
    let x = lists::last_with(g, sorted::has_key(id))->0;
    let k = choose|k: int| 0 <= k < s.len() && #[trigger] entry_for(s[k], c, dir, present) == Some(x);
    assert(k == 0) by {
        reveal_strlit("::bin/");
        reveal_strlit("::");
        if k > 0 && k <= bins.len() {
            let b = bins[k - 1];
            assert(s[k] == bin_target_at(id)(b));
            assert(s[k].0.len() > id.len());
        } else if k > bins.len() {
            let all = tests.filter_map(test_target_at(id));
            assert(s[k] == all[k - 1 - bins.len()]);
            assert(all.contains(s[k]));
            lists::lemma_gathered_from(tests, test_target_at(id), s[k]);
            assert(s[k].0.len() > id.len());
        }
    }
}

/// Every target of a crate that is there is listed: a binary under the package's name and its own, a test
/// with a harness under the package's name and its own, and a test without one not at all.
pub proof fn lemma_targets(
    c: ConfigView,
    bins: Seq<(Seq<char>, Seq<char>)>,
    tests: Seq<(Seq<char>, Seq<char>, bool)>,
    t: TargetView,
)
    ensures
        targets_of(c, bins, tests).contains(t) <==> {
            ||| t == (
                c.crate_name,
                resolve::normalized(c.lib_name),
                resolve::normalized(c.lib_name) + "-"@ + c.metadata,
                "lib"@,
            )
            ||| exists|k: int|
                0 <= k < bins.len() && t == (
                    c.crate_name + "::bin/"@ + (#[trigger] bins[k]).0,
                    bins[k].0,
                    bins[k].0,
                    "bin"@,
                )
            ||| exists|k: int|
                0 <= k < tests.len() && (#[trigger] tests[k]).2 && t == (
                    c.crate_name + "::"@ + tests[k].0,
                    tests[k].0,
                    tests[k].0,
                    "test"@,
                )
        },
{
    let name = resolve::normalized(c.lib_name);
    let first = (c.crate_name, name, name + "-"@ + c.metadata, "lib"@);
    let a = seq![first];
    let f = bin_target_at(c.crate_name);
    let b = bins.map_values(f);
    let g = test_target_at(c.crate_name);
    let d = tests.filter_map(g);
    if targets_of(c, bins, tests).contains(t) {
        lists::lemma_concat_from(a + b, d, t);
        if (a + b).contains(t) {
            lists::lemma_concat_from(a, b, t);
            if b.contains(t) {
                let k = choose|k: int| 0 <= k < b.len() && b[k] == t;
                assert(t == f(bins[k]));
            }
        } else {
            lists::lemma_gathered_from(tests, g, t);
            let k = choose|k: int| 0 <= k < tests.len() && g(#[trigger] tests[k]) == Some(t);
            assert(tests[k].2);
        }
    }
    if t == first {
        assert(a[0] == t);
        lists::lemma_concat_has(a, b, t);
        lists::lemma_concat_has(a + b, d, t);
    }
    if exists|k: int|
        0 <= k < bins.len() && t == (c.crate_name + "::bin/"@ + (#[trigger] bins[k]).0, bins[k].0, bins[k].0, "bin"@) {
        let k = choose|k: int|
            0 <= k < bins.len() && t == (c.crate_name + "::bin/"@ + (#[trigger] bins[k]).0, bins[k].0, bins[k].0, "bin"@);
        assert(b[k] == t);
        lists::lemma_concat_has(a, b, t);
        lists::lemma_concat_has(a + b, d, t);
    }
    if exists|k: int|
        0 <= k < tests.len() && (#[trigger] tests[k]).2 && t == (
            c.crate_name + "::"@ + tests[k].0,
            tests[k].0,
            tests[k].0,
            "test"@,
        ) {
        let k = choose|k: int|
            0 <= k < tests.len() && (#[trigger] tests[k]).2 && t == (
                c.crate_name + "::"@ + tests[k].0,
                tests[k].0,
                tests[k].0,
                "test"@,
            );
        assert(g(tests[k]) == Some(t));
        lists::lemma_filter_map_has(tests, g, k, t);
        lists::lemma_concat_has(a + b, d, t);
    }
}

/// A target whose file is there is found under its identity, and one whose file is not there under none,
/// unless another target has that identity.
pub proof fn lemma_target_listed(
    c: ConfigView,
    dir: Seq<char>,
    bins: Seq<(Seq<char>, Seq<char>)>,
    tests: Seq<(Seq<char>, Seq<char>, bool)>,
    present: Seq<Seq<char>>,
    t: TargetView,
)
    requires
        targets_of(c, bins, tests).contains(t),
        forall|u: TargetView| #[trigger] targets_of(c, bins, tests).contains(u) && u.0 == t.0 ==> u == t,
    ensures
        match sorted::entry_of(binaries_of(c, dir, bins, tests, present).rust_binaries, t.0) {
            Some(b) => present.contains(t.2) && b.binary_id == t.0 && b.binary_name == t.1 && b.kind == t.3 && b.binary_path
                == dir + "/"@ + t.2 && b.build_platform == "target"@,
            None => !present.contains(t.2),
        },
{
    let s = targets_of(c, bins, tests);
    let f = entry_at(c, dir, present);
    let g = s.filter_map(f);
    sorted::lemma_map_of_reads(g, t.0);
    lists::lemma_last_with(g, sorted::has_key(t.0));
    lemma_entry_present(s, c, dir, present, t.0);
    match lists::last_with(g, sorted::has_key(t.0)) {
        Some(x) => {
            let k = choose|k: int| 0 <= k < s.len() && #[trigger] entry_for(s[k], c, dir, present) == Some(x);
            assert(s.contains(s[k]));
        },
        None => {
            if present.contains(t.2) {
                let k = choose|k: int| 0 <= k < s.len() && s[k] == t;
                let e = entry_for(t, c, dir, present)->0;
                lists::lemma_filter_map_has(s, f, k, e);
                let i = choose|i: int| 0 <= i < g.len() && g[i] == e;
                assert(!sorted::has_key(t.0)(g[i]));
            }
        },
    }
}

/// The package's identity, as the list of packages has it: by the member's directory below the workspace,
/// which is the workspace's own for the root and for a crate that is no member, and by name and version.
pub proof fn lemma_package_id(c: ConfigView)
    ensures
        c.workspace_member is None || c.workspace_member == Some("."@) ==> package_id(c)
            == "path+file:///cargo-nix-plugin-metadata/ws#"@ + c.crate_name + "@"@ + c.crate_version,
        c.workspace_member matches Some(m) ==> m != "."@ ==> package_id(c) == "path+file:///cargo-nix-plugin-metadata/ws/"@
            + m + "#"@ + c.crate_name + "@"@ + c.crate_version,
{
    reveal_strlit("path+file:///cargo-nix-plugin-metadata/ws#");
    reveal_strlit("path+file:///cargo-nix-plugin-metadata/ws/");
    reveal_strlit("/cargo-nix-plugin-metadata/ws");
    reveal_strlit("/cargo-nix-plugin-metadata/ws/");
    reveal_strlit("path+file://");
    reveal_strlit("#");
    assert("path+file://"@ + "/cargo-nix-plugin-metadata/ws"@ + "#"@ =~= "path+file:///cargo-nix-plugin-metadata/ws#"@);
    assert("path+file://"@ + "/cargo-nix-plugin-metadata/ws/"@ =~= "path+file:///cargo-nix-plugin-metadata/ws/"@);
    if let Some(m) = c.workspace_member {
        if m != "."@ {
            assert(package_id(c) =~= "path+file:///cargo-nix-plugin-metadata/ws/"@ + m + "#"@ + c.crate_name + "@"@
                + c.crate_version);
        }
    }
}

/// How the programs were built: for the platform of the crate alone, in no directory that is there, and with
/// nothing that the runner could build from.
pub proof fn lemma_build_meta(
    c: ConfigView,
    dir: Seq<char>,
    bins: Seq<(Seq<char>, Seq<char>)>,
    tests: Seq<(Seq<char>, Seq<char>, bool)>,
    present: Seq<Seq<char>>,
)
    ensures
        ({
            let m = binaries_of(c, dir, bins, tests, present).rust_build_meta;
            &&& m.target_directory == "/nonexistent"@
            &&& m.base_output_directories.len() == 1 && m.base_output_directories[0] == "debug"@
            &&& m.non_test_binaries.len() == 0 && m.build_script_out_dirs.len() == 0 && m.linked_paths.len() == 0
            &&& m.host_platform.triple == c.host_platform.rustc_target_spec && m.host_platform.target_features == "unknown"@
            &&& m.host_libdir_status == "unavailable"@ && m.host_libdir_reason == "not-requested"@
            &&& m.targets.len() == 0
            &&& m.target_platforms.len() == 1 && m.target_platforms[0].triple == c.host_platform.rustc_target_spec
                && m.target_platforms[0].target_features == "unknown"@
            &&& m.target_platform is None
        }),
{
}

} // verus!
