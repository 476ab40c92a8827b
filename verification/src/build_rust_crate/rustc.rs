//! The arguments of rustc.

use crate::build_rust_crate::build_script;
use crate::build_rust_crate::build_script::{BuildScriptOutputs, OutputsView};
use crate::build_rust_crate::config;
use crate::build_rust_crate::config::{BuildConfig, ConfigView, CrateMetadata, CrateMetadataView, DepExtern, DepExternView};
use crate::disk;
use crate::lists;
use crate::sorted;
use crate::sorted::StrMap;
use crate::text;
use vstd::prelude::*;

verus! {

// ---------------------------------------------------------------------------
// Artifacts of dependencies
// ---------------------------------------------------------------------------

/// A library of the crate with this hash, for Rust to link.
pub open spec fn is_rlib_of(metadata: Seq<char>) -> spec_fn(Seq<char>) -> bool {
    |name: Seq<char>| text::has_suffix(name, "-"@ + metadata + ".rlib"@)
}

/// A shared library of the crate with this hash.
pub open spec fn is_dylib_of(metadata: Seq<char>) -> spec_fn(Seq<char>) -> bool {
    |name: Seq<char>|
        text::has_suffix(name, "-"@ + metadata + ".so"@) || text::has_suffix(name, "-"@ + metadata + ".dylib"@)
}

/// The artifact with this hash: the first `.rlib`, else the last shared library.
pub open spec fn artifact_named(names: Seq<Seq<char>>, metadata: Seq<char>) -> Option<Seq<char>> {
    match lists::first_with(names, is_rlib_of(metadata)) {
        Some(n) => Some(n),
        None => lists::last_with(names, is_dylib_of(metadata)),
    }
}

/// Finds an artifact by its hash among the files `names` of the directory `dir`. An `.rlib` is
/// preferred; proc macros and the like have only a shared library, whose suffix goes by the platform
/// that it was built on.
pub fn find_by_metadata(dir: &str, names: &Vec<String>, metadata: &str) -> (r: Option<String>)
    ensures
        r.deep_view() == match artifact_named(names.deep_view(), metadata@) {
            Some(n) => Some(disk::joined_path(dir@, n)),
            None => None,
        },
{
    let ghost s = names.deep_view();
    let ghost p = is_rlib_of(metadata@);
    let ghost q = is_dylib_of(metadata@);
    let rlib = text::cat3("-", metadata, ".rlib");
    let so = text::cat3("-", metadata, ".so");
    let dylib = text::cat3("-", metadata, ".dylib");
    let mut found: Option<usize> = None;
    for i in 0..names.len()
        invariant
            s == names.deep_view(),
            p == is_rlib_of(metadata@),
            q == is_dylib_of(metadata@),
            rlib@ == "-"@ + metadata@ + ".rlib"@,
            so@ == "-"@ + metadata@ + ".so"@,
            dylib@ == "-"@ + metadata@ + ".dylib"@,
            forall|j: int| 0 <= j < i ==> !p(#[trigger] s[j]),
            match found {
                Some(k) => k < i && q(s[k as int]) && forall|j: int| k < j < i ==> !q(#[trigger] s[j]),
                None => forall|j: int| 0 <= j < i ==> !q(#[trigger] s[j]),
            },
    {
        assert(s[i as int] == names@[i as int]@);
        if text::ends_with(&names[i], &rlib) {
            proof {
                lists::lemma_first_with_is(s, p, i as int);
            }
            return Some(disk::join_path(dir, &names[i]));
        }
        if text::ends_with(&names[i], &so) || text::ends_with(&names[i], &dylib) {
            found = Some(i);
        }
    }
    proof {
        lists::lemma_first_with_is(s, p, s.len() as int);
    }
    match found {
        Some(k) => {
            proof {
                lists::lemma_last_with_is(s, q, k as int);
            }
            Some(disk::join_path(dir, &names[k]))
        },
        None => {
            proof {
                lists::lemma_last_with_is(s, q, -1);
            }
            None
        },
    }
}

pub open spec fn is_rlib() -> spec_fn(Seq<char>) -> bool {
    |name: Seq<char>| text::has_suffix(name, ".rlib"@)
}

/// The artifact of a dependency to link against: an `.rlib` if there is one, else the first.
pub open spec fn linked_artifact(artifacts: Seq<Seq<char>>) -> Option<Seq<char>> {
    match lists::first_with(artifacts, is_rlib()) {
        Some(a) => Some(a),
        None => if artifacts.len() > 0 {
            Some(artifacts[0])
        } else {
            None
        },
    }
}

fn pick_artifact(artifacts: &Vec<String>) -> (r: Option<&String>)
    ensures
        r.deep_view() == linked_artifact(artifacts.deep_view()),
{
    let ghost s = artifacts.deep_view();
    for i in 0..artifacts.len()
        invariant
            s == artifacts.deep_view(),
            forall|j: int| 0 <= j < i ==> !is_rlib()(#[trigger] s[j]),
    {
        assert(s[i as int] == artifacts@[i as int]@);
        if text::ends_with(&artifacts[i], ".rlib") {
            proof {
                lists::lemma_first_with_is(s, is_rlib(), i as int);
            }
            return Some(&artifacts[i]);
        }
    }
    proof {
        lists::lemma_first_with_is(s, is_rlib(), s.len() as int);
    }
    if artifacts.len() > 0 {
        assert(s[0] == artifacts@[0]@);
        Some(&artifacts[0])
    } else {
        None
    }
}

/// The arguments for one dependency: its alias if it is renamed, else the name of its library, and
/// its artifact. Without an artifact there is nothing to link.
pub open spec fn extern_args_of(
    dep: (DepExternView, CrateMetadataView),
    dir: Seq<char>,
) -> Seq<Seq<char>> {
    match linked_artifact(dep.1.artifacts) {
        Some(art) => {
            let name = if dep.0.is_rename {
                dep.0.extern_name
            } else {
                dep.1.lib_name
            };
            let prefix = if dep.0.stdlib {
                "noprelude:"@
            } else {
                ""@
            };
            seq!["--extern"@, prefix + name + "="@ + dir + "/"@ + art]
        },
        None => Seq::empty(),
    }
}

pub open spec fn extern_args_at(dir: Seq<char>) -> spec_fn((DepExternView, CrateMetadataView)) -> Seq<Seq<char>> {
    |dep: (DepExternView, CrateMetadataView)| extern_args_of(dep, dir)
}

/// The option without which `noprelude:` is not accepted.
pub open spec fn unstable_args(deps: Seq<DepExternView>) -> Seq<Seq<char>> {
    if exists|i: int| 0 <= i < deps.len() && (#[trigger] deps[i]).stdlib {
        seq!["-Z"@, "unstable-options"@]
    } else {
        Seq::empty()
    }
}

/// The `--extern` arguments for dependencies whose artifacts stand in `dir`.
pub open spec fn extern_args(
    deps: Seq<DepExternView>,
    metas: Seq<CrateMetadataView>,
    dir: Seq<char>,
) -> Seq<Seq<char>> {
    unstable_args(deps) + lists::flat(deps.zip_with(metas), extern_args_at(dir))
}

fn push_extern(out: &mut Vec<String>, dep: &DepExtern, m: &CrateMetadata, dir: &str)
    ensures
        final(out).deep_view() == old(out).deep_view() + extern_args_of((dep.deep_view(), m.deep_view()), dir@),
{
    let ghost o = out.deep_view();
    match pick_artifact(&m.artifacts) {
        Some(art) => {
            let name = if dep.is_rename {
                dep.extern_name.as_str()
            } else {
                m.lib_name.as_str()
            };
            let prefix = if dep.stdlib {
                "noprelude:"
            } else {
                ""
            };
            let head = text::cat3(prefix, name, "=");
            let value = text::cat4(&head, dir, "/", art);
            sorted::push_two(out, "--extern", &value);
            assert(out.deep_view() =~= o + extern_args_of((dep.deep_view(), m.deep_view()), dir@));
        },
        None => {
            assert(out.deep_view() =~= o + Seq::empty());
        },
    }
}

/// The `--extern` arguments for dependencies whose artifacts stand in `dir`. `metas` holds, for each
/// dependency, what it says of itself where it is installed: the true name of its library and its
/// artifacts.
pub fn dep_extern_args(deps: &Vec<DepExtern>, metas: &Vec<CrateMetadata>, dir: &str) -> (r: Vec<String>)
    requires
        deps.len() == metas.len(),
    ensures
        r.deep_view() == extern_args(deps.deep_view(), metas.deep_view(), dir@),
{
    let ghost s = deps.deep_view();
    let ghost z = s.zip_with(metas.deep_view());
    let ghost f = extern_args_at(dir@);
    let mut out: Vec<String> = Vec::new();
    let mut any = false;
    for i in 0..deps.len()
        invariant
            s == deps.deep_view(),
            any == exists|j: int| 0 <= j < i && (#[trigger] s[j]).stdlib,
    {
        assert(s[i as int] == deps@[i as int].deep_view());
        if deps[i].stdlib {
            any = true;
        }
    }
    if any {
        sorted::push_two(&mut out, "-Z", "unstable-options");
    }
    let ghost head = out.deep_view();
    assert(head =~= unstable_args(s));
    assert(out.deep_view() =~= head + lists::flat(z.take(0), f));
    for i in 0..deps.len()
        invariant
            s == deps.deep_view(),
            deps.len() == metas.len(),
            z == s.zip_with(metas.deep_view()),
            f == extern_args_at(dir@),
            out.deep_view() == head + lists::flat(z.take(i as int), f),
    {
        let ghost o = out.deep_view();
        assert(z.take(i + 1).drop_last() =~= z.take(i as int));
        assert(z.take(i + 1).last() == (deps@[i as int].deep_view(), metas@[i as int].deep_view()));
        push_extern(&mut out, &deps[i], &metas[i], dir);
        assert(out.deep_view() =~= head + lists::flat(z.take(i + 1), f));
    }
    assert(z.take(z.len() as int) =~= z);
    out
}

// ---------------------------------------------------------------------------
// Flags
// ---------------------------------------------------------------------------

/// The linker, where there is one.
pub open spec fn linker_args(linker: Option<Seq<char>>) -> Seq<Seq<char>> {
    match linker {
        Some(l) => if l.len() > 0 {
            seq!["-C"@, "linker="@ + l]
        } else {
            Seq::empty()
        },
        None => Seq::empty(),
    }
}

/// The directories that do not show in what is built.
pub open spec fn remap_args(c: ConfigView, build_top: Option<Seq<char>>) -> Seq<Seq<char>> {
    (match build_top {
        Some(top) => seq!["--remap-path-prefix="@ + top + "=/"@],
        None => Seq::empty(),
    }) + (if c.rustc_path.len() > 0 {
        seq!["--remap-path-prefix="@ + c.rustc_path + "=/rustc"@]
    } else {
        Seq::empty()
    })
}

pub open spec fn target_args(c: ConfigView) -> Seq<Seq<char>> {
    if config::crosses(c) {
        seq!["--target"@, c.host_platform.rustc_target_spec]
    } else {
        Seq::empty()
    }
}

/// The flags that go neither by dependencies nor by the build script.
pub open spec fn base_args(c: ConfigView, build_top: Option<Seq<char>>, extra: Option<Seq<char>>) -> Seq<Seq<char>> {
    build_script::profile_flags(c) + remap_args(c, build_top) + target_args(c) + c.extra_rustc_opts
        + build_script::opt_words(extra) + linker_args(c.host_platform.linker_path)
}

/// The flags that go neither by dependencies nor by the build script. `build_top` is the top of the
/// build directory, and `extra` holds further flags, separated by blanks, that the environment
/// asks for.
pub fn base_rustc_flags(config: &BuildConfig, build_top: &Option<String>, extra: &Option<String>) -> (r: Vec<String>)
    ensures
        r.deep_view() == base_args(config.deep_view(), build_top.deep_view(), extra.deep_view()),
{
    let mut flags: Vec<String> = Vec::new();
    assert(flags.deep_view() =~= Seq::empty());
    build_script::push_profile_flags(&mut flags, config);
    match build_top {
        Some(top) => {
            let s = text::cat3("--remap-path-prefix=", top, "=/");
            sorted::push_text(&mut flags, &s);
        },
        None => {},
    }
    if !config.rustc_path.as_str().is_empty() {
        let s = text::cat3("--remap-path-prefix=", &config.rustc_path, "=/rustc");
        sorted::push_text(&mut flags, &s);
    }
    if config.is_cross_compiling() {
        sorted::push_two(&mut flags, "--target", &config.host_platform.rustc_target_spec);
    }
    sorted::extend_texts(&mut flags, &config.extra_rustc_opts);
    match extra {
        Some(s) => {
            let words = text::split_whitespace(s);
            sorted::extend_texts(&mut flags, &words);
        },
        None => {},
    }
    match &config.host_platform.linker_path {
        Some(l) => {
            if !l.as_str().is_empty() {
                let s = text::cat2("linker=", l);
                sorted::push_two(&mut flags, "-C", &s);
            }
        },
        None => {},
    }
    assert(flags.deep_view() =~= base_args(config.deep_view(), build_top.deep_view(), extra.deep_view()));
    flags
}

/// The flags that the library, the binaries and the tests of a crate share.
#[derive(Debug, Clone)]
pub struct RustcFlags {
    pub base: Vec<String>,
    pub meta: Vec<String>,
    pub link: Vec<String>,
    pub bso_lib: Vec<String>,
    pub bso_bins: Vec<String>,
    pub bso_bin: StrMap<Vec<String>>,
    pub bso_tests: Vec<String>,
    pub bso_cdylib: Vec<String>,
    pub out_dir: Vec<String>,
    pub cap_lints: String,
    pub colors: String,
}

/// The view of a [`RustcFlags`].
pub struct FlagsView {
    pub base: Seq<Seq<char>>,
    pub meta: Seq<Seq<char>>,
    pub link: Seq<Seq<char>>,
    pub bso_lib: Seq<Seq<char>>,
    pub bso_bins: Seq<Seq<char>>,
    pub bso_bin: Seq<(Seq<char>, Seq<Seq<char>>)>,
    pub bso_tests: Seq<Seq<char>>,
    pub bso_cdylib: Seq<Seq<char>>,
    pub out_dir: Seq<Seq<char>>,
    pub cap_lints: Seq<char>,
    pub colors: Seq<char>,
}

impl DeepView for RustcFlags {
    type V = FlagsView;

    open spec fn deep_view(&self) -> FlagsView {
        FlagsView {
            base: self.base.deep_view(),
            meta: self.meta.deep_view(),
            link: self.link.deep_view(),
            bso_lib: self.bso_lib.deep_view(),
            bso_bins: self.bso_bins.deep_view(),
            bso_bin: self.bso_bin.deep_view(),
            bso_tests: self.bso_tests.deep_view(),
            bso_cdylib: self.bso_cdylib.deep_view(),
            out_dir: self.out_dir.deep_view(),
            cap_lints: self.cap_lints@,
            colors: self.colors@,
        }
    }
}

pub open spec fn option_at(option: Seq<char>) -> spec_fn(Seq<char>) -> Seq<Seq<char>> {
    |v: Seq<char>| seq![option, v]
}

/// Each value behind the option.
pub open spec fn options(option: Seq<char>, values: Seq<Seq<char>>) -> Seq<Seq<char>> {
    lists::flat(values, option_at(option))
}

fn push_options(out: &mut Vec<String>, option: &str, values: &Vec<String>)
    ensures
        final(out).deep_view() == old(out).deep_view() + options(option@, values.deep_view()),
{
    let ghost o = out.deep_view();
    let ghost s = values.deep_view();
    let ghost f = option_at(option@);
    assert(out.deep_view() =~= o + lists::flat(s.take(0), f));
    for i in 0..values.len()
        invariant
            s == values.deep_view(),
            f == option_at(option@),
            out.deep_view() == o + lists::flat(s.take(i as int), f),
    {
        assert(s.take(i + 1).drop_last() =~= s.take(i as int));
        assert(s.take(i + 1).last() == values@[i as int]@);
        sorted::push_two(out, option, &values[i]);
        assert(out.deep_view() =~= o + lists::flat(s.take(i + 1), f));
    }
    assert(s.take(s.len() as int) =~= s);
}

/// The flags of a crate, given its configuration, what its build script asked for, what its
/// dependencies say of themselves, and the text of its link flags.
pub open spec fn flags_of(
    c: ConfigView,
    bso: OutputsView,
    metas: Seq<CrateMetadataView>,
    build_top: Option<Seq<char>>,
    extra: Option<Seq<char>>,
    link: Option<Seq<char>>,
) -> FlagsView {
    FlagsView {
        base: base_args(c, build_top, extra) + extern_args(c.dep_externs, metas, "target/deps"@)
            + build_script::feature_flags(c.crate_features) + (if c.crate_type.contains("proc-macro"@) {
            seq!["--extern"@, "proc_macro"@]
        } else {
            Seq::empty()
        }),
        meta: seq!["-C"@, "metadata="@ + c.metadata, "-C"@, "extra-filename=-"@ + c.metadata],
        link: build_script::opt_words(link) + text::words(bso.rustc_flags) + options("--cfg"@, bso.cfgs) + options(
            "--check-cfg"@,
            bso.check_cfgs,
        ),
        bso_lib: bso.link_args + bso.link_args_lib,
        bso_bins: bso.link_args + bso.link_args_bins,
        bso_bin: bso.link_args_bin,
        bso_tests: bso.link_args + bso.link_args_tests,
        bso_cdylib: bso.cdylib_link_args,
        out_dir: if bso.build_out_dir.len() > 0 {
            seq!["-L"@, bso.build_out_dir]
        } else {
            Seq::empty()
        },
        cap_lints: c.cap_lints,
        colors: c.colors,
    }
}

fn both(a: &Vec<String>, b: &Vec<String>) -> (r: Vec<String>)
    ensures
        r.deep_view() == a.deep_view() + b.deep_view(),
{
    let mut r = sorted::copy_texts(a);
    sorted::extend_texts(&mut r, b);
    r
}

/// A call of rustc: its arguments, and the variables that are set for it.
#[derive(Debug, Clone)]
pub struct RustcCall {
    pub args: Vec<String>,
    pub envs: Vec<(String, String)>,
}

/// The view of a [`RustcCall`].
pub struct CallView {
    pub args: Seq<Seq<char>>,
    pub envs: Seq<(Seq<char>, Seq<char>)>,
}

impl DeepView for RustcCall {
    type V = CallView;

    open spec fn deep_view(&self) -> CallView {
        CallView { args: self.args.deep_view(), envs: self.envs.deep_view() }
    }
}

/// How a test is compiled: with a harness as `--test`, without one only with `test` set.
pub open spec fn test_args(test: bool, harness: bool) -> Seq<Seq<char>> {
    if test && harness {
        seq!["--test"@]
    } else if test {
        seq!["--cfg"@, "test"@]
    } else {
        Seq::empty()
    }
}

/// The call that compiles one target.
pub open spec fn call_of(
    f: FlagsView,
    crate_name: Seq<char>,
    source: Seq<char>,
    out_dir: Seq<char>,
    crate_types: Seq<Seq<char>>,
    extra: Seq<Seq<char>>,
    test: bool,
    harness: bool,
) -> CallView {
    CallView {
        args: seq![
            "--crate-name"@,
            crate_name,
            source,
            "--out-dir"@,
            out_dir,
            "-L"@,
            "dependency=target/deps"@,
            "--cap-lints"@,
            f.cap_lints,
        ] + options("--crate-type"@, crate_types) + test_args(test, harness) + f.base + f.link + f.out_dir + extra
            + seq!["--color"@, f.colors],
        envs: seq![("CARGO_CRATE_NAME"@, crate_name), ("CARGO_PRIMARY_PACKAGE"@, "1"@)],
    }
}

impl RustcFlags {
    /// Computes the flags of a crate. `metas` holds what each dependency in `config.dep_externs` says
    /// of itself, and `link` is the text of the link flags gathered so far.
    pub fn new(
        config: &BuildConfig,
        bso: &BuildScriptOutputs,
        metas: &Vec<CrateMetadata>,
        build_top: &Option<String>,
        extra: &Option<String>,
        link: &Option<String>,
    ) -> (r: Self)
        requires
            config.dep_externs.len() == metas.len(),
        ensures
            r.deep_view() == flags_of(
                config.deep_view(),
                bso.deep_view(),
                metas.deep_view(),
                build_top.deep_view(),
                extra.deep_view(),
                link.deep_view(),
            ),
    {
        let mut base = base_rustc_flags(config, build_top, extra);
        let externs = dep_extern_args(&config.dep_externs, metas, "target/deps");
        sorted::extend_texts(&mut base, &externs);
        build_script::push_feature_flags(&mut base, &config.crate_features);
        if sorted::has_text(&config.crate_type, "proc-macro") {
            sorted::push_two(&mut base, "--extern", "proc_macro");
        }
        let mut meta: Vec<String> = Vec::new();
        let hash = text::cat2("metadata=", &config.metadata);
        sorted::push_two(&mut meta, "-C", &hash);
        let file = text::cat2("extra-filename=-", &config.metadata);
        sorted::push_two(&mut meta, "-C", &file);
        let mut flags = match link {
            Some(s) => text::split_whitespace(s),
            None => Vec::new(),
        };
        assert(flags.deep_view() =~= build_script::opt_words(link.deep_view()));
        let words = text::split_whitespace(&bso.rustc_flags);
        sorted::extend_texts(&mut flags, &words);
        push_options(&mut flags, "--cfg", &bso.cfgs);
        push_options(&mut flags, "--check-cfg", &bso.check_cfgs);
        let mut out_dir: Vec<String> = Vec::new();
        if !bso.build_out_dir.as_str().is_empty() {
            sorted::push_two(&mut out_dir, "-L", &bso.build_out_dir);
        }
        let r = RustcFlags {
            base,
            meta,
            link: flags,
            bso_lib: both(&bso.link_args, &bso.link_args_lib),
            bso_bins: both(&bso.link_args, &bso.link_args_bins),
            bso_bin: sorted::copy_lists(&bso.link_args_bin),
            bso_tests: both(&bso.link_args, &bso.link_args_tests),
            bso_cdylib: sorted::copy_texts(&bso.cdylib_link_args),
            out_dir,
            cap_lints: config.cap_lints.clone(),
            colors: config.colors.clone(),
        };
        proof {
            let v = flags_of(
                config.deep_view(),
                bso.deep_view(),
                metas.deep_view(),
                build_top.deep_view(),
                extra.deep_view(),
                link.deep_view(),
            );
            assert(r.base.deep_view() =~= v.base);
            assert(r.meta.deep_view() =~= v.meta);
            assert(r.link.deep_view() =~= v.link);
            assert(r.out_dir.deep_view() =~= v.out_dir);
        }
        r
    }

    /// The call that compiles one target.
    pub fn cmd(
        &self,
        crate_name: &str,
        source: &str,
        out_dir: &str,
        crate_types: &Vec<String>,
        extra_flags: &Vec<String>,
        test: bool,
        harness: bool,
    ) -> (r: RustcCall)
        ensures
            r.deep_view() == call_of(
                self.deep_view(),
                crate_name@,
                source@,
                out_dir@,
                crate_types.deep_view(),
                extra_flags.deep_view(),
                test,
                harness,
            ),
    {
        let mut args: Vec<String> = Vec::new();
        sorted::push_two(&mut args, "--crate-name", crate_name);
        sorted::push_text(&mut args, source);
        sorted::push_two(&mut args, "--out-dir", out_dir);
        sorted::push_two(&mut args, "-L", "dependency=target/deps");
        sorted::push_two(&mut args, "--cap-lints", &self.cap_lints);
        push_options(&mut args, "--crate-type", crate_types);
        if test {
            if harness {
                sorted::push_text(&mut args, "--test");
            } else {
                sorted::push_two(&mut args, "--cfg", "test");
            }
        }
        sorted::extend_texts(&mut args, &self.base);
        sorted::extend_texts(&mut args, &self.link);
        sorted::extend_texts(&mut args, &self.out_dir);
        sorted::extend_texts(&mut args, extra_flags);
        sorted::push_two(&mut args, "--color", &self.colors);
        let mut envs: Vec<(String, String)> = Vec::new();
        envs.push(("CARGO_CRATE_NAME".to_owned(), crate_name.to_owned()));
        envs.push(("CARGO_PRIMARY_PACKAGE".to_owned(), "1".to_owned()));
        let r = RustcCall { args, envs };
        proof {
            let v = call_of(
                self.deep_view(),
                crate_name@,
                source@,
                out_dir@,
                crate_types.deep_view(),
                extra_flags.deep_view(),
                test,
                harness,
            );
            assert(r.args.deep_view() =~= v.args);
            assert(r.envs.deep_view() =~= v.envs);
        }
        r
    }
}

// ---------------------------------------------------------------------------
// What the arguments hold
// ---------------------------------------------------------------------------

/// Every value stands behind the option, and there is nothing else.
pub proof fn lemma_options(option: Seq<char>, values: Seq<Seq<char>>)
    ensures
        options(option, values).len() == 2 * values.len(),
        forall|k: int|
            0 <= k < values.len() ==> lists::has_run(options(option, values), seq![option, #[trigger] values[k]]),
{
    let f = option_at(option);
    lists::lemma_flat_len(values, f, 2);
    assert forall|k: int| 0 <= k < values.len() implies lists::has_run(
        options(option, values),
        seq![option, #[trigger] values[k]],
    ) by {
        lists::lemma_run_flat(values, f, k);
    }
}

/// What stands in one of the parts that a call is made of.
proof fn lemma_call_part(
    f: FlagsView,
    crate_name: Seq<char>,
    source: Seq<char>,
    out_dir: Seq<char>,
    crate_types: Seq<Seq<char>>,
    extra: Seq<Seq<char>>,
    test: bool,
    harness: bool,
    part: Seq<Seq<char>>,
)
    requires
        lists::has_run(call_head(f, crate_name, source, out_dir), part) || lists::has_run(
            options("--crate-type"@, crate_types),
            part,
        ) || lists::has_run(test_args(test, harness), part) || lists::has_run(f.base, part) || lists::has_run(
            f.link,
            part,
        ) || lists::has_run(f.out_dir, part) || lists::has_run(extra, part) || lists::has_run(
            seq!["--color"@, f.colors],
            part,
        ),
    ensures
        lists::has_run(call_of(f, crate_name, source, out_dir, crate_types, extra, test, harness).args, part),
{
    lists::lemma_run_among(
        call_head(f, crate_name, source, out_dir),
        options("--crate-type"@, crate_types),
        test_args(test, harness),
        f.base,
        f.link,
        f.out_dir,
        extra,
        seq!["--color"@, f.colors],
        part,
    );
}

spec fn call_head(f: FlagsView, crate_name: Seq<char>, source: Seq<char>, out_dir: Seq<char>) -> Seq<Seq<char>> {
    seq![
        "--crate-name"@,
        crate_name,
        source,
        "--out-dir"@,
        out_dir,
        "-L"@,
        "dependency=target/deps"@,
        "--cap-lints"@,
        f.cap_lints,
    ]
}

/// A call to rustc has each of its own options next to its value, and the source.
pub proof fn lemma_call_options(
    f: FlagsView,
    crate_name: Seq<char>,
    source: Seq<char>,
    out_dir: Seq<char>,
    crate_types: Seq<Seq<char>>,
    extra: Seq<Seq<char>>,
    test: bool,
    harness: bool,
)
    ensures
        ({
            let call = call_of(f, crate_name, source, out_dir, crate_types, extra, test, harness);
            let a = call.args;
            &&& lists::has_run(a, seq!["--crate-name"@, crate_name])
            &&& a.contains(source)
            &&& lists::has_run(a, seq!["--out-dir"@, out_dir])
            &&& lists::has_run(a, seq!["-L"@, "dependency=target/deps"@])
            &&& lists::has_run(a, seq!["--cap-lints"@, f.cap_lints])
            &&& lists::has_run(a, seq!["--color"@, f.colors])
        }),
{
    let call = call_of(f, crate_name, source, out_dir, crate_types, extra, test, harness);
    let a = call.args;
    let h = call_head(f, crate_name, source, out_dir);
    assert(lists::has_run(a, seq!["--crate-name"@, crate_name])) by {
        lists::lemma_run_pair(h, 0);
        lemma_call_part(f, crate_name, source, out_dir, crate_types, extra, test, harness, seq!["--crate-name"@, crate_name]);
    }
    assert(a.contains(source)) by {
        lists::lemma_run_pair(h, 2);
        lemma_call_part(f, crate_name, source, out_dir, crate_types, extra, test, harness, seq![source, "--out-dir"@]);
        lists::lemma_run_has(a, seq![source, "--out-dir"@], 0);
    }
    assert(lists::has_run(a, seq!["--out-dir"@, out_dir])) by {
        lists::lemma_run_pair(h, 3);
        lemma_call_part(f, crate_name, source, out_dir, crate_types, extra, test, harness, seq!["--out-dir"@, out_dir]);
    }
    assert(lists::has_run(a, seq!["-L"@, "dependency=target/deps"@])) by {
        lists::lemma_run_pair(h, 5);
        lemma_call_part(f, crate_name, source, out_dir, crate_types, extra, test, harness, seq!["-L"@, "dependency=target/deps"@]);
    }
    assert(lists::has_run(a, seq!["--cap-lints"@, f.cap_lints])) by {
        lists::lemma_run_pair(h, 7);
        lemma_call_part(f, crate_name, source, out_dir, crate_types, extra, test, harness, seq!["--cap-lints"@, f.cap_lints]);
    }
    assert(lists::has_run(a, seq!["--color"@, f.colors])) by {
        lists::lemma_run_self(seq!["--color"@, f.colors]);
        lemma_call_part(f, crate_name, source, out_dir, crate_types, extra, test, harness, seq!["--color"@, f.colors]);
    }
}

/// A call to rustc has the kinds of crate one by one, and says whether it compiles a test: one with a
/// harness as such, one without only with `test` set.
pub proof fn lemma_call_kinds(
    f: FlagsView,
    crate_name: Seq<char>,
    source: Seq<char>,
    out_dir: Seq<char>,
    crate_types: Seq<Seq<char>>,
    extra: Seq<Seq<char>>,
    test: bool,
    harness: bool,
)
    ensures
        ({
            let call = call_of(f, crate_name, source, out_dir, crate_types, extra, test, harness);
            let a = call.args;
            &&& forall|k: int|
                0 <= k < crate_types.len() ==> lists::has_run(a, seq!["--crate-type"@, #[trigger] crate_types[k]])
            &&& test && harness ==> a.contains("--test"@)
            &&& test && !harness ==> lists::has_run(a, seq!["--cfg"@, "test"@])
        }),
{
    let call = call_of(f, crate_name, source, out_dir, crate_types, extra, test, harness);
    let a = call.args;
    let t = test_args(test, harness);
    lemma_options("--crate-type"@, crate_types);
    assert forall|k: int| 0 <= k < crate_types.len() implies lists::has_run(
        a,
        seq!["--crate-type"@, #[trigger] crate_types[k]],
    ) by {
        lemma_call_part(f, crate_name, source, out_dir, crate_types, extra, test, harness, seq!["--crate-type"@, crate_types[k]]);
    }
    lists::lemma_run_self(t);
    lemma_call_part(f, crate_name, source, out_dir, crate_types, extra, test, harness, t);
    if test && harness {
        lists::lemma_run_has(a, t, 0);
    }
}

/// A call to rustc has the flags that all targets share and what is extra, each in one piece, and no
/// argument besides; and it tells the compiler the crate's name.
pub proof fn lemma_call_shares(
    f: FlagsView,
    crate_name: Seq<char>,
    source: Seq<char>,
    out_dir: Seq<char>,
    crate_types: Seq<Seq<char>>,
    extra: Seq<Seq<char>>,
    test: bool,
    harness: bool,
)
    ensures
        ({
            let call = call_of(f, crate_name, source, out_dir, crate_types, extra, test, harness);
            let a = call.args;
            &&& lists::has_run(a, f.base)
            &&& lists::has_run(a, f.link)
            &&& lists::has_run(a, f.out_dir)
            &&& lists::has_run(a, extra)
            &&& a.len() == 11 + 2 * crate_types.len() + (if !test {
                0nat
            } else if harness {
                1nat
            } else {
                2nat
            }) + f.base.len() + f.link.len() + f.out_dir.len() + extra.len()
            &&& call.envs.len() == 2
            &&& sorted::entry_of(call.envs, "CARGO_CRATE_NAME"@) == Some(crate_name)
            &&& sorted::entry_of(call.envs, "CARGO_PRIMARY_PACKAGE"@) == Some("1"@)
        }),
{
    let call = call_of(f, crate_name, source, out_dir, crate_types, extra, test, harness);
    let a = call.args;
    lists::lemma_run_self(f.base);
    lists::lemma_run_self(f.link);
    lists::lemma_run_self(f.out_dir);
    lists::lemma_run_self(extra);
    lemma_call_part(f, crate_name, source, out_dir, crate_types, extra, test, harness, f.base);
    lemma_call_part(f, crate_name, source, out_dir, crate_types, extra, test, harness, f.link);
    lemma_call_part(f, crate_name, source, out_dir, crate_types, extra, test, harness, f.out_dir);
    lemma_call_part(f, crate_name, source, out_dir, crate_types, extra, test, harness, extra);
    lemma_options("--crate-type"@, crate_types);
    reveal_strlit("CARGO_CRATE_NAME");
    reveal_strlit("CARGO_PRIMARY_PACKAGE");
    assert("CARGO_CRATE_NAME"@.len() != "CARGO_PRIMARY_PACKAGE"@.len());
    sorted::lemma_entry_of_is(call.envs, "CARGO_CRATE_NAME"@, 0);
    sorted::lemma_entry_of_is(call.envs, "CARGO_PRIMARY_PACKAGE"@, 1);
}

/// What is extra stands in a call as it is given, part by part.
pub proof fn lemma_call_extra(
    f: FlagsView,
    crate_name: Seq<char>,
    source: Seq<char>,
    out_dir: Seq<char>,
    crate_types: Seq<Seq<char>>,
    extra: Seq<Seq<char>>,
    test: bool,
    harness: bool,
    part: Seq<Seq<char>>,
)
    ensures
        lists::has_run(extra, part) || lists::has_run(f.base, part) || lists::has_run(f.link, part) || lists::has_run(
            f.out_dir,
            part,
        ) ==> lists::has_run(call_of(f, crate_name, source, out_dir, crate_types, extra, test, harness).args, part),
{
    if lists::has_run(extra, part) || lists::has_run(f.base, part) || lists::has_run(f.link, part) || lists::has_run(
        f.out_dir,
        part,
    ) {
        lemma_call_part(f, crate_name, source, out_dir, crate_types, extra, test, harness, part);
    }
}

/// A dependency is passed to rustc under its alias if it is renamed, else under the name of its library,
/// with the artifact that it is linked as; a part of the standard library stays out of the prelude, which
/// takes an unstable option.
pub proof fn lemma_extern(
    deps: Seq<DepExternView>,
    metas: Seq<CrateMetadataView>,
    dir: Seq<char>,
    k: int,
    art: Seq<char>,
)
    requires
        deps.len() == metas.len(),
        0 <= k < deps.len(),
        linked_artifact(metas[k].artifacts) == Some(art),
    ensures
        lists::has_run(
            extern_args(deps, metas, dir),
            seq![
                "--extern"@,
                (if deps[k].stdlib {
                    "noprelude:"@
                } else {
                    Seq::empty()
                }) + (if deps[k].is_rename {
                    deps[k].extern_name
                } else {
                    metas[k].lib_name
                }) + "="@ + dir + "/"@ + art,
            ],
        ),
        deps[k].stdlib ==> lists::has_run(extern_args(deps, metas, dir), seq!["-Z"@, "unstable-options"@]),
{
    let z = deps.zip_with(metas);
    let f = extern_args_at(dir);
    let u = unstable_args(deps);
    let all = lists::flat(z, f);
    assert(z[k] == (deps[k], metas[k]));
    lists::lemma_run_flat(z, f, k);
    let name = if deps[k].is_rename {
        deps[k].extern_name
    } else {
        metas[k].lib_name
    };
    reveal_strlit("");
    assert(""@ =~= Seq::<char>::empty());
    let part = seq![
        "--extern"@,
        (if deps[k].stdlib {
            "noprelude:"@
        } else {
            Seq::empty()
        }) + name + "="@ + dir + "/"@ + art,
    ];
    assert(f(z[k]) =~= part);
    lists::lemma_run_joined(u, all, part);
    if deps[k].stdlib {
        lists::lemma_run_whole(Seq::empty(), u, all);
        assert(Seq::empty() + u + all =~= u + all);
        assert(u == seq!["-Z"@, "unstable-options"@]);
    }
}

/// A dependency is linked as an `.rlib` where it has one, else as whatever it has first.
pub proof fn lemma_linked_artifact(artifacts: Seq<Seq<char>>)
    ensures
        match linked_artifact(artifacts) {
            Some(a) => artifacts.contains(a) && (text::has_suffix(a, ".rlib"@) || (a == artifacts[0] && forall|i: int|
                0 <= i < artifacts.len() ==> !text::has_suffix(#[trigger] artifacts[i], ".rlib"@))),
            None => artifacts.len() == 0,
        },
{
    lists::lemma_first_with(artifacts, is_rlib());
    if lists::first_with(artifacts, is_rlib()) is None {
        assert forall|i: int| 0 <= i < artifacts.len() implies !text::has_suffix(#[trigger] artifacts[i], ".rlib"@) by {
            assert(!is_rlib()(artifacts[i]));
        }
        if artifacts.len() > 0 {
            assert(artifacts.contains(artifacts[0]));
        }
    }
}

/// The library that is found by its hash ends in the hash and `.rlib`; only without any such file it is a
/// shared library that ends in the hash.
pub proof fn lemma_artifact_named(names: Seq<Seq<char>>, metadata: Seq<char>)
    ensures
        match artifact_named(names, metadata) {
            Some(n) => names.contains(n) && (text::has_suffix(n, "-"@ + metadata + ".rlib"@) || ((text::has_suffix(
                n,
                "-"@ + metadata + ".so"@,
            ) || text::has_suffix(n, "-"@ + metadata + ".dylib"@)) && forall|i: int|
                0 <= i < names.len() ==> !text::has_suffix(#[trigger] names[i], "-"@ + metadata + ".rlib"@))),
            None => forall|i: int|
                0 <= i < names.len() ==> !text::has_suffix(#[trigger] names[i], "-"@ + metadata + ".rlib"@)
                    && !text::has_suffix(names[i], "-"@ + metadata + ".so"@) && !text::has_suffix(
                    names[i],
                    "-"@ + metadata + ".dylib"@,
                ),
        },
{
    lists::lemma_first_with(names, is_rlib_of(metadata));
    lists::lemma_last_with(names, is_dylib_of(metadata));
    if lists::first_with(names, is_rlib_of(metadata)) is None {
        assert forall|i: int| 0 <= i < names.len() implies !text::has_suffix(
            #[trigger] names[i],
            "-"@ + metadata + ".rlib"@,
        ) by {
            assert(!is_rlib_of(metadata)(names[i]));
        }
        if lists::last_with(names, is_dylib_of(metadata)) is None {
            assert forall|i: int| 0 <= i < names.len() implies !text::has_suffix(
                #[trigger] names[i],
                "-"@ + metadata + ".so"@,
            ) && !text::has_suffix(names[i], "-"@ + metadata + ".dylib"@) by {
                assert(!is_dylib_of(metadata)(names[i]));
            }
        }
    }
}

/// The flags that every target gets, by the configuration: the profile, the number of units, the prefixes
/// that are taken out of paths, the target where it is not the builder's own, the options that are given,
/// and the linker where there is one; and nothing besides.
pub proof fn lemma_base_args(c: ConfigView, build_top: Option<Seq<char>>, extra: Option<Seq<char>>)
    ensures
        ({
            let a = base_args(c, build_top, extra);
            &&& c.release ==> lists::has_run(a, seq!["-C"@, "opt-level=3"@])
            &&& !c.release ==> lists::has_run(a, seq!["-C"@, "debuginfo=2"@])
            &&& lists::has_run(a, seq!["-C"@, "codegen-units="@ + text::decimal(c.codegen_units as nat)])
            &&& build_top matches Some(top) ==> a.contains("--remap-path-prefix="@ + top + "=/"@)
            &&& c.rustc_path.len() > 0 ==> a.contains("--remap-path-prefix="@ + c.rustc_path + "=/rustc"@)
            &&& c.host_platform.rustc_target_spec != c.build_platform.rustc_target_spec ==> lists::has_run(
                a,
                seq!["--target"@, c.host_platform.rustc_target_spec],
            )
            &&& lists::has_run(a, c.extra_rustc_opts)
            &&& extra matches Some(s) ==> lists::has_run(a, text::words(s))
            &&& c.host_platform.linker_path matches Some(l) ==> l.len() > 0 ==> lists::has_run(
                a,
                seq!["-C"@, "linker="@ + l],
            )
            &&& a.len() == 4 + (if build_top is Some {
                1nat
            } else {
                0nat
            }) + (if c.rustc_path.len() > 0 {
                1nat
            } else {
                0nat
            }) + (if c.host_platform.rustc_target_spec != c.build_platform.rustc_target_spec {
                2nat
            } else {
                0nat
            }) + c.extra_rustc_opts.len() + (match extra {
                Some(s) => text::words(s).len(),
                None => 0nat,
            }) + (match c.host_platform.linker_path {
                Some(l) => if l.len() > 0 {
                    2nat
                } else {
                    0nat
                },
                None => 0nat,
            })
        }),
{
    let a = base_args(c, build_top, extra);
    let p = build_script::profile_flags(c);
    let r = remap_args(c, build_top);
    let t = target_args(c);
    let o = c.extra_rustc_opts;
    let w = build_script::opt_words(extra);
    let l = linker_args(c.host_platform.linker_path);
    let e = Seq::<Seq<char>>::empty();
    assert(a =~= p + (r + t + o + w + l));
    lists::lemma_run_pair(p, 0);
    lists::lemma_run_pair(p, 2);
    lists::lemma_run_joined(p, r + t + o + w + l, seq![p[0], p[1]]);
    lists::lemma_run_joined(p, r + t + o + w + l, seq![p[2], p[3]]);
    if let Some(top) = build_top {
        assert(r[0] == "--remap-path-prefix="@ + top + "=/"@);
        assert(a[4] == r[0]);
    }
    if c.rustc_path.len() > 0 {
        let i: int = if build_top is Some {
            1
        } else {
            0
        };
        assert(r[i] == "--remap-path-prefix="@ + c.rustc_path + "=/rustc"@);
        assert(a[4 + i] == r[i]);
    }
    assert(a =~= (p + r) + t + (o + w + l));
    lists::lemma_run_whole(p + r, t, o + w + l);
    assert(a =~= (p + r + t) + o + (w + l));
    lists::lemma_run_whole(p + r + t, o, w + l);
    assert(a =~= (p + r + t + o) + w + l);
    lists::lemma_run_whole(p + r + t + o, w, l);
    assert(a =~= (p + r + t + o + w) + l + e);
    lists::lemma_run_whole(p + r + t + o + w, l, e);
}

proof fn lemma_within_base(
    c: ConfigView,
    bso: OutputsView,
    metas: Seq<CrateMetadataView>,
    build_top: Option<Seq<char>>,
    extra: Option<Seq<char>>,
    link: Option<Seq<char>>,
    part: Seq<Seq<char>>,
)
    ensures
        lists::has_run(base_args(c, build_top, extra), part) ==> lists::has_run(
            flags_of(c, bso, metas, build_top, extra, link).base,
            part,
        ),
        lists::has_run(extern_args(c.dep_externs, metas, "target/deps"@), part) ==> lists::has_run(
            flags_of(c, bso, metas, build_top, extra, link).base,
            part,
        ),
        lists::has_run(build_script::feature_flags(c.crate_features), part) ==> lists::has_run(
            flags_of(c, bso, metas, build_top, extra, link).base,
            part,
        ),
{
    let all = flags_of(c, bso, metas, build_top, extra, link).base;
    let b = base_args(c, build_top, extra);
    let x = extern_args(c.dep_externs, metas, "target/deps"@);
    let f = build_script::feature_flags(c.crate_features);
    let m = if c.crate_type.contains("proc-macro"@) {
        seq!["--extern"@, "proc_macro"@]
    } else {
        Seq::empty()
    };
    assert(all =~= b + (x + f + m));
    lists::lemma_run_joined(b, x + f + m, part);
    assert(all =~= b + x + (f + m));
    if lists::has_run(x, part) {
        lists::lemma_run_within(b, x, f + m, part);
    }
    assert(all =~= (b + x) + f + m);
    if lists::has_run(f, part) {
        lists::lemma_run_within(b + x, f, m, part);
    }
}

/// The flags of a crate: its hash, next to each other as `metadata` and at the end of file names; its
/// features; `proc_macro` where it is one; what its build script asks for; and its link arguments, each
/// kind with those for all.
pub proof fn lemma_flags(
    c: ConfigView,
    bso: OutputsView,
    metas: Seq<CrateMetadataView>,
    build_top: Option<Seq<char>>,
    extra: Option<Seq<char>>,
    link: Option<Seq<char>>,
)
    ensures
        ({
            let f = flags_of(c, bso, metas, build_top, extra, link);
            &&& lists::has_run(f.meta, seq!["-C"@, "metadata="@ + c.metadata])
            &&& lists::has_run(f.meta, seq!["-C"@, "extra-filename=-"@ + c.metadata])
            &&& f.meta.len() == 4
            &&& forall|k: int|
                0 <= k < c.crate_features.len() ==> lists::has_run(
                    f.base,
                    seq!["--cfg"@, "feature=\""@ + #[trigger] c.crate_features[k] + "\""@],
                )
            &&& c.crate_type.contains("proc-macro"@) ==> lists::has_run(f.base, seq!["--extern"@, "proc_macro"@])
            &&& f.base.len() == base_args(c, build_top, extra).len() + extern_args(
                c.dep_externs,
                metas,
                "target/deps"@,
            ).len() + 2 * c.crate_features.len() + (if c.crate_type.contains("proc-macro"@) {
                2nat
            } else {
                0nat
            })
            &&& link matches Some(s) ==> lists::has_run(f.link, text::words(s))
            &&& lists::has_run(f.link, text::words(bso.rustc_flags))
            &&& forall|k: int| 0 <= k < bso.cfgs.len() ==> lists::has_run(f.link, seq!["--cfg"@, #[trigger] bso.cfgs[k]])
            &&& forall|k: int|
                0 <= k < bso.check_cfgs.len() ==> lists::has_run(
                    f.link,
                    seq!["--check-cfg"@, #[trigger] bso.check_cfgs[k]],
                )
            &&& f.link.len() == (match link {
                Some(s) => text::words(s).len(),
                None => 0nat,
            }) + text::words(bso.rustc_flags).len() + 2 * bso.cfgs.len() + 2 * bso.check_cfgs.len()
            &&& lists::has_run(f.bso_lib, bso.link_args) && lists::has_run(f.bso_lib, bso.link_args_lib)
            &&& f.bso_lib.len() == bso.link_args.len() + bso.link_args_lib.len()
            &&& lists::has_run(f.bso_bins, bso.link_args) && lists::has_run(f.bso_bins, bso.link_args_bins)
            &&& f.bso_bins.len() == bso.link_args.len() + bso.link_args_bins.len()
            &&& lists::has_run(f.bso_tests, bso.link_args) && lists::has_run(f.bso_tests, bso.link_args_tests)
            &&& f.bso_tests.len() == bso.link_args.len() + bso.link_args_tests.len()
            &&& f.bso_bin == bso.link_args_bin
            &&& f.bso_cdylib == bso.cdylib_link_args
            &&& bso.build_out_dir.len() > 0 ==> lists::has_run(f.out_dir, seq!["-L"@, bso.build_out_dir])
            &&& f.out_dir.len() == if bso.build_out_dir.len() > 0 {
                2nat
            } else {
                0nat
            }
            &&& f.cap_lints == c.cap_lints
            &&& f.colors == c.colors
        }),
{
    let f = flags_of(c, bso, metas, build_top, extra, link);
    let e = Seq::<Seq<char>>::empty();
    lists::lemma_run_pair(f.meta, 0);
    lists::lemma_run_pair(f.meta, 2);
    let g = build_script::feature_flags_at();
    lists::lemma_flat_len(c.crate_features, g, 2);
    assert forall|k: int| 0 <= k < c.crate_features.len() implies lists::has_run(
        f.base,
        seq!["--cfg"@, "feature=\""@ + #[trigger] c.crate_features[k] + "\""@],
    ) by {
        lists::lemma_run_flat(c.crate_features, g, k);
        lemma_within_base(c, bso, metas, build_top, extra, link, g(c.crate_features[k]));
    }
    let x = base_args(c, build_top, extra) + extern_args(c.dep_externs, metas, "target/deps"@)
        + build_script::feature_flags(c.crate_features);
    if c.crate_type.contains("proc-macro"@) {
        lists::lemma_run_whole(x, seq!["--extern"@, "proc_macro"@], e);
        assert(f.base =~= x + seq!["--extern"@, "proc_macro"@] + e);
    }
    let w = build_script::opt_words(link);
    let r = text::words(bso.rustc_flags);
    let a = options("--cfg"@, bso.cfgs);
    let b = options("--check-cfg"@, bso.check_cfgs);
    lemma_options("--cfg"@, bso.cfgs);
    lemma_options("--check-cfg"@, bso.check_cfgs);
    assert(f.link =~= e + w + (r + a + b));
    lists::lemma_run_whole(e, w, r + a + b);
    assert(f.link =~= w + r + (a + b));
    lists::lemma_run_whole(w, r, a + b);
    assert forall|k: int| 0 <= k < bso.cfgs.len() implies lists::has_run(
        f.link,
        seq!["--cfg"@, #[trigger] bso.cfgs[k]],
    ) by {
        assert(f.link =~= (w + r) + a + b);
        lists::lemma_run_within(w + r, a, b, seq!["--cfg"@, bso.cfgs[k]]);
    }
    assert forall|k: int| 0 <= k < bso.check_cfgs.len() implies lists::has_run(
        f.link,
        seq!["--check-cfg"@, #[trigger] bso.check_cfgs[k]],
    ) by {
        lists::lemma_run_joined(w + r + a, b, seq!["--check-cfg"@, bso.check_cfgs[k]]);
    }
    lists::lemma_run_whole(e, bso.link_args, bso.link_args_lib);
    assert(f.bso_lib =~= e + bso.link_args + bso.link_args_lib);
    lists::lemma_run_whole(bso.link_args, bso.link_args_lib, e);
    assert(f.bso_lib =~= bso.link_args + bso.link_args_lib + e);
    lists::lemma_run_whole(e, bso.link_args, bso.link_args_bins);
    assert(f.bso_bins =~= e + bso.link_args + bso.link_args_bins);
    lists::lemma_run_whole(bso.link_args, bso.link_args_bins, e);
    assert(f.bso_bins =~= bso.link_args + bso.link_args_bins + e);
    lists::lemma_run_whole(e, bso.link_args, bso.link_args_tests);
    assert(f.bso_tests =~= e + bso.link_args + bso.link_args_tests);
    lists::lemma_run_whole(bso.link_args, bso.link_args_tests, e);
    assert(f.bso_tests =~= bso.link_args + bso.link_args_tests + e);
    if bso.build_out_dir.len() > 0 {
        lists::lemma_run_pair(f.out_dir, 0);
    }
}

/// What all targets share, and the arguments for dependencies, stand among the flags of a crate.
pub proof fn lemma_flags_have(
    c: ConfigView,
    bso: OutputsView,
    metas: Seq<CrateMetadataView>,
    build_top: Option<Seq<char>>,
    extra: Option<Seq<char>>,
    link: Option<Seq<char>>,
)
    ensures
        lists::has_run(
            flags_of(c, bso, metas, build_top, extra, link).base,
            base_args(c, build_top, extra),
        ),
        lists::has_run(
            flags_of(c, bso, metas, build_top, extra, link).base,
            extern_args(c.dep_externs, metas, "target/deps"@),
        ),
{
    let e = Seq::<Seq<char>>::empty();
    let b = base_args(c, build_top, extra);
    let x = extern_args(c.dep_externs, metas, "target/deps"@);
    lists::lemma_run_whole(e, b, e);
    assert(e + b + e =~= b);
    lists::lemma_run_whole(e, x, e);
    assert(e + x + e =~= x);
    lemma_within_base(c, bso, metas, build_top, extra, link, b);
    lemma_within_base(c, bso, metas, build_top, extra, link, x);
}

} // verus!
