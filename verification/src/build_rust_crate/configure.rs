//! The configure phase: finding the crate, learning what its manifest says, and the environment of
//! its build script.

use crate::build_rust_crate::config::{BuildConfig, ConfigView, CrateBin, CrateBinView};
use crate::disk;
use crate::disk::{Disk, DiskView};
use crate::lists;
use crate::paths;
use crate::resolve;
use crate::sorted;
use crate::sorted::StrMap;
use crate::text;
use crate::toml_tree;
use crate::toml_tree::{Toml, Tree};
use vstd::prelude::*;

verus! {

// ---------------------------------------------------------------------------
// The crate's directory
// ---------------------------------------------------------------------------

/// How to get into the directory of the crate.
#[derive(Debug, Clone, PartialEq, Eq)]
pub enum RootStep {
    /// It is the current one.
    Stay,
    /// Go there.
    Enter(String),
    /// Search for the manifest of the crate.
    Search,
}

/// Decides how to get into the directory of the crate: a workspace member is named, `.` or nothing
/// is the current directory, and without a word the manifest has to be searched for.
pub fn root_step(config: &BuildConfig) -> (r: RootStep)
    ensures
        match config.workspace_member.deep_view() {
            Some(m) => if m != "."@ && m.len() > 0 {
                r matches RootStep::Enter(d) && d@ == m
            } else {
                r is Stay
            },
            None => r is Search,
        },
{
    match &config.workspace_member {
        Some(m) => {
            if !text::same(m, ".") && !m.as_str().is_empty() {
                RootStep::Enter(m.clone())
            } else {
                RootStep::Stay
            }
        },
        None => RootStep::Search,
    }
}

/// The name that the nearest workspace above a manifest gives to its packages.
pub open spec fn workspace_name_above(dir: Seq<char>, d: DiskView) -> Option<Seq<char>>
    decreases dir.len(),
    when true via workspace_name_decreases
{
    match paths::parent_of(dir) {
        None => None,
        Some(up) => {
            let path = disk::joined_path(up, "Cargo.toml"@);
            if disk::file_exists(d, path) {
                match disk::file_read(d, path) {
                    Ok(s) => match toml_tree::toml_parsed(s) {
                        Ok(doc) => toml_tree::text_in(
                            toml_tree::opt_field(
                                toml_tree::opt_field(toml_tree::field(doc, "workspace"@), "package"@),
                                "name"@,
                            ),
                        ),
                        Err(_) => None,
                    },
                    Err(_) => None,
                }
            } else {
                workspace_name_above(up, d)
            }
        },
    }
}

#[via_fn]
proof fn workspace_name_decreases(dir: Seq<char>, d: DiskView) {
    paths::lemma_parent_shorter(dir);
}

/// Finds the name that the workspace above the directory of a manifest gives.
fn find_workspace_name(start: &str, disk: &Disk) -> (r: Option<String>)
    ensures
        r.deep_view() == workspace_name_above(start@, disk.deep_view()),
{
    let ghost d = disk.deep_view();
    let mut dir = start.to_owned();
    loop
        invariant
            d == disk.deep_view(),
            workspace_name_above(start@, d) == workspace_name_above(dir@, d),
        decreases dir@.len(),
    {
        proof {
            paths::lemma_parent_shorter(dir@);
        }
        let up = match paths::parent(&dir) {
            Some(up) => up,
            None => {
                return None;
            },
        };
        let path = disk::join_path(&up, "Cargo.toml");
        if disk.has(&path) {
            return match disk.read(&path) {
                Ok(s) => match toml_tree::parse(&s) {
                    Ok(doc) => toml_tree::string_in(
                        toml_tree::get_in(toml_tree::get_in(doc.get("workspace"), "package"), "name"),
                    ),
                    Err(_) => None,
                },
                Err(_) => None,
            };
        }
        dir = up;
    }
}

/// Whether the manifest at `path` is that of the crate: by its own name, or by one that it inherits.
pub open spec fn is_manifest_of(path: Seq<char>, crate_name: Seq<char>, d: DiskView) -> bool {
    disk::file_name(path) == "Cargo.toml"@ && match disk::file_read(d, path) {
        Ok(s) => match toml_tree::toml_parsed(s) {
            Ok(doc) => match toml_tree::opt_field(toml_tree::field(doc, "package"@), "name"@) {
                Some(Toml::Text(n)) => n == crate_name,
                Some(Toml::Table(_)) => workspace_name_above(paths::dir_of(path), d) == Some(crate_name),
                _ => false,
            },
            Err(_) => false,
        },
        Err(_) => false,
    }
}

pub open spec fn manifest_matcher(crate_name: Seq<char>, d: DiskView) -> spec_fn(Seq<char>) -> bool {
    |path: Seq<char>| is_manifest_of(path, crate_name, d)
}

fn manifest_matches(path: &str, crate_name: &str, disk: &Disk) -> (r: bool)
    ensures
        r == is_manifest_of(path@, crate_name@, disk.deep_view()),
{
    if !text::same(disk::name_of_file(path), "Cargo.toml") {
        return false;
    }
    let content = match disk.read(path) {
        Ok(s) => s,
        Err(_) => {
            return false;
        },
    };
    let doc = match toml_tree::parse(&content) {
        Ok(t) => t,
        Err(_) => {
            return false;
        },
    };
    match toml_tree::get_in(doc.get("package"), "name") {
        Some(Tree::Text(n)) => text::same(n, crate_name),
        Some(Tree::Table(_)) => match find_workspace_name(&paths::parent_dir(path), disk) {
            Some(n) => text::same(&n, crate_name),
            None => false,
        },
        _ => false,
    }
}

/// Finds the directory of a crate among the files of a source tree: that of the first manifest that
/// is the crate's.
pub fn find_matching_cargo_toml(crate_name: &str, files: &Vec<String>, disk: &Disk) -> (r: Result<String, String>)
    ensures
        match lists::first_with(files.deep_view(), manifest_matcher(crate_name@, disk.deep_view())) {
            Some(path) => r matches Ok(dir) && dir@ == paths::dir_of(path),
            None => r matches Err(e) && e@ == "No matching Cargo.toml found for "@ + crate_name@,
        },
{
    let ghost s = files.deep_view();
    let ghost p = manifest_matcher(crate_name@, disk.deep_view());
    for i in 0..files.len()
        invariant
            s == files.deep_view(),
            p == manifest_matcher(crate_name@, disk.deep_view()),
            forall|j: int| 0 <= j < i ==> !p(#[trigger] s[j]),
    {
        assert(s[i as int] == files@[i as int]@);
        if manifest_matches(&files[i], crate_name, disk) {
            proof {
                lists::lemma_first_with_is(s, p, i as int);
            }
            return Ok(paths::parent_dir(&files[i]));
        }
    }
    proof {
        lists::lemma_first_with_is(s, p, s.len() as int);
    }
    Err(text::cat2("No matching Cargo.toml found for ", crate_name))
}

// ---------------------------------------------------------------------------
// What the manifest says
// ---------------------------------------------------------------------------

/// Whether options for rustc name an edition.
pub open spec fn names_edition(opts: Seq<Seq<char>>) -> bool {
    exists|i: int|
        0 <= i < opts.len() && (#[trigger] opts[i] == "--edition"@ || text::has_prefix(opts[i], "--edition="@))
}

/// The options with an edition, unless they name one.
pub open spec fn with_edition(opts: Seq<Seq<char>>, edition: Option<Seq<char>>) -> Seq<Seq<char>> {
    match edition {
        Some(e) => if names_edition(opts) {
            opts
        } else {
            opts.push("--edition"@).push(e)
        },
        None => opts,
    }
}

/// The edition of a manifest, as a text or as a number.
pub open spec fn edition_in(pkg: Option<Toml>) -> Option<Seq<char>> {
    match toml_tree::opt_field(pkg, "edition"@) {
        Some(Toml::Text(s)) => Some(s),
        Some(Toml::Integer(n)) => Some(text::signed_decimal(n as int)),
        _ => None,
    }
}

/// What is set, or else what the manifest says.
pub open spec fn filled(value: Seq<char>, table: Option<Toml>, key: Seq<char>) -> Seq<char> {
    if value.len() == 0 {
        match toml_tree::text_in(toml_tree::opt_field(table, key)) {
            Some(s) => s,
            None => value,
        }
    } else {
        value
    }
}

/// The build script: `false` where the manifest wants none, its path where there is such a file.
pub open spec fn detected_build(build: Seq<char>, pkg: Option<Toml>, d: DiskView) -> Seq<char> {
    if build.len() > 0 {
        build
    } else {
        match toml_tree::opt_field(pkg, "build"@) {
            Some(Toml::Boolean(b)) => if !b {
                "false"@
            } else {
                build
            },
            Some(Toml::Text(p)) => if disk::file_exists(d, p) {
                p
            } else {
                build
            },
            _ => build,
        }
    }
}

/// The name of the library: a name that is only the crate's counts as not set.
pub open spec fn detected_lib_name(lib_name: Seq<char>, crate_name: Seq<char>, lib: Option<Toml>) -> Seq<char> {
    if lib_name.len() == 0 || lib_name == crate_name {
        match toml_tree::text_in(toml_tree::opt_field(lib, "name"@)) {
            Some(s) => s,
            None => resolve::normalized(crate_name),
        }
    } else {
        lib_name
    }
}

/// The crate types: only the default is ever replaced, and what a manifest declares is made
/// linkable.
pub open spec fn detected_types(types: Seq<Seq<char>>, lib: Option<Toml>) -> Seq<Seq<char>> {
    if types != seq!["lib"@] {
        types
    } else if toml_tree::bool_in(toml_tree::either_field(lib, "proc-macro"@, "proc_macro"@)) == Some(true) {
        seq!["proc-macro"@]
    } else {
        match toml_tree::either_field(lib, "crate-type"@, "crate_type"@) {
            Some(Toml::Array(a)) => {
                let ts = toml_tree::texts_in(Some(Toml::Array(a)));
                if ts.contains("lib"@) || ts.contains("rlib"@) || ts.contains("proc-macro"@) {
                    ts
                } else {
                    ts.push("rlib"@)
                }
            },
            _ => types,
        }
    }
}

pub open spec fn crate_bin_at() -> spec_fn(Toml) -> CrateBinView {
    |b: Toml|
        CrateBinView {
            name: toml_tree::text_in(toml_tree::field(b, "name"@)),
            path: toml_tree::text_in(toml_tree::field(b, "path"@)),
            required_features: toml_tree::texts_in(toml_tree::field(b, "required-features"@)),
        }
}

/// The binaries that a manifest declares.
pub open spec fn bins_in(doc: Toml) -> Seq<CrateBinView> {
    toml_tree::items_in(toml_tree::field(doc, "bin"@)).map_values(crate_bin_at())
}

/// The configuration with what the manifest `doc` adds to it. What is set stays.
pub open spec fn detected_in(c: ConfigView, doc: Toml, d: DiskView) -> ConfigView {
    let pkg = toml_tree::field(doc, "package"@);
    let lib = toml_tree::field(doc, "lib"@);
    let find_bins = !c.has_crate_bin && c.crate_bin.len() == 0;
    ConfigView {
        extra_rustc_opts: with_edition(c.extra_rustc_opts, edition_in(pkg)),
        extra_rustc_opts_for_build_rs: with_edition(c.extra_rustc_opts_for_build_rs, edition_in(pkg)),
        crate_description: filled(c.crate_description, pkg, "description"@),
        crate_homepage: filled(c.crate_homepage, pkg, "homepage"@),
        crate_license: filled(c.crate_license, pkg, "license"@),
        crate_license_file: filled(c.crate_license_file, pkg, "license-file"@),
        crate_readme: filled(c.crate_readme, pkg, "readme"@),
        crate_repository: filled(c.crate_repository, pkg, "repository"@),
        crate_rust_version: filled(c.crate_rust_version, pkg, "rust-version"@),
        crate_authors: if c.crate_authors.len() == 0 {
            toml_tree::texts_in(toml_tree::opt_field(pkg, "authors"@))
        } else {
            c.crate_authors
        },
        build: detected_build(c.build, pkg, d),
        crate_links: filled(c.crate_links, pkg, "links"@),
        lib_path: filled(c.lib_path, lib, "path"@),
        lib_name: detected_lib_name(c.lib_name, c.crate_name, lib),
        crate_type: detected_types(c.crate_type, lib),
        crate_bin: if find_bins {
            bins_in(doc)
        } else {
            c.crate_bin
        },
        has_crate_bin: c.has_crate_bin || (find_bins && bins_in(doc).len() > 0),
        ..c
    }
}

/// The configuration with what the manifest in the current directory adds to it, if there is one
/// that can be read.
pub open spec fn detected(c: ConfigView, d: DiskView) -> ConfigView {
    if !disk::file_exists(d, "Cargo.toml"@) {
        c
    } else {
        match disk::file_read(d, "Cargo.toml"@) {
            Ok(s) => match toml_tree::toml_parsed(s) {
                Ok(doc) => detected_in(c, doc, d),
                Err(_) => c,
            },
            Err(_) => c,
        }
    }
}

fn has_edition(opts: &Vec<String>) -> (r: bool)
    ensures
        r == names_edition(opts.deep_view()),
{
    let ghost s = opts.deep_view();
    for i in 0..opts.len()
        invariant
            s == opts.deep_view(),
            forall|j: int|
                0 <= j < i ==> !(#[trigger] s[j] == "--edition"@ || text::has_prefix(s[j], "--edition="@)),
    {
        assert(s[i as int] == opts@[i as int]@);
        if text::same(&opts[i], "--edition") || text::starts_with(&opts[i], "--edition=") {
            return true;
        }
    }
    false
}

fn add_edition(opts: &mut Vec<String>, edition: &Option<String>)
    ensures
        final(opts).deep_view() == with_edition(old(opts).deep_view(), edition.deep_view()),
{
    if let Some(e) = edition {
        if !has_edition(opts) {
            let ghost o = opts.deep_view();
            opts.push("--edition".to_owned());
            assert(opts.deep_view() =~= o.push("--edition"@));
            opts.push(e.clone());
            assert(opts.deep_view() =~= o.push("--edition"@).push(e@));
        }
    }
}

fn read_edition(pkg: Option<&Tree>) -> (r: Option<String>)
    ensures
        r.deep_view() == edition_in(pkg.deep_view()),
{
    match toml_tree::get_in(pkg, "edition") {
        Some(Tree::Text(s)) => Some(s.clone()),
        Some(Tree::Integer(n)) => Some(text::signed_text(*n)),
        _ => None,
    }
}

fn fill(value: &mut String, table: Option<&Tree>, key: &str)
    ensures
        final(value)@ == filled(old(value)@, table.deep_view(), key@),
{
    if value.as_str().is_empty() {
        if let Some(s) = toml_tree::string_in(toml_tree::get_in(table, key)) {
            *value = s;
        }
    }
}

fn detect_build(build: &mut String, pkg: Option<&Tree>, disk: &Disk)
    ensures
        final(build)@ == detected_build(old(build)@, pkg.deep_view(), disk.deep_view()),
{
    if build.as_str().is_empty() {
        match toml_tree::get_in(pkg, "build") {
            Some(Tree::Boolean(false)) => {
                *build = "false".to_owned();
            },
            Some(Tree::Text(p)) => {
                if disk.has(p) {
                    *build = p.clone();
                }
            },
            _ => {},
        }
    }
}

fn detect_types(types: &mut Vec<String>, lib: Option<&Tree>)
    ensures
        final(types).deep_view() == detected_types(old(types).deep_view(), lib.deep_view()),
{
    let ghost before = types.deep_view();
    let is_default = types.len() == 1 && text::same(&types[0], "lib");
    proof {
        if is_default {
            assert(before =~= seq!["lib"@]);
        } else if before == seq!["lib"@] {
            assert(before[0] == "lib"@);
        }
    }
    if !is_default {
        return;
    }
    if toml_tree::flag_in(toml_tree::get_either(lib, "proc-macro", "proc_macro")) == Some(true) {
        let mut ts: Vec<String> = Vec::new();
        ts.push("proc-macro".to_owned());
        assert(ts.deep_view() =~= seq!["proc-macro"@]);
        *types = ts;
        return;
    }
    let declared = toml_tree::get_either(lib, "crate-type", "crate_type");
    if let Some(v) = declared {
        if v.as_array().is_some() {
            let mut ts = toml_tree::toml_str_array(declared);
            if !(sorted::has_text(&ts, "lib") || sorted::has_text(&ts, "rlib") || sorted::has_text(
                &ts,
                "proc-macro",
            )) {
                let ghost o = ts.deep_view();
                ts.push("rlib".to_owned());
                assert(ts.deep_view() =~= o.push("rlib"@));
            }
            *types = ts;
        }
    }
}

fn read_bins(doc: &Tree) -> (r: Vec<CrateBin>)
    ensures
        r.deep_view() == bins_in(doc.deep_view()),
{
    let mut out: Vec<CrateBin> = Vec::new();
    let bins = doc.get("bin");
    if let Some(v) = bins {
        if let Some(a) = v.as_array() {
            let ghost s = a.deep_view();
            let ghost full = s.map_values(crate_bin_at());
            assert(out.deep_view() =~= full.take(0));
            for i in 0..a.len()
                invariant
                    s == a.deep_view(),
                    full == s.map_values(crate_bin_at()),
                    out.deep_view() == full.take(i as int),
            {
                let ghost o = out.deep_view();
                assert(s[i as int] == a@[i as int].deep_view());
                out.push(
                    CrateBin {
                        name: toml_tree::string_in(a[i].get("name")),
                        path: toml_tree::string_in(a[i].get("path")),
                        required_features: toml_tree::toml_str_array(a[i].get("required-features")),
                    },
                );
                assert(out.deep_view() =~= o.push(full[i as int]));
                assert(full.take(i + 1) =~= full.take(i as int).push(full[i as int]));
            }
            assert(full.take(s.len() as int) =~= full);
            return out;
        }
    }
    assert(out.deep_view() =~= bins_in(doc.deep_view()));
    out
}

/// Learns from the crate's `Cargo.toml` what the resolver could not tell: edition, package fields,
/// build script, library and binaries.
///
/// In the mode that resolves from the lock file the index carries no `[lib]` table, so the
/// attributes of registry crates come as defaults. What is set otherwise is never replaced.
pub fn detect_cargo_toml_info(config: &mut BuildConfig, disk: &Disk)
    ensures
        final(config).deep_view() == detected(old(config).deep_view(), disk.deep_view()),
{
    if !disk.has("Cargo.toml") {
        return;
    }
    let content = match disk.read("Cargo.toml") {
        Ok(s) => s,
        Err(_) => {
            return;
        },
    };
    let doc = match toml_tree::parse(&content) {
        Ok(t) => t,
        Err(_) => {
            return;
        },
    };
    let pkg = doc.get("package");
    let lib = doc.get("lib");
    let edition = read_edition(pkg);
    add_edition(&mut config.extra_rustc_opts, &edition);
    add_edition(&mut config.extra_rustc_opts_for_build_rs, &edition);
    fill(&mut config.crate_description, pkg, "description");
    fill(&mut config.crate_homepage, pkg, "homepage");
    fill(&mut config.crate_license, pkg, "license");
    fill(&mut config.crate_license_file, pkg, "license-file");
    fill(&mut config.crate_readme, pkg, "readme");
    fill(&mut config.crate_repository, pkg, "repository");
    fill(&mut config.crate_rust_version, pkg, "rust-version");
    if config.crate_authors.len() == 0 {
        config.crate_authors = toml_tree::toml_str_array(toml_tree::get_in(pkg, "authors"));
    }
    detect_build(&mut config.build, pkg, disk);
    fill(&mut config.crate_links, pkg, "links");
    fill(&mut config.lib_path, lib, "path");
    if config.lib_name.as_str().is_empty() || text::same(&config.lib_name, &config.crate_name) {
        config.lib_name =
            match toml_tree::string_in(toml_tree::get_in(lib, "name")) {
                Some(s) => s,
                None => resolve::normalize_name(&config.crate_name),
            };
    }
    detect_types(&mut config.crate_type, lib);
    if !config.has_crate_bin && config.crate_bin.len() == 0 {
        config.crate_bin = read_bins(&doc);
        config.has_crate_bin = config.crate_bin.len() > 0;
    }
}

/// The file that a manifest names as its build script.
pub open spec fn build_file(manifest: Seq<char>) -> Option<Seq<char>> {
    match toml_tree::toml_parsed(manifest) {
        Ok(doc) => toml_tree::text_in(toml_tree::opt_field(toml_tree::field(doc, "package"@), "build"@)),
        Err(_) => None,
    }
}

/// The file that a manifest names as its build script, which detection looks for.
pub fn build_file_in(manifest: &str) -> (r: Option<String>)
    ensures
        r.deep_view() == build_file(manifest@),
{
    match toml_tree::parse(manifest) {
        Ok(doc) => toml_tree::string_in(toml_tree::get_in(doc.get("package"), "build")),
        Err(_) => None,
    }
}

/// The manifest and the file that it names as its build script are all that counts: disks that agree
/// on them are detected alike.
pub proof fn lemma_build_file_suffices(c: ConfigView, d: DiskView, e: DiskView)
    requires
        disk::same_at(d, e, "Cargo.toml"@),
        disk::file_read(d, "Cargo.toml"@) matches Ok(s) ==> build_file(s) matches Some(p) ==> disk::same_at(d, e, p),
    ensures
        detected(c, d) == detected(c, e),
{
}

/// What a configuration states is kept whatever the manifest says.
pub proof fn lemma_detection_keeps_what_is_set(c: ConfigView, d: DiskView)
    ensures
        c.lib_path.len() > 0 ==> detected(c, d).lib_path == c.lib_path,
        c.build.len() > 0 ==> detected(c, d).build == c.build,
        c.crate_links.len() > 0 ==> detected(c, d).crate_links == c.crate_links,
        c.crate_description.len() > 0 ==> detected(c, d).crate_description == c.crate_description,
        c.lib_name.len() > 0 && c.lib_name != c.crate_name ==> detected(c, d).lib_name == c.lib_name,
        c.crate_type != seq!["lib"@] ==> detected(c, d).crate_type == c.crate_type,
        names_edition(c.extra_rustc_opts) ==> detected(c, d).extra_rustc_opts == c.extra_rustc_opts,
        c.has_crate_bin ==> detected(c, d).crate_bin == c.crate_bin,
        detected(c, d).crate_name == c.crate_name,
        detected(c, d).crate_features == c.crate_features,
        detected(c, d).metadata == c.metadata,
{
}

proof fn lemma_edition_once(opts: Seq<Seq<char>>, edition: Option<Seq<char>>)
    ensures
        with_edition(with_edition(opts, edition), edition) == with_edition(opts, edition),
{
    let r = with_edition(opts, edition);
    if edition is Some && !names_edition(opts) {
        assert(r[opts.len() as int] == "--edition"@);
        assert(names_edition(r));
    }
}

/// Detection has nothing to add a second time.
pub proof fn lemma_detected_once(c: ConfigView, d: DiskView)
    ensures
        detected(detected(c, d), d) == detected(c, d),
{
    if disk::file_exists(d, "Cargo.toml"@) && disk::file_read(d, "Cargo.toml"@) is Ok {
        match toml_tree::toml_parsed(disk::file_read(d, "Cargo.toml"@)->Ok_0) {
            Ok(doc) => {
                let pkg = toml_tree::field(doc, "package"@);
                lemma_edition_once(c.extra_rustc_opts, edition_in(pkg));
                lemma_edition_once(c.extra_rustc_opts_for_build_rs, edition_in(pkg));
                let once = detected_in(c, doc, d);
                let twice = detected_in(once, doc, d);
                assert(twice.crate_type == once.crate_type);
                assert(twice.crate_bin =~= once.crate_bin);
                assert(twice.crate_authors =~= once.crate_authors);
                assert(twice == once);
            },
            Err(_) => {},
        }
    }
}

// ---------------------------------------------------------------------------
// Versions
// ---------------------------------------------------------------------------

/// The parts of a version: major, minor, patch and pre-release. Build metadata is dropped, and what
/// is missing is `0`.
pub open spec fn version_parts(v: Seq<char>) -> (Seq<char>, Seq<char>, Seq<char>, Seq<char>) {
    let plain = text::before_first(v, '+');
    let (numbers, pre) = match text::cut_first(plain, '-') {
        Some((a, b)) => (a, b),
        None => (plain, Seq::empty()),
    };
    match text::cut_first(numbers, '.') {
        None => (numbers, "0"@, "0"@, pre),
        Some((major, rest)) => match text::cut_first(rest, '.') {
            None => (major, rest, "0"@, pre),
            Some((minor, patch)) => (major, minor, patch, pre),
        },
    }
}

/// Takes a version apart.
pub fn parse_version(v: &str) -> (r: (String, String, String, String))
    ensures
        r.deep_view() == version_parts(v@),
{
    let plain = text::split_first(v, '+');
    let (numbers, pre) = match text::split_once(plain, '-') {
        Some((a, b)) => (a, b.to_owned()),
        None => (plain, String::new()),
    };
    match text::split_once(numbers, '.') {
        None => (numbers.to_owned(), "0".to_owned(), "0".to_owned(), pre),
        Some((major, rest)) => match text::split_once(rest, '.') {
            None => (major.to_owned(), rest.to_owned(), "0".to_owned(), pre),
            Some((minor, patch)) => (major.to_owned(), minor.to_owned(), patch.to_owned(), pre),
        },
    }
}

// ---------------------------------------------------------------------------
// Environment
// ---------------------------------------------------------------------------

/// A line of `rustc --print=cfg`: a key, with a value or without.
pub open spec fn cfg_line(line: Seq<char>) -> (Seq<char>, Seq<Seq<char>>) {
    match text::cut_first(line, '=') {
        Some((k, v)) => (k, seq![text::without_ends(v, '"')]),
        None => (line, Seq::empty()),
    }
}

/// The values gathered by key, with those of one more line.
pub open spec fn cfg_added(
    cfg: Seq<(Seq<char>, Seq<Seq<char>>)>,
    line: Seq<char>,
) -> Seq<(Seq<char>, Seq<Seq<char>>)> {
    let (k, v) = cfg_line(line);
    let known = match sorted::entry_of(cfg, k) {
        Some(vs) => vs,
        None => Seq::empty(),
    };
    sorted::with_entry(cfg, k, known + v)
}

pub open spec fn cfg_gathered(lines: Seq<Seq<char>>) -> Seq<(Seq<char>, Seq<Seq<char>>)>
    decreases lines.len(),
{
    if lines.len() == 0 {
        Seq::empty()
    } else {
        cfg_added(cfg_gathered(lines.drop_last()), lines.last())
    }
}

/// The environment variable for a cfg key.
pub open spec fn cfg_variable(key: Seq<char>) -> Seq<char> {
    "CARGO_CFG_"@ + text::with_char_replaced(
        text::with_char_replaced(text::uppercased(key), '-', "_"@),
        '.',
        "_"@,
    )
}

pub open spec fn cfg_env_at() -> spec_fn((Seq<char>, Seq<Seq<char>>)) -> (Seq<char>, Seq<char>) {
    |e: (Seq<char>, Seq<Seq<char>>)| (cfg_variable(e.0), text::joined(e.1, ","@))
}

/// The `CARGO_CFG_*` variables for the output of `rustc --print=cfg`: the values of a key joined
/// with commas, an empty value for a bare key.
pub open spec fn cfg_env(output: Seq<char>) -> Seq<(Seq<char>, Seq<char>)> {
    cfg_gathered(text::lines(output)).map_values(cfg_env_at())
}

fn list_cfg_env(output: &str) -> (r: Vec<(String, String)>)
    ensures
        r.deep_view() == cfg_env(output@),
{
    let lines = text::split_lines(output);
    let ghost s = lines.deep_view();
    let mut cfg: StrMap<Vec<String>> = StrMap::new();
    assert(s.take(0) =~= Seq::empty());
    for i in 0..lines.len()
        invariant
            s == lines.deep_view(),
            cfg.deep_view() == cfg_gathered(s.take(i as int)),
    {
        assert(s.take(i + 1).drop_last() =~= s.take(i as int));
        assert(s.take(i + 1).last() == lines@[i as int]@);
        let (key, value) = match text::split_once(&lines[i], '=') {
            Some((k, v)) => (k.to_owned(), Some(text::trim_matches(v, '"').to_owned())),
            None => (lines[i].clone(), None),
        };
        let mut values: Vec<String> = match cfg.get(&key) {
            Some(vs) => sorted::copy_texts(vs),
            None => Vec::new(),
        };
        let ghost known = values.deep_view();
        assert(known =~= match sorted::entry_of(cfg.deep_view(), key@) {
            Some(vs) => vs,
            None => Seq::empty(),
        });
        match value {
            Some(v) => {
                let ghost vv = v@;
                values.push(v);
                assert(values.deep_view() =~= known + seq![vv]);
            },
            None => {
                assert(known =~= known + Seq::<Seq<char>>::empty());
            },
        }
        cfg.insert(key, values);
    }
    assert(s.take(s.len() as int) =~= s);
    let ghost cs = cfg.deep_view();
    let ghost full = cs.map_values(cfg_env_at());
    let mut out: Vec<(String, String)> = Vec::new();
    assert(out.deep_view() =~= full.take(0));
    for i in 0..cfg.entries.len()
        invariant
            cs == cfg.entries.deep_view(),
            full == cs.map_values(cfg_env_at()),
            out.deep_view() == full.take(i as int),
    {
        let ghost o = out.deep_view();
        assert(cs[i as int] == cfg.entries@[i as int].deep_view());
        let upper = text::to_uppercase(&cfg.entries[i].0);
        let name = text::replace_char(&text::replace_char(&upper, '-', "_"), '.', "_");
        out.push((text::cat2("CARGO_CFG_", &name), text::join(&cfg.entries[i].1, ",")));
        assert(out.deep_view() =~= o.push(full[i as int]));
        assert(full.take(i + 1) =~= full.take(i as int).push(full[i as int]));
    }
    assert(full.take(cs.len() as int) =~= full);
    out
}

/// The `CARGO_CFG_*` environment for the output of `rustc --print=cfg --target <host>`.
pub fn target_cfg_env(output: &str) -> (r: StrMap<String>)
    ensures
        r.deep_view() == sorted::map_of(cfg_env(output@)),
        r.wf(),
{
    StrMap::from_list(list_cfg_env(output))
}

pub open spec fn jobs_or_one(jobs: Option<Seq<char>>) -> Seq<char> {
    match jobs {
        Some(j) => j,
        None => "1"@,
    }
}

/// The variables that Cargo sets for a package, before those for the target.
pub open spec fn package_env(
    c: ConfigView,
    out_dir: Seq<char>,
    cwd: Seq<char>,
    jobs: Option<Seq<char>>,
) -> Seq<(Seq<char>, Seq<char>)> {
    let (major, minor, patch, pre) = version_parts(c.crate_version);
    seq![
        ("CARGO_PKG_NAME"@, c.crate_name),
        ("CARGO_PKG_VERSION"@, c.crate_version),
        ("CARGO_PKG_AUTHORS"@, text::joined(c.crate_authors, ":"@)),
        ("CARGO_PKG_DESCRIPTION"@, c.crate_description),
        ("CARGO_PKG_HOMEPAGE"@, c.crate_homepage),
        ("CARGO_PKG_LICENSE"@, c.crate_license),
        ("CARGO_PKG_LICENSE_FILE"@, c.crate_license_file),
        ("CARGO_PKG_README"@, c.crate_readme),
        ("CARGO_PKG_REPOSITORY"@, c.crate_repository),
        ("CARGO_PKG_RUST_VERSION"@, c.crate_rust_version),
        ("CARGO_PKG_VERSION_MAJOR"@, major),
        ("CARGO_PKG_VERSION_MINOR"@, minor),
        ("CARGO_PKG_VERSION_PATCH"@, patch),
        ("CARGO_PKG_VERSION_PRE"@, pre),
        ("CARGO_MANIFEST_PATH"@, cwd + "/Cargo.toml"@),
        ("CARGO_MANIFEST_DIR"@, cwd),
        ("CARGO"@, "cargo"@),
        ("DEBUG"@, if c.release { "false"@ } else { "true"@ }),
        ("OPT_LEVEL"@, if c.release { "3"@ } else { "0"@ }),
        ("TARGET"@, c.host_platform.rustc_target_spec),
        ("HOST"@, c.build_platform.rustc_target_spec),
        ("PROFILE"@, if c.release { "release"@ } else { "debug"@ }),
        ("OUT_DIR"@, out_dir),
        ("NUM_JOBS"@, jobs_or_one(jobs)),
        ("RUSTC"@, "rustc"@),
        ("RUSTDOC"@, "rustdoc"@),
        ("CARGO_ENCODED_RUSTFLAGS"@, Seq::<char>::empty()),
        ("CARGO_CRATE_NAME"@, resolve::normalized(c.lib_name)),
        ("CARGO_CFG_FEATURE"@, text::joined(c.crate_features, ","@)),
    ] + if c.crate_links.len() > 0 {
        seq![("CARGO_MANIFEST_LINKS"@, c.crate_links)]
    } else {
        Seq::empty()
    }
}

/// The environment of a build script: the package's variables, with those for the target laid over
/// them. Debug assertions go by the profile, and no build script is a procedural macro.
pub open spec fn script_env(
    c: ConfigView,
    out_dir: Seq<char>,
    cwd: Seq<char>,
    jobs: Option<Seq<char>>,
    cfg_output: Seq<char>,
) -> Seq<(Seq<char>, Seq<char>)> {
    let all = sorted::map_of(package_env(c, out_dir, cwd, jobs) + sorted::map_of(cfg_env(cfg_output)));
    let kept = if c.release {
        sorted::without_key(all, "CARGO_CFG_DEBUG_ASSERTIONS"@)
    } else {
        all
    };
    sorted::without_key(kept, "CARGO_CFG_PROC_MACRO"@)
}

fn put(list: &mut Vec<(String, String)>, k: &str, v: String)
    ensures
        final(list).deep_view() == old(list).deep_view().push((k@, v@)),
{
    let ghost o = list.deep_view();
    let ghost e = (k@, v@);
    list.push((k.to_owned(), v));
    assert(list.deep_view() =~= o.push(e));
}

fn list_package_env(
    config: &BuildConfig,
    out_dir: &str,
    cwd: &str,
    jobs: &Option<String>,
) -> (r: Vec<(String, String)>)
    ensures
        r.deep_view() == package_env(config.deep_view(), out_dir@, cwd@, jobs.deep_view()),
{
    let (major, minor, patch, pre) = parse_version(&config.crate_version);
    let mut list: Vec<(String, String)> = Vec::new();
    put(&mut list, "CARGO_PKG_NAME", config.crate_name.clone());
    put(&mut list, "CARGO_PKG_VERSION", config.crate_version.clone());
    put(&mut list, "CARGO_PKG_AUTHORS", text::join(&config.crate_authors, ":"));
    put(&mut list, "CARGO_PKG_DESCRIPTION", config.crate_description.clone());
    put(&mut list, "CARGO_PKG_HOMEPAGE", config.crate_homepage.clone());
    put(&mut list, "CARGO_PKG_LICENSE", config.crate_license.clone());
    put(&mut list, "CARGO_PKG_LICENSE_FILE", config.crate_license_file.clone());
    put(&mut list, "CARGO_PKG_README", config.crate_readme.clone());
    put(&mut list, "CARGO_PKG_REPOSITORY", config.crate_repository.clone());
    put(&mut list, "CARGO_PKG_RUST_VERSION", config.crate_rust_version.clone());
    put(&mut list, "CARGO_PKG_VERSION_MAJOR", major);
    put(&mut list, "CARGO_PKG_VERSION_MINOR", minor);
    put(&mut list, "CARGO_PKG_VERSION_PATCH", patch);
    put(&mut list, "CARGO_PKG_VERSION_PRE", pre);
    put(&mut list, "CARGO_MANIFEST_PATH", text::cat2(cwd, "/Cargo.toml"));
    put(&mut list, "CARGO_MANIFEST_DIR", cwd.to_owned());
    put(&mut list, "CARGO", "cargo".to_owned());
    let debug = if config.release { "false" } else { "true" };
    put(&mut list, "DEBUG", debug.to_owned());
    let level = if config.release { "3" } else { "0" };
    put(&mut list, "OPT_LEVEL", level.to_owned());
    put(&mut list, "TARGET", config.host_platform.rustc_target_spec.clone());
    put(&mut list, "HOST", config.build_platform.rustc_target_spec.clone());
    let profile = if config.release { "release" } else { "debug" };
    put(&mut list, "PROFILE", profile.to_owned());
    put(&mut list, "OUT_DIR", out_dir.to_owned());
    let num_jobs = match jobs {
        Some(j) => j.clone(),
        None => "1".to_owned(),
    };
    put(&mut list, "NUM_JOBS", num_jobs);
    put(&mut list, "RUSTC", "rustc".to_owned());
    put(&mut list, "RUSTDOC", "rustdoc".to_owned());
    put(&mut list, "CARGO_ENCODED_RUSTFLAGS", String::new());
    put(&mut list, "CARGO_CRATE_NAME", resolve::normalize_name(&config.lib_name));
    put(&mut list, "CARGO_CFG_FEATURE", text::join(&config.crate_features, ","));
    if !config.crate_links.as_str().is_empty() {
        put(&mut list, "CARGO_MANIFEST_LINKS", config.crate_links.clone());
    }
    assert(list.deep_view() =~= package_env(config.deep_view(), out_dir@, cwd@, jobs.deep_view()));
    list
}

/// The environment of the build script and of every rustc run. `cfg_output` is what
/// `rustc --print=cfg` says of the target, `jobs` the number of cores if that is known.
pub fn build_env(
    config: &BuildConfig,
    out_dir: &str,
    cwd: &str,
    jobs: &Option<String>,
    cfg_output: &str,
) -> (r: StrMap<String>)
    ensures
        r.deep_view() == script_env(config.deep_view(), out_dir@, cwd@, jobs.deep_view(), cfg_output@),
        r.wf(),
{
    let mut list = list_package_env(config, out_dir, cwd, jobs);
    let ghost head = list.deep_view();
    let mut over = target_cfg_env(cfg_output);
    let ghost tail = over.deep_view();
    list.append(&mut over.entries);
    assert(list.deep_view() =~= head + tail);
    let mut env = StrMap::from_list(list);
    if config.release {
        env.remove("CARGO_CFG_DEBUG_ASSERTIONS");
    }
    env.remove("CARGO_CFG_PROC_MACRO");
    env
}

pub open spec fn is_cargo_variable() -> spec_fn((Seq<char>, Seq<char>)) -> bool {
    |e: (Seq<char>, Seq<char>)| text::has_prefix(e.0, "CARGO_"@)
}

/// The variables of an environment that are Cargo's own: those that rustc gets.
pub fn cargo_variables(env: &StrMap<String>) -> (r: Vec<(String, String)>)
    ensures
        r.deep_view() == sorted::keep(env.deep_view(), is_cargo_variable()),
{
    let ghost s = env.deep_view();
    let mut out: Vec<(String, String)> = Vec::new();
    assert(out.deep_view() =~= sorted::keep(s.take(0), is_cargo_variable()));
    for i in 0..env.entries.len()
        invariant
            s == env.entries.deep_view(),
            out.deep_view() == sorted::keep(s.take(i as int), is_cargo_variable()),
    {
        let ghost o = out.deep_view();
        proof {
            sorted::lemma_keep_step(s, is_cargo_variable(), i as int);
            assert(s[i as int] == env.entries@[i as int].deep_view());
        }
        if text::starts_with(&env.entries[i].0, "CARGO_") {
            out.push((env.entries[i].0.clone(), env.entries[i].1.clone()));
            assert(out.deep_view() =~= o.push(s[i as int]));
        }
    }
    assert(s.take(s.len() as int) =~= s);
    out
}

pub open spec fn feature_variable_at() -> spec_fn(Seq<char>) -> Seq<char> {
    |f: Seq<char>| "CARGO_FEATURE_"@ + text::uppercased(resolve::normalized(f))
}

/// The names of the variables that tell a build script which features are on.
pub fn feature_variables(features: &Vec<String>) -> (r: Vec<String>)
    ensures
        r.deep_view() == features.deep_view().map_values(feature_variable_at()),
{
    let ghost s = features.deep_view();
    let ghost full = s.map_values(feature_variable_at());
    let mut out: Vec<String> = Vec::new();
    assert(out.deep_view() =~= full.take(0));
    for i in 0..features.len()
        invariant
            s == features.deep_view(),
            full == s.map_values(feature_variable_at()),
            out.deep_view() == full.take(i as int),
    {
        let ghost o = out.deep_view();
        assert(s[i as int] == features@[i as int]@);
        out.push(text::cat2("CARGO_FEATURE_", &text::to_uppercase(&resolve::normalize_name(&features[i]))));
        assert(out.deep_view() =~= o.push(full[i as int]));
        assert(full.take(i + 1) =~= full.take(i as int).push(full[i as int]));
    }
    assert(full.take(s.len() as int) =~= full);
    out
}

// ---------------------------------------------------------------------------
// The environment read back
// ---------------------------------------------------------------------------

proof fn lemma_variables_differ(c: ConfigView, out_dir: Seq<char>, cwd: Seq<char>, jobs: Option<Seq<char>>, i: int, j: int)
    requires
        0 <= i < package_env(c, out_dir, cwd, jobs).len(),
        0 <= j < package_env(c, out_dir, cwd, jobs).len(),
        i != j,
    ensures
        package_env(c, out_dir, cwd, jobs)[i].0 != package_env(c, out_dir, cwd, jobs)[j].0,
{
    reveal_strlit("CARGO_PKG_NAME");
    reveal_strlit("CARGO_PKG_VERSION");
    reveal_strlit("CARGO_PKG_AUTHORS");
    reveal_strlit("CARGO_PKG_DESCRIPTION");
    reveal_strlit("CARGO_PKG_HOMEPAGE");
    reveal_strlit("CARGO_PKG_LICENSE");
    reveal_strlit("CARGO_PKG_LICENSE_FILE");
    reveal_strlit("CARGO_PKG_README");
    reveal_strlit("CARGO_PKG_REPOSITORY");
    reveal_strlit("CARGO_PKG_RUST_VERSION");
    reveal_strlit("CARGO_PKG_VERSION_MAJOR");
    reveal_strlit("CARGO_PKG_VERSION_MINOR");
    reveal_strlit("CARGO_PKG_VERSION_PATCH");
    reveal_strlit("CARGO_PKG_VERSION_PRE");
    reveal_strlit("CARGO_MANIFEST_PATH");
    reveal_strlit("CARGO_MANIFEST_DIR");
    reveal_strlit("CARGO");
    reveal_strlit("DEBUG");
    reveal_strlit("OPT_LEVEL");
    reveal_strlit("TARGET");
    reveal_strlit("HOST");
    reveal_strlit("PROFILE");
    reveal_strlit("OUT_DIR");
    reveal_strlit("NUM_JOBS");
    reveal_strlit("RUSTC");
    reveal_strlit("RUSTDOC");
    reveal_strlit("CARGO_ENCODED_RUSTFLAGS");
    reveal_strlit("CARGO_CRATE_NAME");
    reveal_strlit("CARGO_CFG_FEATURE");
    reveal_strlit("CARGO_MANIFEST_LINKS");
    assert("CARGO_PKG_NAME"@.len() == 14);
    assert("CARGO_PKG_VERSION"@.len() == 17);
    assert("CARGO_PKG_AUTHORS"@.len() == 17);
    assert("CARGO_PKG_DESCRIPTION"@.len() == 21);
    assert("CARGO_PKG_HOMEPAGE"@.len() == 18);
    assert("CARGO_PKG_LICENSE"@.len() == 17);
    assert("CARGO_PKG_LICENSE_FILE"@.len() == 22);
    assert("CARGO_PKG_README"@.len() == 16);
    assert("CARGO_PKG_REPOSITORY"@.len() == 20);
    assert("CARGO_PKG_RUST_VERSION"@.len() == 22);
    assert("CARGO_PKG_VERSION_MAJOR"@.len() == 23);
    assert("CARGO_PKG_VERSION_MINOR"@.len() == 23);
    assert("CARGO_PKG_VERSION_PATCH"@.len() == 23);
    assert("CARGO_PKG_VERSION_PRE"@.len() == 21);
    assert("CARGO_MANIFEST_PATH"@.len() == 19);
    assert("CARGO_MANIFEST_DIR"@.len() == 18);
    assert("CARGO"@.len() == 5);
    assert("DEBUG"@.len() == 5);
    assert("OPT_LEVEL"@.len() == 9);
    assert("TARGET"@.len() == 6);
    assert("HOST"@.len() == 4);
    assert("PROFILE"@.len() == 7);
    assert("OUT_DIR"@.len() == 7);
    assert("NUM_JOBS"@.len() == 8);
    assert("RUSTC"@.len() == 5);
    assert("RUSTDOC"@.len() == 7);
    assert("CARGO_ENCODED_RUSTFLAGS"@.len() == 23);
    assert("CARGO_CRATE_NAME"@.len() == 16);
    assert("CARGO_CFG_FEATURE"@.len() == 17);
    assert("CARGO_MANIFEST_LINKS"@.len() == 20);
    assert("CARGO_PKG_VERSION"@[10] == 'V');
    assert("CARGO_PKG_AUTHORS"@[10] == 'A');
    assert("CARGO_PKG_LICENSE"@[10] == 'L');
    assert("CARGO_CFG_FEATURE"@[10] == 'F');
    assert("CARGO_PKG_DESCRIPTION"@[10] == 'D');
    assert("CARGO_PKG_VERSION_PRE"@[10] == 'V');
    assert("CARGO_PKG_HOMEPAGE"@[6] == 'P');
    assert("CARGO_MANIFEST_DIR"@[6] == 'M');
    assert("CARGO_PKG_LICENSE_FILE"@[10] == 'L');
    assert("CARGO_PKG_RUST_VERSION"@[10] == 'R');
    assert("CARGO_PKG_README"@[6] == 'P');
    assert("CARGO_CRATE_NAME"@[6] == 'C');
    assert("CARGO_PKG_REPOSITORY"@[6] == 'P');
    assert("CARGO_MANIFEST_LINKS"@[6] == 'M');
    assert("CARGO_PKG_VERSION_MAJOR"@[20] == 'J');
    assert("CARGO_PKG_VERSION_MINOR"@[20] == 'N');
    assert("CARGO_PKG_VERSION_PATCH"@[20] == 'T');
    assert("CARGO_ENCODED_RUSTFLAGS"@[20] == 'A');
    assert("CARGO"@[0] == 'C');
    assert("DEBUG"@[0] == 'D');
    assert("RUSTC"@[0] == 'R');
    assert("PROFILE"@[0] == 'P');
    assert("OUT_DIR"@[0] == 'O');
    assert("RUSTDOC"@[0] == 'R');
}

proof fn lemma_variable_for_package(c: ConfigView, out_dir: Seq<char>, cwd: Seq<char>, jobs: Option<Seq<char>>, i: int)
    requires
        0 <= i < package_env(c, out_dir, cwd, jobs).len(),
        i != 28,
    ensures
        !text::has_prefix(package_env(c, out_dir, cwd, jobs)[i].0, "CARGO_CFG_"@),
{
    let k = package_env(c, out_dir, cwd, jobs)[i].0;
    reveal_strlit("CARGO_CFG_");
    reveal_strlit("CARGO_PKG_NAME");
    reveal_strlit("CARGO_PKG_VERSION");
    reveal_strlit("CARGO_PKG_AUTHORS");
    reveal_strlit("CARGO_PKG_DESCRIPTION");
    reveal_strlit("CARGO_PKG_HOMEPAGE");
    reveal_strlit("CARGO_PKG_LICENSE");
    reveal_strlit("CARGO_PKG_LICENSE_FILE");
    reveal_strlit("CARGO_PKG_README");
    reveal_strlit("CARGO_PKG_REPOSITORY");
    reveal_strlit("CARGO_PKG_RUST_VERSION");
    reveal_strlit("CARGO_PKG_VERSION_MAJOR");
    reveal_strlit("CARGO_PKG_VERSION_MINOR");
    reveal_strlit("CARGO_PKG_VERSION_PATCH");
    reveal_strlit("CARGO_PKG_VERSION_PRE");
    reveal_strlit("CARGO_MANIFEST_PATH");
    reveal_strlit("CARGO_MANIFEST_DIR");
    reveal_strlit("CARGO");
    reveal_strlit("DEBUG");
    reveal_strlit("OPT_LEVEL");
    reveal_strlit("TARGET");
    reveal_strlit("HOST");
    reveal_strlit("PROFILE");
    reveal_strlit("OUT_DIR");
    reveal_strlit("NUM_JOBS");
    reveal_strlit("RUSTC");
    reveal_strlit("RUSTDOC");
    reveal_strlit("CARGO_ENCODED_RUSTFLAGS");
    reveal_strlit("CARGO_CRATE_NAME");
    reveal_strlit("CARGO_MANIFEST_LINKS");
    assert("CARGO"@.len() < 10);
    assert("DEBUG"@.len() < 10);
    assert("OPT_LEVEL"@.len() < 10);
    assert("TARGET"@.len() < 10);
    assert("HOST"@.len() < 10);
    assert("PROFILE"@.len() < 10);
    assert("OUT_DIR"@.len() < 10);
    assert("NUM_JOBS"@.len() < 10);
    assert("RUSTC"@.len() < 10);
    assert("RUSTDOC"@.len() < 10);
    assert("CARGO_PKG_NAME"@[6] != "CARGO_CFG_"@[6]);
    assert("CARGO_PKG_VERSION"@[6] != "CARGO_CFG_"@[6]);
    assert("CARGO_PKG_AUTHORS"@[6] != "CARGO_CFG_"@[6]);
    assert("CARGO_PKG_DESCRIPTION"@[6] != "CARGO_CFG_"@[6]);
    assert("CARGO_PKG_HOMEPAGE"@[6] != "CARGO_CFG_"@[6]);
    assert("CARGO_PKG_LICENSE"@[6] != "CARGO_CFG_"@[6]);
    assert("CARGO_PKG_LICENSE_FILE"@[6] != "CARGO_CFG_"@[6]);
    assert("CARGO_PKG_README"@[6] != "CARGO_CFG_"@[6]);
    assert("CARGO_PKG_REPOSITORY"@[6] != "CARGO_CFG_"@[6]);
    assert("CARGO_PKG_RUST_VERSION"@[6] != "CARGO_CFG_"@[6]);
    assert("CARGO_PKG_VERSION_MAJOR"@[6] != "CARGO_CFG_"@[6]);
    assert("CARGO_PKG_VERSION_MINOR"@[6] != "CARGO_CFG_"@[6]);
    assert("CARGO_PKG_VERSION_PATCH"@[6] != "CARGO_CFG_"@[6]);
    assert("CARGO_PKG_VERSION_PRE"@[6] != "CARGO_CFG_"@[6]);
    assert("CARGO_MANIFEST_PATH"@[6] != "CARGO_CFG_"@[6]);
    assert("CARGO_MANIFEST_DIR"@[6] != "CARGO_CFG_"@[6]);
    assert("CARGO_ENCODED_RUSTFLAGS"@[6] != "CARGO_CFG_"@[6]);
    assert("CARGO_CRATE_NAME"@[7] != "CARGO_CFG_"@[7]);
    assert("CARGO_MANIFEST_LINKS"@[6] != "CARGO_CFG_"@[6]);
    if text::has_prefix(k, "CARGO_CFG_"@) {
        assert(k.take(10)[6] == k[6]);
        assert(k.take(10)[7] == k[7]);
    }
}

proof fn lemma_cfg_key(output: Seq<char>, i: int)
    requires
        0 <= i < sorted::map_of(cfg_env(output)).len(),
    ensures
        text::has_prefix(sorted::map_of(cfg_env(output))[i].0, "CARGO_CFG_"@),
{
    let s = cfg_env(output);
    sorted::lemma_map_of_from(s, i);
    let k = choose|k: int| 0 <= k < s.len() && s[k] == sorted::map_of(s)[i];
    let e = cfg_gathered(text::lines(output))[k];
    assert(s[k] == cfg_env_at()(e));
    text::lemma_after_prefix(
        "CARGO_CFG_"@,
        text::with_char_replaced(text::with_char_replaced(text::uppercased(e.0), '-', "_"@), '.', "_"@),
    );
}

proof fn lemma_kept_variables(
    c: ConfigView,
    out_dir: Seq<char>,
    cwd: Seq<char>,
    jobs: Option<Seq<char>>,
    cfg_output: Seq<char>,
    k: Seq<char>,
)
    ensures
        sorted::entry_of(script_env(c, out_dir, cwd, jobs, cfg_output), k) == if k == "CARGO_CFG_PROC_MACRO"@ || (
        c.release && k == "CARGO_CFG_DEBUG_ASSERTIONS"@) {
            None
        } else {
            match sorted::entry_of(sorted::map_of(cfg_env(cfg_output)), k) {
                Some(v) => Some(v),
                None => sorted::entry_of(sorted::map_of(package_env(c, out_dir, cwd, jobs)), k),
            }
        },
{
    let a = package_env(c, out_dir, cwd, jobs);
    let b = sorted::map_of(cfg_env(cfg_output));
    let all = sorted::map_of(a + b);
    let kept = if c.release {
        sorted::without_key(all, "CARGO_CFG_DEBUG_ASSERTIONS"@)
    } else {
        all
    };
    sorted::lemma_map_of_ascending(a + b);
    sorted::lemma_without_key_reads(all, "CARGO_CFG_DEBUG_ASSERTIONS"@, k);
    sorted::lemma_without_key_reads(kept, "CARGO_CFG_PROC_MACRO"@, k);
    sorted::lemma_map_of_reads(a + b, k);
    sorted::lemma_map_of_reads(a, k);
    sorted::lemma_map_of_ascending(cfg_env(cfg_output));
    sorted::lemma_map_of_itself(b);
    sorted::lemma_map_of_reads(b, k);
    lists::lemma_last_with_joined(a, b, sorted::has_key(k));
}

proof fn lemma_package_variable(
    c: ConfigView,
    out_dir: Seq<char>,
    cwd: Seq<char>,
    jobs: Option<Seq<char>>,
    cfg_output: Seq<char>,
    i: int,
)
    requires
        0 <= i < package_env(c, out_dir, cwd, jobs).len(),
        i != 28,
    ensures
        sorted::entry_of(
            script_env(c, out_dir, cwd, jobs, cfg_output),
            package_env(c, out_dir, cwd, jobs)[i].0,
        ) == Some(package_env(c, out_dir, cwd, jobs)[i].1),
{
    let a = package_env(c, out_dir, cwd, jobs);
    let b = sorted::map_of(cfg_env(cfg_output));
    let k = a[i].0;
    lemma_kept_variables(c, out_dir, cwd, jobs, cfg_output, k);
    lemma_variable_for_package(c, out_dir, cwd, jobs, i);
    assert forall|j: int| 0 <= j < a.len() && j != i implies (#[trigger] a[j]).0 != k by {
        lemma_variables_differ(c, out_dir, cwd, jobs, i, j);
    }
    sorted::lemma_named_once(a, i);
    assert forall|j: int| 0 <= j < b.len() implies (#[trigger] b[j]).0 != k by {
        lemma_cfg_key(cfg_output, j);
    }
    sorted::lemma_entry_of_is(b, k, b.len() as int);
    reveal_strlit("CARGO_CFG_");
    reveal_strlit("CARGO_CFG_PROC_MACRO");
    reveal_strlit("CARGO_CFG_DEBUG_ASSERTIONS");
    assert("CARGO_CFG_PROC_MACRO"@.take(10) =~= "CARGO_CFG_"@);
    assert("CARGO_CFG_DEBUG_ASSERTIONS"@.take(10) =~= "CARGO_CFG_"@);
}

/// The environment of a build script read back: under each name that Cargo documents stands what the crate,
/// its profile and its platforms have, whatever rustc says of the target.
pub proof fn lemma_environment_read_back(
    c: ConfigView,
    out_dir: Seq<char>,
    cwd: Seq<char>,
    jobs: Option<Seq<char>>,
    cfg_output: Seq<char>,
)
    ensures
        ({
            let env = script_env(c, out_dir, cwd, jobs, cfg_output);
            &&& sorted::entry_of(env, "CARGO_PKG_NAME"@) == Some(c.crate_name)
            &&& sorted::entry_of(env, "CARGO_PKG_VERSION"@) == Some(c.crate_version)
            &&& sorted::entry_of(env, "CARGO_PKG_AUTHORS"@) == Some(text::joined(c.crate_authors, ":"@))
            &&& sorted::entry_of(env, "CARGO_PKG_DESCRIPTION"@) == Some(c.crate_description)
            &&& sorted::entry_of(env, "CARGO_PKG_HOMEPAGE"@) == Some(c.crate_homepage)
            &&& sorted::entry_of(env, "CARGO_PKG_LICENSE"@) == Some(c.crate_license)
            &&& sorted::entry_of(env, "CARGO_PKG_LICENSE_FILE"@) == Some(c.crate_license_file)
            &&& sorted::entry_of(env, "CARGO_PKG_README"@) == Some(c.crate_readme)
            &&& sorted::entry_of(env, "CARGO_PKG_REPOSITORY"@) == Some(c.crate_repository)
            &&& sorted::entry_of(env, "CARGO_PKG_RUST_VERSION"@) == Some(c.crate_rust_version)
            &&& sorted::entry_of(env, "CARGO_MANIFEST_PATH"@) == Some(cwd + "/Cargo.toml"@)
            &&& sorted::entry_of(env, "CARGO_MANIFEST_DIR"@) == Some(cwd)
            &&& sorted::entry_of(env, "CARGO"@) == Some("cargo"@)
            &&& sorted::entry_of(env, "DEBUG"@) == Some(if c.release {
                "false"@
            } else {
                "true"@
            })
            &&& sorted::entry_of(env, "OPT_LEVEL"@) == Some(if c.release {
                "3"@
            } else {
                "0"@
            })
            &&& sorted::entry_of(env, "TARGET"@) == Some(c.host_platform.rustc_target_spec)
            &&& sorted::entry_of(env, "HOST"@) == Some(c.build_platform.rustc_target_spec)
            &&& sorted::entry_of(env, "PROFILE"@) == Some(if c.release {
                "release"@
            } else {
                "debug"@
            })
            &&& sorted::entry_of(env, "OUT_DIR"@) == Some(out_dir)
            &&& jobs matches Some(n) ==> sorted::entry_of(env, "NUM_JOBS"@) == Some(n)
            &&& jobs is None ==> sorted::entry_of(env, "NUM_JOBS"@) == Some("1"@)
            &&& sorted::entry_of(env, "RUSTC"@) == Some("rustc"@)
            &&& sorted::entry_of(env, "RUSTDOC"@) == Some("rustdoc"@)
            &&& sorted::entry_of(env, "CARGO_ENCODED_RUSTFLAGS"@) == Some(Seq::<char>::empty())
            &&& sorted::entry_of(env, "CARGO_CRATE_NAME"@) == Some(resolve::normalized(c.lib_name))
            &&& sorted::entry_of(env, "CARGO_MANIFEST_LINKS"@) == if c.crate_links.len() > 0 {
                Some(c.crate_links)
            } else {
                None
            }
        }),
{
    lemma_package_variable(c, out_dir, cwd, jobs, cfg_output, 0);
    lemma_package_variable(c, out_dir, cwd, jobs, cfg_output, 1);
    lemma_package_variable(c, out_dir, cwd, jobs, cfg_output, 2);
    lemma_package_variable(c, out_dir, cwd, jobs, cfg_output, 3);
    lemma_package_variable(c, out_dir, cwd, jobs, cfg_output, 4);
    lemma_package_variable(c, out_dir, cwd, jobs, cfg_output, 5);
    lemma_package_variable(c, out_dir, cwd, jobs, cfg_output, 6);
    lemma_package_variable(c, out_dir, cwd, jobs, cfg_output, 7);
    lemma_package_variable(c, out_dir, cwd, jobs, cfg_output, 8);
    lemma_package_variable(c, out_dir, cwd, jobs, cfg_output, 9);
    lemma_package_variable(c, out_dir, cwd, jobs, cfg_output, 10);
    lemma_package_variable(c, out_dir, cwd, jobs, cfg_output, 11);
    lemma_package_variable(c, out_dir, cwd, jobs, cfg_output, 12);
    lemma_package_variable(c, out_dir, cwd, jobs, cfg_output, 13);
    lemma_package_variable(c, out_dir, cwd, jobs, cfg_output, 14);
    lemma_package_variable(c, out_dir, cwd, jobs, cfg_output, 15);
    lemma_package_variable(c, out_dir, cwd, jobs, cfg_output, 16);
    lemma_package_variable(c, out_dir, cwd, jobs, cfg_output, 17);
    lemma_package_variable(c, out_dir, cwd, jobs, cfg_output, 18);
    lemma_package_variable(c, out_dir, cwd, jobs, cfg_output, 19);
    lemma_package_variable(c, out_dir, cwd, jobs, cfg_output, 20);
    lemma_package_variable(c, out_dir, cwd, jobs, cfg_output, 21);
    lemma_package_variable(c, out_dir, cwd, jobs, cfg_output, 22);
    lemma_package_variable(c, out_dir, cwd, jobs, cfg_output, 23);
    lemma_package_variable(c, out_dir, cwd, jobs, cfg_output, 24);
    lemma_package_variable(c, out_dir, cwd, jobs, cfg_output, 25);
    lemma_package_variable(c, out_dir, cwd, jobs, cfg_output, 26);
    lemma_package_variable(c, out_dir, cwd, jobs, cfg_output, 27);
    let a = package_env(c, out_dir, cwd, jobs);
    if c.crate_links.len() > 0 {
        lemma_package_variable(c, out_dir, cwd, jobs, cfg_output, 29);
    } else {
        lemma_no_links(c, out_dir, cwd, jobs, cfg_output);
    }
}

proof fn lemma_no_links(
    c: ConfigView,
    out_dir: Seq<char>,
    cwd: Seq<char>,
    jobs: Option<Seq<char>>,
    cfg_output: Seq<char>,
)
    requires
        c.crate_links.len() == 0,
    ensures
        sorted::entry_of(script_env(c, out_dir, cwd, jobs, cfg_output), "CARGO_MANIFEST_LINKS"@) is None,
{
    let k = "CARGO_MANIFEST_LINKS"@;
    let d = ConfigView { crate_links: seq!['l'], ..c };
    let a = package_env(c, out_dir, cwd, jobs);
    let e = package_env(d, out_dir, cwd, jobs);
    let b = sorted::map_of(cfg_env(cfg_output));
    assert(e[29].0 == k);
    assert forall|j: int| 0 <= j < a.len() implies !sorted::has_key(k)(#[trigger] a[j]) by {
        assert(a[j].0 == e[j].0);
        lemma_variables_differ(d, out_dir, cwd, jobs, 29, j);
    }
    lists::lemma_last_with_is(a, sorted::has_key(k), -1);
    sorted::lemma_map_of_reads(a, k);
    lemma_variable_for_package(d, out_dir, cwd, jobs, 29);
    assert forall|j: int| 0 <= j < b.len() implies (#[trigger] b[j]).0 != k by {
        lemma_cfg_key(cfg_output, j);
    }
    sorted::lemma_entry_of_is(b, k, b.len() as int);
    lemma_kept_variables(c, out_dir, cwd, jobs, cfg_output, k);
}

/// What rustc says of the target is in the environment of a build script as it is, but that no script sees
/// itself as a proc macro, and none sees debug assertions in a release; the features are the crate's, unless
/// rustc names some.
pub proof fn lemma_target_variables(
    c: ConfigView,
    out_dir: Seq<char>,
    cwd: Seq<char>,
    jobs: Option<Seq<char>>,
    cfg_output: Seq<char>,
    k: Seq<char>,
    v: Seq<char>,
)
    ensures
        ({
            let env = script_env(c, out_dir, cwd, jobs, cfg_output);
            let said = sorted::map_of(cfg_env(cfg_output));
            &&& sorted::entry_of(env, "CARGO_CFG_PROC_MACRO"@) is None
            &&& c.release ==> sorted::entry_of(env, "CARGO_CFG_DEBUG_ASSERTIONS"@) is None
            &&& !c.release ==> sorted::entry_of(env, "CARGO_CFG_DEBUG_ASSERTIONS"@) == sorted::entry_of(
                said,
                "CARGO_CFG_DEBUG_ASSERTIONS"@,
            )
            &&& sorted::entry_of(said, k) == Some(v) && k != "CARGO_CFG_PROC_MACRO"@ && k
                != "CARGO_CFG_DEBUG_ASSERTIONS"@ ==> sorted::entry_of(env, k) == Some(v)
            &&& sorted::entry_of(said, "CARGO_CFG_FEATURE"@) is None ==> sorted::entry_of(env, "CARGO_CFG_FEATURE"@) == Some(
                text::joined(c.crate_features, ","@),
            )
        }),
{
    reveal_strlit("CARGO_CFG_PROC_MACRO");
    reveal_strlit("CARGO_CFG_DEBUG_ASSERTIONS");
    reveal_strlit("CARGO_CFG_FEATURE");
    assert("CARGO_CFG_PROC_MACRO"@.len() == 20 && "CARGO_CFG_DEBUG_ASSERTIONS"@.len() == 26 && "CARGO_CFG_FEATURE"@.len()
        == 17);
    let a = package_env(c, out_dir, cwd, jobs);
    lemma_kept_variables(c, out_dir, cwd, jobs, cfg_output, "CARGO_CFG_PROC_MACRO"@);
    lemma_kept_variables(c, out_dir, cwd, jobs, cfg_output, "CARGO_CFG_DEBUG_ASSERTIONS"@);
    lemma_kept_variables(c, out_dir, cwd, jobs, cfg_output, "CARGO_CFG_FEATURE"@);
    lemma_kept_variables(c, out_dir, cwd, jobs, cfg_output, k);
    assert forall|j: int| 0 <= j < a.len() && j != 28 implies (#[trigger] a[j]).0 != a[28].0 by {
        lemma_variables_differ(c, out_dir, cwd, jobs, 28, j);
    }
    sorted::lemma_named_once(a, 28);
    reveal_strlit("CARGO_CFG_");
    assert forall|j: int| 0 <= j < a.len() implies !sorted::has_key("CARGO_CFG_DEBUG_ASSERTIONS"@)(#[trigger] a[j]) by {
        if j != 28 {
            lemma_variable_for_package(c, out_dir, cwd, jobs, j);
            assert("CARGO_CFG_DEBUG_ASSERTIONS"@.take(10) =~= "CARGO_CFG_"@);
        }
    }
    lists::lemma_last_with_is(a, sorted::has_key("CARGO_CFG_DEBUG_ASSERTIONS"@), -1);
    sorted::lemma_map_of_reads(a, "CARGO_CFG_DEBUG_ASSERTIONS"@);
}

/// There are no variables besides those that Cargo documents for a package and those for the target.
pub proof fn lemma_no_other_variables(
    c: ConfigView,
    out_dir: Seq<char>,
    cwd: Seq<char>,
    jobs: Option<Seq<char>>,
    cfg_output: Seq<char>,
    k: Seq<char>,
)
    requires
        sorted::entry_of(script_env(c, out_dir, cwd, jobs, cfg_output), k) is Some,
        !text::has_prefix(k, "CARGO_CFG_"@),
    ensures
        exists|i: int| 0 <= i < package_env(c, out_dir, cwd, jobs).len() && (#[trigger] package_env(c, out_dir, cwd, jobs)[i]).0 == k,
        package_env(c, out_dir, cwd, jobs).len() == if c.crate_links.len() > 0 {
            30nat
        } else {
            29nat
        },
{
    let a = package_env(c, out_dir, cwd, jobs);
    let b = sorted::map_of(cfg_env(cfg_output));
    lemma_kept_variables(c, out_dir, cwd, jobs, cfg_output, k);
    sorted::lemma_entry_of(b, k);
    if sorted::entry_of(b, k) is Some {
        let i = choose|i: int| 0 <= i < b.len() && (#[trigger] b[i]).0 == k;
        lemma_cfg_key(cfg_output, i);
    }
    sorted::lemma_map_of_reads(a, k);
    lists::lemma_last_with(a, sorted::has_key(k));
    let e = lists::last_with(a, sorted::has_key(k))->0;
    let i = choose|i: int| 0 <= i < a.len() && a[i] == e;
    assert(a[i].0 == k);
}

/// The parts of a version `major.minor.patch`, with a pre-release and build metadata as far as it has them;
/// parts that are missing are `0`.
pub proof fn lemma_version_parts(
    major: Seq<char>,
    minor: Seq<char>,
    patch: Seq<char>,
    pre: Seq<char>,
    build: Seq<char>,
)
    requires
        !major.contains('.') && !major.contains('-') && !major.contains('+'),
        !minor.contains('.') && !minor.contains('-') && !minor.contains('+'),
        !patch.contains('-') && !patch.contains('+'),
        !pre.contains('+'),
    ensures
        version_parts(major + "."@ + minor + "."@ + patch) == (major, minor, patch, Seq::<char>::empty()),
        version_parts(major + "."@ + minor + "."@ + patch + "-"@ + pre) == (major, minor, patch, pre),
        version_parts(major + "."@ + minor + "."@ + patch + "+"@ + build) == (major, minor, patch, Seq::<char>::empty()),
        version_parts(major + "."@ + minor + "."@ + patch + "-"@ + pre + "+"@ + build) == (major, minor, patch, pre),
        version_parts(major + "."@ + minor) == (major, minor, "0"@, Seq::<char>::empty()),
        version_parts(major) == (major, "0"@, "0"@, Seq::<char>::empty()),
{
    reveal_strlit(".");
    reveal_strlit("-");
    reveal_strlit("+");
    let rest = minor + "."@ + patch;
    let numbers = major + "."@ + minor + "."@ + patch;
    let short = major + "."@ + minor;
    assert(rest =~= minor.push('.') + patch);
    assert(numbers =~= major.push('.') + rest);
    assert(short =~= major.push('.') + minor);
    text::lemma_cut_first_at(minor, '.', patch);
    text::lemma_cut_first_at(major, '.', rest);
    text::lemma_cut_first_at(major, '.', minor);
    text::lemma_cut_first_none(minor, '.');
    text::lemma_cut_first_none(major, '.');
    assert forall|i: int| 0 <= i < numbers.len() implies numbers[i] != '-' && numbers[i] != '+' by {
        if i < major.len() {
            assert(major.contains(major[i]));
        } else if major.len() < i && i < major.len() + 1 + minor.len() {
            assert(minor.contains(minor[i - major.len() - 1]));
        } else if i > major.len() + 1 + minor.len() {
            assert(patch.contains(patch[i - major.len() - minor.len() - 2]));
        }
    }
    assert forall|i: int| 0 <= i < short.len() implies short[i] != '-' && short[i] != '+' by {
        assert(short[i] == numbers[i]);
    }
    assert(!numbers.contains('-') && !numbers.contains('+'));
    assert(!short.contains('-') && !short.contains('+'));
    text::lemma_cut_first_none(numbers, '+');
    text::lemma_cut_first_none(numbers, '-');
    text::lemma_cut_first_none(short, '+');
    text::lemma_cut_first_none(short, '-');
    text::lemma_cut_first_none(major, '+');
    text::lemma_cut_first_none(major, '-');
    let long = numbers + "-"@ + pre;
    assert(long =~= numbers.push('-') + pre);
    text::lemma_cut_first_at(numbers, '-', pre);
    assert(!long.contains('+')) by {
        if long.contains('+') {
            let i = choose|i: int| 0 <= i < long.len() && long[i] == '+';
            if i < numbers.len() {
                assert(numbers[i] == '+');
            } else if i > numbers.len() {
                assert(pre[i - numbers.len() - 1] == '+');
            }
        }
    }
    text::lemma_cut_first_none(long, '+');
    assert(numbers + "+"@ + build =~= numbers.push('+') + build);
    text::lemma_before_first_at(numbers, '+', build);
    assert(long + "+"@ + build =~= long.push('+') + build);
    text::lemma_before_first_at(long, '+', build);
}

/// The version's parts stand in the environment under their names.
pub proof fn lemma_version_variables(
    c: ConfigView,
    out_dir: Seq<char>,
    cwd: Seq<char>,
    jobs: Option<Seq<char>>,
    cfg_output: Seq<char>,
    major: Seq<char>,
    minor: Seq<char>,
    patch: Seq<char>,
    pre: Seq<char>,
)
    requires
        !major.contains('.') && !major.contains('-') && !major.contains('+'),
        !minor.contains('.') && !minor.contains('-') && !minor.contains('+'),
        !patch.contains('-') && !patch.contains('+'),
        !pre.contains('+'),
        c.crate_version == major + "."@ + minor + "."@ + patch + "-"@ + pre,
    ensures
        ({
            let env = script_env(c, out_dir, cwd, jobs, cfg_output);
            &&& sorted::entry_of(env, "CARGO_PKG_VERSION_MAJOR"@) == Some(major)
            &&& sorted::entry_of(env, "CARGO_PKG_VERSION_MINOR"@) == Some(minor)
            &&& sorted::entry_of(env, "CARGO_PKG_VERSION_PATCH"@) == Some(patch)
            &&& sorted::entry_of(env, "CARGO_PKG_VERSION_PRE"@) == Some(pre)
        }),
{
    lemma_version_parts(major, minor, patch, pre, Seq::empty());
    lemma_package_variable(c, out_dir, cwd, jobs, cfg_output, 10);
    lemma_package_variable(c, out_dir, cwd, jobs, cfg_output, 11);
    lemma_package_variable(c, out_dir, cwd, jobs, cfg_output, 12);
    lemma_package_variable(c, out_dir, cwd, jobs, cfg_output, 13);
}

/// The values of a key are those of its lines, each without its quotes; a key with no value is there too.
pub proof fn lemma_cfg_values(lines: Seq<Seq<char>>, k: Seq<char>, v: Seq<char>)
    ensures
        sorted::ascending(cfg_gathered(lines)),
        sorted::entry_of(cfg_gathered(lines), k) is Some <==> exists|i: int|
            0 <= i < lines.len() && cfg_line(#[trigger] lines[i]).0 == k,
        sorted::entry_of(cfg_gathered(lines), k) matches Some(vs) ==> (vs.contains(v) <==> exists|i: int|
            0 <= i < lines.len() && cfg_line(#[trigger] lines[i]) == (k, seq![v])),
    decreases lines.len(),
{
    if lines.len() > 0 {
        let t = lines.drop_last();
        let n = lines.len() - 1;
        lemma_cfg_values(t, k, v);
        let (key, more) = cfg_line(lines.last());
        let g = cfg_gathered(t);
        let known = match sorted::entry_of(g, key) {
            Some(vs) => vs,
            None => Seq::empty(),
        };
        sorted::lemma_with_entry_ascending(g, key, known + more);
        sorted::lemma_with_entry_reads(g, key, known + more, k);
        assert(lines[n] == lines.last());
        assert forall|i: int| 0 <= i < n implies t[i] == #[trigger] lines[i] by {}
        if exists|i: int| 0 <= i < t.len() && cfg_line(#[trigger] t[i]).0 == k {
            let i = choose|i: int| 0 <= i < t.len() && cfg_line(#[trigger] t[i]).0 == k;
            assert(cfg_line(lines[i]).0 == k);
        }
        if exists|i: int| 0 <= i < lines.len() && cfg_line(#[trigger] lines[i]).0 == k {
            let i = choose|i: int| 0 <= i < lines.len() && cfg_line(#[trigger] lines[i]).0 == k;
            if i < n {
                assert(cfg_line(t[i]).0 == k);
            }
        }
        if exists|i: int| 0 <= i < t.len() && cfg_line(#[trigger] t[i]) == (k, seq![v]) {
            let i = choose|i: int| 0 <= i < t.len() && cfg_line(#[trigger] t[i]) == (k, seq![v]);
            assert(cfg_line(lines[i]) == (k, seq![v]));
        }
        if k == key {
            let vs = known + more;
            if vs.contains(v) {
                lists::lemma_concat_from(known, more, v);
                if known.contains(v) {
                    let i = choose|i: int| 0 <= i < t.len() && cfg_line(#[trigger] t[i]) == (k, seq![v]);
                    assert(cfg_line(lines[i]) == (k, seq![v]));
                } else {
                    assert(more =~= seq![v]);
                    assert(cfg_line(lines[n]) == (k, seq![v]));
                }
            }
            if exists|i: int| 0 <= i < lines.len() && cfg_line(#[trigger] lines[i]) == (k, seq![v]) {
                let i = choose|i: int| 0 <= i < lines.len() && cfg_line(#[trigger] lines[i]) == (k, seq![v]);
                if i < n {
                    assert(cfg_line(t[i]) == (k, seq![v]));
                } else {
                    assert(more[0] == v);
                }
                lists::lemma_concat_has(known, more, v);
            }
        } else {
            assert(cfg_line(lines[n]).0 != k);
            if exists|i: int| 0 <= i < lines.len() && cfg_line(#[trigger] lines[i]) == (k, seq![v]) {
                let i = choose|i: int| 0 <= i < lines.len() && cfg_line(#[trigger] lines[i]) == (k, seq![v]);
                assert(cfg_line(t[i]) == (k, seq![v]));
            }
        }
    }
}

/// A line `key="value"` gives the value, without the quotes, to the key, and a line without `=` is a bare
/// key.
pub proof fn lemma_cfg_line(k: Seq<char>, v: Seq<char>)
    requires
        !k.contains('='),
        v.len() > 0,
        v[0] != '"',
        v.last() != '"',
    ensures
        cfg_line(k + "=\""@ + v + "\""@) == (k, seq![v]),
        cfg_line(k) == (k, Seq::<Seq<char>>::empty()),
{
    reveal_strlit("=\"");
    reveal_strlit("\"");
    let quoted = "\""@ + v + "\""@;
    assert(k + "=\""@ + v + "\""@ =~= k.push('=') + quoted);
    text::lemma_cut_first_at(k, '=', quoted);
    text::lemma_cut_first_none(k, '=');
    let p = text::is_not('"');
    assert(quoted[0] == '"' && quoted[1] == v[0]);
    text::lemma_first_where_is(quoted, p, 1);
    let t = quoted.skip(1);
    assert(t =~= v + "\""@);
    assert(t[v.len() as int] == '"');
    assert forall|j: int| v.len() <= j < t.len() implies !p(#[trigger] t[j]) by {}
    assert(t[v.len() - 1] == v.last());
    text::lemma_up_to_last_is(t, p, v.len() as int);
    assert(t.take(v.len() as int) =~= v);
}

/// What a manifest adds to a configuration, under the names that manifests use; each only where nothing is
/// set.
pub proof fn lemma_detected_fields(c: ConfigView, doc: Toml, d: DiskView, pkg: Toml, lib: Toml, s: Seq<char>)
    requires
        toml_tree::field(doc, "package"@) == Some(pkg),
        toml_tree::field(doc, "lib"@) == Some(lib),
    ensures
        ({
            let r = detected_in(c, doc, d);
            let said = Some(Toml::Text(s));
            &&& c.crate_description.len() == 0 && toml_tree::field(pkg, "description"@) == said ==> r.crate_description == s
            &&& c.crate_homepage.len() == 0 && toml_tree::field(pkg, "homepage"@) == said ==> r.crate_homepage == s
            &&& c.crate_license.len() == 0 && toml_tree::field(pkg, "license"@) == said ==> r.crate_license == s
            &&& c.crate_license_file.len() == 0 && toml_tree::field(pkg, "license-file"@) == said ==> r.crate_license_file
                == s
            &&& c.crate_readme.len() == 0 && toml_tree::field(pkg, "readme"@) == said ==> r.crate_readme == s
            &&& c.crate_repository.len() == 0 && toml_tree::field(pkg, "repository"@) == said ==> r.crate_repository == s
            &&& c.crate_rust_version.len() == 0 && toml_tree::field(pkg, "rust-version"@) == said ==> r.crate_rust_version
                == s
            &&& c.crate_links.len() == 0 && toml_tree::field(pkg, "links"@) == said ==> r.crate_links == s
            &&& c.lib_path.len() == 0 && toml_tree::field(lib, "path"@) == said ==> r.lib_path == s
            &&& (c.lib_name.len() == 0 || c.lib_name == c.crate_name) && toml_tree::field(lib, "name"@) == said
                ==> r.lib_name == s
            &&& (c.lib_name.len() == 0 || c.lib_name == c.crate_name) && toml_tree::field(lib, "name"@) is None
                ==> r.lib_name == resolve::normalized(c.crate_name)
            &&& c.build.len() == 0 && toml_tree::field(pkg, "build"@) == Some(Toml::Boolean(false)) ==> r.build
                == "false"@
            &&& c.build.len() == 0 && toml_tree::field(pkg, "build"@) == said ==> r.build == if disk::file_exists(d, s) {
                s
            } else {
                c.build
            }
            &&& !names_edition(c.extra_rustc_opts) && toml_tree::field(pkg, "edition"@) == said ==> r.extra_rustc_opts
                == c.extra_rustc_opts + seq!["--edition"@, s]
            &&& !names_edition(c.extra_rustc_opts_for_build_rs) && toml_tree::field(pkg, "edition"@) == said
                ==> r.extra_rustc_opts_for_build_rs == c.extra_rustc_opts_for_build_rs + seq!["--edition"@, s]
            &&& c.crate_authors.len() > 0 ==> r.crate_authors == c.crate_authors
            &&& c.crate_version == r.crate_version && c.metadata == r.metadata && c.release == r.release
        }),
{
    assert(c.extra_rustc_opts.push("--edition"@).push(s) =~= c.extra_rustc_opts + seq!["--edition"@, s]);
    assert(c.extra_rustc_opts_for_build_rs.push("--edition"@).push(s) =~= c.extra_rustc_opts_for_build_rs + seq![
        "--edition"@,
        s,
    ]);
}

/// Which kinds of library a crate with the default is found to be: a proc macro where the manifest says so,
/// else what it lists, and something that Rust can link in any case.
pub proof fn lemma_detected_types(types: Seq<Seq<char>>, lib: Option<Toml>, x: Seq<char>)
    ensures
        types == seq!["lib"@] ==> detected_types(types, lib).contains("lib"@) || detected_types(types, lib).contains(
            "rlib"@,
        ) || detected_types(types, lib).contains("proc-macro"@),
        types == seq!["lib"@] && toml_tree::bool_in(toml_tree::either_field(lib, "proc-macro"@, "proc_macro"@)) == Some(true)
            ==> detected_types(types, lib) == seq!["proc-macro"@],
        types == seq!["lib"@] && toml_tree::bool_in(toml_tree::either_field(lib, "proc-macro"@, "proc_macro"@)) != Some(true)
            && (toml_tree::either_field(lib, "crate-type"@, "crate_type"@) matches Some(Toml::Array(_)))
            && toml_tree::texts_in(toml_tree::either_field(lib, "crate-type"@, "crate_type"@)).contains(x)
            ==> detected_types(types, lib).contains(x),
{
    if types == seq!["lib"@] {
        assert(types[0] == "lib"@);
        let r = detected_types(types, lib);
        if toml_tree::bool_in(toml_tree::either_field(lib, "proc-macro"@, "proc_macro"@)) == Some(true) {
            assert(r[0] == "proc-macro"@);
        } else if let Some(Toml::Array(a)) = toml_tree::either_field(lib, "crate-type"@, "crate_type"@) {
            let ts = toml_tree::texts_in(Some(Toml::Array(a)));
            if !(ts.contains("lib"@) || ts.contains("rlib"@) || ts.contains("proc-macro"@)) {
                assert(r[ts.len() as int] == "rlib"@);
                if ts.contains(x) {
                    let i = choose|i: int| 0 <= i < ts.len() && ts[i] == x;
                    assert(r[i] == x);
                }
            }
        }
    }
}

/// Without a manifest nothing changes, nor with one that cannot be read.
pub proof fn lemma_no_manifest(c: ConfigView, d: DiskView)
    ensures
        !disk::file_exists(d, "Cargo.toml"@) ==> detected(c, d) == c,
        disk::file_read(d, "Cargo.toml"@) is Err ==> detected(c, d) == c,
{
}

/// Each binary that a manifest lists, with the name, the path and the features that it gives it.
pub proof fn lemma_listed_bins(doc: Toml, items: Seq<Toml>, k: int)
    requires
        toml_tree::field(doc, "bin"@) == Some(Toml::Array(items)),
        0 <= k < items.len(),
    ensures
        bins_in(doc).len() == items.len(),
        bins_in(doc)[k].name == toml_tree::text_in(toml_tree::field(items[k], "name"@)),
        bins_in(doc)[k].path == toml_tree::text_in(toml_tree::field(items[k], "path"@)),
        bins_in(doc)[k].required_features == toml_tree::texts_in(toml_tree::field(items[k], "required-features"@)),
{
}

/// Options name an edition exactly if a word of theirs is `--edition` or begins with `--edition=`.
pub proof fn lemma_edition_named(opts: Seq<Seq<char>>, v: Seq<char>)
    ensures
        opts.contains("--edition"@) ==> names_edition(opts),
        opts.contains("--edition="@ + v) ==> names_edition(opts),
        (forall|i: int| 0 <= i < opts.len() ==> !text::has_prefix(#[trigger] opts[i], "--edition"@)) ==> !names_edition(opts),
{
    reveal_strlit("--edition");
    reveal_strlit("--edition=");
    if opts.contains("--edition"@) {
        let i = choose|i: int| 0 <= i < opts.len() && opts[i] == "--edition"@;
        assert(opts[i] == "--edition"@);
    }
    if opts.contains("--edition="@ + v) {
        text::lemma_after_prefix("--edition="@, v);
        let i = choose|i: int| 0 <= i < opts.len() && opts[i] == "--edition="@ + v;
        assert(text::has_prefix(opts[i], "--edition="@));
    }
    if names_edition(opts) {
        let i = choose|i: int|
            0 <= i < opts.len() && (#[trigger] opts[i] == "--edition"@ || text::has_prefix(opts[i], "--edition="@));
        assert("--edition"@.take(9) =~= "--edition"@);
        assert("--edition="@.take(9) =~= "--edition"@);
        if text::has_prefix(opts[i], "--edition="@) {
            assert(opts[i].take(10).take(9) =~= opts[i].take(9));
        }
        assert(text::has_prefix(opts[i], "--edition"@));
    }
}

/// What of an environment is kept for the compiler: the variables whose names begin with `CARGO_`, with their
/// values.
pub proof fn lemma_cargo_variables(env: Seq<(Seq<char>, Seq<char>)>, k: Seq<char>, v: Seq<char>)
    ensures
        sorted::keep(env, is_cargo_variable()).contains((k, v)) <==> env.contains((k, v)) && text::has_prefix(
            k,
            "CARGO_"@,
        ),
{
    let p = is_cargo_variable();
    let r = sorted::keep(env, p);
    sorted::lemma_keep_holds(env, p);
    if r.contains((k, v)) {
        let i = choose|i: int| 0 <= i < r.len() && r[i] == (k, v);
        assert(p(r[i]));
    }
    if env.contains((k, v)) && p((k, v)) {
        let i = choose|i: int| 0 <= i < env.len() && env[i] == (k, v);
        assert(p(env[i]));
    }
}

/// A file is the manifest of a crate exactly if it is a `Cargo.toml` whose package has the crate's name, or takes
/// its name from the workspace around it and that is the crate's.
pub proof fn lemma_manifest_of(dir: Seq<char>, file: Seq<char>, name: Seq<char>, d: DiskView, s: Seq<char>, doc: Toml, pkg: Toml)
    requires
        !file.contains('/'),
        disk::file_read(d, dir + "/"@ + file) == Ok::<Seq<char>, Seq<char>>(s),
        toml_tree::toml_parsed(s) == Ok::<Toml, Seq<char>>(doc),
        toml_tree::field(doc, "package"@) == Some(pkg),
    ensures
        file != "Cargo.toml"@ ==> !is_manifest_of(dir + "/"@ + file, name, d),
        file == "Cargo.toml"@ ==> (toml_tree::field(pkg, "name"@) matches Some(Toml::Text(n)) ==> (is_manifest_of(
            dir + "/"@ + file,
            name,
            d,
        ) <==> n == name)),
        file == "Cargo.toml"@ ==> (toml_tree::field(pkg, "name"@) is Some && toml_tree::field(pkg, "name"@)->0 is Table ==> (
        is_manifest_of(dir + "/"@ + file, name, d) <==> workspace_name_above(paths::dir_of(dir + "/"@ + file), d) == Some(
            name,
        ))),
        toml_tree::field(pkg, "name"@) is None ==> !is_manifest_of(dir + "/"@ + file, name, d),
{
    disk::lemma_file_names(dir, file, Seq::empty());
}

/// The name that a workspace gives its packages is that of the first manifest in the directories above: what
/// stands under `workspace.package.name` there, whatever stands further up.
pub proof fn lemma_workspace_name(dir: Seq<char>, up: Seq<char>, d: DiskView, s: Seq<char>, doc: Toml, ws: Toml, pkg: Toml, name: Seq<char>)
    requires
        paths::parent_of(dir) == Some(up),
    ensures
        disk::file_read(d, disk::joined_path(up, "Cargo.toml"@)) == Ok::<Seq<char>, Seq<char>>(s) && toml_tree::toml_parsed(s)
            == Ok::<Toml, Seq<char>>(doc) && toml_tree::field(doc, "workspace"@) == Some(ws) && toml_tree::field(
            ws,
            "package"@,
        ) == Some(pkg) && toml_tree::field(pkg, "name"@) == Some(Toml::Text(name)) ==> workspace_name_above(dir, d) == Some(
            name,
        ),
        !disk::file_exists(d, disk::joined_path(up, "Cargo.toml"@)) ==> workspace_name_above(dir, d) == workspace_name_above(
            up,
            d,
        ),
{
}

/// An edition may be a text or a number.
pub proof fn lemma_edition_in(pkg: Toml, s: Seq<char>, n: i64)
    ensures
        toml_tree::field(pkg, "edition"@) == Some(Toml::Text(s)) ==> edition_in(Some(pkg)) == Some(s),
        toml_tree::field(pkg, "edition"@) == Some(Toml::Integer(n)) && n >= 0 ==> edition_in(Some(pkg)) == Some(
            text::decimal(n as nat),
        ),
        toml_tree::field(pkg, "edition"@) is None ==> edition_in(Some(pkg)) is None,
{
}

} // verus!
