//! What an unpacked crate's manifest says that neither the lockfile nor the registry index knows,
//! as assignments for the shell that builds it.

use crate::disk;
use crate::disk::{Disk, DiskView};
use crate::lists;
use crate::paths;
use crate::shell;
use crate::sorted;
use crate::text;
use crate::toml_tree;
use crate::toml_tree::{Toml, Tree};
use vstd::prelude::*;

verus! {

// ---------------------------------------------------------------------------
// The manifest
// ---------------------------------------------------------------------------

/// The manifest at `path`, if it can be read and parsed.
pub open spec fn manifest_at(d: DiskView, path: Seq<char>) -> Option<Toml> {
    match disk::file_read(d, path) {
        Ok(s) => match toml_tree::toml_parsed(s) {
            Ok(doc) => Some(doc),
            Err(_) => None,
        },
        Err(_) => None,
    }
}

fn read_manifest(path: &str, disk: &Disk) -> (r: Option<Tree>)
    ensures
        r.deep_view() == manifest_at(disk.deep_view(), path@),
{
    match disk.read(path) {
        Ok(s) => match toml_tree::parse(&s) {
            Ok(doc) => Some(doc),
            Err(_) => None,
        },
        Err(_) => None,
    }
}

/// A text under a key of a table.
pub open spec fn text_under(t: Option<Toml>, key: Seq<char>) -> Option<Seq<char>> {
    toml_tree::text_in(toml_tree::opt_field(t, key))
}

fn pkg_str<'a>(pkg: Option<&'a Tree>, key: &str) -> (r: Option<&'a str>)
    ensures
        r.deep_view() == text_under(pkg.deep_view(), key@),
{
    toml_tree::str_in(toml_tree::get_in(pkg, key))
}

// ---------------------------------------------------------------------------
// Before the build script is compiled
// ---------------------------------------------------------------------------

/// The assignment of a value, if there is one.
pub open spec fn assigned(name: Seq<char>, value: Option<Seq<char>>) -> Seq<Seq<char>> {
    match value {
        Some(v) => seq![shell::assignment(name, v)],
        None => Seq::empty(),
    }
}

fn assign(out: &mut Vec<String>, name: &str, value: Option<&str>)
    ensures
        final(out).deep_view() == old(out).deep_view() + assigned(name@, value.deep_view()),
{
    let ghost o = out.deep_view();
    match value {
        Some(v) => {
            out.push(shell::shell_assign(name, v));
            assert(out.deep_view() =~= o + assigned(name@, value.deep_view()));
        },
        None => {
            assert(out.deep_view() =~= o + Seq::empty());
        },
    }
}

/// The build script: what the manifest names; nothing where it says that there is none; and without a
/// word `build.rs`, if it is there.
pub open spec fn script_named(pkg: Option<Toml>, dir: Seq<char>, d: DiskView) -> Option<Seq<char>> {
    match toml_tree::opt_field(pkg, "build"@) {
        Some(v) => toml_tree::text_in(Some(v)),
        None => if disk::file_exists(d, disk::joined_path(dir, "build.rs"@)) {
            Some("build.rs"@)
        } else {
            None
        },
    }
}

/// The authors, separated by colons, if there is a list of them.
pub open spec fn authors_in(pkg: Option<Toml>) -> Option<Seq<char>> {
    match toml_tree::opt_field(pkg, "authors"@) {
        Some(Toml::Array(a)) => Some(text::joined(toml_tree::texts_in(Some(Toml::Array(a))), ":"@)),
        _ => None,
    }
}

/// The kinds of library, separated by blanks, if any are named.
pub open spec fn types_in(lib: Option<Toml>) -> Option<Seq<char>> {
    let types = toml_tree::texts_in(toml_tree::either_field(lib, "crate-type"@, "crate_type"@));
    if types.len() > 0 {
        Some(text::joined(types, " "@))
    } else {
        None
    }
}

/// The assignments for the configure phase.
pub open spec fn configure_lines(doc: Toml, dir: Seq<char>, d: DiskView) -> Seq<Seq<char>> {
    let pkg = toml_tree::field(doc, "package"@);
    let lib = toml_tree::field(doc, "lib"@);
    assigned("CRATE_EDITION"@, text_under(pkg, "edition"@)) + assigned("CRATE_LINKS"@, text_under(pkg, "links"@))
        + assigned("CRATE_BUILD"@, script_named(pkg, dir, d)) + assigned(
        "CRATE_PKG_DESCRIPTION"@,
        text_under(pkg, "description"@),
    ) + assigned("CRATE_PKG_REPOSITORY"@, text_under(pkg, "repository"@)) + assigned(
        "CRATE_PKG_LICENSE"@,
        text_under(pkg, "license"@),
    ) + assigned("CRATE_PKG_HOMEPAGE"@, text_under(pkg, "homepage"@)) + assigned(
        "CRATE_PKG_README"@,
        text_under(pkg, "readme"@),
    ) + assigned("CRATE_PKG_RUST_VERSION"@, text_under(pkg, "rust-version"@)) + assigned(
        "CRATE_PKG_AUTHORS"@,
        authors_in(pkg),
    ) + assigned("CRATE_LIB_PATH"@, text_under(lib, "path"@)) + assigned("CRATE_LIB_NAME"@, text_under(lib, "name"@))
        + assigned("CRATE_LIB_TYPES"@, types_in(lib))
}

fn join_authors(pkg: Option<&Tree>) -> (r: Option<String>)
    ensures
        r.deep_view() == authors_in(pkg.deep_view()),
{
    let authors = toml_tree::get_in(pkg, "authors");
    match authors {
        Some(v) => {
            if v.as_array().is_some() {
                Some(text::join(&toml_tree::toml_str_array(authors), ":"))
            } else {
                None
            }
        },
        None => None,
    }
}

fn join_types(lib: Option<&Tree>) -> (r: Option<String>)
    ensures
        r.deep_view() == types_in(lib.deep_view()),
{
    let types = toml_tree::toml_str_array(toml_tree::get_either(lib, "crate-type", "crate_type"));
    if types.len() > 0 {
        Some(text::join(&types, " "))
    } else {
        None
    }
}

fn name_script(pkg: Option<&Tree>, dir: &str, disk: &Disk) -> (r: Option<String>)
    ensures
        r.deep_view() == script_named(pkg.deep_view(), dir@, disk.deep_view()),
{
    match toml_tree::get_in(pkg, "build") {
        Some(v) => match v.as_str() {
            Some(s) => Some(s.to_owned()),
            None => None,
        },
        None => {
            if disk.has(&disk::join_path(dir, "build.rs")) {
                Some("build.rs".to_owned())
            } else {
                None
            }
        },
    }
}

/// The assignments for the configure phase, one on each line. Without a manifest there are none, and
/// the values that the shell has stand.
pub fn configure(manifest_path: &str, disk: &Disk) -> (r: Vec<String>)
    ensures
        r.deep_view() == match manifest_at(disk.deep_view(), manifest_path@) {
            Some(doc) => configure_lines(doc, paths::dir_of(manifest_path@), disk.deep_view()),
            None => Seq::empty(),
        },
{
    let mut out: Vec<String> = Vec::new();
    assert(out.deep_view() =~= Seq::empty());
    let doc = match read_manifest(manifest_path, disk) {
        Some(doc) => doc,
        None => {
            return out;
        },
    };
    let pkg = doc.get("package");
    let lib = doc.get("lib");
    let dir = paths::parent_dir(manifest_path);
    assign(&mut out, "CRATE_EDITION", pkg_str(pkg, "edition"));
    assign(&mut out, "CRATE_LINKS", pkg_str(pkg, "links"));
    let script = name_script(pkg, &dir, disk);
    assign(&mut out, "CRATE_BUILD", text::opt_str(&script));
    assign(&mut out, "CRATE_PKG_DESCRIPTION", pkg_str(pkg, "description"));
    assign(&mut out, "CRATE_PKG_REPOSITORY", pkg_str(pkg, "repository"));
    assign(&mut out, "CRATE_PKG_LICENSE", pkg_str(pkg, "license"));
    assign(&mut out, "CRATE_PKG_HOMEPAGE", pkg_str(pkg, "homepage"));
    assign(&mut out, "CRATE_PKG_README", pkg_str(pkg, "readme"));
    assign(&mut out, "CRATE_PKG_RUST_VERSION", pkg_str(pkg, "rust-version"));
    let authors = join_authors(pkg);
    assign(&mut out, "CRATE_PKG_AUTHORS", text::opt_str(&authors));
    assign(&mut out, "CRATE_LIB_PATH", pkg_str(lib, "path"));
    assign(&mut out, "CRATE_LIB_NAME", pkg_str(lib, "name"));
    let types = join_types(lib);
    assign(&mut out, "CRATE_LIB_TYPES", text::opt_str(&types));
    assert(out.deep_view() =~= configure_lines(doc.deep_view(), dir@, disk.deep_view()));
    out
}

// ---------------------------------------------------------------------------
// Paths of dependencies
// ---------------------------------------------------------------------------

/// A file beside an artifact; a path with no directory has none.
pub open spec fn beside(path: Seq<char>, name: Seq<char>) -> Option<Seq<char>> {
    match paths::parent_of(path) {
        Some(dir) => Some(disk::joined_path(dir, name)),
        None => None,
    }
}

fn path_beside(path: &str, name: &str) -> (r: Option<String>)
    ensures
        r.deep_view() == beside(path@, name@),
{
    match paths::parent(path) {
        Some(dir) => Some(disk::join_path(&dir, name)),
        None => None,
    }
}

/// Whether a dependency is marked as a proc macro.
pub open spec fn marked_proc_macro(path: Seq<char>, d: DiskView) -> bool {
    beside(path, "proc-macro.marker"@) matches Some(p) && disk::file_exists(d, p)
}

/// Whether a dependency is a proc macro: a marker stands beside its artifact.
pub fn is_proc_macro_dep(rlib_path: &str, disk: &Disk) -> (r: bool)
    ensures
        r == marked_proc_macro(rlib_path@, disk.deep_view()),
{
    match path_beside(rlib_path, "proc-macro.marker") {
        Some(p) => disk.has(&p),
        None => false,
    }
}

/// The name of a dependency's library, where it differs from that of its crate and stands beside its
/// artifact.
pub open spec fn marked_lib_name(path: Seq<char>, d: DiskView) -> Option<Seq<char>> {
    match beside(path, "lib-name"@) {
        Some(p) => match disk::file_read(d, p) {
            Ok(s) => if text::trimmed(s).len() > 0 {
                Some(text::trimmed(s))
            } else {
                None
            },
            Err(_) => None,
        },
        None => None,
    }
}

fn real_lib_name(rlib_path: &str, disk: &Disk) -> (r: Option<String>)
    ensures
        r.deep_view() == marked_lib_name(rlib_path@, disk.deep_view()),
{
    match path_beside(rlib_path, "lib-name") {
        Some(p) => match disk.read(&p) {
            Ok(s) => {
                let t = text::trim(&s);
                if t.is_empty() {
                    None
                } else {
                    Some(t.to_owned())
                }
            },
            Err(_) => None,
        },
        None => None,
    }
}

/// What follows the name of the library in a file name: from the first hyphen behind `lib` on, else
/// all of it.
pub open spec fn file_tail(file: Seq<char>) -> Seq<char> {
    match text::after_prefix(file, "lib"@) {
        Some(rest) => match text::first_where(rest, text::is_the('-')) {
            Some(i) => rest.skip(i),
            None => file,
        },
        None => file,
    }
}

fn tail_of_file(file: &str) -> (r: String)
    ensures
        r@ == file_tail(file@),
{
    match text::strip_prefix(file, "lib") {
        Some(rest) => match text::split_once(rest, '-') {
            Some((_, after)) => {
                let r = text::cat2("-", after);
                proof {
                    reveal_strlit("-");
                    text::lemma_first_where(rest@, text::is_the('-'));
                    let i = text::first_where(rest@, text::is_the('-')).unwrap();
                    assert(r@ =~= rest@.skip(i));
                }
                r
            },
            None => file.to_owned(),
        },
        None => file.to_owned(),
    }
}

/// The path of an artifact under the name that its library has.
pub open spec fn renamed_path(path: Seq<char>, name: Seq<char>) -> Seq<char> {
    let (dir, file) = match text::cut_last(path, '/') {
        Some((a, b)) => (a, b),
        None => ("."@, path),
    };
    dir + "/lib"@ + name + file_tail(file)
}

/// A name and a path with what stands beside the artifact taken into account: first the name of the
/// library, then that a proc macro is a shared library.
pub open spec fn corrected(name: Seq<char>, path: Seq<char>, ext: Seq<char>, d: DiskView) -> (Seq<char>, Seq<char>) {
    let (name1, path1) = match marked_lib_name(path, d) {
        Some(own) => (own, renamed_path(path, own)),
        None => (name, path),
    };
    match text::before_suffix(path1, ".rlib"@) {
        Some(stem) => if marked_proc_macro(path1, d) {
            (name1, stem + ext)
        } else {
            (name1, path1)
        },
        None => (name1, path1),
    }
}

/// Whether anything that stands beside the artifact has to be taken into account.
pub open spec fn needs_correction(path: Seq<char>, d: DiskView) -> bool {
    let own = marked_lib_name(path, d);
    let path1 = match own {
        Some(own) => renamed_path(path, own),
        None => path,
    };
    own is Some || (text::has_suffix(path1, ".rlib"@) && marked_proc_macro(path1, d))
}

/// The corrected form of a word, if it is one that is to be corrected. Names with a colon are those of
/// the standard library, which is not found by path.
pub open spec fn corrected_word(word: Seq<char>, ext: Seq<char>, d: DiskView) -> Option<Seq<char>> {
    match text::cut_first(word, '=') {
        Some((name, path)) => if !name.contains(':') && needs_correction(path, d) {
            let (n, p) = corrected(name, path, ext, d);
            Some(n + "="@ + p)
        } else {
            None
        },
        None => None,
    }
}

pub open spec fn fixed_word(ext: Seq<char>, d: DiskView) -> spec_fn(Seq<char>) -> Seq<char> {
    |word: Seq<char>|
        match corrected_word(word, ext, d) {
            Some(w) => w,
            None => word,
        }
}

/// The options with every word corrected that is to be.
pub open spec fn fixed_options(opts: Seq<char>, ext: Seq<char>, d: DiskView) -> Seq<char> {
    text::joined(text::words(opts).map_values(fixed_word(ext, d)), " "@)
}

/// Whether any word of the options is to be corrected.
pub open spec fn any_corrected(words: Seq<Seq<char>>, ext: Seq<char>, d: DiskView) -> bool {
    exists|i: int| 0 <= i < words.len() && corrected_word(#[trigger] words[i], ext, d) is Some
}

/// The path of an artifact under the name that its library has, if that is marked.
pub open spec fn named_path(path: Seq<char>, d: DiskView) -> Seq<char> {
    match marked_lib_name(path, d) {
        Some(own) => renamed_path(path, own),
        None => path,
    }
}

/// The artifact that a word names, if it is one that may be corrected.
pub open spec fn artifact_of(word: Seq<char>) -> Option<Seq<char>> {
    match text::cut_first(word, '=') {
        Some((name, path)) => if name.contains(':') {
            None
        } else {
            Some(path)
        },
        None => None,
    }
}

pub open spec fn lib_name_file_at() -> spec_fn(Seq<char>) -> Option<Seq<char>> {
    |word: Seq<char>|
        match artifact_of(word) {
            Some(path) => beside(path, "lib-name"@),
            None => None,
        }
}

pub open spec fn marker_file_at(d: DiskView) -> spec_fn(Seq<char>) -> Option<Seq<char>> {
    |word: Seq<char>|
        match artifact_of(word) {
            Some(path) => beside(named_path(path, d), "proc-macro.marker"@),
            None => None,
        }
}

fn read_artifact(word: &str) -> (r: Option<&str>)
    ensures
        r.deep_view() == artifact_of(word@),
{
    match text::split_once(word, '=') {
        Some((name, path)) => {
            if text::contains_char(name, ':') {
                None
            } else {
                Some(path)
            }
        },
        None => None,
    }
}

/// The files that may name the libraries of the artifacts in `opts`.
pub fn lib_name_files(opts: &str) -> (r: Vec<String>)
    ensures
        r.deep_view() == text::words(opts@).filter_map(lib_name_file_at()),
{
    let words = text::split_whitespace(opts);
    let ghost s = words.deep_view();
    let ghost f = lib_name_file_at();
    let mut out: Vec<String> = Vec::new();
    assert(out.deep_view() =~= s.take(0).filter_map(f));
    for i in 0..words.len()
        invariant
            s == words.deep_view(),
            f == lib_name_file_at(),
            out.deep_view() == s.take(i as int).filter_map(f),
    {
        assert(s.take(i + 1).drop_last() =~= s.take(i as int));
        assert(s.take(i + 1).last() == words@[i as int]@);
        if let Some(path) = read_artifact(&words[i]) {
            if let Some(p) = path_beside(path, "lib-name") {
                sorted::push_text(&mut out, &p);
            }
        }
        assert(out.deep_view() =~= s.take(i + 1).filter_map(f));
    }
    assert(s.take(s.len() as int) =~= s);
    out
}

/// The files that may mark the artifacts in `opts` as proc macros. `disk` holds the files that name
/// libraries: an artifact is looked for under the name that its library has.
pub fn marker_files(opts: &str, disk: &Disk) -> (r: Vec<String>)
    ensures
        r.deep_view() == text::words(opts@).filter_map(marker_file_at(disk.deep_view())),
{
    let words = text::split_whitespace(opts);
    let ghost d = disk.deep_view();
    let ghost s = words.deep_view();
    let ghost f = marker_file_at(d);
    let mut out: Vec<String> = Vec::new();
    assert(out.deep_view() =~= s.take(0).filter_map(f));
    for i in 0..words.len()
        invariant
            d == disk.deep_view(),
            s == words.deep_view(),
            f == marker_file_at(d),
            out.deep_view() == s.take(i as int).filter_map(f),
    {
        assert(s.take(i + 1).drop_last() =~= s.take(i as int));
        assert(s.take(i + 1).last() == words@[i as int]@);
        if let Some(path) = read_artifact(&words[i]) {
            let named = match real_lib_name(path, disk) {
                Some(own) => rename_artifact(path, &own),
                None => path.to_owned(),
            };
            if let Some(p) = path_beside(&named, "proc-macro.marker") {
                sorted::push_text(&mut out, &p);
            }
        }
        assert(out.deep_view() =~= s.take(i + 1).filter_map(f));
    }
    assert(s.take(s.len() as int) =~= s);
    out
}

/// The files listed are all that counts: disks that agree on them correct the options alike.
pub proof fn lemma_listed_files_suffice(opts: Seq<char>, ext: Seq<char>, d: DiskView, e: DiskView)
    requires
        forall|p: Seq<char>|
            text::words(opts).filter_map(lib_name_file_at()).contains(p) ==> #[trigger] disk::same_at(d, e, p),
        forall|p: Seq<char>|
            text::words(opts).filter_map(marker_file_at(d)).contains(p) ==> #[trigger] disk::same_at(d, e, p),
    ensures
        fixed_options(opts, ext, d) == fixed_options(opts, ext, e),
        any_corrected(text::words(opts), ext, d) == any_corrected(text::words(opts), ext, e),
{
    let s = text::words(opts);
    assert forall|i: int| 0 <= i < s.len() implies corrected_word(#[trigger] s[i], ext, d) == corrected_word(
        s[i],
        ext,
        e,
    ) by {
        if let Some(path) = artifact_of(s[i]) {
            if let Some(p) = beside(path, "lib-name"@) {
                lists::lemma_filter_map_has(s, lib_name_file_at(), i, p);
                assert(disk::same_at(d, e, p));
            }
            assert(marked_lib_name(path, d) == marked_lib_name(path, e));
            if let Some(p) = beside(named_path(path, d), "proc-macro.marker"@) {
                lists::lemma_filter_map_has(s, marker_file_at(d), i, p);
                assert(disk::same_at(d, e, p));
            }
        }
    }
    assert(s.map_values(fixed_word(ext, d)) =~= s.map_values(fixed_word(ext, e)));
}

fn rename_artifact(path: &str, own: &str) -> (r: String)
    ensures
        r@ == renamed_path(path@, own@),
{
    let (dir, file) = match text::rsplit_once(path, '/') {
        Some((a, b)) => (a, b),
        None => (".", path),
    };
    text::cat4(dir, "/lib", own, &tail_of_file(file))
}

fn fix_word(word: &str, shared_lib_ext: &str, disk: &Disk) -> (r: Option<String>)
    ensures
        r.deep_view() == corrected_word(word@, shared_lib_ext@, disk.deep_view()),
{
    let (name, path) = match text::split_once(word, '=') {
        Some((name, path)) => (name, path),
        None => {
            return None;
        },
    };
    if text::contains_char(name, ':') {
        return None;
    }
    let mut touched = false;
    let mut out_name = name.to_owned();
    let mut out_path = path.to_owned();
    if let Some(own) = real_lib_name(path, disk) {
        out_path = rename_artifact(path, &own);
        out_name = own;
        touched = true;
    }
    let fixed = match text::strip_suffix(&out_path, ".rlib") {
        Some(stem) => {
            if is_proc_macro_dep(&out_path, disk) {
                Some(text::cat2(stem, shared_lib_ext))
            } else {
                None
            }
        },
        None => None,
    };
    if let Some(p) = fixed {
        out_path = p;
        touched = true;
    }
    if touched {
        Some(text::cat3(&out_name, "=", &out_path))
    } else {
        None
    }
}

/// Corrects the `--extern` options: a dependency whose library has another name than its crate, and a
/// proc macro, which is a shared library. `changed` is set if anything was corrected.
pub fn fixup_extern_paths(opts: &str, shared_lib_ext: &str, changed: &mut bool, disk: &Disk) -> (r: String)
    ensures
        r@ == fixed_options(opts@, shared_lib_ext@, disk.deep_view()),
        *final(changed) == (*old(changed) || any_corrected(text::words(opts@), shared_lib_ext@, disk.deep_view())),
{
    let ghost d = disk.deep_view();
    let ghost e = shared_lib_ext@;
    let words = text::split_whitespace(opts);
    let ghost s = words.deep_view();
    let ghost full = s.map_values(fixed_word(e, d));
    let mut out: Vec<String> = Vec::new();
    let mut any = false;
    assert(out.deep_view() =~= full.take(0));
    for i in 0..words.len()
        invariant
            d == disk.deep_view(),
            e == shared_lib_ext@,
            s == words.deep_view(),
            full == s.map_values(fixed_word(e, d)),
            out.deep_view() == full.take(i as int),
            any == any_corrected(s.take(i as int), e, d),
    {
        let ghost o = out.deep_view();
        let ghost before = s.take(i as int);
        assert(s[i as int] == words@[i as int]@);
        match fix_word(&words[i], shared_lib_ext, disk) {
            Some(w) => {
                out.push(w);
                any = true;
                assert(s.take(i + 1)[i as int] == s[i as int]);
            },
            None => {
                out.push(words[i].clone());
                proof {
                    if any_corrected(before, e, d) {
                        let k = choose|k: int| 0 <= k < before.len() && corrected_word(#[trigger] before[k], e, d) is Some;
                        assert(s.take(i + 1)[k] == before[k]);
                    }
                    if any_corrected(s.take(i + 1), e, d) {
                        let k = choose|k: int|
                            0 <= k < s.take(i + 1).len() && corrected_word(#[trigger] s.take(i + 1)[k], e, d) is Some;
                        assert(k < i);
                        assert(before[k] == s.take(i + 1)[k]);
                    }
                }
            },
        }
        assert(out.deep_view() =~= o.push(full[i as int]));
        assert(full.take(i + 1) =~= full.take(i as int).push(full[i as int]));
    }
    proof {
        assert(full.take(s.len() as int) =~= full);
        assert(s.take(s.len() as int) =~= s);
    }
    if any {
        *changed = true;
    }
    text::join(&out, " ")
}

/// The assignment of the corrected build dependencies, if anything in them was corrected.
pub fn fixup_deps(deps_opts: &str, shared_lib_ext: &str, disk: &Disk) -> (r: Option<String>)
    ensures
        r.deep_view() == if any_corrected(text::words(deps_opts@), shared_lib_ext@, disk.deep_view()) {
            Some(
                shell::assignment("BUILD_DEPS"@, fixed_options(deps_opts@, shared_lib_ext@, disk.deep_view())),
            )
        } else {
            None
        },
{
    let mut changed = false;
    let fixed = fixup_extern_paths(deps_opts, shared_lib_ext, &mut changed, disk);
    if changed {
        Some(shell::shell_assign("BUILD_DEPS", &fixed))
    } else {
        None
    }
}

/// A word beside whose path nothing is marked stays as it is, and so does one without a path and one
/// that names a crate of the standard library.
pub proof fn lemma_unmarked_words_stay(word: Seq<char>, ext: Seq<char>, d: DiskView)
    ensures
        match text::cut_first(word, '=') {
            Some((name, path)) => name.contains(':') || (marked_lib_name(path, d) is None && !marked_proc_macro(
                path,
                d,
            )) ==> fixed_word(ext, d)(word) == word,
            None => fixed_word(ext, d)(word) == word,
        },
{
}

proof fn lemma_tail_within(file: Seq<char>)
    requires
        !file.contains('/'),
    ensures
        !file_tail(file).contains('/'),
{
    let tail = file_tail(file);
    if let Some(rest) = text::after_prefix(file, "lib"@) {
        text::lemma_first_where(rest, text::is_the('-'));
        if let Some(i) = text::first_where(rest, text::is_the('-')) {
            let n = "lib"@.len() as int;
            assert(tail =~= file.skip(n + i));
        }
    }
    if tail.contains('/') {
        let k = choose|k: int| 0 <= k < tail.len() && tail[k] == '/';
        if tail != file {
            let n = file.len() - tail.len();
            assert(file[n + k] == tail[k]);
        }
    }
}

/// A proc macro whose library has a name of its own gets both corrections: the name, and the suffix of
/// a shared library.
pub proof fn lemma_both_corrections(
    name: Seq<char>,
    dir: Seq<char>,
    file: Seq<char>,
    own: Seq<char>,
    ext: Seq<char>,
    d: DiskView,
)
    requires
        dir.len() > 0,
        !file.contains('/'),
        !own.contains('/'),
        text::has_suffix(file_tail(file), ".rlib"@),
        marked_lib_name(dir.push('/') + file, d) == Some(own),
        marked_proc_macro(dir.push('/') + file, d),
    ensures
        corrected(name, dir.push('/') + file, ext, d) == (
            own,
            dir + "/lib"@ + own + file_tail(file).take(file_tail(file).len() - ".rlib"@.len()) + ext,
        ),
{
    let path = dir.push('/') + file;
    let tail = file_tail(file);
    lemma_cut_at(dir, file);
    lemma_tail_within(file);
    let path1 = dir + "/lib"@ + own + tail;
    assert(renamed_path(path, own) == path1);
    reveal_strlit("/lib");
    reveal_strlit(".rlib");
    reveal_strlit("/");
    let file1 = seq!['l', 'i', 'b'] + own + tail;
    assert(path1 =~= dir.push('/') + file1);
    assert(!file1.contains('/')) by {
        if file1.contains('/') {
            let k = choose|k: int| 0 <= k < file1.len() && file1[k] == '/';
            if k >= 3 && k < 3 + own.len() {
                assert(own[k - 3] == '/');
            } else if k >= 3 + own.len() {
                assert(tail[k - 3 - own.len()] == '/');
            }
        }
    }
    lemma_cut_at(dir, file1);
    assert(!paths::is_no_name(file)) by {
        if let Some(rest) = text::after_prefix(file, "lib"@) {
            text::lemma_first_where(rest, text::is_the('-'));
        }
    }
    paths::lemma_parent_in(dir, file);
    paths::lemma_parent_in(dir, file1);
    assert(marked_proc_macro(path1, d));
    assert(path1.skip(path1.len() - 5) =~= tail.skip(tail.len() - 5));
    assert(path1.take(path1.len() - 5) =~= dir + "/lib"@ + own + tail.take(tail.len() - 5));
}

proof fn lemma_cut_at(dir: Seq<char>, file: Seq<char>)
    requires
        !file.contains('/'),
    ensures
        text::cut_last(dir.push('/') + file, '/') == Some((dir, file)),
{
    let path = dir.push('/') + file;
    assert forall|j: int| dir.len() < j < path.len() implies path[j] != '/' by {
        assert(path[j] == file[j - dir.len() - 1]);
    }
    text::lemma_last_place_is(path, '/', dir.len() as int);
    assert(path.take(dir.len() as int) =~= dir);
    assert(path.skip(dir.len() as int + 1) =~= file);
}

// ---------------------------------------------------------------------------
// Before the crate is compiled
// ---------------------------------------------------------------------------

/// Whether the library is a proc macro.
pub open spec fn says_proc_macro(lib: Option<Toml>) -> bool {
    toml_tree::bool_in(toml_tree::either_field(lib, "proc-macro"@, "proc_macro"@)) == Some(true)
}

pub open spec fn type_flag() -> spec_fn(Seq<char>) -> Seq<char> {
    |t: Seq<char>| "--crate-type "@ + t
}

/// One option for each kind of library that is named.
pub open spec fn type_flags(lib: Option<Toml>) -> Seq<char> {
    text::joined(
        toml_tree::texts_in(toml_tree::either_field(lib, "crate-type"@, "crate_type"@)).map_values(type_flag()),
        " "@,
    )
}

/// The options of a proc macro.
pub open spec fn macro_options(opts: Seq<char>) -> Seq<char> {
    let o = text::with_part_replaced(opts, "--crate-type lib"@, "--crate-type proc-macro"@);
    if text::words(o).contains("proc_macro"@) {
        o
    } else {
        o + " --extern proc_macro"@
    }
}

/// The options of the library with the kinds that the manifest names, and whether they changed. That
/// it is a proc macro goes before any list of kinds.
pub open spec fn typed_options(opts: Seq<char>, lib: Option<Toml>) -> (Seq<char>, bool) {
    let flags = type_flags(lib);
    if says_proc_macro(lib) {
        (macro_options(opts), true)
    } else if flags.len() > 0 && text::has_part(opts, "--crate-type lib"@) {
        (text::with_part_replaced(opts, "--crate-type lib"@, flags), true)
    } else {
        (opts, false)
    }
}

/// What is added to the options for the edition: nothing if they have one.
pub open spec fn edition_added(lib_opts: Seq<char>, pkg: Option<Toml>) -> Option<Seq<char>> {
    match text_under(pkg, "edition"@) {
        Some(e) => if text::has_part(lib_opts, "--edition"@) {
            None
        } else {
            Some(" --edition "@ + e)
        },
        None => None,
    }
}

pub open spec fn with_added(opts: Seq<char>, more: Option<Seq<char>>) -> Seq<char> {
    match more {
        Some(m) => opts + m,
        None => opts,
    }
}

/// The assignment of corrected options, if they changed or anything in them is corrected.
pub open spec fn options_line(name: Seq<char>, opts: Seq<char>, changed: bool, ext: Seq<char>, d: DiskView) -> Seq<
    Seq<char>,
> {
    if changed || any_corrected(text::words(opts), ext, d) {
        seq![shell::assignment(name, fixed_options(opts, ext, d))]
    } else {
        Seq::empty()
    }
}

/// The assignments for the build phase.
pub open spec fn build_lines(
    doc: Option<Toml>,
    lib_opts: Seq<char>,
    bin_opts: Seq<char>,
    ext: Seq<char>,
    d: DiskView,
) -> Seq<Seq<char>> {
    match doc {
        Some(doc) => {
            let pkg = toml_tree::field(doc, "package"@);
            let lib = toml_tree::field(doc, "lib"@);
            let more = edition_added(lib_opts, pkg);
            let (typed, changed) = typed_options(with_added(lib_opts, more), lib);
            (if says_proc_macro(lib) {
                seq!["CRATE_IS_PROC_MACRO=1"@]
            } else {
                Seq::empty()
            }) + assigned("LIB_PATH"@, text_under(lib, "path"@)) + assigned("CRATE_NAME"@, text_under(lib, "name"@))
                + options_line("LIB_RUSTC_OPTS"@, typed, changed || more is Some, ext, d) + options_line(
                "BIN_RUSTC_OPTS"@,
                with_added(bin_opts, more),
                more is Some,
                ext,
                d,
            )
        },
        None => options_line("LIB_RUSTC_OPTS"@, lib_opts, false, ext, d) + options_line(
            "BIN_RUSTC_OPTS"@,
            bin_opts,
            false,
            ext,
            d,
        ),
    }
}

fn join_type_flags(lib: Option<&Tree>) -> (r: String)
    ensures
        r@ == type_flags(lib.deep_view()),
{
    let types = toml_tree::toml_str_array(toml_tree::get_either(lib, "crate-type", "crate_type"));
    let ghost s = types.deep_view();
    let ghost full = s.map_values(type_flag());
    let mut out: Vec<String> = Vec::new();
    assert(out.deep_view() =~= full.take(0));
    for i in 0..types.len()
        invariant
            s == types.deep_view(),
            full == s.map_values(type_flag()),
            out.deep_view() == full.take(i as int),
    {
        let ghost o = out.deep_view();
        assert(s[i as int] == types@[i as int]@);
        out.push(text::cat2("--crate-type ", &types[i]));
        assert(out.deep_view() =~= o.push(full[i as int]));
        assert(full.take(i + 1) =~= full.take(i as int).push(full[i as int]));
    }
    assert(full.take(s.len() as int) =~= full);
    text::join(&out, " ")
}

fn set_types(opts: String, lib: Option<&Tree>) -> (r: (String, bool))
    ensures
        (r.0@, r.1) == typed_options(opts@, lib.deep_view()),
{
    proof {
        reveal_strlit("--crate-type lib");
    }
    let is_macro = match toml_tree::flag_in(toml_tree::get_either(lib, "proc-macro", "proc_macro")) {
        Some(b) => b,
        None => false,
    };
    if is_macro {
        let o = text::replace_text(&opts, "--crate-type lib", "--crate-type proc-macro");
        let words = text::split_whitespace(&o);
        if sorted::has_text(&words, "proc_macro") {
            (o, true)
        } else {
            (text::cat2(&o, " --extern proc_macro"), true)
        }
    } else {
        let flags = join_type_flags(lib);
        if !flags.as_str().is_empty() && text::contains_text(&opts, "--crate-type lib") {
            (text::replace_text(&opts, "--crate-type lib", &flags), true)
        } else {
            (opts, false)
        }
    }
}

fn assign_options(out: &mut Vec<String>, name: &str, opts: &str, changed: bool, shared_lib_ext: &str, disk: &Disk)
    ensures
        final(out).deep_view() == old(out).deep_view() + options_line(
            name@,
            opts@,
            changed,
            shared_lib_ext@,
            disk.deep_view(),
        ),
{
    let ghost o = out.deep_view();
    let mut any = changed;
    let fixed = fixup_extern_paths(opts, shared_lib_ext, &mut any, disk);
    if any {
        out.push(shell::shell_assign(name, &fixed));
    }
    assert(out.deep_view() =~= o + options_line(name@, opts@, changed, shared_lib_ext@, disk.deep_view()));
}

/// The assignments for the build phase, one on each line: the options with the edition and the kinds
/// of library that the manifest names, and with the paths of dependencies corrected.
pub fn build(manifest_path: &str, lib_opts: &str, bin_opts: &str, shared_lib_ext: &str, disk: &Disk) -> (r: Vec<String>)
    ensures
        r.deep_view() == build_lines(
            manifest_at(disk.deep_view(), manifest_path@),
            lib_opts@,
            bin_opts@,
            shared_lib_ext@,
            disk.deep_view(),
        ),
{
    let mut out: Vec<String> = Vec::new();
    let mut lib_text = lib_opts.to_owned();
    let mut bin_text = bin_opts.to_owned();
    let mut lib_changed = false;
    let mut bin_changed = false;
    if let Some(doc) = read_manifest(manifest_path, disk) {
        let pkg = doc.get("package");
        let lib = doc.get("lib");
        if let Some(edition) = pkg_str(pkg, "edition") {
            if !text::contains_text(lib_opts, "--edition") {
                let flag = text::cat2(" --edition ", edition);
                lib_text = text::cat2(&lib_text, &flag);
                bin_text = text::cat2(&bin_text, &flag);
                lib_changed = true;
                bin_changed = true;
            }
        }
        let is_macro = match toml_tree::flag_in(toml_tree::get_either(lib, "proc-macro", "proc_macro")) {
            Some(b) => b,
            None => false,
        };
        if is_macro {
            sorted::push_text(&mut out, "CRATE_IS_PROC_MACRO=1");
        }
        let (typed, changed) = set_types(lib_text, lib);
        lib_text = typed;
        lib_changed = lib_changed || changed;
        assign(&mut out, "LIB_PATH", pkg_str(lib, "path"));
        assign(&mut out, "CRATE_NAME", pkg_str(lib, "name"));
    }
    assign_options(&mut out, "LIB_RUSTC_OPTS", &lib_text, lib_changed, shared_lib_ext, disk);
    assign_options(&mut out, "BIN_RUSTC_OPTS", &bin_text, bin_changed, shared_lib_ext, disk);
    assert(out.deep_view() =~= build_lines(
        manifest_at(disk.deep_view(), manifest_path@),
        lib_opts@,
        bin_opts@,
        shared_lib_ext@,
        disk.deep_view(),
    ));
    out
}

/// Without a manifest, and with nothing marked, nothing is assigned: what the shell has stands.
pub proof fn lemma_nothing_to_say(lib_opts: Seq<char>, bin_opts: Seq<char>, ext: Seq<char>, d: DiskView)
    requires
        !any_corrected(text::words(lib_opts), ext, d),
        !any_corrected(text::words(bin_opts), ext, d),
    ensures
        build_lines(None, lib_opts, bin_opts, ext, d).len() == 0,
{
}

// ---------------------------------------------------------------------------
// What is assigned
// ---------------------------------------------------------------------------

/// Before the script is compiled every value that the manifest has is assigned to its variable.
pub proof fn lemma_configure_assigns(doc: Toml, dir: Seq<char>, d: DiskView, pkg: Toml, lib: Toml, v: Seq<char>)
    requires
        toml_tree::field(doc, "package"@) == Some(pkg),
        toml_tree::field(doc, "lib"@) == Some(lib),
    ensures
        ({
            let r = configure_lines(doc, dir, d);
            let said = Some(Toml::Text(v));
            let value = "="@ + shell::shell_quoted(v);
            &&& toml_tree::field(pkg, "edition"@) == said ==> r.contains("CRATE_EDITION"@ + value)
            &&& toml_tree::field(pkg, "links"@) == said ==> r.contains("CRATE_LINKS"@ + value)
            &&& toml_tree::field(pkg, "build"@) == said ==> r.contains("CRATE_BUILD"@ + value)
            &&& toml_tree::field(pkg, "description"@) == said ==> r.contains("CRATE_PKG_DESCRIPTION"@ + value)
            &&& toml_tree::field(pkg, "repository"@) == said ==> r.contains("CRATE_PKG_REPOSITORY"@ + value)
            &&& toml_tree::field(pkg, "license"@) == said ==> r.contains("CRATE_PKG_LICENSE"@ + value)
            &&& toml_tree::field(pkg, "homepage"@) == said ==> r.contains("CRATE_PKG_HOMEPAGE"@ + value)
            &&& toml_tree::field(pkg, "readme"@) == said ==> r.contains("CRATE_PKG_README"@ + value)
            &&& toml_tree::field(pkg, "rust-version"@) == said ==> r.contains("CRATE_PKG_RUST_VERSION"@ + value)
            &&& toml_tree::field(lib, "path"@) == said ==> r.contains("CRATE_LIB_PATH"@ + value)
            &&& toml_tree::field(lib, "name"@) == said ==> r.contains("CRATE_LIB_NAME"@ + value)
        }),
{
    let p = toml_tree::field(doc, "package"@);
    let l = toml_tree::field(doc, "lib"@);
    let s1 = assigned("CRATE_EDITION"@, text_under(p, "edition"@));
    let s2 = assigned("CRATE_LINKS"@, text_under(p, "links"@));
    let s3 = assigned("CRATE_BUILD"@, script_named(p, dir, d));
    let s4 = assigned("CRATE_PKG_DESCRIPTION"@, text_under(p, "description"@));
    let s5 = assigned("CRATE_PKG_REPOSITORY"@, text_under(p, "repository"@));
    let s6 = assigned("CRATE_PKG_LICENSE"@, text_under(p, "license"@));
    let s7 = assigned("CRATE_PKG_HOMEPAGE"@, text_under(p, "homepage"@));
    let s8 = assigned("CRATE_PKG_README"@, text_under(p, "readme"@));
    let s9 = assigned("CRATE_PKG_RUST_VERSION"@, text_under(p, "rust-version"@));
    let s10 = assigned("CRATE_PKG_AUTHORS"@, authors_in(p));
    let s11 = assigned("CRATE_LIB_PATH"@, text_under(l, "path"@));
    let s12 = assigned("CRATE_LIB_NAME"@, text_under(l, "name"@));
    let s13 = assigned("CRATE_LIB_TYPES"@, types_in(l));
    assert forall|x: Seq<char>|
        s1.contains(x) || s2.contains(x) || s3.contains(x) || s4.contains(x) || s5.contains(x) || s6.contains(x)
            || s7.contains(x) || s8.contains(x) || s9.contains(x) || s11.contains(x) || s12.contains(x) implies (
    #[trigger] configure_lines(doc, dir, d).contains(x)) by {
        lists::lemma_concat_among(s1, s2, s3, s4, s5, s6, s7, s8, x);
        let a = s1 + s2 + s3 + s4 + s5 + s6 + s7 + s8;
        lists::lemma_concat_among(a, s9, s10, s11, s12, s13, Seq::empty(), Seq::empty(), x);
        assert(a + s9 + s10 + s11 + s12 + s13 + Seq::empty() + Seq::empty() =~= configure_lines(doc, dir, d));
    }
    lemma_assigned_is("CRATE_EDITION"@, text_under(p, "edition"@), v);
    lemma_assigned_is("CRATE_LINKS"@, text_under(p, "links"@), v);
    lemma_assigned_is("CRATE_BUILD"@, script_named(p, dir, d), v);
    lemma_assigned_is("CRATE_PKG_DESCRIPTION"@, text_under(p, "description"@), v);
    lemma_assigned_is("CRATE_PKG_REPOSITORY"@, text_under(p, "repository"@), v);
    lemma_assigned_is("CRATE_PKG_LICENSE"@, text_under(p, "license"@), v);
    lemma_assigned_is("CRATE_PKG_HOMEPAGE"@, text_under(p, "homepage"@), v);
    lemma_assigned_is("CRATE_PKG_README"@, text_under(p, "readme"@), v);
    lemma_assigned_is("CRATE_PKG_RUST_VERSION"@, text_under(p, "rust-version"@), v);
    lemma_assigned_is("CRATE_LIB_PATH"@, text_under(l, "path"@), v);
    lemma_assigned_is("CRATE_LIB_NAME"@, text_under(l, "name"@), v);
}

proof fn lemma_assigned_is(name: Seq<char>, value: Option<Seq<char>>, v: Seq<char>)
    ensures
        value == Some(v) ==> assigned(name, value).contains(name + ("="@ + shell::shell_quoted(v))),
{
    if value == Some(v) {
        assert(name + "="@ + shell::shell_quoted(v) =~= name + ("="@ + shell::shell_quoted(v)));
        assert(assigned(name, value)[0] == name + ("="@ + shell::shell_quoted(v)));
    }
}

/// The authors are assigned with colons between them, the kinds of library with blanks, and without a word the
/// script is `build.rs` if it is there.
pub proof fn lemma_configure_lists(doc: Toml, dir: Seq<char>, d: DiskView, pkg: Toml, lib: Toml, a: Seq<char>, b: Seq<char>)
    requires
        toml_tree::field(doc, "package"@) == Some(pkg),
        toml_tree::field(doc, "lib"@) == Some(lib),
    ensures
        ({
            let r = configure_lines(doc, dir, d);
            let two = Some(Toml::Array(seq![Toml::Text(a), Toml::Text(b)]));
            &&& toml_tree::field(pkg, "authors"@) == two ==> r.contains(
                "CRATE_PKG_AUTHORS"@ + ("="@ + shell::shell_quoted(a + ":"@ + b)),
            )
            &&& toml_tree::field(lib, "crate-type"@) == two ==> r.contains(
                "CRATE_LIB_TYPES"@ + ("="@ + shell::shell_quoted(a + " "@ + b)),
            )
            &&& toml_tree::field(lib, "crate-type"@) is None && toml_tree::field(lib, "crate_type"@) == two ==> r.contains(
                "CRATE_LIB_TYPES"@ + ("="@ + shell::shell_quoted(a + " "@ + b)),
            )
            &&& toml_tree::field(pkg, "build"@) is None && disk::file_exists(d, disk::joined_path(dir, "build.rs"@))
                ==> r.contains("CRATE_BUILD"@ + ("="@ + shell::shell_quoted("build.rs"@)))
        }),
{
    lemma_two_texts(a, b);
    let p = toml_tree::field(doc, "package"@);
    let l = toml_tree::field(doc, "lib"@);
    lemma_assigned_is("CRATE_PKG_AUTHORS"@, authors_in(p), a + ":"@ + b);
    lemma_assigned_is("CRATE_LIB_TYPES"@, types_in(l), a + " "@ + b);
    lemma_assigned_is("CRATE_BUILD"@, script_named(p, dir, d), "build.rs"@);
    lemma_configure_parts(doc, dir, d, "CRATE_PKG_AUTHORS"@ + ("="@ + shell::shell_quoted(a + ":"@ + b)));
    lemma_configure_parts(doc, dir, d, "CRATE_LIB_TYPES"@ + ("="@ + shell::shell_quoted(a + " "@ + b)));
    lemma_configure_parts(doc, dir, d, "CRATE_BUILD"@ + ("="@ + shell::shell_quoted("build.rs"@)));
}

proof fn lemma_two_texts(a: Seq<char>, b: Seq<char>)
    ensures
        ({
            let texts = toml_tree::texts_in(Some(Toml::Array(seq![Toml::Text(a), Toml::Text(b)])));
            &&& texts == seq![a, b]
            &&& text::joined(texts, ":"@) == a + ":"@ + b
            &&& text::joined(texts, " "@) == a + " "@ + b
        }),
{
    let items = seq![Toml::Text(a), Toml::Text(b)];
    let none = Seq::<Toml>::empty();
    toml_tree::lemma_texts(none, a, Toml::Float);
    toml_tree::lemma_texts(none.push(Toml::Text(a)), b, Toml::Float);
    assert(none.push(Toml::Text(a)).push(Toml::Text(b)) =~= items);
    let texts = toml_tree::texts_in(Some(Toml::Array(items)));
    assert(texts =~= seq![a, b]);
    reveal_with_fuel(text::joined, 2);
    assert(texts.drop_last() =~= seq![a]);
}

proof fn lemma_configure_parts(doc: Toml, dir: Seq<char>, d: DiskView, x: Seq<char>)
    ensures
        assigned("CRATE_BUILD"@, script_named(toml_tree::field(doc, "package"@), dir, d)).contains(x) || assigned(
            "CRATE_PKG_AUTHORS"@,
            authors_in(toml_tree::field(doc, "package"@)),
        ).contains(x) || assigned("CRATE_LIB_TYPES"@, types_in(toml_tree::field(doc, "lib"@))).contains(x)
            ==> configure_lines(doc, dir, d).contains(x),
{
    let p = toml_tree::field(doc, "package"@);
    let l = toml_tree::field(doc, "lib"@);
    let s1 = assigned("CRATE_EDITION"@, text_under(p, "edition"@));
    let s2 = assigned("CRATE_LINKS"@, text_under(p, "links"@));
    let s3 = assigned("CRATE_BUILD"@, script_named(p, dir, d));
    let s4 = assigned("CRATE_PKG_DESCRIPTION"@, text_under(p, "description"@));
    let s5 = assigned("CRATE_PKG_REPOSITORY"@, text_under(p, "repository"@));
    let s6 = assigned("CRATE_PKG_LICENSE"@, text_under(p, "license"@));
    let s7 = assigned("CRATE_PKG_HOMEPAGE"@, text_under(p, "homepage"@));
    let s8 = assigned("CRATE_PKG_README"@, text_under(p, "readme"@));
    let s9 = assigned("CRATE_PKG_RUST_VERSION"@, text_under(p, "rust-version"@));
    let s10 = assigned("CRATE_PKG_AUTHORS"@, authors_in(p));
    let s11 = assigned("CRATE_LIB_PATH"@, text_under(l, "path"@));
    let s12 = assigned("CRATE_LIB_NAME"@, text_under(l, "name"@));
    let s13 = assigned("CRATE_LIB_TYPES"@, types_in(l));
    lists::lemma_concat_among(s1, s2, s3, s4, s5, s6, s7, s8, x);
    let a = s1 + s2 + s3 + s4 + s5 + s6 + s7 + s8;
    lists::lemma_concat_among(a, s9, s10, s11, s12, s13, Seq::empty(), Seq::empty(), x);
    assert(a + s9 + s10 + s11 + s12 + s13 + Seq::empty() + Seq::empty() =~= configure_lines(doc, dir, d));
}

/// Before the crate is compiled its library's path and name are assigned if the manifest has them, and it is
/// marked as a proc macro exactly if the manifest says so.
pub proof fn lemma_build_assigns(
    doc: Toml,
    lib: Toml,
    lib_opts: Seq<char>,
    bin_opts: Seq<char>,
    ext: Seq<char>,
    d: DiskView,
    v: Seq<char>,
)
    requires
        toml_tree::field(doc, "lib"@) == Some(lib),
    ensures
        ({
            let r = build_lines(Some(doc), lib_opts, bin_opts, ext, d);
            let said = Some(Toml::Text(v));
            let value = "="@ + shell::shell_quoted(v);
            &&& toml_tree::field(lib, "path"@) == said ==> r.contains("LIB_PATH"@ + value)
            &&& toml_tree::field(lib, "name"@) == said ==> r.contains("CRATE_NAME"@ + value)
            &&& toml_tree::field(lib, "proc-macro"@) == Some(Toml::Boolean(true)) ==> r.contains("CRATE_IS_PROC_MACRO=1"@)
            &&& toml_tree::field(lib, "proc-macro"@) is None && toml_tree::field(lib, "proc_macro"@) == Some(
                Toml::Boolean(true),
            ) ==> r.contains("CRATE_IS_PROC_MACRO=1"@)
        }),
{
    let p = toml_tree::field(doc, "package"@);
    let l = toml_tree::field(doc, "lib"@);
    let more = edition_added(lib_opts, p);
    let (typed, changed) = typed_options(with_added(lib_opts, more), l);
    let s1 = if says_proc_macro(l) {
        seq!["CRATE_IS_PROC_MACRO=1"@]
    } else {
        Seq::empty()
    };
    let s2 = assigned("LIB_PATH"@, text_under(l, "path"@));
    let s3 = assigned("CRATE_NAME"@, text_under(l, "name"@));
    let s4 = options_line("LIB_RUSTC_OPTS"@, typed, changed || more is Some, ext, d);
    let s5 = options_line("BIN_RUSTC_OPTS"@, with_added(bin_opts, more), more is Some, ext, d);
    let e = Seq::<Seq<char>>::empty();
    assert(s1 + s2 + s3 + s4 + s5 + e + e + e =~= build_lines(Some(doc), lib_opts, bin_opts, ext, d));
    assert forall|x: Seq<char>| s1.contains(x) || s2.contains(x) || s3.contains(x) implies (#[trigger] build_lines(
        Some(doc),
        lib_opts,
        bin_opts,
        ext,
        d,
    ).contains(x)) by {
        lists::lemma_concat_among(s1, s2, s3, s4, s5, e, e, e, x);
    }
    if says_proc_macro(l) {
        assert(s1[0] == "CRATE_IS_PROC_MACRO=1"@);
    }
    lemma_assigned_is("LIB_PATH"@, text_under(l, "path"@), v);
    lemma_assigned_is("CRATE_NAME"@, text_under(l, "name"@), v);
}

/// The edition that the manifest has is added to the options of the library and of the programs alike, unless
/// the options name one.
pub proof fn lemma_edition_for_both(
    doc: Toml,
    pkg: Toml,
    lib_opts: Seq<char>,
    bin_opts: Seq<char>,
    ext: Seq<char>,
    d: DiskView,
    v: Seq<char>,
)
    requires
        toml_tree::field(doc, "package"@) == Some(pkg),
        toml_tree::field(doc, "lib"@) is None,
        toml_tree::field(pkg, "edition"@) == Some(Toml::Text(v)),
        !text::has_part(lib_opts, "--edition"@),
    ensures
        ({
            let r = build_lines(Some(doc), lib_opts, bin_opts, ext, d);
            &&& r.len() == 2
            &&& r[0] == "LIB_RUSTC_OPTS"@ + "="@ + shell::shell_quoted(
                fixed_options(lib_opts + " --edition "@ + v, ext, d),
            )
            &&& r[1] == "BIN_RUSTC_OPTS"@ + "="@ + shell::shell_quoted(
                fixed_options(bin_opts + " --edition "@ + v, ext, d),
            )
        }),
{
    let l = toml_tree::field(doc, "lib"@);
    assert(toml_tree::texts_in(toml_tree::either_field(l, "crate-type"@, "crate_type"@)) =~= Seq::<Seq<char>>::empty());
    assert(type_flags(l) =~= Seq::<char>::empty());
    assert(lib_opts + (" --edition "@ + v) =~= lib_opts + " --edition "@ + v);
    assert(bin_opts + (" --edition "@ + v) =~= bin_opts + " --edition "@ + v);
}

/// A proc macro is compiled as one, whatever kinds are listed, and with the compiler's own crate for it named
/// once.
pub proof fn lemma_macro_options(opts: Seq<char>, lib: Toml)
    requires
        !text::has_part(opts, "--crate-type lib"@),
        toml_tree::field(lib, "proc-macro"@) == Some(Toml::Boolean(true)),
    ensures
        ({
            let o = "--crate-type proc-macro"@ + opts;
            let t = typed_options("--crate-type lib"@ + opts, Some(lib));
            &&& t.1
            &&& text::words(o).contains("proc_macro"@) ==> t.0 == o
            &&& !text::words(o).contains("proc_macro"@) ==> t.0 == o + " --extern proc_macro"@
        }),
{
    reveal_strlit("--crate-type lib");
    text::lemma_part_replaced("--crate-type lib"@, opts, "--crate-type proc-macro"@);
}

/// A library of one listed kind is compiled as that kind, and options that name no kind stay as they are.
pub proof fn lemma_listed_kind(opts: Seq<char>, lib: Toml, kind: Seq<char>)
    requires
        !text::has_part(opts, "--crate-type lib"@),
        toml_tree::field(lib, "proc-macro"@) is None,
        toml_tree::field(lib, "proc_macro"@) is None,
        toml_tree::field(lib, "crate-type"@) == Some(Toml::Array(seq![Toml::Text(kind)])),
    ensures
        typed_options("--crate-type lib"@ + opts, Some(lib)) == ("--crate-type "@ + kind + opts, true),
        typed_options(opts, Some(lib)) == (opts, false),
{
    reveal_strlit("--crate-type lib");
    reveal_strlit("--crate-type ");
    let p = "--crate-type lib"@;
    let s = p + opts;
    assert(s.subrange(0, p.len() as int) =~= p);
    assert(text::occurs_at(s, p, 0));
    let none = Seq::<Toml>::empty();
    toml_tree::lemma_texts(none, kind, Toml::Float);
    assert(none.push(Toml::Text(kind)) =~= seq![Toml::Text(kind)]);
    let texts = toml_tree::texts_in(toml_tree::either_field(Some(lib), "crate-type"@, "crate_type"@));
    assert(texts =~= seq![kind]);
    assert(texts.map_values(type_flag())[0] == "--crate-type "@ + kind);
    assert(type_flags(Some(lib)) == "--crate-type "@ + kind);
    text::lemma_part_replaced(p, opts, "--crate-type "@ + kind);
}

/// A library with a name of its own is found in the same directory under that name: only what stands between
/// `lib` and the first hyphen of the file name changes.
pub proof fn lemma_renamed(dir: Seq<char>, stem: Seq<char>, tail: Seq<char>, own: Seq<char>)
    requires
        !stem.contains('-'),
        !stem.contains('/'),
        !tail.contains('/'),
    ensures
        renamed_path(dir + "/lib"@ + stem + "-"@ + tail, own) == dir + "/lib"@ + own + "-"@ + tail,
{
    reveal_strlit("/lib");
    reveal_strlit("lib");
    reveal_strlit("-");
    let file = "lib"@ + stem + "-"@ + tail;
    let rest = stem + "-"@ + tail;
    assert(file =~= "lib"@ + rest);
    assert(dir + "/lib"@ + stem + "-"@ + tail =~= dir.push('/') + file);
    assert(!file.contains('/')) by {
        if file.contains('/') {
            let i = choose|i: int| 0 <= i < file.len() && file[i] == '/';
            if i < 3 {
                assert(file[i] == "lib"@[i]);
            } else if i < 3 + stem.len() {
                assert(stem[i - 3] == '/');
            } else if i > 3 + stem.len() {
                assert(tail[i - 4 - stem.len()] == '/');
            }
        }
    }
    text::lemma_cut_last_at(dir, '/', file);
    text::lemma_after_prefix("lib"@, rest);
    assert forall|j: int| 0 <= j < stem.len() implies !text::is_the('-')(#[trigger] rest[j]) by {
        assert(rest[j] == stem[j]);
        assert(stem.contains(stem[j]));
    }
    assert(rest[stem.len() as int] == '-');
    text::lemma_first_where_is(rest, text::is_the('-'), stem.len() as int);
    assert(file_tail(file) =~= "-"@ + tail);
    assert(dir + "/lib"@ + own + ("-"@ + tail) =~= dir + "/lib"@ + own + "-"@ + tail);
}

/// A proc macro is a shared library, and anything else what it was; what is marked stands beside the artifact,
/// in files of its directory.
pub proof fn lemma_marks(name: Seq<char>, stem: Seq<char>, dir: Seq<char>, ext: Seq<char>, d: DiskView)
    requires
        paths::parent_of(stem + ".rlib"@) == Some(dir),
    ensures
        marked_proc_macro(stem + ".rlib"@, d) <==> disk::file_exists(d, disk::joined_path(dir, "proc-macro.marker"@)),
        marked_lib_name(stem + ".rlib"@, d) is Some ==> disk::file_exists(d, disk::joined_path(dir, "lib-name"@)),
        marked_lib_name(stem + ".rlib"@, d) matches Some(own) ==> own.len() > 0,
        marked_lib_name(stem + ".rlib"@, d) is None ==> corrected(name, stem + ".rlib"@, ext, d) == (
            name,
            if marked_proc_macro(stem + ".rlib"@, d) {
                stem + ext
            } else {
                stem + ".rlib"@
            },
        ),
{
    text::lemma_before_suffix(stem, ".rlib"@);
}

} // verus!
