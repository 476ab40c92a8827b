//! The install phase: what of the build goes where.

use crate::build_rust_crate::config::{BuildConfig, ConfigView, CrateMetadata, CrateMetadataView};
use crate::disk;
use crate::resolve;
use crate::sorted;
use crate::sorted::StrMap;
use crate::text;
use vstd::prelude::*;

verus! {

/// Whether a file of `target/lib` is an artifact of the crate: it carries the crate's hash and is no
/// list of dependencies.
pub open spec fn is_artifact(metadata: Seq<char>) -> spec_fn(Seq<char>) -> bool {
    |name: Seq<char>| text::has_part(name, "-"@ + metadata + "."@) && !text::has_suffix(name, ".d"@)
}

/// What an installed crate says of itself.
pub open spec fn metadata_of(
    c: ConfigView,
    names: Seq<Seq<char>>,
    links_vars: Seq<(Seq<char>, Seq<char>)>,
) -> CrateMetadataView {
    CrateMetadataView {
        lib_name: resolve::normalized(c.lib_name),
        metadata: c.metadata,
        crate_types: c.crate_type,
        proc_macro: c.crate_type.contains("proc-macro"@),
        artifacts: sorted::sorted_by_key::<String>(sorted::keep(names, is_artifact(c.metadata))),
        links: c.crate_links,
        links_vars,
    }
}

/// The artifacts of a crate among the files of `target/lib`, in order.
pub fn artifacts_among(names: &Vec<String>, metadata: &str) -> (r: Vec<String>)
    ensures
        r.deep_view() == sorted::sorted_by_key::<String>(sorted::keep(names.deep_view(), is_artifact(metadata@))),
{
    let ghost s = names.deep_view();
    let ghost p = is_artifact(metadata@);
    let stem = text::cat3("-", metadata, ".");
    let mut out: Vec<String> = Vec::new();
    assert(out.deep_view() =~= sorted::keep(s.take(0), p));
    for i in 0..names.len()
        invariant
            s == names.deep_view(),
            p == is_artifact(metadata@),
            stem@ == "-"@ + metadata@ + "."@,
            out.deep_view() == sorted::keep(s.take(i as int), p),
    {
        proof {
            sorted::lemma_keep_step(s, p, i as int);
            assert(s[i as int] == names@[i as int]@);
        }
        if text::contains_text(&names[i], &stem) && !text::ends_with(&names[i], ".d") {
            sorted::push_text(&mut out, &names[i]);
        }
    }
    assert(s.take(s.len() as int) =~= s);
    sorted::sort_by_key(out)
}

/// What the crate says of itself to those that depend on it. `names` are the files of `target/lib`,
/// and `links_vars` what its build script passes on.
pub fn crate_metadata(config: &BuildConfig, names: &Vec<String>, links_vars: StrMap<String>) -> (r: CrateMetadata)
    ensures
        r.deep_view() == metadata_of(config.deep_view(), names.deep_view(), links_vars.deep_view()),
{
    CrateMetadata {
        lib_name: config.lib_name_normalized(),
        metadata: config.metadata.clone(),
        crate_types: sorted::copy_texts(&config.crate_type),
        proc_macro: sorted::has_text(&config.crate_type, "proc-macro"),
        artifacts: artifacts_among(names, &config.metadata),
        links: config.crate_links.clone(),
        links_vars,
    }
}

/// The artifacts that a crate lists are the files that carry its hash: none is lost, none is listed
/// that is not there, and they are in order.
pub proof fn lemma_artifacts(names: Seq<Seq<char>>, metadata: Seq<char>)
    ensures
        ({
            let kept = sorted::keep(names, is_artifact(metadata));
            let r = sorted::sorted_by_key::<String>(kept);
            &&& sorted::keys_in_order::<String>(r)
            &&& r.to_multiset() == kept.to_multiset()
        }),
{
    sorted::lemma_sorted_by_key::<String>(sorted::keep(names, is_artifact(metadata)));
}

/// A shared library that carries the hash.
pub open spec fn is_hashed_dylib(metadata: Seq<char>) -> spec_fn(Seq<char>) -> bool {
    |name: Seq<char>|
        (text::has_suffix(name, ".so"@) || text::has_suffix(name, ".dylib"@)) && text::has_part(name, "-"@ + metadata)
}

pub open spec fn without_hash(metadata: Seq<char>) -> spec_fn(Seq<char>) -> (Seq<char>, Seq<char>) {
    |name: Seq<char>| (name, text::with_part_replaced(name, "-"@ + metadata, ""@))
}

/// The shared libraries among the installed files, each with its name without the hash, under which
/// a link to it is made.
pub fn unhashed_links(names: &Vec<String>, metadata: &str) -> (r: Vec<(String, String)>)
    ensures
        r.deep_view() == sorted::keep(names.deep_view(), is_hashed_dylib(metadata@)).map_values(without_hash(metadata@)),
{
    let ghost s = names.deep_view();
    let ghost p = is_hashed_dylib(metadata@);
    let ghost f = without_hash(metadata@);
    let hash = text::cat2("-", metadata);
    proof {
        reveal_strlit("-");
        assert(hash@.len() > 0);
    }
    let mut out: Vec<(String, String)> = Vec::new();
    assert(out.deep_view() =~= sorted::keep(s.take(0), p).map_values(f));
    for i in 0..names.len()
        invariant
            s == names.deep_view(),
            p == is_hashed_dylib(metadata@),
            f == without_hash(metadata@),
            hash@ == "-"@ + metadata@,
            hash@.len() > 0,
            out.deep_view() == sorted::keep(s.take(i as int), p).map_values(f),
    {
        let ghost o = out.deep_view();
        proof {
            sorted::lemma_keep_step(s, p, i as int);
            assert(s[i as int] == names@[i as int]@);
        }
        if (text::ends_with(&names[i], ".so") || text::ends_with(&names[i], ".dylib")) && text::contains_text(
            &names[i],
            &hash,
        ) {
            out.push((names[i].clone(), text::replace_text(&names[i], &hash, "")));
            assert(out.deep_view() =~= o.push(f(s[i as int])));
            assert(sorted::keep(s.take(i + 1), p).map_values(f) =~= sorted::keep(s.take(i as int), p).map_values(
                f,
            ).push(f(s[i as int])));
        }
    }
    assert(s.take(s.len() as int) =~= s);
    out
}

/// Whether a file name has an extension that libraries and their lists have.
pub open spec fn is_lib_file(name: Seq<char>) -> bool {
    disk::extension(name) matches Some(e) && (e == "rlib"@ || e == "so"@ || e == "dylib"@ || e == "d"@)
}

/// Whether a file of the build is a test program: an executable file, and in `target/lib` no library.
pub fn is_test_binary(dir: &str, name: &str, is_file: bool, executable: bool) -> (r: bool)
    ensures
        r == (is_file && executable && !(dir@ == "target/lib"@ && is_lib_file(name@))),
{
    let is_lib = match disk::extension_of(name) {
        Some(e) => text::same(e, "rlib") || text::same(e, "so") || text::same(e, "dylib") || text::same(e, "d"),
        None => false,
    };
    is_file && executable && !(text::same(dir, "target/lib") && is_lib)
}

// ---------------------------------------------------------------------------
// The plan
// ---------------------------------------------------------------------------

/// What there is to install.
#[derive(Debug, Clone)]
pub struct Built {
    /// Whether `target/env` and `target/link.final` are there and not empty.
    pub env: bool,
    pub link_final: bool,
    /// Whether `target/lib`, `target/build` and `target/bin` hold anything.
    pub lib: bool,
    pub build: bool,
    pub bin: bool,
}

/// Where what goes. First the files are copied, then the library with links to it, then the other
/// trees.
#[derive(Debug, Clone)]
pub struct InstallPlan {
    pub dirs: Vec<String>,
    pub files: Vec<(String, String)>,
    /// Where the crate says what it is.
    pub metadata_path: String,
    pub lib_tree: Option<(String, String)>,
    pub trees: Vec<(String, String)>,
}

/// The view of an [`InstallPlan`].
pub struct InstallView {
    pub dirs: Seq<Seq<char>>,
    pub files: Seq<(Seq<char>, Seq<char>)>,
    pub metadata_path: Seq<char>,
    pub lib_tree: Option<(Seq<char>, Seq<char>)>,
    pub trees: Seq<(Seq<char>, Seq<char>)>,
}

impl DeepView for InstallPlan {
    type V = InstallView;

    open spec fn deep_view(&self) -> InstallView {
        InstallView {
            dirs: self.dirs.deep_view(),
            files: self.files.deep_view(),
            metadata_path: self.metadata_path@,
            lib_tree: self.lib_tree.deep_view(),
            trees: self.trees.deep_view(),
        }
    }
}

/// Where the library goes: to its own output, if there is one.
pub open spec fn lib_out_of(c: ConfigView, out: Seq<char>) -> Seq<char> {
    match sorted::entry_of(c.outputs, "lib"@) {
        Some(lib) => lib,
        None => out,
    }
}

pub open spec fn pair_if(on: bool, a: Seq<char>, b: Seq<char>) -> Seq<(Seq<char>, Seq<char>)> {
    if on {
        seq![(a, b)]
    } else {
        Seq::empty()
    }
}

pub open spec fn install_of(c: ConfigView, out: Seq<char>, b: Built) -> InstallView {
    let lib_out = lib_out_of(c, out);
    InstallView {
        dirs: seq![out, lib_out],
        files: pair_if(b.env, "target/env"@, lib_out + "/env"@) + pair_if(
            b.link_final,
            "target/link.final"@,
            lib_out + "/lib/link"@,
        ),
        metadata_path: lib_out + "/crate-metadata.json"@,
        lib_tree: if b.lib {
            Some(("target/lib"@, lib_out + "/lib"@))
        } else {
            None
        },
        trees: pair_if(b.build, "target/build"@, lib_out + "/lib"@) + pair_if(b.bin, "target/bin"@, out + "/bin"@),
    }
}

/// Where the library of a build goes.
pub fn lib_output(config: &BuildConfig) -> (r: &str)
    requires
        sorted::entry_of(config.outputs.deep_view(), "out"@) is Some,
    ensures
        r@ == lib_out_of(config.deep_view(), sorted::entry_of(config.outputs.deep_view(), "out"@).unwrap()),
{
    match config.lib_path_output() {
        Some(lib) => lib,
        None => config.out_path(),
    }
}

/// Decides where what goes.
pub fn install_plan(config: &BuildConfig, built: &Built) -> (r: InstallPlan)
    requires
        sorted::entry_of(config.outputs.deep_view(), "out"@) is Some,
    ensures
        r.deep_view() == install_of(
            config.deep_view(),
            sorted::entry_of(config.outputs.deep_view(), "out"@).unwrap(),
            *built,
        ),
{
    let out = config.out_path();
    let lib_out = lib_output(config);
    let mut dirs: Vec<String> = Vec::new();
    sorted::push_two(&mut dirs, out, lib_out);
    let mut files: Vec<(String, String)> = Vec::new();
    if built.env {
        files.push(("target/env".to_owned(), text::cat2(lib_out, "/env")));
    }
    if built.link_final {
        files.push(("target/link.final".to_owned(), text::cat2(lib_out, "/lib/link")));
    }
    let lib_tree = if built.lib {
        Some(("target/lib".to_owned(), text::cat2(lib_out, "/lib")))
    } else {
        None
    };
    let mut trees: Vec<(String, String)> = Vec::new();
    if built.build {
        trees.push(("target/build".to_owned(), text::cat2(lib_out, "/lib")));
    }
    if built.bin {
        trees.push(("target/bin".to_owned(), text::cat2(out, "/bin")));
    }
    let r = InstallPlan {
        dirs,
        files,
        metadata_path: text::cat2(lib_out, "/crate-metadata.json"),
        lib_tree,
        trees,
    };
    proof {
        let v = install_of(config.deep_view(), out@, *built);
        assert(r.dirs.deep_view() =~= v.dirs);
        assert(r.files.deep_view() =~= v.files);
        assert(r.trees.deep_view() =~= v.trees);
    }
    r
}

/// Where test programs go.
pub fn tests_dir(config: &BuildConfig) -> (r: String)
    requires
        sorted::entry_of(config.outputs.deep_view(), "out"@) is Some,
    ensures
        r@ == sorted::entry_of(config.outputs.deep_view(), "out"@).unwrap() + "/tests"@,
{
    text::cat2(config.out_path(), "/tests")
}

/// What is installed where, by name: the shell file and the link flags beside and in the library's output,
/// what the crate says of itself at its top, its library and what its script made below `lib`, and its
/// programs below `bin` of the main output; each exactly if it was built.
pub proof fn lemma_installed(c: ConfigView, out: Seq<char>, b: Built)
    ensures
        ({
            let lib_out = match sorted::entry_of(c.outputs, "lib"@) {
                Some(lib) => lib,
                None => out,
            };
            let r = install_of(c, out, b);
            &&& r.dirs.contains(out) && r.dirs.contains(lib_out) && r.dirs.len() == 2
            &&& sorted::entry_of(r.files, "target/env"@) == if b.env {
                Some(lib_out + "/env"@)
            } else {
                None
            }
            &&& sorted::entry_of(r.files, "target/link.final"@) == if b.link_final {
                Some(lib_out + "/lib/link"@)
            } else {
                None
            }
            &&& r.metadata_path == lib_out + "/crate-metadata.json"@
            &&& r.lib_tree == if b.lib {
                Some(("target/lib"@, lib_out + "/lib"@))
            } else {
                None
            }
            &&& sorted::entry_of(r.trees, "target/build"@) == if b.build {
                Some(lib_out + "/lib"@)
            } else {
                None
            }
            &&& sorted::entry_of(r.trees, "target/bin"@) == if b.bin {
                Some(out + "/bin"@)
            } else {
                None
            }
            &&& r.files.len() <= 2 && r.trees.len() <= 2
        }),
{
    let r = install_of(c, out, b);
    assert(r.dirs[0] == out && r.dirs[1] == lib_out_of(c, out));
    reveal_strlit("target/env");
    reveal_strlit("target/link.final");
    reveal_strlit("target/build");
    reveal_strlit("target/bin");
    assert("target/env"@.len() == 10 && "target/link.final"@.len() == 17 && "target/build"@.len() == 12 && "target/bin"@.len()
        == 10);
    let f = r.files;
    let t = r.trees;
    if b.env {
        sorted::lemma_entry_of_is(f, "target/env"@, 0);
    } else {
        sorted::lemma_entry_of_is(f, "target/env"@, f.len() as int);
    }
    if b.link_final {
        let i: int = if b.env {
            1
        } else {
            0
        };
        sorted::lemma_entry_of_is(f, "target/link.final"@, i);
    } else {
        sorted::lemma_entry_of_is(f, "target/link.final"@, f.len() as int);
    }
    if b.build {
        sorted::lemma_entry_of_is(t, "target/build"@, 0);
    } else {
        sorted::lemma_entry_of_is(t, "target/build"@, t.len() as int);
    }
    if b.bin {
        let i: int = if b.build {
            1
        } else {
            0
        };
        sorted::lemma_entry_of_is(t, "target/bin"@, i);
    } else {
        sorted::lemma_entry_of_is(t, "target/bin"@, t.len() as int);
    }
}

/// What a crate says of itself: the name under which rustc knows its library, its hash, its kinds, that it is
/// a proc macro exactly if that is one of them, what it links and passes on, and of the files those that
/// carry its hash and are no list of dependencies.
pub proof fn lemma_says_of_itself(
    c: ConfigView,
    names: Seq<Seq<char>>,
    links_vars: Seq<(Seq<char>, Seq<char>)>,
    n: Seq<char>,
)
    ensures
        ({
            let m = metadata_of(c, names, links_vars);
            &&& m.lib_name == resolve::normalized(c.lib_name)
            &&& m.metadata == c.metadata
            &&& m.crate_types == c.crate_type
            &&& m.proc_macro <==> c.crate_type.contains("proc-macro"@)
            &&& m.links == c.crate_links
            &&& m.links_vars == links_vars
            &&& m.artifacts.contains(n) <==> names.contains(n) && text::has_part(n, "-"@ + c.metadata + "."@)
                && !text::has_suffix(n, ".d"@)
        }),
{
    broadcast use vstd::seq_lib::group_to_multiset_ensures;

    let p = is_artifact(c.metadata);
    let kept = sorted::keep(names, p);
    let r = sorted::sorted_by_key::<String>(kept);
    sorted::lemma_sorted_by_key::<String>(kept);
    assert(r.contains(n) <==> r.to_multiset().count(n) > 0);
    assert(kept.contains(n) <==> kept.to_multiset().count(n) > 0);
    sorted::lemma_keep_holds(names, p);
    if kept.contains(n) {
        let i = choose|i: int| 0 <= i < kept.len() && kept[i] == n;
        assert(p(kept[i]));
    }
    if names.contains(n) && p(n) {
        let i = choose|i: int| 0 <= i < names.len() && names[i] == n;
        assert(p(names[i]));
    }
}

/// The file that rustc makes of a crate's library is one of its artifacts, as a shared library too, and one
/// with another hash is not.
pub proof fn lemma_library_is_artifact(metadata: Seq<char>, stem: Seq<char>)
    ensures
        is_artifact(metadata)(stem + "-"@ + metadata + ".rlib"@),
        is_artifact(metadata)(stem + "-"@ + metadata + ".so"@),
        !is_artifact(metadata)(stem + "-"@ + metadata + ".d"@),
{
    reveal_strlit(".");
    reveal_strlit(".rlib");
    reveal_strlit(".so");
    reveal_strlit(".d");
    let part = "-"@ + metadata + "."@;
    let i = stem.len() as int;
    let a = stem + "-"@ + metadata + ".rlib"@;
    let b = stem + "-"@ + metadata + ".so"@;
    let c = stem + "-"@ + metadata + ".d"@;
    assert(a.subrange(i, i + part.len()) =~= part);
    assert(b.subrange(i, i + part.len()) =~= part);
    assert(text::occurs_at(a, part, i));
    assert(text::occurs_at(b, part, i));
    assert(a.last() == 'b' && b.last() == 'o');
    if text::has_suffix(a, ".d"@) {
        assert(a.skip(a.len() - 2).last() == 'b');
        assert(".d"@.last() == 'd');
    }
    if text::has_suffix(b, ".d"@) {
        assert(b.skip(b.len() - 2).last() == 'o');
        assert(".d"@.last() == 'd');
    }
    text::lemma_before_suffix(stem + "-"@ + metadata, ".d"@);
}

/// Which links without the hash are made: for every shared library that carries it, under its name without
/// it, and for no other file.
pub proof fn lemma_links_without_hash(names: Seq<Seq<char>>, metadata: Seq<char>, e: (Seq<char>, Seq<char>))
    ensures
        sorted::keep(names, is_hashed_dylib(metadata)).map_values(without_hash(metadata)).contains(e) <==> names.contains(
            e.0,
        ) && (text::has_suffix(e.0, ".so"@) || text::has_suffix(e.0, ".dylib"@)) && text::has_part(e.0, "-"@ + metadata)
            && e.1 == text::with_part_replaced(e.0, "-"@ + metadata, Seq::empty()),
{
    reveal_strlit("");
    assert(""@ =~= Seq::<char>::empty());
    let p = is_hashed_dylib(metadata);
    let f = without_hash(metadata);
    let kept = sorted::keep(names, p);
    let all = kept.map_values(f);
    sorted::lemma_keep_holds(names, p);
    if all.contains(e) {
        let i = choose|i: int| 0 <= i < all.len() && all[i] == e;
        assert(e == f(kept[i]));
        assert(p(kept[i]));
    }
    if names.contains(e.0) && p(e.0) && e.1 == text::with_part_replaced(e.0, "-"@ + metadata, Seq::empty()) {
        let i = choose|i: int| 0 <= i < names.len() && names[i] == e.0;
        assert(p(names[i]));
        let j = choose|j: int| 0 <= j < kept.len() && kept[j] == e.0;
        assert(all[j] == e);
    }
}

/// What is installed of the library's directory goes by its extension: libraries, static and shared, and the
/// files that say what they were made from.
pub proof fn lemma_library_files(stem: Seq<char>, ext: Seq<char>)
    requires
        stem.len() > 0,
        !ext.contains('.'),
        !stem.contains('/'),
    ensures
        is_lib_file(stem + "."@ + ext) <==> ext == "rlib"@ || ext == "so"@ || ext == "dylib"@ || ext == "d"@,
        !is_lib_file(ext),
{
    disk::lemma_file_names(Seq::empty(), stem, ext);
}

} // verus!
