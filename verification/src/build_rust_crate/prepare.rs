//! The configure phase as a whole: what is laid out before the build script, how the script is
//! compiled and run, and what is kept of its output.

use crate::build_rust_crate::build_script;
use crate::build_rust_crate::build_script::{DepFiles, DepFilesView, ScriptRun};
use crate::build_rust_crate::config::{BuildConfig, ConfigView, CrateMetadata, CrateMetadataView};
use crate::build_rust_crate::configure;
use crate::build_rust_crate::rustc;
use crate::disk;
use crate::lists;
use crate::resolve;
use crate::sorted;
use crate::sorted::StrMap;
use crate::text;
use vstd::prelude::*;

verus! {

// ---------------------------------------------------------------------------
// Before the script
// ---------------------------------------------------------------------------

/// What is laid out before anything is compiled.
#[derive(Debug, Clone)]
pub struct Preparation {
    /// The directories to make.
    pub dirs: Vec<String>,
    /// The links to make: what each points to, and where it stands.
    pub symlinks: Vec<(String, String)>,
    /// The files to write, with their text.
    pub files: Vec<(String, String)>,
}

/// The view of a [`Preparation`].
pub struct PreparationView {
    pub dirs: Seq<Seq<char>>,
    pub symlinks: Seq<(Seq<char>, Seq<char>)>,
    pub files: Seq<(Seq<char>, Seq<char>)>,
}

impl DeepView for Preparation {
    type V = PreparationView;

    open spec fn deep_view(&self) -> PreparationView {
        PreparationView {
            dirs: self.dirs.deep_view(),
            symlinks: self.symlinks.deep_view(),
            files: self.files.deep_view(),
        }
    }
}

pub open spec fn link_at(path: Seq<char>, target: Seq<char>) -> spec_fn(Seq<char>) -> (Seq<char>, Seq<char>) {
    |art: Seq<char>| (disk::joined_path(disk::joined_path(path, "lib"@), art), disk::joined_path(target, art))
}

/// The links to the artifacts of one dependency; it lists them itself.
pub open spec fn links_to(dep: (Seq<char>, DepFilesView), target: Seq<char>) -> Seq<(Seq<char>, Seq<char>)> {
    match dep.1.metadata {
        Some(m) => m.artifacts.map_values(link_at(dep.0, target)),
        None => Seq::empty(),
    }
}

pub open spec fn links_to_at(target: Seq<char>) -> spec_fn((Seq<char>, DepFilesView)) -> Seq<(Seq<char>, Seq<char>)> {
    |dep: (Seq<char>, DepFilesView)| links_to(dep, target)
}

fn symlink_libs(out: &mut Vec<(String, String)>, path: &str, dep: &DepFiles, target: &str)
    ensures
        final(out).deep_view() == old(out).deep_view() + links_to((path@, dep.deep_view()), target@),
{
    let ghost start = out.deep_view();
    match &dep.metadata {
        Some(m) => {
            let ghost s = m.artifacts.deep_view();
            let ghost full = s.map_values(link_at(path@, target@));
            let lib = disk::join_path(path, "lib");
            assert(out.deep_view() =~= start + full.take(0));
            for i in 0..m.artifacts.len()
                invariant
                    s == m.artifacts.deep_view(),
                    full == s.map_values(link_at(path@, target@)),
                    lib@ == disk::joined_path(path@, "lib"@),
                    out.deep_view() == start + full.take(i as int),
            {
                let ghost o = out.deep_view();
                assert(s[i as int] == m.artifacts@[i as int]@);
                out.push((disk::join_path(&lib, &m.artifacts[i]), disk::join_path(target, &m.artifacts[i])));
                assert(out.deep_view() =~= o.push(full[i as int]));
                assert(full.take(i + 1) =~= full.take(i as int).push(full[i as int]));
            }
            assert(full.take(s.len() as int) =~= full);
        },
        None => {
            assert(out.deep_view() =~= start + Seq::empty());
        },
    }
}

fn symlink_all(out: &mut Vec<(String, String)>, paths: &Vec<String>, deps: &Vec<DepFiles>, target: &str)
    requires
        paths.len() == deps.len(),
    ensures
        final(out).deep_view() == old(out).deep_view() + lists::flat(
            paths.deep_view().zip_with(deps.deep_view()),
            links_to_at(target@),
        ),
{
    let ghost start = out.deep_view();
    let ghost z = paths.deep_view().zip_with(deps.deep_view());
    let ghost f = links_to_at(target@);
    assert(out.deep_view() =~= start + lists::flat(z.take(0), f));
    for i in 0..paths.len()
        invariant
            paths.len() == deps.len(),
            z == paths.deep_view().zip_with(deps.deep_view()),
            f == links_to_at(target@),
            out.deep_view() == start + lists::flat(z.take(i as int), f),
    {
        assert(z.take(i + 1).drop_last() =~= z.take(i as int));
        assert(z.take(i + 1).last() == (paths@[i as int]@, deps@[i as int].deep_view()));
        symlink_libs(out, &paths[i], &deps[i], target);
        assert(out.deep_view() =~= start + lists::flat(z.take(i + 1), f));
    }
    assert(z.take(z.len() as int) =~= z);
}

/// What is laid out before anything is compiled: directories, links to the artifacts of the
/// dependencies, and the files of link flags.
pub open spec fn prepared(c: ConfigView, deps: Seq<DepFilesView>, build_deps: Seq<DepFilesView>) -> PreparationView {
    let link = build_script::files_added(build_script::own_flags(c.extra_link_flags), deps);
    let build_link = build_script::files_added(Seq::empty(), build_deps);
    PreparationView {
        dirs: seq!["target/deps"@, "target/lib"@, "target/build"@, "target/buildDeps"@],
        symlinks: lists::flat(c.complete_deps.zip_with(deps), links_to_at("target/deps"@)) + lists::flat(
            c.complete_build_deps.zip_with(build_deps),
            links_to_at("target/buildDeps"@),
        ),
        files: seq![
            ("target/link"@, build_script::flags_file(link)),
            ("target/link.final"@, build_script::flags_file(link)),
        ] + (if build_link.len() > 0 {
            seq![("target/link.build"@, build_script::flags_file(build_link))]
        } else {
            Seq::empty()
        }) + seq![("target/link_"@, text::joined(link, " "@))],
    }
}

/// Decides what is laid out before anything is compiled. `deps` and `build_deps` hold what was read
/// of each dependency in `config.complete_deps` and `config.complete_build_deps`.
pub fn prepare(config: &BuildConfig, deps: &Vec<DepFiles>, build_deps: &Vec<DepFiles>) -> (r: Preparation)
    requires
        config.complete_deps.len() == deps.len(),
        config.complete_build_deps.len() == build_deps.len(),
    ensures
        r.deep_view() == prepared(config.deep_view(), deps.deep_view(), build_deps.deep_view()),
{
    let mut dirs: Vec<String> = Vec::new();
    sorted::push_two(&mut dirs, "target/deps", "target/lib");
    sorted::push_two(&mut dirs, "target/build", "target/buildDeps");
    let mut symlinks: Vec<(String, String)> = Vec::new();
    symlink_all(&mut symlinks, &config.complete_deps, deps, "target/deps");
    symlink_all(&mut symlinks, &config.complete_build_deps, build_deps, "target/buildDeps");
    let plan = build_script::plan_link_flags(&config.extra_link_flags, deps, build_deps);
    let mut files: Vec<(String, String)> = Vec::new();
    files.push(("target/link".to_owned(), build_script::flags_text(&plan.link)));
    files.push(("target/link.final".to_owned(), build_script::flags_text(&plan.link_final)));
    if plan.build_link.len() > 0 {
        files.push(("target/link.build".to_owned(), build_script::flags_text(&plan.build_link)));
    }
    files.push(("target/link_".to_owned(), text::join(&plan.link, " ")));
    let r = Preparation { dirs, symlinks, files };
    proof {
        let v = prepared(config.deep_view(), deps.deep_view(), build_deps.deep_view());
        assert(r.dirs.deep_view() =~= v.dirs);
        assert(r.symlinks.deep_view() =~= v.symlinks);
        assert(r.files.deep_view() =~= v.files);
    }
    r
}

// ---------------------------------------------------------------------------
// Compiling and running the script
// ---------------------------------------------------------------------------

/// How the build script is compiled and run.
#[derive(Debug, Clone)]
pub struct ScriptJob {
    /// What is said before it is compiled.
    pub message: String,
    /// Where it is compiled to, and where it writes to.
    pub build_dir: String,
    pub out_dir: String,
    /// The arguments of rustc.
    pub args: Vec<String>,
    /// The program to run.
    pub program: String,
}

/// The view of a [`ScriptJob`].
pub struct ScriptJobView {
    pub message: Seq<char>,
    pub build_dir: Seq<char>,
    pub out_dir: Seq<char>,
    pub args: Seq<Seq<char>>,
    pub program: Seq<char>,
}

impl DeepView for ScriptJob {
    type V = ScriptJobView;

    open spec fn deep_view(&self) -> ScriptJobView {
        ScriptJobView {
            message: self.message@,
            build_dir: self.build_dir@,
            out_dir: self.out_dir@,
            args: self.args.deep_view(),
            program: self.program@,
        }
    }
}

/// How the build script is compiled and run, if there is one.
pub open spec fn script_job_of(
    c: ConfigView,
    has_build_rs: bool,
    metas: Seq<CrateMetadataView>,
    build_link: Option<Seq<char>>,
) -> Option<ScriptJobView> {
    match build_script::script_of(c.build, has_build_rs) {
        Some(script) => {
            let build_dir = "target/build/"@ + c.crate_name;
            Some(
                ScriptJobView {
                    message: "Building "@ + script + " ("@ + c.lib_name + ")"@,
                    build_dir,
                    out_dir: "target/build/"@ + c.crate_name + ".out"@,
                    args: build_script::script_args(
                        c,
                        script,
                        build_dir,
                        rustc::extern_args(c.build_dep_externs, metas, "target/buildDeps"@),
                        build_link,
                    ),
                    program: build_dir + "/build_script_build"@,
                },
            )
        },
        None => None,
    }
}

/// Decides how the build script is compiled and run, if there is one. `metas` holds what each
/// dependency in `config.build_dep_externs` says of itself, and `build_link` is the text of the link
/// flags gathered for the script.
pub fn script_job(
    config: &BuildConfig,
    has_build_rs: bool,
    metas: &Vec<CrateMetadata>,
    build_link: &Option<String>,
) -> (r: Option<ScriptJob>)
    requires
        config.build_dep_externs.len() == metas.len(),
    ensures
        r.deep_view() == script_job_of(config.deep_view(), has_build_rs, metas.deep_view(), build_link.deep_view()),
{
    match build_script::build_script(config, has_build_rs) {
        Some(script) => {
            let build_dir = text::cat2("target/build/", &config.crate_name);
            let externs = rustc::dep_extern_args(&config.build_dep_externs, metas, "target/buildDeps");
            let args = build_script::build_script_args(config, &script, &build_dir, &externs, build_link);
            Some(
                ScriptJob {
                    message: text::cat5("Building ", &script, " (", &config.lib_name, ")"),
                    out_dir: text::cat3("target/build/", &config.crate_name, ".out"),
                    args,
                    program: text::cat2(&build_dir, "/build_script_build"),
                    build_dir,
                },
            )
        },
        None => None,
    }
}

pub open spec fn feature_on() -> spec_fn(Seq<char>) -> (Seq<char>, Seq<char>) {
    |name: Seq<char>| (name, "1"@)
}

/// The variables with which the build script runs: those with which it was compiled, those that
/// dependencies pass on, and one for each feature.
pub open spec fn run_env(
    c: ConfigView,
    env: Seq<(Seq<char>, Seq<char>)>,
    deps: Seq<DepFilesView>,
    build_deps: Seq<DepFilesView>,
) -> Seq<(Seq<char>, Seq<char>)> {
    sorted::map_of(
        seq![("RUST_BACKTRACE"@, "1"@)] + env + build_script::dep_env(deps, build_deps) + c.crate_features.map_values(
            configure::feature_variable_at(),
        ).map_values(feature_on()),
    )
}

/// The variables with which the build script runs. `env` are those with which it was compiled.
pub fn script_run_env(
    config: &BuildConfig,
    env: &StrMap<String>,
    deps: &Vec<DepFiles>,
    build_deps: &Vec<DepFiles>,
) -> (r: StrMap<String>)
    ensures
        r.deep_view() == run_env(config.deep_view(), env.deep_view(), deps.deep_view(), build_deps.deep_view()),
        r.wf(),
{
    let mut list: Vec<(String, String)> = Vec::new();
    list.push(("RUST_BACKTRACE".to_owned(), "1".to_owned()));
    let ghost a = list.deep_view();
    assert(a =~= seq![("RUST_BACKTRACE"@, "1"@)]);
    let ghost e = env.deep_view();
    assert(list.deep_view() =~= a + e.take(0));
    for i in 0..env.entries.len()
        invariant
            e == env.entries.deep_view(),
            list.deep_view() == a + e.take(i as int),
    {
        let ghost o = list.deep_view();
        assert(e[i as int] == env.entries@[i as int].deep_view());
        list.push((env.entries[i].0.clone(), env.entries[i].1.clone()));
        assert(list.deep_view() =~= o.push(e[i as int]));
        assert(e.take(i + 1) =~= e.take(i as int).push(e[i as int]));
    }
    assert(e.take(e.len() as int) =~= e);
    let mut links = build_script::dep_links_env(deps, build_deps);
    let ghost b = links.deep_view();
    list.append(&mut links.entries);
    assert(list.deep_view() =~= a + e + b);
    let names = configure::feature_variables(&config.crate_features);
    let ghost s = names.deep_view();
    let ghost full = s.map_values(feature_on());
    assert(list.deep_view() =~= a + e + b + full.take(0));
    for i in 0..names.len()
        invariant
            s == names.deep_view(),
            full == s.map_values(feature_on()),
            list.deep_view() == a + e + b + full.take(i as int),
    {
        let ghost o = list.deep_view();
        assert(s[i as int] == names@[i as int]@);
        list.push((names[i].clone(), "1".to_owned()));
        assert(list.deep_view() =~= o.push(full[i as int]));
        assert(full.take(i + 1) =~= full.take(i as int).push(full[i as int]));
    }
    assert(full.take(s.len() as int) =~= full);
    StrMap::from_list(list)
}

// ---------------------------------------------------------------------------
// After the script
// ---------------------------------------------------------------------------

/// What is kept of a build script's output.
#[derive(Debug, Clone)]
pub struct ScriptResult {
    pub run: ScriptRun,
    /// What it passes on to dependents, if it does so: the values, and the shell file that sets them.
    pub links: Option<(StrMap<String>, String)>,
}

/// The values that a build script passes on to dependents. It does so only for a package that says
/// which library it links, and not if it ended with an error.
pub open spec fn links_kept(
    crate_links: Seq<char>,
    stdout: Seq<char>,
    failed: bool,
) -> Option<(Seq<(Seq<char>, Seq<char>)>, Seq<char>)> {
    let vars = sorted::map_of(text::lines(stdout).filter_map(build_script::links_pair_at()));
    if failed || crate_links.len() == 0 || vars.len() == 0 {
        None
    } else {
        Some((vars, text::joined(vars.map_values(build_script::export_at(crate_links)), "\n"@)))
    }
}

/// Reads the output of a build script that ran, and decides what is kept of it.
pub fn after_script(config: &BuildConfig, stdout: &str, out_dir: &str, cwd: &str) -> (r: ScriptResult)
    ensures
        ({
            let s = build_script::script_read(text::lines(stdout@), out_dir@, cwd@);
            &&& r.run.outputs.deep_view() == build_script::outputs_of(s)
            &&& r.run.outputs.envs.wf()
            &&& r.run.outputs.link_args_bin.wf()
            &&& r.run.warnings.deep_view() == s.warnings
            &&& r.run.error.deep_view() == s.error
            &&& r.links.deep_view() == links_kept(config.crate_links@, stdout@, s.error is Some)
            &&& r.links matches Some(kept) ==> kept.0.wf()
        }),
{
    let run = build_script::parse_build_script_output(stdout, out_dir, cwd);
    if run.error.is_some() || config.crate_links.as_str().is_empty() {
        return ScriptResult { run, links: None };
    }
    let vars = build_script::parse_links_metadata(stdout);
    if vars.is_empty() {
        return ScriptResult { run, links: None };
    }
    let text = build_script::legacy_dep_env(&config.crate_links, &vars);
    ScriptResult { run, links: Some((vars, text)) }
}

// ---------------------------------------------------------------------------
// What is laid out, and with what the script runs
// ---------------------------------------------------------------------------

/// What is laid out: the directories that later steps write to; for every artifact that a dependency lists a
/// link in the directory of its kind, to where it is installed; and the files of link flags, of which the
/// one for the script is there exactly if it has any.
pub proof fn lemma_prepared(
    c: ConfigView,
    deps: Seq<DepFilesView>,
    build_deps: Seq<DepFilesView>,
    k: int,
    m: CrateMetadataView,
    a: int,
)
    requires
        c.complete_deps.len() == deps.len(),
        c.complete_build_deps.len() == build_deps.len(),
    ensures
        ({
            let r = prepared(c, deps, build_deps);
            let link = build_script::files_added(build_script::own_flags(c.extra_link_flags), deps);
            let build_link = build_script::files_added(Seq::empty(), build_deps);
            &&& r.dirs.contains("target/deps"@) && r.dirs.contains("target/lib"@) && r.dirs.contains("target/build"@)
                && r.dirs.contains("target/buildDeps"@) && r.dirs.len() == 4
            &&& 0 <= k < deps.len() && deps[k].metadata == Some(m) && 0 <= a < m.artifacts.len() ==> r.symlinks.contains(
                (
                    disk::joined_path(disk::joined_path(c.complete_deps[k], "lib"@), m.artifacts[a]),
                    disk::joined_path("target/deps"@, m.artifacts[a]),
                ),
            )
            &&& 0 <= k < build_deps.len() && build_deps[k].metadata == Some(m) && 0 <= a < m.artifacts.len()
                ==> r.symlinks.contains(
                (
                    disk::joined_path(disk::joined_path(c.complete_build_deps[k], "lib"@), m.artifacts[a]),
                    disk::joined_path("target/buildDeps"@, m.artifacts[a]),
                ),
            )
            &&& sorted::entry_of(r.files, "target/link"@) == Some(build_script::flags_file(link))
            &&& sorted::entry_of(r.files, "target/link.final"@) == Some(build_script::flags_file(link))
            &&& sorted::entry_of(r.files, "target/link_"@) == Some(text::joined(link, " "@))
            &&& sorted::entry_of(r.files, "target/link.build"@) == if build_link.len() > 0 {
                Some(build_script::flags_file(build_link))
            } else {
                None
            }
        }),
{
    let r = prepared(c, deps, build_deps);
    assert(r.dirs[0] == "target/deps"@ && r.dirs[1] == "target/lib"@ && r.dirs[2] == "target/build"@ && r.dirs[3]
        == "target/buildDeps"@);
    let z = c.complete_deps.zip_with(deps);
    let y = c.complete_build_deps.zip_with(build_deps);
    let f = links_to_at("target/deps"@);
    let g = links_to_at("target/buildDeps"@);
    let p = lists::flat(z, f);
    let q = lists::flat(y, g);
    if 0 <= k < deps.len() && deps[k].metadata == Some(m) && 0 <= a < m.artifacts.len() {
        let x = (
            disk::joined_path(disk::joined_path(c.complete_deps[k], "lib"@), m.artifacts[a]),
            disk::joined_path("target/deps"@, m.artifacts[a]),
        );
        assert(z[k] == (c.complete_deps[k], deps[k]));
        assert(f(z[k])[a] == x);
        lists::lemma_flat_has(z, f, k, x);
        lists::lemma_concat_has(p, q, x);
    }
    if 0 <= k < build_deps.len() && build_deps[k].metadata == Some(m) && 0 <= a < m.artifacts.len() {
        let x = (
            disk::joined_path(disk::joined_path(c.complete_build_deps[k], "lib"@), m.artifacts[a]),
            disk::joined_path("target/buildDeps"@, m.artifacts[a]),
        );
        assert(y[k] == (c.complete_build_deps[k], build_deps[k]));
        assert(g(y[k])[a] == x);
        lists::lemma_flat_has(y, g, k, x);
        lists::lemma_concat_has(p, q, x);
    }
    reveal_strlit("target/link");
    reveal_strlit("target/link.final");
    reveal_strlit("target/link.build");
    reveal_strlit("target/link_");
    assert("target/link"@.len() == 11 && "target/link.final"@.len() == 17 && "target/link.build"@.len() == 17
        && "target/link_"@.len() == 12);
    assert("target/link.final"@[12] == 'f' && "target/link.build"@[12] == 'b');
    let s = r.files;
    sorted::lemma_entry_of_is(s, "target/link"@, 0);
    sorted::lemma_entry_of_is(s, "target/link.final"@, 1);
    if build_script::files_added(Seq::empty(), build_deps).len() > 0 {
        assert(s[2].0 == "target/link.build"@);
        assert(s[3].0 == "target/link_"@);
        sorted::lemma_entry_of_is(s, "target/link.build"@, 2);
        sorted::lemma_entry_of_is(s, "target/link_"@, 3);
    } else {
        assert(s[2].0 == "target/link_"@);
        sorted::lemma_entry_of_is(s, "target/link.build"@, 3);
        sorted::lemma_entry_of_is(s, "target/link_"@, 2);
    }
}

/// No link is made but to an artifact that a dependency of the right kind lists.
pub proof fn lemma_no_other_links(
    c: ConfigView,
    deps: Seq<DepFilesView>,
    build_deps: Seq<DepFilesView>,
    x: (Seq<char>, Seq<char>),
)
    requires
        c.complete_deps.len() == deps.len(),
        c.complete_build_deps.len() == build_deps.len(),
        prepared(c, deps, build_deps).symlinks.contains(x),
    ensures
        (exists|k: int, a: int|
            0 <= k < deps.len() && deps[k].metadata is Some && 0 <= a < deps[k].metadata->0.artifacts.len() && x == (
                disk::joined_path(
                    disk::joined_path(c.complete_deps[k], "lib"@),
                    #[trigger] deps[k].metadata->0.artifacts[a],
                ),
                disk::joined_path("target/deps"@, deps[k].metadata->0.artifacts[a]),
            )) || (exists|k: int, a: int|
            0 <= k < build_deps.len() && build_deps[k].metadata is Some && 0 <= a
                < build_deps[k].metadata->0.artifacts.len() && x == (
                disk::joined_path(
                    disk::joined_path(c.complete_build_deps[k], "lib"@),
                    #[trigger] build_deps[k].metadata->0.artifacts[a],
                ),
                disk::joined_path("target/buildDeps"@, build_deps[k].metadata->0.artifacts[a]),
            )),
{
    let z = c.complete_deps.zip_with(deps);
    let y = c.complete_build_deps.zip_with(build_deps);
    let f = links_to_at("target/deps"@);
    let g = links_to_at("target/buildDeps"@);
    lists::lemma_concat_from(lists::flat(z, f), lists::flat(y, g), x);
    if lists::flat(z, f).contains(x) {
        lists::lemma_flat_from(z, f, x);
        let k = choose|k: int| 0 <= k < z.len() && f(#[trigger] z[k]).contains(x);
        assert(z[k] == (c.complete_deps[k], deps[k]));
        let made = f(z[k]);
        let a = choose|a: int| 0 <= a < made.len() && made[a] == x;
        assert(deps[k].metadata->0.artifacts[a] == deps[k].metadata->0.artifacts[a]);
    } else {
        lists::lemma_flat_from(y, g, x);
        let k = choose|k: int| 0 <= k < y.len() && g(#[trigger] y[k]).contains(x);
        assert(y[k] == (c.complete_build_deps[k], build_deps[k]));
        let made = g(y[k]);
        let a = choose|a: int| 0 <= a < made.len() && made[a] == x;
        assert(build_deps[k].metadata->0.artifacts[a] == build_deps[k].metadata->0.artifacts[a]);
    }
}

/// How a script is compiled and run: in a directory of the crate's name, which the program stands in, with
/// the artifacts of build dependencies; it writes to the directory beside it.
pub proof fn lemma_script_job(
    c: ConfigView,
    has_build_rs: bool,
    metas: Seq<CrateMetadataView>,
    build_link: Option<Seq<char>>,
)
    ensures
        match script_job_of(c, has_build_rs, metas, build_link) {
            Some(job) => {
                &&& job.build_dir == "target/build/"@ + c.crate_name
                &&& job.out_dir == "target/build/"@ + c.crate_name + ".out"@
                &&& job.program == "target/build/"@ + c.crate_name + "/build_script_build"@
                &&& lists::has_run(job.args, seq!["--out-dir"@, "target/build/"@ + c.crate_name])
                &&& lists::has_run(job.args, rustc::extern_args(c.build_dep_externs, metas, "target/buildDeps"@))
                &&& build_script::script_of(c.build, has_build_rs) matches Some(s) && job.args.contains(s)
            },
            None => build_script::script_of(c.build, has_build_rs) is None,
        },
{
    if let Some(script) = build_script::script_of(c.build, has_build_rs) {
        let dir = "target/build/"@ + c.crate_name;
        let externs = rustc::extern_args(c.build_dep_externs, metas, "target/buildDeps"@);
        build_script::lemma_script_options(c, script, dir, externs, build_link);
        build_script::lemma_script_shares(c, script, dir, externs, build_link);
    }
}

/// The environment with which a script runs, read back: a variable for every feature, then what dependencies
/// pass on, then what it was compiled with; and backtraces are on unless one of those says otherwise.
pub proof fn lemma_run_env(
    c: ConfigView,
    env: Seq<(Seq<char>, Seq<char>)>,
    deps: Seq<DepFilesView>,
    build_deps: Seq<DepFilesView>,
    k: Seq<char>,
)
    requires
        sorted::ascending(env),
    ensures
        sorted::entry_of(run_env(c, env, deps, build_deps), k) == if exists|i: int|
            0 <= i < c.crate_features.len() && k == "CARGO_FEATURE_"@ + text::uppercased(
                resolve::normalized(#[trigger] c.crate_features[i]),
            ) {
            Some("1"@)
        } else {
            match sorted::entry_of(build_script::dep_env(deps, build_deps), k) {
                Some(v) => Some(v),
                None => match sorted::entry_of(env, k) {
                    Some(v) => Some(v),
                    None => if k == "RUST_BACKTRACE"@ {
                        Some("1"@)
                    } else {
                        None
                    },
                },
            }
        },
{
    let p = sorted::has_key::<Seq<char>>(k);
    let a = seq![("RUST_BACKTRACE"@, "1"@)];
    let d = build_script::dep_env(deps, build_deps);
    let names = c.crate_features.map_values(configure::feature_variable_at());
    let f = names.map_values(feature_on());
    sorted::lemma_map_of_reads(a + env + d + f, k);
    lists::lemma_last_with_joined(a + env + d, f, p);
    lists::lemma_last_with_joined(a + env, d, p);
    lists::lemma_last_with_joined(a, env, p);
    sorted::lemma_map_of_ascending(
        lists::flat(deps, build_script::dep_pairs_at()) + lists::flat(build_deps, build_script::dep_pairs_at()),
    );
    sorted::lemma_map_of_itself(d);
    sorted::lemma_map_of_reads(d, k);
    sorted::lemma_map_of_itself(env);
    sorted::lemma_map_of_reads(env, k);
    let n: int = if k == "RUST_BACKTRACE"@ {
        0
    } else {
        -1
    };
    lists::lemma_last_with_is(a, p, n);
    lists::lemma_last_with(f, p);
    if exists|i: int|
        0 <= i < c.crate_features.len() && k == "CARGO_FEATURE_"@ + text::uppercased(
            resolve::normalized(#[trigger] c.crate_features[i]),
        ) {
        let i = choose|i: int|
            0 <= i < c.crate_features.len() && k == "CARGO_FEATURE_"@ + text::uppercased(
                resolve::normalized(#[trigger] c.crate_features[i]),
            );
        assert(f[i].0 == k);
        assert(p(f[i]));
        let e = lists::last_with(f, p)->0;
        let n = choose|n: int| 0 <= n < f.len() && f[n] == e;
        assert(f[n].1 == "1"@);
    } else if let Some(e) = lists::last_with(f, p) {
        let n = choose|n: int| 0 <= n < f.len() && f[n] == e;
        assert(names[n] == k);
        assert(c.crate_features[n] == c.crate_features[n]);
    }
}

/// What a script passes on is kept only for a crate that says what it links, only after a run without an
/// error, and only if there is anything; then it is what the output gives, last pair first, and the shell
/// file has a line for each.
pub proof fn lemma_links_kept(crate_links: Seq<char>, stdout: Seq<char>, failed: bool, k: Seq<char>)
    ensures
        failed || crate_links.len() == 0 ==> links_kept(crate_links, stdout, failed) is None,
        links_kept(crate_links, stdout, failed) matches Some((vars, file)) ==> {
            &&& vars.len() > 0
            &&& sorted::entry_of(vars, k) == match lists::last_with(
                text::lines(stdout).filter_map(build_script::links_pair_at()),
                sorted::has_key(k),
            ) {
                Some(e) => Some(e.1),
                None => None,
            }
            &&& file == text::joined(vars.map_values(build_script::export_at(crate_links)), "\n"@)
        },
        !failed && crate_links.len() > 0 && text::lines(stdout).filter_map(build_script::links_pair_at()).len() > 0
            ==> links_kept(crate_links, stdout, failed) is Some,
{
    let pairs = text::lines(stdout).filter_map(build_script::links_pair_at());
    sorted::lemma_map_of_reads(pairs, k);
    if pairs.len() > 0 {
        sorted::lemma_map_of_has(pairs, 0);
        sorted::lemma_entry_of(sorted::map_of(pairs), pairs[0].0);
    }
}

/// What is said of compiling a script: its source and the library that it is for.
pub proof fn lemma_script_message(
    c: ConfigView,
    script: Seq<char>,
    has_build_rs: bool,
    metas: Seq<CrateMetadataView>,
    build_link: Option<Seq<char>>,
)
    requires
        build_script::script_of(c.build, has_build_rs) == Some(script),
    ensures
        script_job_of(c, has_build_rs, metas, build_link) matches Some(j) && j.message == "Building "@ + script + " ("@
            + c.lib_name + ")"@,
{
}

} // verus!
