//! Cargo's own configuration: where its registry is replaced by another.

use crate::disk;
use crate::disk::{Disk, DiskView};
use crate::paths;
use crate::sorted;
use crate::text;
use crate::toml_tree;
use crate::toml_tree::{Toml, Tree};
use vstd::prelude::*;

verus! {

/// What the registry of crates.io is replaced with.
#[derive(Debug, Clone, PartialEq, Eq)]
pub enum SourceReplacement {
    /// It is not replaced.
    Unreplaced,
    /// A registry with this index.
    Registry(String),
    /// A source that is no registry, and has no index: which kind it is.
    Unsupported { kind: &'static str },
}

/// The view of a [`SourceReplacement`].
pub enum ReplacementView {
    Unreplaced,
    Registry(Seq<char>),
    Unsupported(Seq<char>),
}

impl DeepView for SourceReplacement {
    type V = ReplacementView;

    open spec fn deep_view(&self) -> ReplacementView {
        match self {
            SourceReplacement::Unreplaced => ReplacementView::Unreplaced,
            SourceReplacement::Registry(url) => ReplacementView::Registry(url@),
            SourceReplacement::Unsupported { kind } => ReplacementView::Unsupported(kind@),
        }
    }
}

// ---------------------------------------------------------------------------
// Finding the configuration
// ---------------------------------------------------------------------------

/// The configuration in a directory, under its present or its former name.
pub open spec fn config_in(dir: Seq<char>, d: DiskView) -> Option<Seq<char>> {
    let new = disk::joined_path(dir, "config.toml"@);
    let former = disk::joined_path(dir, "config"@);
    if disk::file_exists(d, new) {
        Some(new)
    } else if disk::file_exists(d, former) {
        Some(former)
    } else {
        None
    }
}

/// The configuration of the nearest directory that has one, from `dir` upwards.
pub open spec fn config_above(dir: Seq<char>, d: DiskView) -> Option<Seq<char>>
    decreases dir.len(),
    when true via config_above_decreases
{
    match config_in(disk::joined_path(dir, ".cargo"@), d) {
        Some(p) => Some(p),
        None => match paths::parent_of(dir) {
            Some(up) => config_above(up, d),
            None => None,
        },
    }
}

#[via_fn]
proof fn config_above_decreases(dir: Seq<char>, d: DiskView) {
    paths::lemma_parent_shorter(dir);
}

/// The configuration that counts: the nearest one above the workspace, else the user's own.
pub open spec fn config_found(start: Seq<char>, cargo_home: Seq<char>, d: DiskView) -> Option<Seq<char>> {
    match config_above(start, d) {
        Some(p) => Some(p),
        None => config_in(cargo_home, d),
    }
}

/// The files of a directory that may be a configuration.
pub open spec fn candidates_in(dir: Seq<char>) -> Seq<Seq<char>> {
    seq![disk::joined_path(dir, "config.toml"@), disk::joined_path(dir, "config"@)]
}

/// The files that may be a configuration, from `dir` upwards.
pub open spec fn candidates_above(dir: Seq<char>) -> Seq<Seq<char>>
    decreases dir.len(),
    when true via candidates_above_decreases
{
    candidates_in(disk::joined_path(dir, ".cargo"@)) + match paths::parent_of(dir) {
        Some(up) => candidates_above(up),
        None => Seq::empty(),
    }
}

#[via_fn]
proof fn candidates_above_decreases(dir: Seq<char>) {
    paths::lemma_parent_shorter(dir);
}

fn add_candidates(files: &mut Vec<String>, dir: &str)
    ensures
        final(files).deep_view() == old(files).deep_view() + candidates_in(dir@),
{
    let ghost o = files.deep_view();
    let new = disk::join_path(dir, "config.toml");
    let former = disk::join_path(dir, "config");
    sorted::push_two(files, &new, &former);
    assert(files.deep_view() =~= o + candidates_in(dir@));
}

/// The files that [`find_config`] looks at, the nearest first.
pub fn config_candidates(start: &str, cargo_home: &str) -> (r: Vec<String>)
    ensures
        r.deep_view() == candidates_above(start@) + candidates_in(cargo_home@),
{
    let ghost all = candidates_above(start@);
    let mut files: Vec<String> = Vec::new();
    let mut dir = start.to_owned();
    let mut walking = true;
    assert(files.deep_view() + candidates_above(dir@) =~= all);
    while walking
        invariant
            walking ==> files.deep_view() + candidates_above(dir@) == all,
            !walking ==> files.deep_view() == all,
        decreases
            if walking {
                dir@.len() + 1
            } else {
                0
            },
    {
        let ghost o = files.deep_view();
        let ghost here = dir@;
        let cargo = disk::join_path(&dir, ".cargo");
        add_candidates(&mut files, &cargo);
        proof {
            paths::lemma_parent_shorter(dir@);
        }
        match paths::parent(&dir) {
            Some(up) => {
                dir = up;
                assert(files.deep_view() + candidates_above(dir@) =~= o + candidates_above(here));
            },
            None => {
                walking = false;
                assert(files.deep_view() =~= o + candidates_above(here));
            },
        }
    }
    add_candidates(&mut files, cargo_home);
    files
}

proof fn lemma_candidates_in(dir: Seq<char>, d: DiskView, e: DiskView)
    requires
        forall|i: int| 0 <= i < candidates_in(dir).len() ==> disk::same_at(d, e, #[trigger] candidates_in(dir)[i]),
    ensures
        config_in(dir, d) == config_in(dir, e),
        config_in(dir, d) matches Some(p) ==> disk::file_read(d, p) == disk::file_read(e, p),
{
    let s = candidates_in(dir);
    assert(disk::same_at(d, e, s[0]));
    assert(disk::same_at(d, e, s[1]));
}

proof fn lemma_candidates_above(dir: Seq<char>, d: DiskView, e: DiskView)
    requires
        forall|i: int|
            0 <= i < candidates_above(dir).len() ==> disk::same_at(d, e, #[trigger] candidates_above(dir)[i]),
    ensures
        config_above(dir, d) == config_above(dir, e),
        config_above(dir, d) matches Some(p) ==> disk::file_read(d, p) == disk::file_read(e, p),
    decreases dir.len(),
{
    let here = disk::joined_path(dir, ".cargo"@);
    let s = candidates_above(dir);
    let head = candidates_in(here);
    assert forall|i: int| 0 <= i < head.len() implies disk::same_at(d, e, #[trigger] head[i]) by {
        assert(s[i] == head[i]);
    }
    lemma_candidates_in(here, d, e);
    if let Some(up) = paths::parent_of(dir) {
        paths::lemma_parent_shorter(dir);
        let rest = candidates_above(up);
        assert forall|i: int| 0 <= i < rest.len() implies disk::same_at(d, e, #[trigger] rest[i]) by {
            assert(s[head.len() + i] == rest[i]);
        }
        lemma_candidates_above(up, d, e);
    }
}

/// The candidates are all that counts: disks that agree on them have the same configuration, with the
/// same text.
pub proof fn lemma_candidates_suffice(start: Seq<char>, cargo_home: Seq<char>, d: DiskView, e: DiskView)
    requires
        ({
            let s = candidates_above(start) + candidates_in(cargo_home);
            forall|i: int| 0 <= i < s.len() ==> disk::same_at(d, e, #[trigger] s[i])
        }),
    ensures
        config_found(start, cargo_home, d) == config_found(start, cargo_home, e),
        config_found(start, cargo_home, d) matches Some(p) ==> disk::file_read(d, p) == disk::file_read(e, p),
{
    let a = candidates_above(start);
    let b = candidates_in(cargo_home);
    let s = a + b;
    assert forall|i: int| 0 <= i < a.len() implies disk::same_at(d, e, #[trigger] a[i]) by {
        assert(s[i] == a[i]);
    }
    assert forall|i: int| 0 <= i < b.len() implies disk::same_at(d, e, #[trigger] b[i]) by {
        assert(s[a.len() + i] == b[i]);
    }
    lemma_candidates_above(start, d, e);
    lemma_candidates_in(cargo_home, d, e);
}

fn look_in(dir: &str, disk: &Disk) -> (r: Option<String>)
    ensures
        r.deep_view() == config_in(dir@, disk.deep_view()),
{
    let new = disk::join_path(dir, "config.toml");
    if disk.has(&new) {
        return Some(new);
    }
    let former = disk::join_path(dir, "config");
    if disk.has(&former) {
        return Some(former);
    }
    None
}

/// Finds the configuration that counts for a workspace: the nearest `.cargo/config.toml` from its
/// directory upwards, else the one in the home of Cargo.
pub fn find_config(start: &str, cargo_home: &str, disk: &Disk) -> (r: Option<String>)
    ensures
        r.deep_view() == config_found(start@, cargo_home@, disk.deep_view()),
{
    let ghost d = disk.deep_view();
    let mut dir = start.to_owned();
    let mut walking = true;
    while walking
        invariant
            d == disk.deep_view(),
            walking ==> config_above(start@, d) == config_above(dir@, d),
            !walking ==> config_above(start@, d) is None,
        decreases
            if walking {
                dir@.len() + 1
            } else {
                0
            },
    {
        let cargo = disk::join_path(&dir, ".cargo");
        if let Some(p) = look_in(&cargo, disk) {
            return Some(p);
        }
        proof {
            paths::lemma_parent_shorter(dir@);
        }
        match paths::parent(&dir) {
            Some(up) => {
                dir = up;
            },
            None => {
                walking = false;
            },
        }
    }
    look_in(cargo_home, disk)
}

// ---------------------------------------------------------------------------
// Replacement of sources
// ---------------------------------------------------------------------------

/// The table under a key of a table.
pub open spec fn table_under(t: Toml, key: Seq<char>) -> Option<Toml> {
    match toml_tree::field(t, key) {
        Some(Toml::Table(e)) => Some(Toml::Table(e)),
        _ => None,
    }
}

/// The source that a source is replaced with.
pub open spec fn next_source(sources: Toml, name: Seq<char>) -> Option<Seq<char>> {
    match table_under(sources, name) {
        Some(src) => toml_tree::text_in(toml_tree::field(src, "replace-with"@)),
        None => None,
    }
}

/// What a source is that is not replaced itself.
pub open spec fn kind_of(src: Toml) -> ReplacementView {
    match toml_tree::text_in(toml_tree::field(src, "registry"@)) {
        Some(url) => ReplacementView::Registry(url),
        None => if toml_tree::field(src, "local-registry"@) is Some {
            ReplacementView::Unsupported("local-registry"@)
        } else if toml_tree::field(src, "directory"@) is Some {
            ReplacementView::Unsupported("directory"@)
        } else if toml_tree::field(src, "git"@) is Some {
            ReplacementView::Unsupported("git"@)
        } else {
            ReplacementView::Unreplaced
        },
    }
}

/// What the source `name` is replaced with, if no more than `hops` sources have to be looked at.
pub open spec fn replacement(sources: Toml, name: Seq<char>, hops: nat) -> ReplacementView
    decreases hops,
{
    if hops == 0 {
        ReplacementView::Unreplaced
    } else {
        match table_under(sources, name) {
            Some(src) => match next_source(sources, name) {
                Some(next) => replacement(sources, next, (hops - 1) as nat),
                None => if name == "crates-io"@ {
                    ReplacementView::Unreplaced
                } else {
                    kind_of(src)
                },
            },
            None => ReplacementView::Unreplaced,
        }
    }
}

/// How many sources are looked at. A chain that comes back to itself has no end.
pub const MAX_HOPS: usize = 16;

/// What a configuration replaces crates.io with.
pub open spec fn replacement_in(config: Seq<char>) -> ReplacementView {
    match toml_tree::toml_parsed(config) {
        Ok(doc) => match table_under(doc, "source"@) {
            Some(sources) => replacement(sources, "crates-io"@, MAX_HOPS as nat),
            None => ReplacementView::Unreplaced,
        },
        Err(_) => ReplacementView::Unreplaced,
    }
}

fn get_table<'a>(t: &'a Tree, key: &str) -> (r: Option<&'a Tree>)
    ensures
        r.deep_view() == table_under(t.deep_view(), key@),
{
    match t.get(key) {
        Some(v) => {
            if v.as_table().is_some() {
                Some(v)
            } else {
                None
            }
        },
        None => None,
    }
}

fn read_kind(src: &Tree) -> (r: SourceReplacement)
    ensures
        r.deep_view() == kind_of(src.deep_view()),
{
    if let Some(url) = toml_tree::string_in(src.get("registry")) {
        return SourceReplacement::Registry(url);
    }
    if src.get("local-registry").is_some() {
        SourceReplacement::Unsupported { kind: "local-registry" }
    } else if src.get("directory").is_some() {
        SourceReplacement::Unsupported { kind: "directory" }
    } else if src.get("git").is_some() {
        SourceReplacement::Unsupported { kind: "git" }
    } else {
        SourceReplacement::Unreplaced
    }
}

/// What the sources of a configuration replace crates.io with. The chain of replacements is followed
/// to its end.
pub fn follow_sources(sources: &Tree) -> (r: SourceReplacement)
    ensures
        r.deep_view() == replacement(sources.deep_view(), "crates-io"@, MAX_HOPS as nat),
{
    let ghost t = sources.deep_view();
    let mut current = "crates-io".to_owned();
    let mut hops: usize = MAX_HOPS;
    while hops > 0
        invariant
            t == sources.deep_view(),
            replacement(t, "crates-io"@, MAX_HOPS as nat) == replacement(t, current@, hops as nat),
        decreases hops,
    {
        let src = match get_table(sources, &current) {
            Some(src) => src,
            None => {
                return SourceReplacement::Unreplaced;
            },
        };
        match toml_tree::string_in(src.get("replace-with")) {
            Some(next) => {
                current = next;
            },
            None => {
                if text::same(&current, "crates-io") {
                    return SourceReplacement::Unreplaced;
                }
                return read_kind(src);
            },
        }
        hops -= 1;
    }
    SourceReplacement::Unreplaced
}

/// What a configuration replaces crates.io with. One that cannot be parsed replaces nothing.
pub fn crates_io_replacement(config: &str) -> (r: SourceReplacement)
    ensures
        r.deep_view() == replacement_in(config@),
{
    match toml_tree::parse(config) {
        Ok(doc) => match get_table(&doc, "source") {
            Some(sources) => follow_sources(sources),
            None => SourceReplacement::Unreplaced,
        },
        Err(_) => SourceReplacement::Unreplaced,
    }
}

/// What the configuration that counts for a workspace replaces crates.io with.
pub fn discover_crates_io_replacement(workspace_root: &str, cargo_home: &str, disk: &Disk) -> (r: SourceReplacement)
    ensures
        r.deep_view() == match config_found(workspace_root@, cargo_home@, disk.deep_view()) {
            Some(path) => match disk::file_read(disk.deep_view(), path) {
                Ok(s) => replacement_in(s),
                Err(_) => ReplacementView::Unreplaced,
            },
            None => ReplacementView::Unreplaced,
        },
{
    match find_config(workspace_root, cargo_home, disk) {
        Some(path) => match disk.read(&path) {
            Ok(s) => crates_io_replacement(&s),
            Err(_) => SourceReplacement::Unreplaced,
        },
        None => SourceReplacement::Unreplaced,
    }
}

/// The index of crates.io itself.
pub open spec fn default_index() -> Seq<char> {
    "sparse+https://index.crates.io/"@
}

/// The sparse index to use for what is on crates.io. A source that is no registry has none.
pub fn crates_io_index(replacement: &SourceReplacement) -> (r: Result<String, String>)
    ensures
        match replacement.deep_view() {
            ReplacementView::Unreplaced => r matches Ok(url) && url@ == default_index(),
            ReplacementView::Registry(url) => r matches Ok(u) && u@ == if text::has_prefix(url, "sparse+"@) {
                url
            } else {
                "sparse+"@ + url
            },
            ReplacementView::Unsupported(kind) => r matches Err(e) && e@
                == "crates.io is replaced by a source of kind '"@ + kind + "', which has no index"@,
        },
{
    match replacement {
        SourceReplacement::Unreplaced => Ok("sparse+https://index.crates.io/".to_owned()),
        SourceReplacement::Registry(url) => {
            if text::starts_with(url, "sparse+") {
                Ok(url.clone())
            } else {
                Ok(text::cat2("sparse+", url))
            }
        },
        SourceReplacement::Unsupported { kind } => Err(
            text::cat3("crates.io is replaced by a source of kind '", kind, "', which has no index"),
        ),
    }
}

/// A source that is reached by following replacements from `name`, `n` times.
pub open spec fn reached(sources: Toml, name: Seq<char>, n: nat) -> Option<Seq<char>>
    decreases n,
{
    if n == 0 {
        Some(name)
    } else {
        match next_source(sources, name) {
            Some(next) => reached(sources, next, (n - 1) as nat),
            None => None,
        }
    }
}

/// A chain of replacements that does not end replaces nothing, whatever its sources are.
pub proof fn lemma_endless_chain(sources: Toml, name: Seq<char>, hops: nat)
    requires
        reached(sources, name, hops) is Some,
    ensures
        replacement(sources, name, hops) == ReplacementView::Unreplaced,
    decreases hops,
{
    if hops > 0 {
        lemma_endless_chain(sources, next_source(sources, name).unwrap(), (hops - 1) as nat);
    }
}

/// A chain that ends within the limit leads to its last source.
pub proof fn lemma_chain_leads_to_its_end(sources: Toml, name: Seq<char>, n: nat, hops: nat)
    requires
        n < hops,
        reached(sources, name, n) matches Some(last) && table_under(sources, last) is Some && next_source(
            sources,
            last,
        ) is None && last != "crates-io"@,
    ensures
        replacement(sources, name, hops) == kind_of(
            table_under(sources, reached(sources, name, n).unwrap()).unwrap(),
        ),
    decreases n,
{
    if n > 0 {
        lemma_chain_leads_to_its_end(
            sources,
            next_source(sources, name).unwrap(),
            (n - 1) as nat,
            (hops - 1) as nat,
        );
    }
}

/// The nearest configuration counts: one in the directory itself goes before all others.
pub proof fn lemma_nearest_config(start: Seq<char>, cargo_home: Seq<char>, d: DiskView)
    ensures
        config_in(disk::joined_path(start, ".cargo"@), d) is Some ==> config_found(start, cargo_home, d) == config_in(
            disk::joined_path(start, ".cargo"@),
            d,
        ),
{
}

/// What a source is, by what it names: a registry by its URL, and of the other kinds the first that it has.
pub proof fn lemma_kinds(src: Toml, url: Seq<char>)
    ensures
        toml_tree::field(src, "registry"@) == Some(Toml::Text(url)) ==> kind_of(src) == ReplacementView::Registry(url),
        toml_tree::field(src, "registry"@) is None && toml_tree::field(src, "local-registry"@) is Some ==> kind_of(src)
            == ReplacementView::Unsupported("local-registry"@),
        toml_tree::field(src, "registry"@) is None && toml_tree::field(src, "local-registry"@) is None && toml_tree::field(
            src,
            "directory"@,
        ) is Some ==> kind_of(src) == ReplacementView::Unsupported("directory"@),
        toml_tree::field(src, "registry"@) is None && toml_tree::field(src, "local-registry"@) is None && toml_tree::field(
            src,
            "directory"@,
        ) is None && toml_tree::field(src, "git"@) is Some ==> kind_of(src) == ReplacementView::Unsupported("git"@),
        toml_tree::field(src, "registry"@) is None && toml_tree::field(src, "local-registry"@) is None && toml_tree::field(
            src,
            "directory"@,
        ) is None && toml_tree::field(src, "git"@) is None ==> kind_of(src) == ReplacementView::Unreplaced,
{
}

/// crates.io is replaced with the registry that its entry names, if that has an entry which is a registry and
/// is not replaced itself; without an entry of its own, and without a configuration, it is not replaced.
pub proof fn lemma_crates_io_replaced(
    config: Seq<char>,
    doc: Toml,
    sources: Seq<(Seq<char>, Toml)>,
    io: Seq<(Seq<char>, Toml)>,
    mirror: Seq<(Seq<char>, Toml)>,
    name: Seq<char>,
    url: Seq<char>,
)
    requires
        toml_tree::toml_parsed(config) == Ok::<Toml, Seq<char>>(doc),
        toml_tree::field(doc, "source"@) == Some(Toml::Table(sources)),
    ensures
        toml_tree::field(Toml::Table(sources), "crates-io"@) == Some(Toml::Table(io)) && toml_tree::field(
            Toml::Table(io),
            "replace-with"@,
        ) == Some(Toml::Text(name)) && name != "crates-io"@ && toml_tree::field(Toml::Table(sources), name) == Some(
            Toml::Table(mirror),
        ) && toml_tree::field(Toml::Table(mirror), "replace-with"@) is None && toml_tree::field(
            Toml::Table(mirror),
            "registry"@,
        ) == Some(Toml::Text(url)) ==> replacement_in(config) == ReplacementView::Registry(url),
        toml_tree::field(Toml::Table(sources), "crates-io"@) is None ==> replacement_in(config)
            == ReplacementView::Unreplaced,
        toml_tree::field(Toml::Table(sources), "crates-io"@) == Some(Toml::Table(io)) && toml_tree::field(
            Toml::Table(io),
            "replace-with"@,
        ) is None ==> replacement_in(config) == ReplacementView::Unreplaced,
{
    reveal_with_fuel(replacement, 3);
}

/// In a directory `config.toml` counts before `config`, and nothing else does.
pub proof fn lemma_config_in(dir: Seq<char>, d: DiskView)
    ensures
        config_in(dir, d) matches Some(p) ==> disk::file_exists(d, p) && (p == disk::joined_path(dir, "config.toml"@) || p
            == disk::joined_path(dir, "config"@)),
        disk::file_exists(d, disk::joined_path(dir, "config.toml"@)) ==> config_in(dir, d) == Some(
            disk::joined_path(dir, "config.toml"@),
        ),
        !disk::file_exists(d, disk::joined_path(dir, "config.toml"@)) && disk::file_exists(
            d,
            disk::joined_path(dir, "config"@),
        ) ==> config_in(dir, d) == Some(disk::joined_path(dir, "config"@)),
        config_in(dir, d) is None ==> !disk::file_exists(d, disk::joined_path(dir, "config"@)),
{
}

/// Without a configuration beside the workspace the next one above counts, and without any above the user's
/// own.
pub proof fn lemma_next_config(start: Seq<char>, cargo_home: Seq<char>, d: DiskView, up: Seq<char>)
    requires
        config_in(disk::joined_path(start, ".cargo"@), d) is None,
    ensures
        paths::parent_of(start) == Some(up) ==> config_found(start, cargo_home, d) == config_found(up, cargo_home, d),
        paths::parent_of(start) is None ==> config_found(start, cargo_home, d) == config_in(cargo_home, d),
{
}

/// The index of crates.io is a sparse one, at the address that Cargo documents.
pub proof fn lemma_default_index()
    ensures
        text::has_prefix(default_index(), "sparse+"@),
        default_index() == "sparse+"@ + "https://index.crates.io/"@,
{
    reveal_strlit("sparse+");
    reveal_strlit("https://index.crates.io/");
    reveal_strlit("sparse+https://index.crates.io/");
    text::lemma_after_prefix("sparse+"@, "https://index.crates.io/"@);
    assert("sparse+https://index.crates.io/"@ =~= "sparse+"@ + "https://index.crates.io/"@);
}

} // verus!
