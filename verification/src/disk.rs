//! A directory tree as it was read: which files there are, what they hold, and what the
//! directories list. Reading happens outside; the library decides over what was read.

use crate::sorted;
use crate::text;
use vstd::prelude::*;

verus! {

/// What reading a file gave: its text, or why there is none.
#[derive(Debug, Clone)]
pub enum FileContent {
    Text(String),
    Unreadable(String),
}

/// The view of a [`FileContent`].
pub enum ContentView {
    Text(Seq<char>),
    Unreadable(Seq<char>),
}

impl DeepView for FileContent {
    type V = ContentView;

    open spec fn deep_view(&self) -> ContentView {
        match self {
            FileContent::Text(s) => ContentView::Text(s@),
            FileContent::Unreadable(e) => ContentView::Unreadable(e@),
        }
    }
}

/// The part of a file system that was read.
#[derive(Debug, Clone)]
pub struct Disk {
    /// The paths that exist, each with what reading it gave.
    pub files: Vec<(String, FileContent)>,
    /// The directories, each with the paths of its entries in the order they were listed.
    pub dirs: Vec<(String, Vec<String>)>,
}

/// The view of a [`Disk`].
pub struct DiskView {
    pub files: Seq<(Seq<char>, ContentView)>,
    pub dirs: Seq<(Seq<char>, Seq<Seq<char>>)>,
}

impl DeepView for Disk {
    type V = DiskView;

    open spec fn deep_view(&self) -> DiskView {
        DiskView { files: self.files.deep_view(), dirs: self.dirs.deep_view() }
    }
}

/// Whether there is a file at `path`.
pub open spec fn file_exists(d: DiskView, path: Seq<char>) -> bool {
    sorted::entry_of(d.files, path) is Some
}

/// What reading the file at `path` gives.
pub open spec fn file_read(d: DiskView, path: Seq<char>) -> Result<Seq<char>, Seq<char>> {
    match sorted::entry_of(d.files, path) {
        Some(ContentView::Text(s)) => Ok(s),
        Some(ContentView::Unreadable(e)) => Err(e),
        None => Err("No such file or directory (os error 2)"@),
    }
}

/// Whether two disks have the same at `path`.
pub open spec fn same_at(d: DiskView, e: DiskView, path: Seq<char>) -> bool {
    sorted::entry_of(d.files, path) == sorted::entry_of(e.files, path)
}

/// The paths that the directory at `path` lists; none if it cannot be listed.
pub open spec fn dir_listed(d: DiskView, path: Seq<char>) -> Seq<Seq<char>> {
    match sorted::entry_of(d.dirs, path) {
        Some(s) => s,
        None => Seq::empty(),
    }
}

impl Disk {
    pub fn new() -> (r: Disk)
        ensures
            r.deep_view() == (DiskView { files: Seq::empty(), dirs: Seq::empty() }),
    {
        let r = Disk { files: Vec::new(), dirs: Vec::new() };
        assert(r.deep_view().files =~= Seq::empty());
        assert(r.deep_view().dirs =~= Seq::empty());
        r
    }

    fn find(&self, path: &str) -> (r: Option<&FileContent>)
        ensures
            r.deep_view() == sorted::entry_of(self.deep_view().files, path@),
    {
        let ghost s = self.files.deep_view();
        for i in 0..self.files.len()
            invariant
                s == self.files.deep_view(),
                forall|j: int| 0 <= j < i ==> (#[trigger] s[j]).0 != path@,
        {
            assert(s[i as int].0 == self.files@[i as int].0@);
            if text::same(&self.files[i].0, path) {
                proof {
                    sorted::lemma_entry_of_is(s, path@, i as int);
                }
                return Some(&self.files[i].1);
            }
        }
        proof {
            sorted::lemma_entry_of_is(s, path@, s.len() as int);
        }
        None
    }

    pub fn has(&self, path: &str) -> (r: bool)
        ensures
            r == file_exists(self.deep_view(), path@),
    {
        self.find(path).is_some()
    }

    pub fn read(&self, path: &str) -> (r: Result<String, String>)
        ensures
            file_read(self.deep_view(), path@) == match r {
                Ok(s) => Ok::<Seq<char>, Seq<char>>(s@),
                Err(e) => Err::<Seq<char>, Seq<char>>(e@),
            },
    {
        match self.find(path) {
            Some(FileContent::Text(s)) => Ok(s.clone()),
            Some(FileContent::Unreadable(e)) => Err(e.clone()),
            None => Err("No such file or directory (os error 2)".to_owned()),
        }
    }

    pub fn list(&self, path: &str) -> (r: Vec<String>)
        ensures
            r.deep_view() == dir_listed(self.deep_view(), path@),
    {
        let ghost s = self.dirs.deep_view();
        for i in 0..self.dirs.len()
            invariant
                s == self.dirs.deep_view(),
                forall|j: int| 0 <= j < i ==> (#[trigger] s[j]).0 != path@,
        {
            assert(s[i as int].0 == self.dirs@[i as int].0@);
            if text::same(&self.dirs[i].0, path) {
                proof {
                    sorted::lemma_entry_of_is(s, path@, i as int);
                }
                return sorted::copy_texts(&self.dirs[i].1);
            }
        }
        proof {
            sorted::lemma_entry_of_is(s, path@, s.len() as int);
        }
        let r: Vec<String> = Vec::new();
        assert(r.deep_view() =~= Seq::empty());
        r
    }
}

// ---------------------------------------------------------------------------
// Paths
// ---------------------------------------------------------------------------

/// `rel` as seen from the directory `base`; an absolute path is what it is.
pub open spec fn joined_path(base: Seq<char>, rel: Seq<char>) -> Seq<char> {
    if rel.len() > 0 && rel[0] == '/' {
        rel
    } else if base.len() == 0 || base.last() == '/' {
        base + rel
    } else {
        base.push('/') + rel
    }
}

pub fn join_path(base: &str, rel: &str) -> (r: String)
    ensures
        r@ == joined_path(base@, rel@),
{
    let b = text::chars_of(base);
    let v = text::chars_of(rel);
    if v.len() > 0 && v[0] == '/' {
        rel.to_owned()
    } else if b.len() == 0 || b[b.len() - 1] == '/' {
        text::cat2(base, rel)
    } else {
        let r = text::cat3(base, "/", rel);
        proof {
            reveal_strlit("/");
            assert(base@ + "/"@ =~= base@.push('/'));
        }
        r
    }
}

/// The file name of a path: what follows its last slash.
pub open spec fn file_name(path: Seq<char>) -> Seq<char> {
    match text::cut_last(path, '/') {
        Some((a, b)) => b,
        None => path,
    }
}

pub fn name_of_file(path: &str) -> (r: &str)
    ensures
        r@ == file_name(path@),
{
    match text::rsplit_once(path, '/') {
        Some((_, b)) => b,
        None => path,
    }
}

/// The extension of a file name: what follows its last dot, unless that dot comes first.
pub open spec fn extension(name: Seq<char>) -> Option<Seq<char>> {
    match text::cut_last(name, '.') {
        Some((a, b)) => if a.len() > 0 {
            Some(b)
        } else {
            None
        },
        None => None,
    }
}

pub fn extension_of(name: &str) -> (r: Option<&str>)
    ensures
        r.deep_view() == extension(name@),
{
    match text::rsplit_once(name, '.') {
        Some((a, b)) => {
            if a.is_empty() {
                None
            } else {
                Some(b)
            }
        },
        None => None,
    }
}

/// A path below a directory stands behind it and a slash; an absolute path is what it is; and nothing is put
/// in front of a path where there is no directory.
pub proof fn lemma_joined_path(base: Seq<char>, rel: Seq<char>)
    requires
        rel.len() > 0 ==> rel[0] != '/',
    ensures
        base.len() > 0 && base.last() != '/' ==> joined_path(base, rel) == base + "/"@ + rel,
        joined_path(base.push('/'), rel) == base + "/"@ + rel,
        joined_path(Seq::empty(), rel) == rel,
        joined_path(base, "/"@ + rel) == "/"@ + rel,
{
    reveal_strlit("/");
    assert(base.push('/') =~= base + "/"@);
    assert(Seq::<char>::empty() + rel =~= rel);
}

/// The file name is what follows the last slash, and its extension what follows its last dot; a dot that comes
/// first begins none.
pub proof fn lemma_file_names(dir: Seq<char>, stem: Seq<char>, ext: Seq<char>)
    requires
        !stem.contains('/'),
        !ext.contains('.'),
    ensures
        file_name(stem) == stem,
        file_name(dir + "/"@ + stem) == stem,
        stem.len() > 0 ==> extension(stem + "."@ + ext) == Some(ext),
        extension("."@ + ext) is None,
        extension(ext) is None,
{
    reveal_strlit("/");
    reveal_strlit(".");
    text::lemma_cut_last_none(stem, '/');
    assert(dir + "/"@ + stem =~= dir.push('/') + stem);
    text::lemma_cut_last_at(dir, '/', stem);
    assert(stem + "."@ + ext =~= stem.push('.') + ext);
    text::lemma_cut_last_at(stem, '.', ext);
    let none = Seq::<char>::empty();
    assert("."@ + ext =~= none.push('.') + ext);
    text::lemma_cut_last_at(none, '.', ext);
    text::lemma_cut_last_none(ext, '.');
}

/// What a path is read as is what the first file with that path holds; a path without a file is an error.
pub proof fn lemma_first_file(d: DiskView, i: int, path: Seq<char>)
    requires
        0 <= i <= d.files.len(),
        i < d.files.len() ==> d.files[i].0 == path,
        forall|j: int| 0 <= j < i ==> (#[trigger] d.files[j]).0 != path,
    ensures
        file_exists(d, path) <==> i < d.files.len(),
        i < d.files.len() ==> (d.files[i].1 matches ContentView::Text(s) ==> file_read(d, path) == Ok::<
            Seq<char>,
            Seq<char>,
        >(s)),
        i < d.files.len() ==> (d.files[i].1 matches ContentView::Unreadable(e) ==> file_read(d, path) == Err::<
            Seq<char>,
            Seq<char>,
        >(e)),
        i == d.files.len() ==> file_read(d, path) is Err,
{
    sorted::lemma_entry_of_is(d.files, path, i);
}

} // verus!
