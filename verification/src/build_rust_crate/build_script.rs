//! Build scripts: how they are compiled, what they print, and what they pass on to dependents.

use crate::build_rust_crate::config::{BuildConfig, ConfigView, CrateMetadata, CrateMetadataView};
use crate::disk;
use crate::json_tree;
use crate::lists;
use crate::resolve;
use crate::shell;
use crate::sorted;
use crate::sorted::StrMap;
use crate::text;
use vstd::prelude::*;

verus! {

// ---------------------------------------------------------------------------
// What a build script prints
// ---------------------------------------------------------------------------

/// What a build script asked for.
#[derive(Debug, Clone)]
pub struct BuildScriptOutputs {
    pub rustc_flags: String,
    pub cfgs: Vec<String>,
    pub check_cfgs: Vec<String>,
    pub link_args: Vec<String>,
    pub link_args_lib: Vec<String>,
    pub link_args_bins: Vec<String>,
    /// Link arguments of single binaries, by name.
    pub link_args_bin: StrMap<Vec<String>>,
    pub link_args_tests: Vec<String>,
    pub link_libs: Vec<String>,
    pub link_search: Vec<String>,
    pub cdylib_link_args: Vec<String>,
    pub envs: StrMap<String>,
    pub build_out_dir: String,
}

/// The view of a [`BuildScriptOutputs`].
pub struct OutputsView {
    pub rustc_flags: Seq<char>,
    pub cfgs: Seq<Seq<char>>,
    pub check_cfgs: Seq<Seq<char>>,
    pub link_args: Seq<Seq<char>>,
    pub link_args_lib: Seq<Seq<char>>,
    pub link_args_bins: Seq<Seq<char>>,
    pub link_args_bin: Seq<(Seq<char>, Seq<Seq<char>>)>,
    pub link_args_tests: Seq<Seq<char>>,
    pub link_libs: Seq<Seq<char>>,
    pub link_search: Seq<Seq<char>>,
    pub cdylib_link_args: Seq<Seq<char>>,
    pub envs: Seq<(Seq<char>, Seq<char>)>,
    pub build_out_dir: Seq<char>,
}

impl DeepView for BuildScriptOutputs {
    type V = OutputsView;

    open spec fn deep_view(&self) -> OutputsView {
        OutputsView {
            rustc_flags: self.rustc_flags@,
            cfgs: self.cfgs.deep_view(),
            check_cfgs: self.check_cfgs.deep_view(),
            link_args: self.link_args.deep_view(),
            link_args_lib: self.link_args_lib.deep_view(),
            link_args_bins: self.link_args_bins.deep_view(),
            link_args_bin: self.link_args_bin.deep_view(),
            link_args_tests: self.link_args_tests.deep_view(),
            link_libs: self.link_libs.deep_view(),
            link_search: self.link_search.deep_view(),
            cdylib_link_args: self.cdylib_link_args.deep_view(),
            envs: self.envs.deep_view(),
            build_out_dir: self.build_out_dir@,
        }
    }
}

/// Nothing asked for, with a directory for what the script writes.
pub open spec fn no_outputs(out_dir: Seq<char>) -> OutputsView {
    OutputsView {
        rustc_flags: Seq::empty(),
        cfgs: Seq::empty(),
        check_cfgs: Seq::empty(),
        link_args: Seq::empty(),
        link_args_lib: Seq::empty(),
        link_args_bins: Seq::empty(),
        link_args_bin: Seq::empty(),
        link_args_tests: Seq::empty(),
        link_libs: Seq::empty(),
        link_search: Seq::empty(),
        cdylib_link_args: Seq::empty(),
        envs: Seq::empty(),
        build_out_dir: out_dir,
    }
}

impl BuildScriptOutputs {
    /// Nothing asked for.
    pub fn none(out_dir: &str) -> (r: BuildScriptOutputs)
        ensures
            r.deep_view() == no_outputs(out_dir@),
            r.envs.wf(),
    {
        let r = BuildScriptOutputs {
            rustc_flags: String::new(),
            cfgs: Vec::new(),
            check_cfgs: Vec::new(),
            link_args: Vec::new(),
            link_args_lib: Vec::new(),
            link_args_bins: Vec::new(),
            link_args_bin: StrMap::new(),
            link_args_tests: Vec::new(),
            link_libs: Vec::new(),
            link_search: Vec::new(),
            cdylib_link_args: Vec::new(),
            envs: StrMap::new(),
            build_out_dir: out_dir.to_owned(),
        };
        proof {
            assert(r.cfgs.deep_view() =~= Seq::empty());
            assert(r.check_cfgs.deep_view() =~= Seq::empty());
            assert(r.link_args.deep_view() =~= Seq::empty());
            assert(r.link_args_lib.deep_view() =~= Seq::empty());
            assert(r.link_args_bins.deep_view() =~= Seq::empty());
            assert(r.link_args_tests.deep_view() =~= Seq::empty());
            assert(r.link_libs.deep_view() =~= Seq::empty());
            assert(r.link_search.deep_view() =~= Seq::empty());
            assert(r.cdylib_link_args.deep_view() =~= Seq::empty());
        }
        r
    }
}

/// What one line of a build script's output says.
pub enum DirectiveView {
    RustcFlags(Seq<char>),
    CheckCfg(Seq<char>),
    Cfg(Seq<char>),
    LinkArg(Seq<char>),
    LinkArgLib(Seq<char>),
    LinkArgBins(Seq<char>),
    LinkArgBin(Seq<char>, Seq<char>),
    LinkArgTests(Seq<char>),
    LinkLib(Seq<char>),
    LinkSearch(Seq<char>),
    CdylibLinkArg(Seq<char>),
    Env(Seq<char>, Seq<char>),
    Warning(Seq<char>),
    Error(Seq<char>),
    Nothing,
}

/// What follows one of two prefixes.
pub open spec fn after_either(s: Seq<char>, p: Seq<char>, q: Seq<char>) -> Option<Seq<char>> {
    match text::after_prefix(s, p) {
        Some(v) => Some(v),
        None => text::after_prefix(s, q),
    }
}

/// The directive `d`. Only in the new syntax is `error` one.
pub open spec fn directive(new_syntax: bool, d: Seq<char>) -> DirectiveView {
    if let Some(v) = text::after_prefix(d, "rustc-flags="@) {
        DirectiveView::RustcFlags(v)
    } else if let Some(v) = text::after_prefix(d, "rustc-check-cfg="@) {
        DirectiveView::CheckCfg(v)
    } else if let Some(v) = text::after_prefix(d, "rustc-cfg="@) {
        DirectiveView::Cfg(v)
    } else if let Some(v) = text::after_prefix(d, "rustc-link-arg="@) {
        DirectiveView::LinkArg(v)
    } else if let Some(v) = text::after_prefix(d, "rustc-link-arg-lib="@) {
        DirectiveView::LinkArgLib(v)
    } else if let Some(v) = text::after_prefix(d, "rustc-link-arg-bins="@) {
        DirectiveView::LinkArgBins(v)
    } else if let Some(v) = text::after_prefix(d, "rustc-link-arg-bin="@) {
        match text::cut_first(v, '=') {
            Some((bin, arg)) => DirectiveView::LinkArgBin(bin, arg),
            None => DirectiveView::Nothing,
        }
    } else if let Some(v) = text::after_prefix(d, "rustc-link-arg-tests="@) {
        DirectiveView::LinkArgTests(v)
    } else if let Some(v) = text::after_prefix(d, "rustc-link-lib="@) {
        DirectiveView::LinkLib(v)
    } else if let Some(v) = text::after_prefix(d, "rustc-link-search="@) {
        DirectiveView::LinkSearch(v)
    } else if let Some(v) = after_either(d, "rustc-cdylib-link-arg="@, "rustc-link-arg-cdylib="@) {
        DirectiveView::CdylibLinkArg(v)
    } else if let Some(v) = text::after_prefix(d, "rustc-env="@) {
        match text::cut_first(v, '=') {
            Some((k, val)) => DirectiveView::Env(k, val),
            None => DirectiveView::Nothing,
        }
    } else if let Some(v) = text::after_prefix(d, "warning="@) {
        DirectiveView::Warning(v)
    } else if new_syntax {
        match text::after_prefix(d, "error="@) {
            Some(v) => DirectiveView::Error(v),
            None => DirectiveView::Nothing,
        }
    } else {
        DirectiveView::Nothing
    }
}

/// What a line says: `cargo::` begins a directive in the new syntax, `cargo:` one in the old.
pub open spec fn directive_of(line: Seq<char>) -> DirectiveView {
    let t = text::trimmed(line);
    match text::after_prefix(t, "cargo::"@) {
        Some(d) => directive(true, text::trimmed_end(d)),
        None => match text::after_prefix(t, "cargo:"@) {
            Some(d) => directive(false, text::trimmed_end(d)),
            None => DirectiveView::Nothing,
        },
    }
}

/// A search path, made absolute.
pub open spec fn search_path(v: Seq<char>, cwd: Seq<char>) -> Seq<char> {
    match text::cut_first(v, '=') {
        Some((kind, path)) => if text::has_prefix(path, "/"@) {
            v
        } else {
            kind + "="@ + disk::joined_path(cwd, path)
        },
        None => if text::has_prefix(v, "/"@) {
            v
        } else {
            disk::joined_path(cwd, v)
        },
    }
}

/// `v` with `x` behind it, unless it is there.
pub open spec fn with_once(v: Seq<Seq<char>>, x: Seq<char>) -> Seq<Seq<char>> {
    if v.contains(x) {
        v
    } else {
        v.push(x)
    }
}

pub open spec fn with_link_arg(v: Seq<Seq<char>>, arg: Seq<char>) -> Seq<Seq<char>> {
    v.push("-C"@).push("link-arg="@ + arg)
}

/// The arguments for the linker that are kept for one binary.
pub open spec fn args_for(m: Seq<(Seq<char>, Seq<Seq<char>>)>, bin: Seq<char>) -> Seq<Seq<char>> {
    match sorted::entry_of(m, bin) {
        Some(v) => v,
        None => Seq::empty(),
    }
}

pub open spec fn with_bin_arg(
    m: Seq<(Seq<char>, Seq<Seq<char>>)>,
    bin: Seq<char>,
    arg: Seq<char>,
) -> Seq<(Seq<char>, Seq<Seq<char>>)> {
    sorted::with_entry(m, bin, with_link_arg(args_for(m, bin), arg))
}

/// What the lines so far have brought: the outputs, the flags for rustc one by one, the warnings,
/// and the error that ended the reading.
pub struct ScriptView {
    pub outputs: OutputsView,
    pub flags: Seq<Seq<char>>,
    pub warnings: Seq<Seq<char>>,
    pub error: Option<Seq<char>>,
}

/// One more directive. After an error nothing counts any more.
pub open spec fn applied(s: ScriptView, d: DirectiveView, cwd: Seq<char>) -> ScriptView {
    let o = s.outputs;
    if s.error is Some {
        s
    } else {
        match d {
            DirectiveView::RustcFlags(v) => ScriptView { flags: s.flags.push(v), ..s },
            DirectiveView::CheckCfg(v) => ScriptView {
                outputs: OutputsView { check_cfgs: o.check_cfgs.push(v), ..o },
                ..s
            },
            DirectiveView::Cfg(v) => ScriptView { outputs: OutputsView { cfgs: o.cfgs.push(v), ..o }, ..s },
            DirectiveView::LinkArg(v) => ScriptView {
                outputs: OutputsView { link_args: with_link_arg(o.link_args, v), ..o },
                ..s
            },
            DirectiveView::LinkArgLib(v) => ScriptView {
                outputs: OutputsView { link_args_lib: with_link_arg(o.link_args_lib, v), ..o },
                ..s
            },
            DirectiveView::LinkArgBins(v) => ScriptView {
                outputs: OutputsView { link_args_bins: with_link_arg(o.link_args_bins, v), ..o },
                ..s
            },
            DirectiveView::LinkArgBin(bin, v) => ScriptView {
                outputs: OutputsView { link_args_bin: with_bin_arg(o.link_args_bin, bin, v), ..o },
                ..s
            },
            DirectiveView::LinkArgTests(v) => ScriptView {
                outputs: OutputsView { link_args_tests: with_link_arg(o.link_args_tests, v), ..o },
                ..s
            },
            DirectiveView::LinkLib(v) => ScriptView {
                outputs: OutputsView { link_libs: o.link_libs.push(v), ..o },
                ..s
            },
            DirectiveView::LinkSearch(v) => ScriptView {
                outputs: OutputsView { link_search: with_once(o.link_search, search_path(v, cwd)), ..o },
                ..s
            },
            DirectiveView::CdylibLinkArg(v) => ScriptView {
                outputs: OutputsView { cdylib_link_args: with_link_arg(o.cdylib_link_args, v), ..o },
                ..s
            },
            DirectiveView::Env(k, v) => ScriptView {
                outputs: OutputsView { envs: sorted::with_entry(o.envs, k, v), ..o },
                ..s
            },
            DirectiveView::Warning(v) => ScriptView { warnings: s.warnings.push(v), ..s },
            DirectiveView::Error(v) => ScriptView { error: Some(v), ..s },
            DirectiveView::Nothing => s,
        }
    }
}

/// What the lines of an output bring, one after the other.
pub open spec fn script_read(lines: Seq<Seq<char>>, out_dir: Seq<char>, cwd: Seq<char>) -> ScriptView
    decreases lines.len(),
{
    if lines.len() == 0 {
        ScriptView {
            outputs: no_outputs(out_dir),
            flags: Seq::empty(),
            warnings: Seq::empty(),
            error: None,
        }
    } else {
        applied(script_read(lines.drop_last(), out_dir, cwd), directive_of(lines.last()), cwd)
    }
}

/// The outputs with the flags for rustc joined into one text.
pub open spec fn outputs_of(s: ScriptView) -> OutputsView {
    OutputsView { rustc_flags: text::joined(s.flags, " "@), ..s.outputs }
}

/// What reading the output of a build script gave.
#[derive(Debug, Clone)]
pub struct ScriptRun {
    pub outputs: BuildScriptOutputs,
    /// The warnings, in order.
    pub warnings: Vec<String>,
    /// The error that the script reported, which ends the build.
    pub error: Option<String>,
}

enum Directive {
    RustcFlags(String),
    CheckCfg(String),
    Cfg(String),
    LinkArg(String),
    LinkArgLib(String),
    LinkArgBins(String),
    LinkArgBin(String, String),
    LinkArgTests(String),
    LinkLib(String),
    LinkSearch(String),
    CdylibLinkArg(String),
    Env(String, String),
    Warning(String),
    Error(String),
    Nothing,
}

impl DeepView for Directive {
    type V = DirectiveView;

    closed spec fn deep_view(&self) -> DirectiveView {
        match self {
            Directive::RustcFlags(v) => DirectiveView::RustcFlags(v@),
            Directive::CheckCfg(v) => DirectiveView::CheckCfg(v@),
            Directive::Cfg(v) => DirectiveView::Cfg(v@),
            Directive::LinkArg(v) => DirectiveView::LinkArg(v@),
            Directive::LinkArgLib(v) => DirectiveView::LinkArgLib(v@),
            Directive::LinkArgBins(v) => DirectiveView::LinkArgBins(v@),
            Directive::LinkArgBin(bin, v) => DirectiveView::LinkArgBin(bin@, v@),
            Directive::LinkArgTests(v) => DirectiveView::LinkArgTests(v@),
            Directive::LinkLib(v) => DirectiveView::LinkLib(v@),
            Directive::LinkSearch(v) => DirectiveView::LinkSearch(v@),
            Directive::CdylibLinkArg(v) => DirectiveView::CdylibLinkArg(v@),
            Directive::Env(k, v) => DirectiveView::Env(k@, v@),
            Directive::Warning(v) => DirectiveView::Warning(v@),
            Directive::Error(v) => DirectiveView::Error(v@),
            Directive::Nothing => DirectiveView::Nothing,
        }
    }
}

fn strip_either<'a>(s: &'a str, p: &str, q: &str) -> (r: Option<&'a str>)
    ensures
        r.deep_view() == after_either(s@, p@, q@),
{
    match text::strip_prefix(s, p) {
        Some(v) => Some(v),
        None => text::strip_prefix(s, q),
    }
}

fn read_directive(new_syntax: bool, d: &str) -> (r: Directive)
    ensures
        r.deep_view() == directive(new_syntax, d@),
{
    if let Some(v) = text::strip_prefix(d, "rustc-flags=") {
        Directive::RustcFlags(v.to_owned())
    } else if let Some(v) = text::strip_prefix(d, "rustc-check-cfg=") {
        Directive::CheckCfg(v.to_owned())
    } else if let Some(v) = text::strip_prefix(d, "rustc-cfg=") {
        Directive::Cfg(v.to_owned())
    } else if let Some(v) = text::strip_prefix(d, "rustc-link-arg=") {
        Directive::LinkArg(v.to_owned())
    } else if let Some(v) = text::strip_prefix(d, "rustc-link-arg-lib=") {
        Directive::LinkArgLib(v.to_owned())
    } else if let Some(v) = text::strip_prefix(d, "rustc-link-arg-bins=") {
        Directive::LinkArgBins(v.to_owned())
    } else if let Some(v) = text::strip_prefix(d, "rustc-link-arg-bin=") {
        match text::split_once(v, '=') {
            Some((bin, arg)) => Directive::LinkArgBin(bin.to_owned(), arg.to_owned()),
            None => Directive::Nothing,
        }
    } else if let Some(v) = text::strip_prefix(d, "rustc-link-arg-tests=") {
        Directive::LinkArgTests(v.to_owned())
    } else if let Some(v) = text::strip_prefix(d, "rustc-link-lib=") {
        Directive::LinkLib(v.to_owned())
    } else if let Some(v) = text::strip_prefix(d, "rustc-link-search=") {
        Directive::LinkSearch(v.to_owned())
    } else if let Some(v) = strip_either(d, "rustc-cdylib-link-arg=", "rustc-link-arg-cdylib=") {
        Directive::CdylibLinkArg(v.to_owned())
    } else if let Some(v) = text::strip_prefix(d, "rustc-env=") {
        match text::split_once(v, '=') {
            Some((k, val)) => Directive::Env(k.to_owned(), val.to_owned()),
            None => Directive::Nothing,
        }
    } else if let Some(v) = text::strip_prefix(d, "warning=") {
        Directive::Warning(v.to_owned())
    } else if new_syntax {
        match text::strip_prefix(d, "error=") {
            Some(v) => Directive::Error(v.to_owned()),
            None => Directive::Nothing,
        }
    } else {
        Directive::Nothing
    }
}

fn read_line(line: &str) -> (r: Directive)
    ensures
        r.deep_view() == directive_of(line@),
{
    let t = text::trim(line);
    match text::strip_prefix(t, "cargo::") {
        Some(d) => read_directive(true, text::trim_end(d)),
        None => match text::strip_prefix(t, "cargo:") {
            Some(d) => read_directive(false, text::trim_end(d)),
            None => Directive::Nothing,
        },
    }
}

fn resolve_search(v: &str, cwd: &str) -> (r: String)
    ensures
        r@ == search_path(v@, cwd@),
{
    match text::split_once(v, '=') {
        Some((kind, path)) => {
            if text::starts_with(path, "/") {
                v.to_owned()
            } else {
                text::cat3(kind, "=", &disk::join_path(cwd, path))
            }
        },
        None => {
            if text::starts_with(v, "/") {
                v.to_owned()
            } else {
                disk::join_path(cwd, v)
            }
        },
    }
}

fn push_once(v: &mut Vec<String>, x: &str)
    ensures
        final(v).deep_view() == with_once(old(v).deep_view(), x@),
{
    if !sorted::has_text(v, x) {
        sorted::push_text(v, x);
    }
}

fn push_link_arg(v: &mut Vec<String>, arg: &str)
    ensures
        final(v).deep_view() == with_link_arg(old(v).deep_view(), arg@),
{
    let s = text::cat2("link-arg=", arg);
    sorted::push_two(v, "-C", &s);
}

fn add_bin_arg(m: &mut StrMap<Vec<String>>, bin: String, arg: &str)
    requires
        old(m).wf(),
    ensures
        final(m).deep_view() == with_bin_arg(old(m).deep_view(), bin@, arg@),
        final(m).wf(),
{
    let mut args: Vec<String> = match m.get(&bin) {
        Some(v) => sorted::copy_texts(v),
        None => Vec::new(),
    };
    assert(args.deep_view() =~= args_for(m.deep_view(), bin@));
    push_link_arg(&mut args, arg);
    m.insert(bin, args);
}

/// The text of the flags and the state that the lines have brought.
struct Reading {
    outputs: BuildScriptOutputs,
    flags: Vec<String>,
    warnings: Vec<String>,
    error: Option<String>,
}

impl Reading {
    spec fn view_of(&self) -> ScriptView {
        ScriptView {
            outputs: self.outputs.deep_view(),
            flags: self.flags.deep_view(),
            warnings: self.warnings.deep_view(),
            error: self.error.deep_view(),
        }
    }

    fn apply(&mut self, d: Directive, cwd: &str)
        requires
            old(self).error is None,
            old(self).outputs.envs.wf(),
            old(self).outputs.link_args_bin.wf(),
        ensures
            final(self).view_of() == applied(old(self).view_of(), d.deep_view(), cwd@),
            final(self).outputs.envs.wf(),
            final(self).outputs.link_args_bin.wf(),
    {
        match d {
            Directive::RustcFlags(v) => {
                sorted::push_text(&mut self.flags, &v);
            },
            Directive::CheckCfg(v) => {
                sorted::push_text(&mut self.outputs.check_cfgs, &v);
            },
            Directive::Cfg(v) => {
                sorted::push_text(&mut self.outputs.cfgs, &v);
            },
            Directive::LinkArg(v) => {
                push_link_arg(&mut self.outputs.link_args, &v);
            },
            Directive::LinkArgLib(v) => {
                push_link_arg(&mut self.outputs.link_args_lib, &v);
            },
            Directive::LinkArgBins(v) => {
                push_link_arg(&mut self.outputs.link_args_bins, &v);
            },
            Directive::LinkArgBin(bin, v) => {
                add_bin_arg(&mut self.outputs.link_args_bin, bin, &v);
            },
            Directive::LinkArgTests(v) => {
                push_link_arg(&mut self.outputs.link_args_tests, &v);
            },
            Directive::LinkLib(v) => {
                sorted::push_text(&mut self.outputs.link_libs, &v);
            },
            Directive::LinkSearch(v) => {
                let path = resolve_search(&v, cwd);
                push_once(&mut self.outputs.link_search, &path);
            },
            Directive::CdylibLinkArg(v) => {
                push_link_arg(&mut self.outputs.cdylib_link_args, &v);
            },
            Directive::Env(k, v) => {
                self.outputs.envs.insert(k, v);
            },
            Directive::Warning(v) => {
                sorted::push_text(&mut self.warnings, &v);
            },
            Directive::Error(v) => {
                self.error = Some(v);
            },
            Directive::Nothing => {},
        }
    }
}

proof fn lemma_error_stays(lines: Seq<Seq<char>>, n: int, out_dir: Seq<char>, cwd: Seq<char>)
    requires
        0 <= n <= lines.len(),
        script_read(lines.take(n), out_dir, cwd).error is Some,
    ensures
        script_read(lines, out_dir, cwd) == script_read(lines.take(n), out_dir, cwd),
    decreases lines.len() - n,
{
    if n == lines.len() {
        assert(lines.take(n) =~= lines);
    } else {
        assert(lines.take(n + 1).drop_last() =~= lines.take(n));
        lemma_error_stays(lines, n + 1, out_dir, cwd);
    }
}

/// Reads the output of a build script. `out_dir` is the directory that the script wrote to, and
/// relative search paths are taken from `cwd`. Flags keep the order in which they were printed.
pub fn parse_build_script_output(stdout: &str, out_dir: &str, cwd: &str) -> (r: ScriptRun)
    ensures
        ({
            let s = script_read(text::lines(stdout@), out_dir@, cwd@);
            &&& r.outputs.deep_view() == outputs_of(s)
            &&& r.outputs.envs.wf()
            &&& r.outputs.link_args_bin.wf()
            &&& r.warnings.deep_view() == s.warnings
            &&& r.error.deep_view() == s.error
        }),
{
    let lines = text::split_lines(stdout);
    let ghost s = lines.deep_view();
    let mut reading = Reading {
        outputs: BuildScriptOutputs::none(out_dir),
        flags: Vec::new(),
        warnings: Vec::new(),
        error: None,
    };
    proof {
        assert(s.take(0) =~= Seq::empty());
        assert(reading.flags.deep_view() =~= Seq::empty());
        assert(reading.warnings.deep_view() =~= Seq::empty());
        assert(reading.view_of() == script_read(s.take(0), out_dir@, cwd@));
    }
    let n: usize = lines.len();
    let mut i: usize = 0;
    while i < n && reading.error.is_none()
        invariant
            s == lines.deep_view(),
            n == s.len(),
            i <= n,
            reading.outputs.envs.wf(),
            reading.outputs.link_args_bin.wf(),
            reading.view_of() == script_read(s.take(i as int), out_dir@, cwd@),
        decreases n - i,
    {
        assert(s.take(i + 1).drop_last() =~= s.take(i as int));
        assert(s.take(i + 1).last() == lines@[i as int]@);
        let d = read_line(&lines[i]);
        reading.apply(d, cwd);
        i += 1;
    }
    proof {
        if i < n {
            lemma_error_stays(s, i as int, out_dir@, cwd@);
        } else {
            assert(s.take(n as int) =~= s);
        }
    }
    let mut outputs = reading.outputs;
    outputs.rustc_flags = text::join(&reading.flags, " ");
    ScriptRun { outputs, warnings: reading.warnings, error: reading.error }
}

/// No two items of `s` are the same.
pub open spec fn all_different(s: Seq<Seq<char>>) -> bool {
    forall|i: int, j: int| 0 <= i < j < s.len() ==> #[trigger] s[i] != #[trigger] s[j]
}

proof fn lemma_once_stays_different(v: Seq<Seq<char>>, x: Seq<char>)
    requires
        all_different(v),
    ensures
        all_different(with_once(v, x)),
        v.is_prefix_of(with_once(v, x)),
        with_once(v, x).contains(x),
{
    let r = with_once(v, x);
    if !v.contains(x) {
        assert(r[v.len() as int] == x);
        assert forall|i: int, j: int| 0 <= i < j < r.len() implies #[trigger] r[i] != #[trigger] r[j] by {
            if j == v.len() {
                assert(v[i] == r[i]);
            }
        }
        assert(v =~= r.subrange(0, v.len() as int));
    } else {
        assert(v =~= v.subrange(0, v.len() as int));
    }
}

/// No search path is passed on twice.
pub proof fn lemma_search_paths_once(lines: Seq<Seq<char>>, out_dir: Seq<char>, cwd: Seq<char>)
    ensures
        all_different(script_read(lines, out_dir, cwd).outputs.link_search),
    decreases lines.len(),
{
    if lines.len() > 0 {
        let s = script_read(lines.drop_last(), out_dir, cwd);
        lemma_search_paths_once(lines.drop_last(), out_dir, cwd);
        match directive_of(lines.last()) {
            DirectiveView::LinkSearch(v) => {
                lemma_once_stays_different(s.outputs.link_search, search_path(v, cwd));
            },
            _ => {},
        }
    }
}

/// What was read stays read: further lines only add flags behind those that are there.
pub proof fn lemma_flags_keep_order(lines: Seq<Seq<char>>, line: Seq<char>, out_dir: Seq<char>, cwd: Seq<char>)
    ensures
        ({
            let a = script_read(lines, out_dir, cwd);
            let b = script_read(lines.push(line), out_dir, cwd);
            &&& a.flags.is_prefix_of(b.flags)
            &&& a.outputs.link_args.is_prefix_of(b.outputs.link_args)
            &&& a.outputs.link_libs.is_prefix_of(b.outputs.link_libs)
            &&& a.outputs.link_search.is_prefix_of(b.outputs.link_search)
        }),
{
    let a = script_read(lines, out_dir, cwd);
    let b = script_read(lines.push(line), out_dir, cwd);
    assert(lines.push(line).drop_last() =~= lines);
    lemma_search_paths_once(lines, out_dir, cwd);
    match directive_of(line) {
        DirectiveView::LinkSearch(v) => {
            lemma_once_stays_different(a.outputs.link_search, search_path(v, cwd));
        },
        _ => {},
    }
    assert(a.flags =~= b.flags.subrange(0, a.flags.len() as int));
    assert(a.outputs.link_args =~= b.outputs.link_args.subrange(0, a.outputs.link_args.len() as int));
    assert(a.outputs.link_libs =~= b.outputs.link_libs.subrange(0, a.outputs.link_libs.len() as int));
    assert(a.outputs.link_search =~= b.outputs.link_search.subrange(0, a.outputs.link_search.len() as int));
}

pub open spec fn not_in(s: Seq<Seq<char>>) -> spec_fn(Seq<char>) -> bool {
    |x: Seq<char>| !s.contains(x)
}

/// Whether `c` is what `a` and then `b` bring: each list of `a` and behind it that of `b`, also for each
/// binary on its own, of the search paths of `b` those that `a` has not, and of the variables those of
/// `b` before those of `a`.
pub open spec fn brings_both(c: ScriptView, a: ScriptView, b: ScriptView) -> bool {
    &&& c.error is None
    &&& c.flags == a.flags + b.flags
    &&& c.warnings == a.warnings + b.warnings
    &&& c.outputs.cfgs == a.outputs.cfgs + b.outputs.cfgs
    &&& c.outputs.check_cfgs == a.outputs.check_cfgs + b.outputs.check_cfgs
    &&& c.outputs.link_args == a.outputs.link_args + b.outputs.link_args
    &&& c.outputs.link_args_lib == a.outputs.link_args_lib + b.outputs.link_args_lib
    &&& c.outputs.link_args_bins == a.outputs.link_args_bins + b.outputs.link_args_bins
    &&& c.outputs.link_args_tests == a.outputs.link_args_tests + b.outputs.link_args_tests
    &&& c.outputs.link_libs == a.outputs.link_libs + b.outputs.link_libs
    &&& c.outputs.cdylib_link_args == a.outputs.cdylib_link_args + b.outputs.cdylib_link_args
    &&& c.outputs.link_search == a.outputs.link_search + sorted::keep(
        b.outputs.link_search,
        not_in(a.outputs.link_search),
    )
    &&& all_different(c.outputs.link_search)
    &&& sorted::ascending(c.outputs.link_args_bin)
    &&& forall|k: Seq<char>| #[trigger]
        args_for(c.outputs.link_args_bin, k) == args_for(a.outputs.link_args_bin, k) + args_for(
            b.outputs.link_args_bin,
            k,
        )
    &&& sorted::ascending(c.outputs.envs)
    &&& forall|k: Seq<char>| #[trigger]
        sorted::entry_of(c.outputs.envs, k) == match sorted::entry_of(b.outputs.envs, k) {
            Some(v) => Some(v),
            None => sorted::entry_of(a.outputs.envs, k),
        }
}

proof fn lemma_tables_ascending(lines: Seq<Seq<char>>, out_dir: Seq<char>, cwd: Seq<char>)
    ensures
        sorted::ascending(script_read(lines, out_dir, cwd).outputs.envs),
        sorted::ascending(script_read(lines, out_dir, cwd).outputs.link_args_bin),
    decreases lines.len(),
{
    if lines.len() > 0 {
        let s = script_read(lines.drop_last(), out_dir, cwd);
        lemma_tables_ascending(lines.drop_last(), out_dir, cwd);
        match directive_of(lines.last()) {
            DirectiveView::Env(k, v) => {
                sorted::lemma_with_entry_ascending(s.outputs.envs, k, v);
            },
            DirectiveView::LinkArgBin(bin, v) => {
                let m = s.outputs.link_args_bin;
                sorted::lemma_with_entry_ascending(m, bin, with_link_arg(args_for(m, bin), v));
            },
            _ => {},
        }
    }
}

proof fn lemma_lines_add_up(la: Seq<Seq<char>>, lb: Seq<Seq<char>>, out_dir: Seq<char>, cwd: Seq<char>)
    requires
        script_read(la, out_dir, cwd).error is None,
        script_read(lb, out_dir, cwd).error is None,
    ensures
        brings_both(
            script_read(la + lb, out_dir, cwd),
            script_read(la, out_dir, cwd),
            script_read(lb, out_dir, cwd),
        ),
    decreases lb.len(),
{
    let a = script_read(la, out_dir, cwd);
    let all = la + lb;
    lemma_search_paths_once(all, out_dir, cwd);
    lemma_tables_ascending(all, out_dir, cwd);
    if lb.len() == 0 {
        assert(all =~= la);
        assert(a.outputs.link_search + Seq::<Seq<char>>::empty() =~= a.outputs.link_search);
        assert forall|k: Seq<char>| #[trigger]
            args_for(a.outputs.link_args_bin, k) == args_for(a.outputs.link_args_bin, k) + args_for(
                script_read(lb, out_dir, cwd).outputs.link_args_bin,
                k,
            ) by {}
    } else {
        let lr = lb.drop_last();
        let r = script_read(lr, out_dir, cwd);
        let d = directive_of(lb.last());
        assert(all.drop_last() =~= la + lr);
        assert(all.last() == lb.last());
        assert(r.error is None);
        lemma_lines_add_up(la, lr, out_dir, cwd);
        let c = script_read(la + lr, out_dir, cwd);
        let c1 = applied(c, d, cwd);
        let b1 = applied(r, d, cwd);
        lemma_step_adds_up(a, r, c, d, cwd, la, lr, out_dir);
        assert(script_read(all, out_dir, cwd) == c1);
        assert(script_read(lb, out_dir, cwd) == b1);
    }
}

proof fn lemma_step_adds_up(
    a: ScriptView,
    b: ScriptView,
    c: ScriptView,
    d: DirectiveView,
    cwd: Seq<char>,
    la: Seq<Seq<char>>,
    lb: Seq<Seq<char>>,
    out_dir: Seq<char>,
)
    requires
        a == script_read(la, out_dir, cwd),
        b == script_read(lb, out_dir, cwd),
        c == script_read(la + lb, out_dir, cwd),
        b.error is None,
        !(d is Error),
        brings_both(c, a, b),
    ensures
        brings_both(applied(c, d, cwd), a, applied(b, d, cwd)),
{
    let c1 = applied(c, d, cwd);
    let b1 = applied(b, d, cwd);
    match d {
        DirectiveView::LinkSearch(v) => {
            let p = search_path(v, cwd);
            let s = a.outputs.link_search;
            let kept = sorted::keep(b.outputs.link_search, not_in(s));
            lemma_once_stays_different(c.outputs.link_search, p);
            sorted::lemma_keep_holds(b.outputs.link_search, not_in(s));
            assert((s + kept).contains(p) <==> s.contains(p) || b.outputs.link_search.contains(p)) by {
                if (s + kept).contains(p) {
                    lists::lemma_concat_from(s, kept, p);
                    if kept.contains(p) {
                        let n = choose|n: int| 0 <= n < kept.len() && kept[n] == p;
                        assert(b.outputs.link_search.contains(kept[n]));
                    }
                }
                if s.contains(p) {
                    lists::lemma_concat_has(s, kept, p);
                } else if b.outputs.link_search.contains(p) {
                    let n = choose|n: int|
                        0 <= n < b.outputs.link_search.len() && b.outputs.link_search[n] == p;
                    assert(not_in(s)(b.outputs.link_search[n]));
                    lists::lemma_concat_has(s, kept, p);
                }
            }
            if !b.outputs.link_search.contains(p) {
                let more = b.outputs.link_search.push(p);
                assert(more.drop_last() =~= b.outputs.link_search);
                if !s.contains(p) {
                    assert(s + kept.push(p) =~= (s + kept).push(p));
                }
            }
        },
        DirectiveView::Env(k, v) => {
            lemma_tables_ascending(lb, out_dir, cwd);
            lemma_tables_ascending(la + lb, out_dir, cwd);
            sorted::lemma_with_entry_ascending(c.outputs.envs, k, v);
            assert forall|q: Seq<char>| #[trigger]
                sorted::entry_of(c1.outputs.envs, q) == match sorted::entry_of(b1.outputs.envs, q) {
                    Some(x) => Some(x),
                    None => sorted::entry_of(a.outputs.envs, q),
                } by {
                sorted::lemma_with_entry_reads(c.outputs.envs, k, v, q);
                sorted::lemma_with_entry_reads(b.outputs.envs, k, v, q);
            }
        },
        DirectiveView::LinkArgBin(bin, v) => {
            let ma = a.outputs.link_args_bin;
            let mb = b.outputs.link_args_bin;
            let mc = c.outputs.link_args_bin;
            let xb = with_link_arg(args_for(mb, bin), v);
            let xc = with_link_arg(args_for(mc, bin), v);
            lemma_tables_ascending(lb, out_dir, cwd);
            sorted::lemma_with_entry_ascending(mc, bin, xc);
            assert(xc =~= args_for(ma, bin) + xb);
            assert forall|q: Seq<char>| #[trigger]
                args_for(c1.outputs.link_args_bin, q) == args_for(ma, q) + args_for(b1.outputs.link_args_bin, q) by {
                sorted::lemma_with_entry_reads(mc, bin, xc, q);
                sorted::lemma_with_entry_reads(mb, bin, xb, q);
                assert(args_for(mc, q) == args_for(ma, q) + args_for(mb, q));
            }
        },
        _ => {
            assert(c1.outputs.link_args_tests =~= a.outputs.link_args_tests + b1.outputs.link_args_tests);
            assert(c1.flags =~= a.flags + b1.flags);
            assert(c1.warnings =~= a.warnings + b1.warnings);
            assert(c1.outputs.cfgs =~= a.outputs.cfgs + b1.outputs.cfgs);
            assert(c1.outputs.check_cfgs =~= a.outputs.check_cfgs + b1.outputs.check_cfgs);
            assert(c1.outputs.link_args =~= a.outputs.link_args + b1.outputs.link_args);
            assert(c1.outputs.link_args_lib =~= a.outputs.link_args_lib + b1.outputs.link_args_lib);
            assert(c1.outputs.link_args_bins =~= a.outputs.link_args_bins + b1.outputs.link_args_bins);
            assert(c1.outputs.link_libs =~= a.outputs.link_libs + b1.outputs.link_libs);
            assert(c1.outputs.cdylib_link_args =~= a.outputs.cdylib_link_args + b1.outputs.cdylib_link_args);
        },
    }
}

/// What a script prints in two parts adds up: with no error in either part, each list is that of the
/// first part and then that of the second, search paths stay unique, and the second part's variables
/// override those of the first.
pub proof fn lemma_outputs_add_up(first: Seq<char>, second: Seq<char>, out_dir: Seq<char>, cwd: Seq<char>)
    requires
        first.len() == 0 || first.last() == '\n',
        script_read(text::lines(first), out_dir, cwd).error is None,
        script_read(text::lines(second), out_dir, cwd).error is None,
    ensures
        brings_both(
            script_read(text::lines(first + second), out_dir, cwd),
            script_read(text::lines(first), out_dir, cwd),
            script_read(text::lines(second), out_dir, cwd),
        ),
{
    text::lemma_lines_joined(first, second);
    lemma_lines_add_up(text::lines(first), text::lines(second), out_dir, cwd);
}

// ---------------------------------------------------------------------------
// Metadata for dependents
// ---------------------------------------------------------------------------

/// The pair that a line sets for dependents: `cargo::metadata=KEY=VALUE`, or `cargo:KEY=VALUE` where
/// that is no directive.
pub open spec fn links_pair(line: Seq<char>) -> Option<(Seq<char>, Seq<char>)> {
    let t = text::trimmed(line);
    let d = match text::after_prefix(t, "cargo::"@) {
        Some(rest) => text::after_prefix(rest, "metadata="@),
        None => text::after_prefix(t, "cargo:"@),
    };
    match d {
        Some(kv) => if text::has_prefix(kv, "rustc-"@) || text::has_prefix(kv, "warning="@) || text::has_prefix(
            kv,
            "rerun-if-"@,
        ) {
            None
        } else {
            text::cut_first(kv, '=')
        },
        None => None,
    }
}

pub open spec fn links_pair_at() -> spec_fn(Seq<char>) -> Option<(Seq<char>, Seq<char>)> {
    |line: Seq<char>| links_pair(line)
}

fn read_links_pair(line: &str) -> (r: Option<(String, String)>)
    ensures
        r.deep_view() == links_pair(line@),
{
    let t = text::trim(line);
    let d = match text::strip_prefix(t, "cargo::") {
        Some(rest) => text::strip_prefix(rest, "metadata="),
        None => text::strip_prefix(t, "cargo:"),
    };
    match d {
        Some(kv) => {
            if text::starts_with(kv, "rustc-") || text::starts_with(kv, "warning=") || text::starts_with(
                kv,
                "rerun-if-",
            ) {
                None
            } else {
                match text::split_once(kv, '=') {
                    Some((k, v)) => Some((k.to_owned(), v.to_owned())),
                    None => None,
                }
            }
        },
        None => None,
    }
}

/// The pairs that a build script sets for the crates that depend on its package.
pub fn parse_links_metadata(stdout: &str) -> (r: StrMap<String>)
    ensures
        r.deep_view() == sorted::map_of(text::lines(stdout@).filter_map(links_pair_at())),
        r.wf(),
{
    let lines = text::split_lines(stdout);
    let ghost s = lines.deep_view();
    let ghost f = links_pair_at();
    let mut list: Vec<(String, String)> = Vec::new();
    assert(list.deep_view() =~= s.take(0).filter_map(f));
    for i in 0..lines.len()
        invariant
            s == lines.deep_view(),
            f == links_pair_at(),
            list.deep_view() == s.take(i as int).filter_map(f),
    {
        let ghost o = list.deep_view();
        assert(s.take(i + 1).drop_last() =~= s.take(i as int));
        assert(s.take(i + 1).last() == lines@[i as int]@);
        if let Some(e) = read_links_pair(&lines[i]) {
            let ghost ev = e.deep_view();
            list.push(e);
            assert(list.deep_view() =~= o + seq![ev]);
        }
    }
    assert(s.take(s.len() as int) =~= s);
    StrMap::from_list(list)
}

/// The values that are kept for dependents, as the text of their file gives them. A file that is missing
/// or holds no such map counts as empty.
pub open spec fn links_vars_kept(text: Option<Seq<char>>) -> Seq<(Seq<char>, Seq<char>)> {
    match text {
        Some(t) => match json_tree::text_map_parsed(t) {
            Some(m) => sorted::map_of(m),
            None => Seq::empty(),
        },
        None => Seq::empty(),
    }
}

/// Reads the values that are kept for dependents.
pub fn links_vars_in(text: &Option<String>) -> (r: StrMap<String>)
    ensures
        r.deep_view() == links_vars_kept(text.deep_view()),
        r.wf(),
{
    match text {
        Some(t) => match json_tree::text_map_from_str(t) {
            Some(m) => StrMap::from_list(m),
            None => StrMap::new(),
        },
        None => StrMap::new(),
    }
}

/// The text in which the values are kept for dependents. It is read back as the same values.
pub fn links_vars_text(vars: &StrMap<String>) -> (r: Result<String, String>)
    requires
        vars.wf(),
    ensures
        json_tree::text_map_written(vars.deep_view()) == match r {
            Ok(s) => Ok::<Seq<char>, Seq<char>>(s@),
            Err(e) => Err::<Seq<char>, Seq<char>>(e@),
        },
        r matches Ok(s) ==> links_vars_kept(Some(s@)) == vars.deep_view(),
{
    proof {
        sorted::lemma_map_of_itself(vars.deep_view());
    }
    match json_tree::text_map_to_string(&vars.entries) {
        Ok(s) => Ok(s),
        Err(e) => Err(json_tree::json_complaint(&e)),
    }
}

/// A name as part of a variable's name.
pub open spec fn variable_part(s: Seq<char>) -> Seq<char> {
    text::uppercased(resolve::normalized(s))
}

fn to_variable_part(s: &str) -> (r: String)
    ensures
        r@ == variable_part(s@),
{
    text::to_uppercase(&resolve::normalize_name(s))
}

/// The variable in which dependents find a value.
pub open spec fn dep_variable(links: Seq<char>, key: Seq<char>) -> Seq<char> {
    "DEP_"@ + variable_part(links) + "_"@ + variable_part(key)
}

pub open spec fn export_at(links: Seq<char>) -> spec_fn((Seq<char>, Seq<char>)) -> Seq<char> {
    |e: (Seq<char>, Seq<char>)| "export "@ + dep_variable(links, e.0) + "="@ + shell::shell_quoted(e.1)
}

/// The shell file that sets the values for dependents, as overrides of crates expect it.
pub fn legacy_dep_env(links: &str, vars: &StrMap<String>) -> (r: String)
    ensures
        r@ == text::joined(vars.deep_view().map_values(export_at(links@)), "\n"@),
{
    let ghost s = vars.deep_view();
    let ghost full = s.map_values(export_at(links@));
    let mut lines: Vec<String> = Vec::new();
    assert(lines.deep_view() =~= full.take(0));
    let upper = to_variable_part(links);
    for i in 0..vars.entries.len()
        invariant
            s == vars.entries.deep_view(),
            upper@ == variable_part(links@),
            full == s.map_values(export_at(links@)),
            lines.deep_view() == full.take(i as int),
    {
        let ghost o = lines.deep_view();
        assert(s[i as int] == vars.entries@[i as int].deep_view());
        let name = text::cat4("DEP_", &upper, "_", &to_variable_part(&vars.entries[i].0));
        let quoted = shell::quote(&vars.entries[i].1);
        lines.push(text::cat4("export ", &name, "=", &quoted));
        assert(lines.deep_view() =~= o.push(full[i as int]));
        assert(full.take(i + 1) =~= full.take(i as int).push(full[i as int]));
    }
    assert(full.take(s.len() as int) =~= full);
    text::join(&lines, "\n")
}

/// The variable that a line of such a file sets.
pub open spec fn exported_pair(line: Seq<char>) -> Option<(Seq<char>, Seq<char>)> {
    match text::after_prefix(line, "export "@) {
        Some(rest) => match text::cut_first(rest, '=') {
            Some((k, v)) => Some((k, shell::unquoted(v))),
            None => None,
        },
        None => None,
    }
}

pub open spec fn exported_pair_at() -> spec_fn(Seq<char>) -> Option<(Seq<char>, Seq<char>)> {
    |line: Seq<char>| exported_pair(line)
}

pub open spec fn dep_pair_at(links: Seq<char>) -> spec_fn((Seq<char>, Seq<char>)) -> (Seq<char>, Seq<char>) {
    |e: (Seq<char>, Seq<char>)| (dep_variable(links, e.0), e.1)
}

/// What was read of an installed dependency, as far as the files are there.
#[derive(Debug, Clone)]
pub struct DepFiles {
    /// What it says of itself.
    pub metadata: Option<CrateMetadata>,
    /// Its link flags.
    pub link: Option<String>,
    /// Its shell file.
    pub env: Option<String>,
}

/// The view of a [`DepFiles`].
pub struct DepFilesView {
    pub metadata: Option<CrateMetadataView>,
    pub link: Option<Seq<char>>,
    pub env: Option<Seq<char>>,
}

impl DeepView for DepFiles {
    type V = DepFilesView;

    open spec fn deep_view(&self) -> DepFilesView {
        DepFilesView {
            metadata: self.metadata.deep_view(),
            link: self.link.deep_view(),
            env: self.env.deep_view(),
        }
    }
}

/// What one dependency passes on: what it says of itself, with its shell file laid over it.
pub open spec fn dep_pairs(dep: DepFilesView) -> Seq<(Seq<char>, Seq<char>)> {
    match dep.metadata {
        Some(m) => if m.links.len() == 0 {
            Seq::empty()
        } else {
            m.links_vars.map_values(dep_pair_at(m.links)) + match dep.env {
                Some(content) => text::lines(content).filter_map(exported_pair_at()),
                None => Seq::empty(),
            }
        },
        None => Seq::empty(),
    }
}

pub open spec fn dep_pairs_at() -> spec_fn(DepFilesView) -> Seq<(Seq<char>, Seq<char>)> {
    |dep: DepFilesView| dep_pairs(dep)
}

fn add_dep_pairs(list: &mut Vec<(String, String)>, dep: &DepFiles)
    ensures
        final(list).deep_view() == old(list).deep_view() + dep_pairs(dep.deep_view()),
{
    let ghost start = list.deep_view();
    let m = match &dep.metadata {
        Some(m) => m,
        None => {
            assert(list.deep_view() =~= start + Seq::empty());
            return;
        },
    };
    if m.links.as_str().is_empty() {
        assert(list.deep_view() =~= start + Seq::empty());
        return;
    }
    let ghost s = m.links_vars.deep_view();
    let ghost full = s.map_values(dep_pair_at(m.links@));
    let upper = to_variable_part(&m.links);
    assert(list.deep_view() =~= start + full.take(0));
    for i in 0..m.links_vars.entries.len()
        invariant
            s == m.links_vars.entries.deep_view(),
            upper@ == variable_part(m.links@),
            full == s.map_values(dep_pair_at(m.links@)),
            list.deep_view() == start + full.take(i as int),
    {
        let ghost o = list.deep_view();
        assert(s[i as int] == m.links_vars.entries@[i as int].deep_view());
        let e = &m.links_vars.entries[i];
        list.push((text::cat4("DEP_", &upper, "_", &to_variable_part(&e.0)), e.1.clone()));
        assert(list.deep_view() =~= o.push(full[i as int]));
        assert(full.take(i + 1) =~= full.take(i as int).push(full[i as int]));
    }
    assert(full.take(s.len() as int) =~= full);
    let ghost mid = list.deep_view();
    match &dep.env {
        Some(content) => {
            let lines = text::split_lines(content);
            let ghost ls = lines.deep_view();
            let ghost f = exported_pair_at();
            assert(list.deep_view() =~= mid + ls.take(0).filter_map(f));
            for i in 0..lines.len()
                invariant
                    ls == lines.deep_view(),
                    f == exported_pair_at(),
                    list.deep_view() == mid + ls.take(i as int).filter_map(f),
            {
                let ghost o = list.deep_view();
                assert(ls.take(i + 1).drop_last() =~= ls.take(i as int));
                assert(ls.take(i + 1).last() == lines@[i as int]@);
                if let Some(rest) = text::strip_prefix(&lines[i], "export ") {
                    if let Some((k, v)) = text::split_once(rest, '=') {
                        let value = shell::unquote(v);
                        let ghost ev = (k@, value@);
                        list.push((k.to_owned(), value));
                        assert(list.deep_view() =~= o.push(ev));
                    }
                }
                assert(list.deep_view() =~= mid + ls.take(i + 1).filter_map(f));
            }
            assert(ls.take(ls.len() as int) =~= ls);
        },
        None => {
            assert(list.deep_view() =~= mid + Seq::empty());
        },
    }
    assert(list.deep_view() =~= start + dep_pairs(dep.deep_view()));
}

fn add_all_pairs(list: &mut Vec<(String, String)>, deps: &Vec<DepFiles>)
    ensures
        final(list).deep_view() == old(list).deep_view() + lists::flat(deps.deep_view(), dep_pairs_at()),
{
    let ghost start = list.deep_view();
    let ghost s = deps.deep_view();
    let ghost f = dep_pairs_at();
    assert(list.deep_view() =~= start + lists::flat(s.take(0), f));
    for i in 0..deps.len()
        invariant
            s == deps.deep_view(),
            f == dep_pairs_at(),
            list.deep_view() == start + lists::flat(s.take(i as int), f),
    {
        assert(s.take(i + 1).drop_last() =~= s.take(i as int));
        assert(s.take(i + 1).last() == deps@[i as int].deep_view());
        add_dep_pairs(list, &deps[i]);
        assert(list.deep_view() =~= start + lists::flat(s.take(i + 1), f));
    }
    assert(s.take(s.len() as int) =~= s);
}

/// The variables that the dependencies, and then the build dependencies, pass on.
pub open spec fn dep_env(deps: Seq<DepFilesView>, build_deps: Seq<DepFilesView>) -> Seq<(Seq<char>, Seq<char>)> {
    sorted::map_of(lists::flat(deps, dep_pairs_at()) + lists::flat(build_deps, dep_pairs_at()))
}

/// The `DEP_*` environment of a build script, from what each dependency says of itself and from its
/// shell file, if it has one. A later dependency wins over an earlier one.
pub fn dep_links_env(deps: &Vec<DepFiles>, build_deps: &Vec<DepFiles>) -> (r: StrMap<String>)
    ensures
        r.deep_view() == dep_env(deps.deep_view(), build_deps.deep_view()),
        r.wf(),
{
    let mut list: Vec<(String, String)> = Vec::new();
    add_all_pairs(&mut list, deps);
    add_all_pairs(&mut list, build_deps);
    assert(list.deep_view() =~= lists::flat(deps.deep_view(), dep_pairs_at()) + lists::flat(
        build_deps.deep_view(),
        dep_pairs_at(),
    ));
    StrMap::from_list(list)
}

// ---------------------------------------------------------------------------
// Link flags
// ---------------------------------------------------------------------------

/// The lines with each line of `lines` behind them that is not empty and not there yet.
pub open spec fn lines_added(v: Seq<Seq<char>>, lines: Seq<Seq<char>>) -> Seq<Seq<char>>
    decreases lines.len(),
{
    if lines.len() == 0 {
        v
    } else {
        let before = lines_added(v, lines.drop_last());
        if lines.last().len() == 0 {
            before
        } else {
            with_once(before, lines.last())
        }
    }
}

/// The lines with those of each dependency's file, as far as it is there.
pub open spec fn files_added(v: Seq<Seq<char>>, deps: Seq<DepFilesView>) -> Seq<Seq<char>>
    decreases deps.len(),
{
    if deps.len() == 0 {
        v
    } else {
        let before = files_added(v, deps.drop_last());
        match deps.last().link {
            Some(content) => lines_added(before, text::lines(content)),
            None => before,
        }
    }
}

/// Adds the flags of a dependency's `link` file, whole lines at a time: a flag and its argument stay
/// together, the order stays, and only a line that is there already is left out.
pub fn collect_link_flags(content: &str, link: &mut Vec<String>)
    ensures
        final(link).deep_view() == lines_added(old(link).deep_view(), text::lines(content@)),
{
    let lines = text::split_lines(content);
    let ghost s = lines.deep_view();
    let ghost start = link.deep_view();
    assert(s.take(0) =~= Seq::empty());
    for i in 0..lines.len()
        invariant
            s == lines.deep_view(),
            link.deep_view() == lines_added(start, s.take(i as int)),
    {
        assert(s.take(i + 1).drop_last() =~= s.take(i as int));
        assert(s.take(i + 1).last() == lines@[i as int]@);
        if !lines[i].as_str().is_empty() {
            push_once(link, &lines[i]);
        }
    }
    assert(s.take(s.len() as int) =~= s);
}

/// The link flags of a crate's own and of its build script's dependencies.
#[derive(Debug, Clone)]
pub struct LinkPlan {
    pub link: Vec<String>,
    pub link_final: Vec<String>,
    pub build_link: Vec<String>,
}

/// The flags that a crate adds itself, as one line.
pub open spec fn own_flags(extra: Seq<Seq<char>>) -> Seq<Seq<char>> {
    if extra.len() == 0 {
        Seq::empty()
    } else {
        seq![text::joined(extra, " "@)]
    }
}

fn collect_files(files: &Vec<DepFiles>, link: &mut Vec<String>)
    ensures
        final(link).deep_view() == files_added(old(link).deep_view(), files.deep_view()),
{
    let ghost s = files.deep_view();
    let ghost start = link.deep_view();
    assert(s.take(0) =~= Seq::empty());
    for i in 0..files.len()
        invariant
            s == files.deep_view(),
            link.deep_view() == files_added(start, s.take(i as int)),
    {
        assert(s.take(i + 1).drop_last() =~= s.take(i as int));
        assert(s.take(i + 1).last() == files@[i as int].deep_view());
        if let Some(content) = &files[i].link {
            collect_link_flags(content, link);
        }
    }
    assert(s.take(s.len() as int) =~= s);
}

/// Gathers the link flags: the crate's own as one line, then those of the `link` files of its
/// dependencies.
pub fn plan_link_flags(
    extra_link_flags: &Vec<String>,
    deps: &Vec<DepFiles>,
    build_deps: &Vec<DepFiles>,
) -> (r: LinkPlan)
    ensures
        r.link.deep_view() == files_added(own_flags(extra_link_flags.deep_view()), deps.deep_view()),
        r.link_final.deep_view() == r.link.deep_view(),
        r.build_link.deep_view() == files_added(Seq::empty(), build_deps.deep_view()),
{
    let mut link: Vec<String> = Vec::new();
    if extra_link_flags.len() > 0 {
        link.push(text::join(extra_link_flags, " "));
    }
    assert(link.deep_view() =~= own_flags(extra_link_flags.deep_view()));
    collect_files(deps, &mut link);
    let link_final = sorted::copy_texts(&link);
    let mut build_link: Vec<String> = Vec::new();
    assert(build_link.deep_view() =~= Seq::empty());
    collect_files(build_deps, &mut build_link);
    LinkPlan { link, link_final, build_link }
}

proof fn lemma_lines_added(v: Seq<Seq<char>>, lines: Seq<Seq<char>>)
    requires
        all_different(v),
    ensures
        all_different(lines_added(v, lines)),
        v.is_prefix_of(lines_added(v, lines)),
        forall|k: int| 0 <= k < lines.len() && lines[k].len() > 0 ==> lines_added(v, lines).contains(#[trigger] lines[k]),
    decreases lines.len(),
{
    if lines.len() == 0 {
        assert(v =~= v.subrange(0, v.len() as int));
    } else {
        let t = lines.drop_last();
        let b = lines_added(v, t);
        let r = lines_added(v, lines);
        lemma_lines_added(v, t);
        if lines.last().len() > 0 {
            lemma_once_stays_different(b, lines.last());
        }
        assert(b.is_prefix_of(r)) by {
            if lines.last().len() == 0 {
                assert(b =~= b.subrange(0, b.len() as int));
            }
        }
        assert(v =~= r.subrange(0, v.len() as int)) by {
            assert(v =~= b.subrange(0, v.len() as int));
            assert(b =~= r.subrange(0, b.len() as int));
            assert forall|i: int| 0 <= i < v.len() implies v[i] == r[i] by {
                assert(v[i] == b.subrange(0, v.len() as int)[i]);
                assert(b[i] == r.subrange(0, b.len() as int)[i]);
            }
        }
        assert forall|k: int| 0 <= k < lines.len() && lines[k].len() > 0 implies r.contains(#[trigger] lines[k]) by {
            if k < t.len() {
                assert(t[k] == lines[k]);
                assert(b.contains(t[k]));
                let m = choose|m: int| 0 <= m < b.len() && b[m] == t[k];
                assert(b[m] == r.subrange(0, b.len() as int)[m]);
                assert(r[m] == lines[k]);
            }
        }
    }
}

/// Whether all the link flags of a dependency are in `out`.
pub open spec fn passed_on(dep: DepFilesView, out: Seq<Seq<char>>) -> bool {
    dep.link matches Some(content) ==> forall|j: int|
        0 <= j < text::lines(content).len() && text::lines(content)[j].len() > 0 ==> out.contains(
            #[trigger] text::lines(content)[j],
        )
}

proof fn lemma_prefix_contains(b: Seq<Seq<char>>, r: Seq<Seq<char>>, x: Seq<char>)
    requires
        b.is_prefix_of(r),
        b.contains(x),
    ensures
        r.contains(x),
{
    let m = choose|m: int| 0 <= m < b.len() && b[m] == x;
    assert(b[m] == r.subrange(0, b.len() as int)[m]);
    assert(r[m] == x);
}

/// Gathering link flags keeps those that are there in their places, passes on every line once, and
/// loses none.
pub proof fn lemma_link_flags(v: Seq<Seq<char>>, files: Seq<DepFilesView>)
    requires
        all_different(v),
    ensures
        all_different(files_added(v, files)),
        v.is_prefix_of(files_added(v, files)),
        forall|k: int| 0 <= k < files.len() ==> passed_on(#[trigger] files[k], files_added(v, files)),
    decreases files.len(),
{
    if files.len() == 0 {
        assert(v =~= v.subrange(0, v.len() as int));
    } else {
        let b = files_added(v, files.drop_last());
        let r = files_added(v, files);
        lemma_link_flags(v, files.drop_last());
        match files.last().link {
            Some(content) => {
                lemma_lines_added(b, text::lines(content));
            },
            None => {
                assert(b =~= b.subrange(0, b.len() as int));
            },
        }
        assert(b.is_prefix_of(r));
        assert forall|i: int| 0 <= i < v.len() implies v[i] == r[i] by {
            assert(v[i] == b.subrange(0, v.len() as int)[i]);
            assert(b[i] == r.subrange(0, b.len() as int)[i]);
        }
        assert(v =~= r.subrange(0, v.len() as int));
        assert forall|k: int| 0 <= k < files.len() implies passed_on(#[trigger] files[k], r) by {
            if k < files.len() - 1 {
                assert(files.drop_last()[k] == files[k]);
                if let Some(content) = files[k].link {
                    let lines = text::lines(content);
                    assert forall|j: int| 0 <= j < lines.len() && lines[j].len() > 0 implies r.contains(
                        #[trigger] lines[j],
                    ) by {
                        lemma_prefix_contains(b, r, lines[j]);
                    }
                }
            }
        }
    }
}

/// The text of a file with one flag on each line.
pub open spec fn flags_file(flags: Seq<Seq<char>>) -> Seq<char> {
    let content = text::joined(flags, "\n"@);
    if content.len() > 0 {
        content.push('\n')
    } else {
        content
    }
}

/// The text of a file with one flag on each line.
pub fn flags_text(flags: &Vec<String>) -> (r: String)
    ensures
        r@ == flags_file(flags.deep_view()),
{
    let mut content = text::join(flags, "\n");
    if !content.as_str().is_empty() {
        content.push('\n');
    }
    content
}

// ---------------------------------------------------------------------------
// Compiling the script
// ---------------------------------------------------------------------------

/// The build script of a crate: `false` means none, and without a word `build.rs` if it is there.
pub open spec fn script_of(build: Seq<char>, has_build_rs: bool) -> Option<Seq<char>> {
    if build == "false"@ {
        None
    } else if build.len() == 0 {
        if has_build_rs {
            Some("build.rs"@)
        } else {
            None
        }
    } else {
        Some(build)
    }
}

pub fn build_script(config: &BuildConfig, has_build_rs: bool) -> (r: Option<String>)
    ensures
        r.deep_view() == script_of(config.build@, has_build_rs),
{
    if text::same(&config.build, "false") {
        None
    } else if config.build.as_str().is_empty() {
        if has_build_rs {
            Some("build.rs".to_owned())
        } else {
            None
        }
    } else {
        Some(config.build.clone())
    }
}

/// The options for a profile.
pub open spec fn profile_flags(c: ConfigView) -> Seq<Seq<char>> {
    seq![
        "-C"@,
        if c.release {
            "opt-level=3"@
        } else {
            "debuginfo=2"@
        },
        "-C"@,
        "codegen-units="@ + text::decimal(c.codegen_units as nat),
    ]
}

pub(crate) fn push_profile_flags(args: &mut Vec<String>, config: &BuildConfig)
    ensures
        final(args).deep_view() == old(args).deep_view() + profile_flags(config.deep_view()),
{
    let ghost o = args.deep_view();
    if config.release {
        sorted::push_two(args, "-C", "opt-level=3");
    } else {
        sorted::push_two(args, "-C", "debuginfo=2");
    }
    let units = text::cat2("codegen-units=", &text::number_text(config.codegen_units as u64));
    sorted::push_two(args, "-C", &units);
    assert(args.deep_view() =~= o + profile_flags(config.deep_view()));
}

pub open spec fn feature_flags_at() -> spec_fn(Seq<char>) -> Seq<Seq<char>> {
    |f: Seq<char>| seq!["--cfg"@, "feature=\""@ + f + "\""@]
}

/// The options that turn features on.
pub open spec fn feature_flags(features: Seq<Seq<char>>) -> Seq<Seq<char>> {
    lists::flat(features, feature_flags_at())
}

pub(crate) fn push_feature_flags(args: &mut Vec<String>, features: &Vec<String>)
    ensures
        final(args).deep_view() == old(args).deep_view() + feature_flags(features.deep_view()),
{
    let ghost o = args.deep_view();
    let ghost s = features.deep_view();
    let ghost f = feature_flags_at();
    assert(args.deep_view() =~= o + lists::flat(s.take(0), f));
    for i in 0..features.len()
        invariant
            s == features.deep_view(),
            f == feature_flags_at(),
            args.deep_view() == o + lists::flat(s.take(i as int), f),
    {
        assert(s.take(i + 1).drop_last() =~= s.take(i as int));
        assert(s.take(i + 1).last() == features@[i as int]@);
        let cfg = text::cat3("feature=\"", &features[i], "\"");
        sorted::push_two(args, "--cfg", &cfg);
        assert(args.deep_view() =~= o + lists::flat(s.take(i + 1), f));
    }
    assert(s.take(s.len() as int) =~= s);
}

/// The words of a text that may be absent.
pub open spec fn opt_words(s: Option<Seq<char>>) -> Seq<Seq<char>> {
    match s {
        Some(s) => text::words(s),
        None => Seq::empty(),
    }
}

/// The arguments with which rustc compiles a build script.
pub open spec fn script_args(
    c: ConfigView,
    script: Seq<char>,
    build_dir: Seq<char>,
    externs: Seq<Seq<char>>,
    build_link: Option<Seq<char>>,
) -> Seq<Seq<char>> {
    seq![
        "--crate-name"@,
        "build_script_build"@,
        script,
        "--crate-type"@,
        "bin"@,
        "--out-dir"@,
        build_dir,
        "--emit=dep-info,link"@,
        "-L"@,
        "dependency=target/buildDeps"@,
        "--cap-lints"@,
        c.cap_lints,
    ] + profile_flags(c) + c.extra_rustc_opts_for_build_rs + feature_flags(c.crate_features) + externs + opt_words(
        build_link,
    ) + seq!["--color"@, c.colors]
}

/// The arguments with which rustc compiles the build script. `externs` are those for its
/// dependencies, and `build_link` is the text of the link flags gathered for it.
pub fn build_script_args(
    config: &BuildConfig,
    script: &str,
    build_dir: &str,
    externs: &Vec<String>,
    build_link: &Option<String>,
) -> (r: Vec<String>)
    ensures
        r.deep_view() == script_args(
            config.deep_view(),
            script@,
            build_dir@,
            externs.deep_view(),
            build_link.deep_view(),
        ),
{
    let mut args: Vec<String> = Vec::new();
    assert(args.deep_view() =~= Seq::empty());
    sorted::push_two(&mut args, "--crate-name", "build_script_build");
    sorted::push_text(&mut args, script);
    sorted::push_two(&mut args, "--crate-type", "bin");
    sorted::push_two(&mut args, "--out-dir", build_dir);
    sorted::push_text(&mut args, "--emit=dep-info,link");
    sorted::push_two(&mut args, "-L", "dependency=target/buildDeps");
    sorted::push_two(&mut args, "--cap-lints", &config.cap_lints);
    push_profile_flags(&mut args, config);
    sorted::extend_texts(&mut args, &config.extra_rustc_opts_for_build_rs);
    push_feature_flags(&mut args, &config.crate_features);
    sorted::extend_texts(&mut args, externs);
    match build_link {
        Some(s) => {
            let words = text::split_whitespace(s);
            sorted::extend_texts(&mut args, &words);
        },
        None => {},
    }
    sorted::push_two(&mut args, "--color", &config.colors);
    assert(args.deep_view() =~= script_args(
        config.deep_view(),
        script@,
        build_dir@,
        externs.deep_view(),
        build_link.deep_view(),
    ));
    args
}

// ---------------------------------------------------------------------------
// What each directive does
// ---------------------------------------------------------------------------

proof fn lemma_directive_rustc_flags(new_syntax: bool, v: Seq<char>)
    ensures
        directive(new_syntax, "rustc-flags="@ + (v)) == DirectiveView::RustcFlags(v),
{
    reveal_strlit("rustc-flags=");
    let d = "rustc-flags="@ + (v);
    text::lemma_after_prefix("rustc-flags="@, v);
}

proof fn lemma_directive_rustc_check_cfg(new_syntax: bool, v: Seq<char>)
    ensures
        directive(new_syntax, "rustc-check-cfg="@ + (v)) == DirectiveView::CheckCfg(v),
{
    reveal_strlit("rustc-check-cfg=");
    let d = "rustc-check-cfg="@ + (v);
    reveal_strlit("rustc-flags=");
    assert("rustc-flags="@[6] != "rustc-check-cfg="@[6]);
    text::lemma_other_prefix(d, "rustc-flags="@, 6);
    text::lemma_after_prefix("rustc-check-cfg="@, v);
}

proof fn lemma_directive_rustc_cfg(new_syntax: bool, v: Seq<char>)
    ensures
        directive(new_syntax, "rustc-cfg="@ + (v)) == DirectiveView::Cfg(v),
{
    reveal_strlit("rustc-cfg=");
    let d = "rustc-cfg="@ + (v);
    reveal_strlit("rustc-flags=");
    assert("rustc-flags="@[6] != "rustc-cfg="@[6]);
    text::lemma_other_prefix(d, "rustc-flags="@, 6);
    reveal_strlit("rustc-check-cfg=");
    assert("rustc-check-cfg="@[7] != "rustc-cfg="@[7]);
    text::lemma_other_prefix(d, "rustc-check-cfg="@, 7);
    text::lemma_after_prefix("rustc-cfg="@, v);
}

proof fn lemma_directive_rustc_link_arg(new_syntax: bool, v: Seq<char>)
    ensures
        directive(new_syntax, "rustc-link-arg="@ + (v)) == DirectiveView::LinkArg(v),
{
    reveal_strlit("rustc-link-arg=");
    let d = "rustc-link-arg="@ + (v);
    reveal_strlit("rustc-flags=");
    assert("rustc-flags="@[6] != "rustc-link-arg="@[6]);
    text::lemma_other_prefix(d, "rustc-flags="@, 6);
    reveal_strlit("rustc-check-cfg=");
    assert("rustc-check-cfg="@[6] != "rustc-link-arg="@[6]);
    text::lemma_other_prefix(d, "rustc-check-cfg="@, 6);
    reveal_strlit("rustc-cfg=");
    assert("rustc-cfg="@[6] != "rustc-link-arg="@[6]);
    text::lemma_other_prefix(d, "rustc-cfg="@, 6);
    text::lemma_after_prefix("rustc-link-arg="@, v);
}

proof fn lemma_directive_rustc_link_arg_lib(new_syntax: bool, v: Seq<char>)
    ensures
        directive(new_syntax, "rustc-link-arg-lib="@ + (v)) == DirectiveView::LinkArgLib(v),
{
    reveal_strlit("rustc-link-arg-lib=");
    let d = "rustc-link-arg-lib="@ + (v);
    reveal_strlit("rustc-flags=");
    assert("rustc-flags="@[6] != "rustc-link-arg-lib="@[6]);
    text::lemma_other_prefix(d, "rustc-flags="@, 6);
    reveal_strlit("rustc-check-cfg=");
    assert("rustc-check-cfg="@[6] != "rustc-link-arg-lib="@[6]);
    text::lemma_other_prefix(d, "rustc-check-cfg="@, 6);
    reveal_strlit("rustc-cfg=");
    assert("rustc-cfg="@[6] != "rustc-link-arg-lib="@[6]);
    text::lemma_other_prefix(d, "rustc-cfg="@, 6);
    reveal_strlit("rustc-link-arg=");
    assert("rustc-link-arg="@[14] != "rustc-link-arg-lib="@[14]);
    text::lemma_other_prefix(d, "rustc-link-arg="@, 14);
    text::lemma_after_prefix("rustc-link-arg-lib="@, v);
}

proof fn lemma_directive_rustc_link_arg_bins(new_syntax: bool, v: Seq<char>)
    ensures
        directive(new_syntax, "rustc-link-arg-bins="@ + (v)) == DirectiveView::LinkArgBins(v),
{
    reveal_strlit("rustc-link-arg-bins=");
    let d = "rustc-link-arg-bins="@ + (v);
    reveal_strlit("rustc-flags=");
    assert("rustc-flags="@[6] != "rustc-link-arg-bins="@[6]);
    text::lemma_other_prefix(d, "rustc-flags="@, 6);
    reveal_strlit("rustc-check-cfg=");
    assert("rustc-check-cfg="@[6] != "rustc-link-arg-bins="@[6]);
    text::lemma_other_prefix(d, "rustc-check-cfg="@, 6);
    reveal_strlit("rustc-cfg=");
    assert("rustc-cfg="@[6] != "rustc-link-arg-bins="@[6]);
    text::lemma_other_prefix(d, "rustc-cfg="@, 6);
    reveal_strlit("rustc-link-arg=");
    assert("rustc-link-arg="@[14] != "rustc-link-arg-bins="@[14]);
    text::lemma_other_prefix(d, "rustc-link-arg="@, 14);
    reveal_strlit("rustc-link-arg-lib=");
    assert("rustc-link-arg-lib="@[15] != "rustc-link-arg-bins="@[15]);
    text::lemma_other_prefix(d, "rustc-link-arg-lib="@, 15);
    text::lemma_after_prefix("rustc-link-arg-bins="@, v);
}

proof fn lemma_directive_rustc_link_arg_bin(new_syntax: bool, k: Seq<char>, v: Seq<char>)
    requires
        !k.contains('='),
    ensures
        directive(new_syntax, "rustc-link-arg-bin="@ + (k + "="@ + v)) == DirectiveView::LinkArgBin(k, v),
{
    reveal_strlit("rustc-link-arg-bin=");
    let d = "rustc-link-arg-bin="@ + (k + "="@ + v);
    reveal_strlit("=");
    assert(k + "="@ + v =~= k.push('=') + v);
    text::lemma_cut_first_at(k, '=', v);
    reveal_strlit("rustc-flags=");
    assert("rustc-flags="@[6] != "rustc-link-arg-bin="@[6]);
    text::lemma_other_prefix(d, "rustc-flags="@, 6);
    reveal_strlit("rustc-check-cfg=");
    assert("rustc-check-cfg="@[6] != "rustc-link-arg-bin="@[6]);
    text::lemma_other_prefix(d, "rustc-check-cfg="@, 6);
    reveal_strlit("rustc-cfg=");
    assert("rustc-cfg="@[6] != "rustc-link-arg-bin="@[6]);
    text::lemma_other_prefix(d, "rustc-cfg="@, 6);
    reveal_strlit("rustc-link-arg=");
    assert("rustc-link-arg="@[14] != "rustc-link-arg-bin="@[14]);
    text::lemma_other_prefix(d, "rustc-link-arg="@, 14);
    reveal_strlit("rustc-link-arg-lib=");
    assert("rustc-link-arg-lib="@[15] != "rustc-link-arg-bin="@[15]);
    text::lemma_other_prefix(d, "rustc-link-arg-lib="@, 15);
    reveal_strlit("rustc-link-arg-bins=");
    assert("rustc-link-arg-bins="@[18] != "rustc-link-arg-bin="@[18]);
    text::lemma_other_prefix(d, "rustc-link-arg-bins="@, 18);
    text::lemma_after_prefix("rustc-link-arg-bin="@, k + "="@ + v);
}

proof fn lemma_directive_rustc_link_arg_tests(new_syntax: bool, v: Seq<char>)
    ensures
        directive(new_syntax, "rustc-link-arg-tests="@ + (v)) == DirectiveView::LinkArgTests(v),
{
    reveal_strlit("rustc-link-arg-tests=");
    let d = "rustc-link-arg-tests="@ + (v);
    reveal_strlit("rustc-flags=");
    assert("rustc-flags="@[6] != "rustc-link-arg-tests="@[6]);
    text::lemma_other_prefix(d, "rustc-flags="@, 6);
    reveal_strlit("rustc-check-cfg=");
    assert("rustc-check-cfg="@[6] != "rustc-link-arg-tests="@[6]);
    text::lemma_other_prefix(d, "rustc-check-cfg="@, 6);
    reveal_strlit("rustc-cfg=");
    assert("rustc-cfg="@[6] != "rustc-link-arg-tests="@[6]);
    text::lemma_other_prefix(d, "rustc-cfg="@, 6);
    reveal_strlit("rustc-link-arg=");
    assert("rustc-link-arg="@[14] != "rustc-link-arg-tests="@[14]);
    text::lemma_other_prefix(d, "rustc-link-arg="@, 14);
    reveal_strlit("rustc-link-arg-lib=");
    assert("rustc-link-arg-lib="@[15] != "rustc-link-arg-tests="@[15]);
    text::lemma_other_prefix(d, "rustc-link-arg-lib="@, 15);
    reveal_strlit("rustc-link-arg-bins=");
    assert("rustc-link-arg-bins="@[15] != "rustc-link-arg-tests="@[15]);
    text::lemma_other_prefix(d, "rustc-link-arg-bins="@, 15);
    reveal_strlit("rustc-link-arg-bin=");
    assert("rustc-link-arg-bin="@[15] != "rustc-link-arg-tests="@[15]);
    text::lemma_other_prefix(d, "rustc-link-arg-bin="@, 15);
    text::lemma_after_prefix("rustc-link-arg-tests="@, v);
}

proof fn lemma_directive_rustc_link_lib(new_syntax: bool, v: Seq<char>)
    ensures
        directive(new_syntax, "rustc-link-lib="@ + (v)) == DirectiveView::LinkLib(v),
{
    reveal_strlit("rustc-link-lib=");
    let d = "rustc-link-lib="@ + (v);
    reveal_strlit("rustc-flags=");
    assert("rustc-flags="@[6] != "rustc-link-lib="@[6]);
    text::lemma_other_prefix(d, "rustc-flags="@, 6);
    reveal_strlit("rustc-check-cfg=");
    assert("rustc-check-cfg="@[6] != "rustc-link-lib="@[6]);
    text::lemma_other_prefix(d, "rustc-check-cfg="@, 6);
    reveal_strlit("rustc-cfg=");
    assert("rustc-cfg="@[6] != "rustc-link-lib="@[6]);
    text::lemma_other_prefix(d, "rustc-cfg="@, 6);
    reveal_strlit("rustc-link-arg=");
    assert("rustc-link-arg="@[11] != "rustc-link-lib="@[11]);
    text::lemma_other_prefix(d, "rustc-link-arg="@, 11);
    reveal_strlit("rustc-link-arg-lib=");
    assert("rustc-link-arg-lib="@[11] != "rustc-link-lib="@[11]);
    text::lemma_other_prefix(d, "rustc-link-arg-lib="@, 11);
    reveal_strlit("rustc-link-arg-bins=");
    assert("rustc-link-arg-bins="@[11] != "rustc-link-lib="@[11]);
    text::lemma_other_prefix(d, "rustc-link-arg-bins="@, 11);
    reveal_strlit("rustc-link-arg-bin=");
    assert("rustc-link-arg-bin="@[11] != "rustc-link-lib="@[11]);
    text::lemma_other_prefix(d, "rustc-link-arg-bin="@, 11);
    reveal_strlit("rustc-link-arg-tests=");
    assert("rustc-link-arg-tests="@[11] != "rustc-link-lib="@[11]);
    text::lemma_other_prefix(d, "rustc-link-arg-tests="@, 11);
    text::lemma_after_prefix("rustc-link-lib="@, v);
}

proof fn lemma_directive_rustc_link_search(new_syntax: bool, v: Seq<char>)
    ensures
        directive(new_syntax, "rustc-link-search="@ + (v)) == DirectiveView::LinkSearch(v),
{
    reveal_strlit("rustc-link-search=");
    let d = "rustc-link-search="@ + (v);
    reveal_strlit("rustc-flags=");
    assert("rustc-flags="@[6] != "rustc-link-search="@[6]);
    text::lemma_other_prefix(d, "rustc-flags="@, 6);
    reveal_strlit("rustc-check-cfg=");
    assert("rustc-check-cfg="@[6] != "rustc-link-search="@[6]);
    text::lemma_other_prefix(d, "rustc-check-cfg="@, 6);
    reveal_strlit("rustc-cfg=");
    assert("rustc-cfg="@[6] != "rustc-link-search="@[6]);
    text::lemma_other_prefix(d, "rustc-cfg="@, 6);
    reveal_strlit("rustc-link-arg=");
    assert("rustc-link-arg="@[11] != "rustc-link-search="@[11]);
    text::lemma_other_prefix(d, "rustc-link-arg="@, 11);
    reveal_strlit("rustc-link-arg-lib=");
    assert("rustc-link-arg-lib="@[11] != "rustc-link-search="@[11]);
    text::lemma_other_prefix(d, "rustc-link-arg-lib="@, 11);
    reveal_strlit("rustc-link-arg-bins=");
    assert("rustc-link-arg-bins="@[11] != "rustc-link-search="@[11]);
    text::lemma_other_prefix(d, "rustc-link-arg-bins="@, 11);
    reveal_strlit("rustc-link-arg-bin=");
    assert("rustc-link-arg-bin="@[11] != "rustc-link-search="@[11]);
    text::lemma_other_prefix(d, "rustc-link-arg-bin="@, 11);
    reveal_strlit("rustc-link-arg-tests=");
    assert("rustc-link-arg-tests="@[11] != "rustc-link-search="@[11]);
    text::lemma_other_prefix(d, "rustc-link-arg-tests="@, 11);
    reveal_strlit("rustc-link-lib=");
    assert("rustc-link-lib="@[11] != "rustc-link-search="@[11]);
    text::lemma_other_prefix(d, "rustc-link-lib="@, 11);
    text::lemma_after_prefix("rustc-link-search="@, v);
}

proof fn lemma_directive_rustc_cdylib_link_arg(new_syntax: bool, v: Seq<char>)
    ensures
        directive(new_syntax, "rustc-cdylib-link-arg="@ + (v)) == DirectiveView::CdylibLinkArg(v),
{
    reveal_strlit("rustc-cdylib-link-arg=");
    let d = "rustc-cdylib-link-arg="@ + (v);
    reveal_strlit("rustc-flags=");
    assert("rustc-flags="@[6] != "rustc-cdylib-link-arg="@[6]);
    text::lemma_other_prefix(d, "rustc-flags="@, 6);
    reveal_strlit("rustc-check-cfg=");
    assert("rustc-check-cfg="@[7] != "rustc-cdylib-link-arg="@[7]);
    text::lemma_other_prefix(d, "rustc-check-cfg="@, 7);
    reveal_strlit("rustc-cfg=");
    assert("rustc-cfg="@[7] != "rustc-cdylib-link-arg="@[7]);
    text::lemma_other_prefix(d, "rustc-cfg="@, 7);
    reveal_strlit("rustc-link-arg=");
    assert("rustc-link-arg="@[6] != "rustc-cdylib-link-arg="@[6]);
    text::lemma_other_prefix(d, "rustc-link-arg="@, 6);
    reveal_strlit("rustc-link-arg-lib=");
    assert("rustc-link-arg-lib="@[6] != "rustc-cdylib-link-arg="@[6]);
    text::lemma_other_prefix(d, "rustc-link-arg-lib="@, 6);
    reveal_strlit("rustc-link-arg-bins=");
    assert("rustc-link-arg-bins="@[6] != "rustc-cdylib-link-arg="@[6]);
    text::lemma_other_prefix(d, "rustc-link-arg-bins="@, 6);
    reveal_strlit("rustc-link-arg-bin=");
    assert("rustc-link-arg-bin="@[6] != "rustc-cdylib-link-arg="@[6]);
    text::lemma_other_prefix(d, "rustc-link-arg-bin="@, 6);
    reveal_strlit("rustc-link-arg-tests=");
    assert("rustc-link-arg-tests="@[6] != "rustc-cdylib-link-arg="@[6]);
    text::lemma_other_prefix(d, "rustc-link-arg-tests="@, 6);
    reveal_strlit("rustc-link-lib=");
    assert("rustc-link-lib="@[6] != "rustc-cdylib-link-arg="@[6]);
    text::lemma_other_prefix(d, "rustc-link-lib="@, 6);
    reveal_strlit("rustc-link-search=");
    assert("rustc-link-search="@[6] != "rustc-cdylib-link-arg="@[6]);
    text::lemma_other_prefix(d, "rustc-link-search="@, 6);
    text::lemma_after_prefix("rustc-cdylib-link-arg="@, v);
}

proof fn lemma_directive_rustc_link_arg_cdylib(new_syntax: bool, v: Seq<char>)
    ensures
        directive(new_syntax, "rustc-link-arg-cdylib="@ + (v)) == DirectiveView::CdylibLinkArg(v),
{
    reveal_strlit("rustc-link-arg-cdylib=");
    let d = "rustc-link-arg-cdylib="@ + (v);
    reveal_strlit("rustc-flags=");
    assert("rustc-flags="@[6] != "rustc-link-arg-cdylib="@[6]);
    text::lemma_other_prefix(d, "rustc-flags="@, 6);
    reveal_strlit("rustc-check-cfg=");
    assert("rustc-check-cfg="@[6] != "rustc-link-arg-cdylib="@[6]);
    text::lemma_other_prefix(d, "rustc-check-cfg="@, 6);
    reveal_strlit("rustc-cfg=");
    assert("rustc-cfg="@[6] != "rustc-link-arg-cdylib="@[6]);
    text::lemma_other_prefix(d, "rustc-cfg="@, 6);
    reveal_strlit("rustc-link-arg=");
    assert("rustc-link-arg="@[14] != "rustc-link-arg-cdylib="@[14]);
    text::lemma_other_prefix(d, "rustc-link-arg="@, 14);
    reveal_strlit("rustc-link-arg-lib=");
    assert("rustc-link-arg-lib="@[15] != "rustc-link-arg-cdylib="@[15]);
    text::lemma_other_prefix(d, "rustc-link-arg-lib="@, 15);
    reveal_strlit("rustc-link-arg-bins=");
    assert("rustc-link-arg-bins="@[15] != "rustc-link-arg-cdylib="@[15]);
    text::lemma_other_prefix(d, "rustc-link-arg-bins="@, 15);
    reveal_strlit("rustc-link-arg-bin=");
    assert("rustc-link-arg-bin="@[15] != "rustc-link-arg-cdylib="@[15]);
    text::lemma_other_prefix(d, "rustc-link-arg-bin="@, 15);
    reveal_strlit("rustc-link-arg-tests=");
    assert("rustc-link-arg-tests="@[15] != "rustc-link-arg-cdylib="@[15]);
    text::lemma_other_prefix(d, "rustc-link-arg-tests="@, 15);
    reveal_strlit("rustc-link-lib=");
    assert("rustc-link-lib="@[11] != "rustc-link-arg-cdylib="@[11]);
    text::lemma_other_prefix(d, "rustc-link-lib="@, 11);
    reveal_strlit("rustc-link-search=");
    assert("rustc-link-search="@[11] != "rustc-link-arg-cdylib="@[11]);
    text::lemma_other_prefix(d, "rustc-link-search="@, 11);
    reveal_strlit("rustc-cdylib-link-arg=");
    assert("rustc-cdylib-link-arg="@[6] != "rustc-link-arg-cdylib="@[6]);
    text::lemma_other_prefix(d, "rustc-cdylib-link-arg="@, 6);
    text::lemma_after_prefix("rustc-link-arg-cdylib="@, v);
}

proof fn lemma_directive_rustc_env(new_syntax: bool, k: Seq<char>, v: Seq<char>)
    requires
        !k.contains('='),
    ensures
        directive(new_syntax, "rustc-env="@ + (k + "="@ + v)) == DirectiveView::Env(k, v),
{
    reveal_strlit("rustc-env=");
    let d = "rustc-env="@ + (k + "="@ + v);
    reveal_strlit("=");
    assert(k + "="@ + v =~= k.push('=') + v);
    text::lemma_cut_first_at(k, '=', v);
    reveal_strlit("rustc-flags=");
    assert("rustc-flags="@[6] != "rustc-env="@[6]);
    text::lemma_other_prefix(d, "rustc-flags="@, 6);
    reveal_strlit("rustc-check-cfg=");
    assert("rustc-check-cfg="@[6] != "rustc-env="@[6]);
    text::lemma_other_prefix(d, "rustc-check-cfg="@, 6);
    reveal_strlit("rustc-cfg=");
    assert("rustc-cfg="@[6] != "rustc-env="@[6]);
    text::lemma_other_prefix(d, "rustc-cfg="@, 6);
    reveal_strlit("rustc-link-arg=");
    assert("rustc-link-arg="@[6] != "rustc-env="@[6]);
    text::lemma_other_prefix(d, "rustc-link-arg="@, 6);
    reveal_strlit("rustc-link-arg-lib=");
    assert("rustc-link-arg-lib="@[6] != "rustc-env="@[6]);
    text::lemma_other_prefix(d, "rustc-link-arg-lib="@, 6);
    reveal_strlit("rustc-link-arg-bins=");
    assert("rustc-link-arg-bins="@[6] != "rustc-env="@[6]);
    text::lemma_other_prefix(d, "rustc-link-arg-bins="@, 6);
    reveal_strlit("rustc-link-arg-bin=");
    assert("rustc-link-arg-bin="@[6] != "rustc-env="@[6]);
    text::lemma_other_prefix(d, "rustc-link-arg-bin="@, 6);
    reveal_strlit("rustc-link-arg-tests=");
    assert("rustc-link-arg-tests="@[6] != "rustc-env="@[6]);
    text::lemma_other_prefix(d, "rustc-link-arg-tests="@, 6);
    reveal_strlit("rustc-link-lib=");
    assert("rustc-link-lib="@[6] != "rustc-env="@[6]);
    text::lemma_other_prefix(d, "rustc-link-lib="@, 6);
    reveal_strlit("rustc-link-search=");
    assert("rustc-link-search="@[6] != "rustc-env="@[6]);
    text::lemma_other_prefix(d, "rustc-link-search="@, 6);
    reveal_strlit("rustc-cdylib-link-arg=");
    assert("rustc-cdylib-link-arg="@[6] != "rustc-env="@[6]);
    text::lemma_other_prefix(d, "rustc-cdylib-link-arg="@, 6);
    reveal_strlit("rustc-link-arg-cdylib=");
    assert("rustc-link-arg-cdylib="@[6] != "rustc-env="@[6]);
    text::lemma_other_prefix(d, "rustc-link-arg-cdylib="@, 6);
    text::lemma_after_prefix("rustc-env="@, k + "="@ + v);
}

proof fn lemma_directive_warning(new_syntax: bool, v: Seq<char>)
    ensures
        directive(new_syntax, "warning="@ + (v)) == DirectiveView::Warning(v),
{
    reveal_strlit("warning=");
    let d = "warning="@ + (v);
    reveal_strlit("rustc-flags=");
    assert("rustc-flags="@[0] != "warning="@[0]);
    text::lemma_other_prefix(d, "rustc-flags="@, 0);
    reveal_strlit("rustc-check-cfg=");
    assert("rustc-check-cfg="@[0] != "warning="@[0]);
    text::lemma_other_prefix(d, "rustc-check-cfg="@, 0);
    reveal_strlit("rustc-cfg=");
    assert("rustc-cfg="@[0] != "warning="@[0]);
    text::lemma_other_prefix(d, "rustc-cfg="@, 0);
    reveal_strlit("rustc-link-arg=");
    assert("rustc-link-arg="@[0] != "warning="@[0]);
    text::lemma_other_prefix(d, "rustc-link-arg="@, 0);
    reveal_strlit("rustc-link-arg-lib=");
    assert("rustc-link-arg-lib="@[0] != "warning="@[0]);
    text::lemma_other_prefix(d, "rustc-link-arg-lib="@, 0);
    reveal_strlit("rustc-link-arg-bins=");
    assert("rustc-link-arg-bins="@[0] != "warning="@[0]);
    text::lemma_other_prefix(d, "rustc-link-arg-bins="@, 0);
    reveal_strlit("rustc-link-arg-bin=");
    assert("rustc-link-arg-bin="@[0] != "warning="@[0]);
    text::lemma_other_prefix(d, "rustc-link-arg-bin="@, 0);
    reveal_strlit("rustc-link-arg-tests=");
    assert("rustc-link-arg-tests="@[0] != "warning="@[0]);
    text::lemma_other_prefix(d, "rustc-link-arg-tests="@, 0);
    reveal_strlit("rustc-link-lib=");
    assert("rustc-link-lib="@[0] != "warning="@[0]);
    text::lemma_other_prefix(d, "rustc-link-lib="@, 0);
    reveal_strlit("rustc-link-search=");
    assert("rustc-link-search="@[0] != "warning="@[0]);
    text::lemma_other_prefix(d, "rustc-link-search="@, 0);
    reveal_strlit("rustc-cdylib-link-arg=");
    assert("rustc-cdylib-link-arg="@[0] != "warning="@[0]);
    text::lemma_other_prefix(d, "rustc-cdylib-link-arg="@, 0);
    reveal_strlit("rustc-link-arg-cdylib=");
    assert("rustc-link-arg-cdylib="@[0] != "warning="@[0]);
    text::lemma_other_prefix(d, "rustc-link-arg-cdylib="@, 0);
    reveal_strlit("rustc-env=");
    assert("rustc-env="@[0] != "warning="@[0]);
    text::lemma_other_prefix(d, "rustc-env="@, 0);
    text::lemma_after_prefix("warning="@, v);
}

proof fn lemma_directive_error(new_syntax: bool, v: Seq<char>)
    ensures
        directive(new_syntax, "error="@ + (v)) == if new_syntax {
            DirectiveView::Error(v)
        } else {
            DirectiveView::Nothing
        },
{
    reveal_strlit("error=");
    let d = "error="@ + (v);
    reveal_strlit("rustc-flags=");
    assert("rustc-flags="@[0] != "error="@[0]);
    text::lemma_other_prefix(d, "rustc-flags="@, 0);
    reveal_strlit("rustc-check-cfg=");
    assert("rustc-check-cfg="@[0] != "error="@[0]);
    text::lemma_other_prefix(d, "rustc-check-cfg="@, 0);
    reveal_strlit("rustc-cfg=");
    assert("rustc-cfg="@[0] != "error="@[0]);
    text::lemma_other_prefix(d, "rustc-cfg="@, 0);
    reveal_strlit("rustc-link-arg=");
    assert("rustc-link-arg="@[0] != "error="@[0]);
    text::lemma_other_prefix(d, "rustc-link-arg="@, 0);
    reveal_strlit("rustc-link-arg-lib=");
    assert("rustc-link-arg-lib="@[0] != "error="@[0]);
    text::lemma_other_prefix(d, "rustc-link-arg-lib="@, 0);
    reveal_strlit("rustc-link-arg-bins=");
    assert("rustc-link-arg-bins="@[0] != "error="@[0]);
    text::lemma_other_prefix(d, "rustc-link-arg-bins="@, 0);
    reveal_strlit("rustc-link-arg-bin=");
    assert("rustc-link-arg-bin="@[0] != "error="@[0]);
    text::lemma_other_prefix(d, "rustc-link-arg-bin="@, 0);
    reveal_strlit("rustc-link-arg-tests=");
    assert("rustc-link-arg-tests="@[0] != "error="@[0]);
    text::lemma_other_prefix(d, "rustc-link-arg-tests="@, 0);
    reveal_strlit("rustc-link-lib=");
    assert("rustc-link-lib="@[0] != "error="@[0]);
    text::lemma_other_prefix(d, "rustc-link-lib="@, 0);
    reveal_strlit("rustc-link-search=");
    assert("rustc-link-search="@[0] != "error="@[0]);
    text::lemma_other_prefix(d, "rustc-link-search="@, 0);
    reveal_strlit("rustc-cdylib-link-arg=");
    assert("rustc-cdylib-link-arg="@[0] != "error="@[0]);
    text::lemma_other_prefix(d, "rustc-cdylib-link-arg="@, 0);
    reveal_strlit("rustc-link-arg-cdylib=");
    assert("rustc-link-arg-cdylib="@[0] != "error="@[0]);
    text::lemma_other_prefix(d, "rustc-link-arg-cdylib="@, 0);
    reveal_strlit("rustc-env=");
    assert("rustc-env="@[0] != "error="@[0]);
    text::lemma_other_prefix(d, "rustc-env="@, 0);
    reveal_strlit("warning=");
    assert("warning="@[0] != "error="@[0]);
    text::lemma_other_prefix(d, "warning="@, 0);
    text::lemma_after_prefix("error="@, v);
}

/// A line as a script prints it: in the new syntax or in the old.
pub open spec fn printed(new_syntax: bool, d: Seq<char>) -> Seq<char> {
    if new_syntax {
        "cargo::"@ + d
    } else {
        "cargo:"@ + d
    }
}

proof fn lemma_printed(new_syntax: bool, d: Seq<char>)
    requires
        d.len() > 0,
        d[0] != ':',
        !text::is_white(d[0]),
        !text::is_white(d.last()),
    ensures
        directive_of(printed(new_syntax, d)) == directive(new_syntax, d),
{
    reveal_strlit("cargo::");
    reveal_strlit("cargo:");
    let line = printed(new_syntax, d);
    assert(line[0] == 'c');
    assert(line.last() == d.last());
    text::lemma_trimmed_as_is(line);
    text::lemma_trimmed_as_is(d);
    text::lemma_after_prefix("cargo::"@, d);
    text::lemma_after_prefix("cargo:"@, d);
    if !new_syntax {
        assert(line[6] == d[0]);
        text::lemma_other_prefix(line, "cargo::"@, 6);
    }
}

proof fn lemma_read_one_more(lines: Seq<Seq<char>>, new_syntax: bool, d: Seq<char>, out_dir: Seq<char>, cwd: Seq<char>)
    requires
        d.len() > 0,
        d[0] != ':',
        !text::is_white(d[0]),
        !text::is_white(d.last()),
    ensures
        script_read(lines.push(printed(new_syntax, d)), out_dir, cwd) == applied(
            script_read(lines, out_dir, cwd),
            directive(new_syntax, d),
            cwd,
        ),
{
    lemma_printed(new_syntax, d);
    assert(lines.push(printed(new_syntax, d)).drop_last() =~= lines);
}

/// A line with flags for rustc adds them, and changes nothing else.
pub proof fn lemma_reads_flags(lines: Seq<Seq<char>>, new_syntax: bool, v: Seq<char>, out_dir: Seq<char>, cwd: Seq<char>)
    requires
        v.len() > 0,
        !text::is_white(v.last()),
        script_read(lines, out_dir, cwd).error is None,
    ensures
        ({
            let a = script_read(lines, out_dir, cwd);
            let b = script_read(lines.push(printed(new_syntax, "rustc-flags="@ + (v))), out_dir, cwd);
            b == ScriptView { flags: a.flags.push(v), ..a }
        }),
{
    let a = script_read(lines, out_dir, cwd);
    let d = "rustc-flags="@ + (v);
    reveal_strlit("rustc-flags=");
    assert(d[0] == 'r');
    assert(d.last() == v.last());
    lemma_read_one_more(lines, new_syntax, d, out_dir, cwd);
    lemma_directive_rustc_flags(new_syntax, v);
}

/// A line with a cfg to be checked adds it, and changes nothing else.
pub proof fn lemma_reads_check_cfg(lines: Seq<Seq<char>>, new_syntax: bool, v: Seq<char>, out_dir: Seq<char>, cwd: Seq<char>)
    requires
        v.len() > 0,
        !text::is_white(v.last()),
        script_read(lines, out_dir, cwd).error is None,
    ensures
        ({
            let a = script_read(lines, out_dir, cwd);
            let b = script_read(lines.push(printed(new_syntax, "rustc-check-cfg="@ + (v))), out_dir, cwd);
            b == ScriptView { outputs: OutputsView { check_cfgs: a.outputs.check_cfgs.push(v), ..a.outputs }, ..a }
        }),
{
    let a = script_read(lines, out_dir, cwd);
    let d = "rustc-check-cfg="@ + (v);
    reveal_strlit("rustc-check-cfg=");
    assert(d[0] == 'r');
    assert(d.last() == v.last());
    lemma_read_one_more(lines, new_syntax, d, out_dir, cwd);
    lemma_directive_rustc_check_cfg(new_syntax, v);
}

/// A line with a cfg adds it, and changes nothing else.
pub proof fn lemma_reads_cfg(lines: Seq<Seq<char>>, new_syntax: bool, v: Seq<char>, out_dir: Seq<char>, cwd: Seq<char>)
    requires
        v.len() > 0,
        !text::is_white(v.last()),
        script_read(lines, out_dir, cwd).error is None,
    ensures
        ({
            let a = script_read(lines, out_dir, cwd);
            let b = script_read(lines.push(printed(new_syntax, "rustc-cfg="@ + (v))), out_dir, cwd);
            b == ScriptView { outputs: OutputsView { cfgs: a.outputs.cfgs.push(v), ..a.outputs }, ..a }
        }),
{
    let a = script_read(lines, out_dir, cwd);
    let d = "rustc-cfg="@ + (v);
    reveal_strlit("rustc-cfg=");
    assert(d[0] == 'r');
    assert(d.last() == v.last());
    lemma_read_one_more(lines, new_syntax, d, out_dir, cwd);
    lemma_directive_rustc_cfg(new_syntax, v);
}

/// A line with a link argument for all targets adds it behind its option to those, and changes nothing else.
pub proof fn lemma_reads_link_arg(lines: Seq<Seq<char>>, new_syntax: bool, v: Seq<char>, out_dir: Seq<char>, cwd: Seq<char>)
    requires
        v.len() > 0,
        !text::is_white(v.last()),
        script_read(lines, out_dir, cwd).error is None,
    ensures
        ({
            let a = script_read(lines, out_dir, cwd);
            let b = script_read(lines.push(printed(new_syntax, "rustc-link-arg="@ + (v))), out_dir, cwd);
            b == ScriptView { outputs: OutputsView { link_args: a.outputs.link_args + seq!["-C"@, "link-arg="@ + v], ..a.outputs }, ..a }
        }),
{
    let a = script_read(lines, out_dir, cwd);
    let d = "rustc-link-arg="@ + (v);
    reveal_strlit("rustc-link-arg=");
    assert(d[0] == 'r');
    assert(d.last() == v.last());
    assert(with_link_arg(a.outputs.link_args, v) =~= a.outputs.link_args + seq!["-C"@, "link-arg="@ + v]);
    lemma_read_one_more(lines, new_syntax, d, out_dir, cwd);
    lemma_directive_rustc_link_arg(new_syntax, v);
}

/// A line with a link argument for the library adds it behind its option to those, and changes nothing else.
pub proof fn lemma_reads_link_arg_lib(lines: Seq<Seq<char>>, new_syntax: bool, v: Seq<char>, out_dir: Seq<char>, cwd: Seq<char>)
    requires
        v.len() > 0,
        !text::is_white(v.last()),
        script_read(lines, out_dir, cwd).error is None,
    ensures
        ({
            let a = script_read(lines, out_dir, cwd);
            let b = script_read(lines.push(printed(new_syntax, "rustc-link-arg-lib="@ + (v))), out_dir, cwd);
            b == ScriptView { outputs: OutputsView { link_args_lib: a.outputs.link_args_lib + seq!["-C"@, "link-arg="@ + v], ..a.outputs }, ..a }
        }),
{
    let a = script_read(lines, out_dir, cwd);
    let d = "rustc-link-arg-lib="@ + (v);
    reveal_strlit("rustc-link-arg-lib=");
    assert(d[0] == 'r');
    assert(d.last() == v.last());
    assert(with_link_arg(a.outputs.link_args_lib, v) =~= a.outputs.link_args_lib + seq!["-C"@, "link-arg="@ + v]);
    lemma_read_one_more(lines, new_syntax, d, out_dir, cwd);
    lemma_directive_rustc_link_arg_lib(new_syntax, v);
}

/// A line with a link argument for binaries adds it behind its option to those, and changes nothing else.
pub proof fn lemma_reads_link_arg_bins(lines: Seq<Seq<char>>, new_syntax: bool, v: Seq<char>, out_dir: Seq<char>, cwd: Seq<char>)
    requires
        v.len() > 0,
        !text::is_white(v.last()),
        script_read(lines, out_dir, cwd).error is None,
    ensures
        ({
            let a = script_read(lines, out_dir, cwd);
            let b = script_read(lines.push(printed(new_syntax, "rustc-link-arg-bins="@ + (v))), out_dir, cwd);
            b == ScriptView { outputs: OutputsView { link_args_bins: a.outputs.link_args_bins + seq!["-C"@, "link-arg="@ + v], ..a.outputs }, ..a }
        }),
{
    let a = script_read(lines, out_dir, cwd);
    let d = "rustc-link-arg-bins="@ + (v);
    reveal_strlit("rustc-link-arg-bins=");
    assert(d[0] == 'r');
    assert(d.last() == v.last());
    assert(with_link_arg(a.outputs.link_args_bins, v) =~= a.outputs.link_args_bins + seq!["-C"@, "link-arg="@ + v]);
    lemma_read_one_more(lines, new_syntax, d, out_dir, cwd);
    lemma_directive_rustc_link_arg_bins(new_syntax, v);
}

/// A line with a link argument for tests adds it behind its option to those, and changes nothing else.
pub proof fn lemma_reads_link_arg_tests(lines: Seq<Seq<char>>, new_syntax: bool, v: Seq<char>, out_dir: Seq<char>, cwd: Seq<char>)
    requires
        v.len() > 0,
        !text::is_white(v.last()),
        script_read(lines, out_dir, cwd).error is None,
    ensures
        ({
            let a = script_read(lines, out_dir, cwd);
            let b = script_read(lines.push(printed(new_syntax, "rustc-link-arg-tests="@ + (v))), out_dir, cwd);
            b == ScriptView { outputs: OutputsView { link_args_tests: a.outputs.link_args_tests + seq!["-C"@, "link-arg="@ + v], ..a.outputs }, ..a }
        }),
{
    let a = script_read(lines, out_dir, cwd);
    let d = "rustc-link-arg-tests="@ + (v);
    reveal_strlit("rustc-link-arg-tests=");
    assert(d[0] == 'r');
    assert(d.last() == v.last());
    assert(with_link_arg(a.outputs.link_args_tests, v) =~= a.outputs.link_args_tests + seq!["-C"@, "link-arg="@ + v]);
    lemma_read_one_more(lines, new_syntax, d, out_dir, cwd);
    lemma_directive_rustc_link_arg_tests(new_syntax, v);
}

/// A line with a link argument for shared libraries adds it behind its option to those, and changes nothing else.
pub proof fn lemma_reads_cdylib_link_arg(lines: Seq<Seq<char>>, new_syntax: bool, v: Seq<char>, out_dir: Seq<char>, cwd: Seq<char>)
    requires
        v.len() > 0,
        !text::is_white(v.last()),
        script_read(lines, out_dir, cwd).error is None,
    ensures
        ({
            let a = script_read(lines, out_dir, cwd);
            let b = script_read(lines.push(printed(new_syntax, "rustc-cdylib-link-arg="@ + (v))), out_dir, cwd);
            b == ScriptView { outputs: OutputsView { cdylib_link_args: a.outputs.cdylib_link_args + seq!["-C"@, "link-arg="@ + v], ..a.outputs }, ..a }
        }),
{
    let a = script_read(lines, out_dir, cwd);
    let d = "rustc-cdylib-link-arg="@ + (v);
    reveal_strlit("rustc-cdylib-link-arg=");
    assert(d[0] == 'r');
    assert(d.last() == v.last());
    assert(with_link_arg(a.outputs.cdylib_link_args, v) =~= a.outputs.cdylib_link_args + seq!["-C"@, "link-arg="@ + v]);
    lemma_read_one_more(lines, new_syntax, d, out_dir, cwd);
    lemma_directive_rustc_cdylib_link_arg(new_syntax, v);
}

/// A line with a link argument for shared libraries adds it behind its option to those, and changes nothing else.
pub proof fn lemma_reads_link_arg_cdylib(lines: Seq<Seq<char>>, new_syntax: bool, v: Seq<char>, out_dir: Seq<char>, cwd: Seq<char>)
    requires
        v.len() > 0,
        !text::is_white(v.last()),
        script_read(lines, out_dir, cwd).error is None,
    ensures
        ({
            let a = script_read(lines, out_dir, cwd);
            let b = script_read(lines.push(printed(new_syntax, "rustc-link-arg-cdylib="@ + (v))), out_dir, cwd);
            b == ScriptView { outputs: OutputsView { cdylib_link_args: a.outputs.cdylib_link_args + seq!["-C"@, "link-arg="@ + v], ..a.outputs }, ..a }
        }),
{
    let a = script_read(lines, out_dir, cwd);
    let d = "rustc-link-arg-cdylib="@ + (v);
    reveal_strlit("rustc-link-arg-cdylib=");
    assert(d[0] == 'r');
    assert(d.last() == v.last());
    assert(with_link_arg(a.outputs.cdylib_link_args, v) =~= a.outputs.cdylib_link_args + seq!["-C"@, "link-arg="@ + v]);
    lemma_read_one_more(lines, new_syntax, d, out_dir, cwd);
    lemma_directive_rustc_link_arg_cdylib(new_syntax, v);
}

/// A line with a library to link adds it, and changes nothing else.
pub proof fn lemma_reads_link_lib(lines: Seq<Seq<char>>, new_syntax: bool, v: Seq<char>, out_dir: Seq<char>, cwd: Seq<char>)
    requires
        v.len() > 0,
        !text::is_white(v.last()),
        script_read(lines, out_dir, cwd).error is None,
    ensures
        ({
            let a = script_read(lines, out_dir, cwd);
            let b = script_read(lines.push(printed(new_syntax, "rustc-link-lib="@ + (v))), out_dir, cwd);
            b == ScriptView { outputs: OutputsView { link_libs: a.outputs.link_libs.push(v), ..a.outputs }, ..a }
        }),
{
    let a = script_read(lines, out_dir, cwd);
    let d = "rustc-link-lib="@ + (v);
    reveal_strlit("rustc-link-lib=");
    assert(d[0] == 'r');
    assert(d.last() == v.last());
    lemma_read_one_more(lines, new_syntax, d, out_dir, cwd);
    lemma_directive_rustc_link_lib(new_syntax, v);
}

/// A warning is kept, and changes nothing else.
pub proof fn lemma_reads_warning(lines: Seq<Seq<char>>, new_syntax: bool, v: Seq<char>, out_dir: Seq<char>, cwd: Seq<char>)
    requires
        v.len() > 0,
        !text::is_white(v.last()),
        script_read(lines, out_dir, cwd).error is None,
    ensures
        ({
            let a = script_read(lines, out_dir, cwd);
            let b = script_read(lines.push(printed(new_syntax, "warning="@ + (v))), out_dir, cwd);
            b == ScriptView { warnings: a.warnings.push(v), ..a }
        }),
{
    let a = script_read(lines, out_dir, cwd);
    let d = "warning="@ + (v);
    reveal_strlit("warning=");
    assert(d[0] == 'w');
    assert(d.last() == v.last());
    lemma_read_one_more(lines, new_syntax, d, out_dir, cwd);
    lemma_directive_warning(new_syntax, v);
}

/// An error, which only the new syntax has, is kept, and changes nothing else.
pub proof fn lemma_reads_error(lines: Seq<Seq<char>>, new_syntax: bool, v: Seq<char>, out_dir: Seq<char>, cwd: Seq<char>)
    requires
        v.len() > 0,
        !text::is_white(v.last()),
        script_read(lines, out_dir, cwd).error is None,
    ensures
        ({
            let a = script_read(lines, out_dir, cwd);
            let b = script_read(lines.push(printed(new_syntax, "error="@ + (v))), out_dir, cwd);
            b == if new_syntax {
                ScriptView { error: Some(v), ..a }
            } else {
                a
            }
        }),
{
    let a = script_read(lines, out_dir, cwd);
    let d = "error="@ + (v);
    reveal_strlit("error=");
    assert(d[0] == 'e');
    assert(d.last() == v.last());
    lemma_read_one_more(lines, new_syntax, d, out_dir, cwd);
    lemma_directive_error(new_syntax, v);
}

/// A variable gets its value, and nothing else changes.
pub proof fn lemma_reads_env(lines: Seq<Seq<char>>, new_syntax: bool, k: Seq<char>, v: Seq<char>, out_dir: Seq<char>, cwd: Seq<char>)
    requires
        v.len() > 0,
        !text::is_white(v.last()),
        script_read(lines, out_dir, cwd).error is None,
        !k.contains('='),
        sorted::ascending(script_read(lines, out_dir, cwd).outputs.envs),
    ensures
        ({
            let a = script_read(lines, out_dir, cwd);
            let b = script_read(lines.push(printed(new_syntax, "rustc-env="@ + (k + "="@ + v))), out_dir, cwd);
            &&& forall|q: Seq<char>| #[trigger] sorted::entry_of(b.outputs.envs, q) == if q == k {
                Some(v)
            } else {
                sorted::entry_of(a.outputs.envs, q)
            }
            &&& b == ScriptView { outputs: OutputsView { envs: b.outputs.envs, ..a.outputs }, ..a }
        }),
{
    let a = script_read(lines, out_dir, cwd);
    let d = "rustc-env="@ + (k + "="@ + v);
    reveal_strlit("rustc-env=");
    reveal_strlit("=");
    assert((k + "="@ + v).last() == v.last());
    assert(d[0] == 'r');
    assert(d.last() == v.last());
    lemma_read_one_more(lines, new_syntax, d, out_dir, cwd);
    lemma_directive_rustc_env(new_syntax, k, v);
    assert forall|q: Seq<char>| #[trigger] sorted::entry_of(sorted::with_entry(a.outputs.envs, k, v), q) == if q == k {
        Some(v)
    } else {
        sorted::entry_of(a.outputs.envs, q)
    } by {
        sorted::lemma_with_entry_reads(a.outputs.envs, k, v, q);
    }
}

/// A link argument for one binary is kept for that binary, behind its option, and nothing else changes.
pub proof fn lemma_reads_link_arg_bin(lines: Seq<Seq<char>>, new_syntax: bool, k: Seq<char>, v: Seq<char>, out_dir: Seq<char>, cwd: Seq<char>)
    requires
        v.len() > 0,
        !text::is_white(v.last()),
        script_read(lines, out_dir, cwd).error is None,
        !k.contains('='),
        sorted::ascending(script_read(lines, out_dir, cwd).outputs.link_args_bin),
    ensures
        ({
            let a = script_read(lines, out_dir, cwd);
            let b = script_read(lines.push(printed(new_syntax, "rustc-link-arg-bin="@ + (k + "="@ + v))), out_dir, cwd);
            &&& forall|q: Seq<char>| #[trigger] args_for(b.outputs.link_args_bin, q) == if q == k {
                args_for(a.outputs.link_args_bin, k) + seq!["-C"@, "link-arg="@ + v]
            } else {
                args_for(a.outputs.link_args_bin, q)
            }
            &&& b == ScriptView { outputs: OutputsView { link_args_bin: b.outputs.link_args_bin, ..a.outputs }, ..a }
        }),
{
    let a = script_read(lines, out_dir, cwd);
    let d = "rustc-link-arg-bin="@ + (k + "="@ + v);
    reveal_strlit("rustc-link-arg-bin=");
    reveal_strlit("=");
    assert((k + "="@ + v).last() == v.last());
    assert(d[0] == 'r');
    assert(d.last() == v.last());
    lemma_read_one_more(lines, new_syntax, d, out_dir, cwd);
    lemma_directive_rustc_link_arg_bin(new_syntax, k, v);
    let m = a.outputs.link_args_bin;
    let more = with_link_arg(args_for(m, k), v);
    assert(more =~= args_for(m, k) + seq!["-C"@, "link-arg="@ + v]);
    assert forall|q: Seq<char>| #[trigger] args_for(with_bin_arg(m, k, v), q) == if q == k {
        args_for(m, k) + seq!["-C"@, "link-arg="@ + v]
    } else {
        args_for(m, q)
    } by {
        sorted::lemma_with_entry_reads(m, k, more, q);
    }
}

/// A line with a search path adds it, unless it is there; a path that is not absolute is seen from the
/// directory of the build, behind its kind if it has one.
pub proof fn lemma_reads_link_search(
    lines: Seq<Seq<char>>,
    new_syntax: bool,
    kind: Seq<char>,
    path: Seq<char>,
    out_dir: Seq<char>,
    cwd: Seq<char>,
)
    requires
        path.len() > 0,
        !path.contains('='),
        !kind.contains('='),
        !text::is_white(path.last()),
        cwd.len() > 0,
        cwd.last() != '/',
        script_read(lines, out_dir, cwd).error is None,
    ensures
        ({
            let a = script_read(lines, out_dir, cwd);
            let whole = if path[0] == '/' {
                path
            } else {
                cwd + "/"@ + path
            };
            let b = script_read(lines.push(printed(new_syntax, "rustc-link-search="@ + path)), out_dir, cwd);
            let c = script_read(
                lines.push(printed(new_syntax, "rustc-link-search="@ + (kind + "="@ + path))),
                out_dir,
                cwd,
            );
            &&& b.outputs.link_search == if a.outputs.link_search.contains(whole) {
                a.outputs.link_search
            } else {
                a.outputs.link_search.push(whole)
            }
            &&& c.outputs.link_search == if a.outputs.link_search.contains(kind + "="@ + whole) {
                a.outputs.link_search
            } else {
                a.outputs.link_search.push(kind + "="@ + whole)
            }
            &&& b == ScriptView { outputs: OutputsView { link_search: b.outputs.link_search, ..a.outputs }, ..a }
            &&& c == ScriptView { outputs: OutputsView { link_search: c.outputs.link_search, ..a.outputs }, ..a }
        }),
{
    reveal_strlit("rustc-link-search=");
    reveal_strlit("=");
    reveal_strlit("/");
    let v = kind + "="@ + path;
    let d = "rustc-link-search="@ + path;
    let e = "rustc-link-search="@ + v;
    assert(d[0] == 'r' && e[0] == 'r');
    assert(d.last() == path.last() && e.last() == path.last());
    lemma_read_one_more(lines, new_syntax, d, out_dir, cwd);
    lemma_read_one_more(lines, new_syntax, e, out_dir, cwd);
    lemma_directive_rustc_link_search(new_syntax, path);
    lemma_directive_rustc_link_search(new_syntax, v);
    text::lemma_cut_first_none(path, '=');
    assert(v =~= kind.push('=') + path);
    text::lemma_cut_first_at(kind, '=', path);
    assert(text::has_prefix(path, "/"@) <==> path[0] == '/') by {
        if path[0] == '/' {
            assert(path.take(1) =~= "/"@);
        } else {
            text::lemma_other_prefix(path, "/"@, 0);
        }
    }
    assert(cwd.push('/') + path =~= cwd + "/"@ + path);
}

/// A line that is no directive changes nothing, nor does any line behind an error.
pub proof fn lemma_other_lines(lines: Seq<Seq<char>>, line: Seq<char>, out_dir: Seq<char>, cwd: Seq<char>)
    ensures
        !text::has_prefix(text::trimmed(line), "cargo:"@) ==> script_read(lines.push(line), out_dir, cwd) == script_read(
            lines,
            out_dir,
            cwd,
        ),
        script_read(lines, out_dir, cwd).error is Some ==> script_read(lines.push(line), out_dir, cwd) == script_read(
            lines,
            out_dir,
            cwd,
        ),
        script_read(Seq::empty(), out_dir, cwd).outputs.build_out_dir == out_dir,
        script_read(lines.push(line), out_dir, cwd).outputs.build_out_dir == script_read(lines, out_dir, cwd).outputs.build_out_dir,
{
    assert(lines.push(line).drop_last() =~= lines);
    let t = text::trimmed(line);
    reveal_strlit("cargo::");
    reveal_strlit("cargo:");
    if text::has_prefix(t, "cargo::"@) {
        assert(t.take(7).take(6) =~= t.take(6));
        assert("cargo::"@.take(6) =~= "cargo:"@);
    }
}

/// The pairs that go to dependents: `cargo::metadata=KEY=VALUE` in the new syntax, `cargo:KEY=VALUE` in the
/// old unless that is a directive of Cargo's own.
pub proof fn lemma_links_pair(k: Seq<char>, v: Seq<char>)
    requires
        !k.contains('='),
        k.len() > 0,
        k[0] != ':',
        v.len() > 0,
        !text::is_white(v.last()),
        !text::has_prefix(k + "="@ + v, "rustc-"@),
        !text::has_prefix(k + "="@ + v, "warning="@),
        !text::has_prefix(k + "="@ + v, "rerun-if-"@),
    ensures
        links_pair("cargo::metadata="@ + k + "="@ + v) == Some((k, v)),
        links_pair("cargo:"@ + k + "="@ + v) == Some((k, v)),
        links_pair("cargo:rustc-"@ + k + "="@ + v) is None,
        links_pair("cargo:warning="@ + v) is None,
        links_pair("cargo:rerun-if-"@ + v) is None,
        links_pair("cargo::rustc-"@ + k + "="@ + v) is None,
{
    lemma_new_pair(k, v);
    lemma_old_pair(k, v);
    let kv = k + "="@ + v;
    assert(kv.last() == v.last());
    assert("cargo:rustc-"@ + k + "="@ + v =~= "cargo:rustc-"@ + kv);
    assert("cargo::rustc-"@ + k + "="@ + v =~= "cargo::rustc-"@ + kv);
    lemma_old_directives(kv);
    lemma_old_directives(v);
    lemma_new_directive(kv);
}

proof fn lemma_new_pair(k: Seq<char>, v: Seq<char>)
    requires
        !k.contains('='),
        v.len() > 0,
        !text::is_white(v.last()),
        !text::has_prefix(k + "="@ + v, "rustc-"@),
        !text::has_prefix(k + "="@ + v, "warning="@),
        !text::has_prefix(k + "="@ + v, "rerun-if-"@),
    ensures
        links_pair("cargo::metadata="@ + k + "="@ + v) == Some((k, v)),
{
    reveal_strlit("cargo::metadata=");
    reveal_strlit("metadata=");
    reveal_strlit("cargo::");
    reveal_strlit("=");
    let kv = k + "="@ + v;
    assert(kv =~= k.push('=') + v);
    text::lemma_cut_first_at(k, '=', v);
    let a = "cargo::metadata="@ + k + "="@ + v;
    assert(a =~= "cargo::"@ + ("metadata="@ + kv));
    assert(a[0] == 'c' && a.last() == v.last());
    text::lemma_trimmed_as_is(a);
    text::lemma_after_prefix("cargo::"@, "metadata="@ + kv);
    text::lemma_after_prefix("metadata="@, kv);
}

proof fn lemma_old_pair(k: Seq<char>, v: Seq<char>)
    requires
        !k.contains('='),
        k.len() > 0,
        k[0] != ':',
        v.len() > 0,
        !text::is_white(v.last()),
        !text::has_prefix(k + "="@ + v, "rustc-"@),
        !text::has_prefix(k + "="@ + v, "warning="@),
        !text::has_prefix(k + "="@ + v, "rerun-if-"@),
    ensures
        links_pair("cargo:"@ + k + "="@ + v) == Some((k, v)),
{
    reveal_strlit("cargo::");
    reveal_strlit("cargo:");
    reveal_strlit("=");
    let kv = k + "="@ + v;
    assert(kv =~= k.push('=') + v);
    text::lemma_cut_first_at(k, '=', v);
    let b = "cargo:"@ + k + "="@ + v;
    assert(b =~= "cargo:"@ + kv);
    assert(b[0] == 'c' && b.last() == v.last());
    text::lemma_trimmed_as_is(b);
    assert(b[6] == k[0]);
    text::lemma_other_prefix(b, "cargo::"@, 6);
    text::lemma_after_prefix("cargo:"@, kv);
}

proof fn lemma_old_directive(line: Seq<char>, word: Seq<char>, v: Seq<char>)
    requires
        line == "cargo:"@ + (word + v),
        word == "rustc-"@ || word == "warning="@ || word == "rerun-if-"@,
        word.len() > 0,
        word[0] != ':',
        v.len() > 0,
        !text::is_white(v.last()),
    ensures
        links_pair(line) is None,
{
    reveal_strlit("cargo::");
    reveal_strlit("cargo:");
    assert(line[0] == 'c' && line[6] == word[0] && line.last() == v.last());
    text::lemma_trimmed_as_is(line);
    text::lemma_other_prefix(line, "cargo::"@, 6);
    text::lemma_after_prefix("cargo:"@, word + v);
    text::lemma_after_prefix(word, v);
}

proof fn lemma_old_directives(v: Seq<char>)
    requires
        v.len() > 0,
        !text::is_white(v.last()),
    ensures
        links_pair("cargo:rustc-"@ + v) is None,
        links_pair("cargo:warning="@ + v) is None,
        links_pair("cargo:rerun-if-"@ + v) is None,
{
    reveal_strlit("cargo:");
    reveal_strlit("rustc-");
    reveal_strlit("warning=");
    reveal_strlit("rerun-if-");
    assert("cargo:rustc-"@ =~= "cargo:"@ + "rustc-"@) by {
        reveal_strlit("cargo:rustc-");
    }
    assert("cargo:warning="@ =~= "cargo:"@ + "warning="@) by {
        reveal_strlit("cargo:warning=");
    }
    assert("cargo:rerun-if-"@ =~= "cargo:"@ + "rerun-if-"@) by {
        reveal_strlit("cargo:rerun-if-");
    }
    assert("rustc-"@[0] == 'r' && "warning="@[0] == 'w' && "rerun-if-"@[0] == 'r');
    assert("cargo:rustc-"@ + v =~= "cargo:"@ + ("rustc-"@ + v));
    assert("cargo:warning="@ + v =~= "cargo:"@ + ("warning="@ + v));
    assert("cargo:rerun-if-"@ + v =~= "cargo:"@ + ("rerun-if-"@ + v));
    lemma_old_directive("cargo:rustc-"@ + v, "rustc-"@, v);
    lemma_old_directive("cargo:warning="@ + v, "warning="@, v);
    lemma_old_directive("cargo:rerun-if-"@ + v, "rerun-if-"@, v);
}

proof fn lemma_new_directive(v: Seq<char>)
    requires
        v.len() > 0,
        !text::is_white(v.last()),
    ensures
        links_pair("cargo::rustc-"@ + v) is None,
{
    reveal_strlit("cargo::");
    reveal_strlit("rustc-");
    reveal_strlit("metadata=");
    assert("cargo::rustc-"@ =~= "cargo::"@ + "rustc-"@) by {
        reveal_strlit("cargo::rustc-");
    }
    let f = "cargo::rustc-"@ + v;
    assert(f =~= "cargo::"@ + ("rustc-"@ + v));
    assert(f[0] == 'c' && f.last() == v.last());
    text::lemma_trimmed_as_is(f);
    text::lemma_after_prefix("cargo::"@, "rustc-"@ + v);
    assert(("rustc-"@ + v)[0] == 'r' && "metadata="@[0] == 'm');
    text::lemma_other_prefix("rustc-"@ + v, "metadata="@, 0);
}

/// A line of the shell file is read back as the variable and the value that it was written for.
pub proof fn lemma_export_reads_back(links: Seq<char>, key: Seq<char>, value: Seq<char>)
    requires
        !dep_variable(links, key).contains('='),
    ensures
        exported_pair(export_at(links)((key, value))) == Some((dep_variable(links, key), value)),
{
    reveal_strlit("=");
    let name = dep_variable(links, key);
    let rest = name + "="@ + shell::shell_quoted(value);
    assert(export_at(links)((key, value)) =~= "export "@ + rest);
    text::lemma_after_prefix("export "@, rest);
    assert(rest =~= name.push('=') + shell::shell_quoted(value));
    text::lemma_cut_first_at(name, '=', shell::shell_quoted(value));
    shell::lemma_quoting_reads_back(value);
}

/// What one dependency passes on: each of its values under `DEP_`, the library that it links, and the key;
/// and what its shell file sets. A dependency that links nothing passes on nothing.
pub proof fn lemma_dep_pairs(dep: DepFilesView, e: (Seq<char>, Seq<char>))
    ensures
        dep_pairs(dep).contains(e) <==> match dep.metadata {
            Some(m) => m.links.len() > 0 && ((exists|i: int|
                0 <= i < m.links_vars.len() && e.0 == "DEP_"@ + text::uppercased(resolve::normalized(m.links)) + "_"@
                    + text::uppercased(resolve::normalized((#[trigger] m.links_vars[i]).0)) && e.1 == m.links_vars[i].1)
                || match dep.env {
                Some(content) => exists|i: int|
                    0 <= i < text::lines(content).len() && exported_pair(#[trigger] text::lines(content)[i]) == Some(e),
                None => false,
            }),
            None => false,
        },
{
    if let Some(m) = dep.metadata {
        if m.links.len() > 0 {
            let f = dep_pair_at(m.links);
            let a = m.links_vars.map_values(f);
            let g = exported_pair_at();
            let b = match dep.env {
                Some(content) => text::lines(content).filter_map(g),
                None => Seq::empty(),
            };
            if dep_pairs(dep).contains(e) {
                lists::lemma_concat_from(a, b, e);
                if a.contains(e) {
                    let i = choose|i: int| 0 <= i < a.len() && a[i] == e;
                    assert(e == f(m.links_vars[i]));
                    assert(e.1 == m.links_vars[i].1);
                } else {
                    let content = dep.env->0;
                    let ls = text::lines(content);
                    lists::lemma_gathered_from(ls, g, e);
                    let i = choose|i: int| 0 <= i < ls.len() && g(#[trigger] ls[i]) == Some(e);
                    assert(exported_pair(text::lines(content)[i]) == Some(e));
                }
            }
            if exists|i: int|
                0 <= i < m.links_vars.len() && e.0 == "DEP_"@ + text::uppercased(resolve::normalized(m.links)) + "_"@
                    + text::uppercased(resolve::normalized((#[trigger] m.links_vars[i]).0)) && e.1 == m.links_vars[i].1 {
                let i = choose|i: int|
                    0 <= i < m.links_vars.len() && e.0 == "DEP_"@ + text::uppercased(resolve::normalized(m.links)) + "_"@
                        + text::uppercased(resolve::normalized((#[trigger] m.links_vars[i]).0)) && e.1
                        == m.links_vars[i].1;
                assert(a[i] == e);
                lists::lemma_concat_has(a, b, e);
            }
            if let Some(content) = dep.env {
                if exists|i: int|
                    0 <= i < text::lines(content).len() && exported_pair(#[trigger] text::lines(content)[i]) == Some(e) {
                    let i = choose|i: int|
                        0 <= i < text::lines(content).len() && exported_pair(#[trigger] text::lines(content)[i]) == Some(e);
                    lists::lemma_filter_map_has(text::lines(content), g, i, e);
                    lists::lemma_concat_has(a, b, e);
                }
            }
        }
    }
}

/// What build dependencies pass on goes before what dependencies do, and what a later one passes on before
/// what an earlier one does.
pub proof fn lemma_dep_env_order(deps: Seq<DepFilesView>, build_deps: Seq<DepFilesView>, d: DepFilesView, k: Seq<char>)
    ensures
        sorted::entry_of(dep_env(deps, build_deps), k) == match sorted::entry_of(dep_env(Seq::empty(), build_deps), k) {
            Some(v) => Some(v),
            None => sorted::entry_of(dep_env(deps, Seq::empty()), k),
        },
        sorted::entry_of(dep_env(deps.push(d), Seq::empty()), k) == match lists::last_with(
            dep_pairs(d),
            sorted::has_key(k),
        ) {
            Some(e) => Some(e.1),
            None => sorted::entry_of(dep_env(deps, Seq::empty()), k),
        },
        sorted::entry_of(dep_env(Seq::empty(), build_deps.push(d)), k) == match lists::last_with(
            dep_pairs(d),
            sorted::has_key(k),
        ) {
            Some(e) => Some(e.1),
            None => sorted::entry_of(dep_env(Seq::empty(), build_deps), k),
        },
{
    let f = dep_pairs_at();
    let p = sorted::has_key::<Seq<char>>(k);
    let none = Seq::<DepFilesView>::empty();
    let e = Seq::<(Seq<char>, Seq<char>)>::empty();
    let a = lists::flat(deps, f);
    let b = lists::flat(build_deps, f);
    assert(lists::flat(none, f) =~= e);
    sorted::lemma_map_of_reads(a + b, k);
    sorted::lemma_map_of_reads(a, k);
    sorted::lemma_map_of_reads(b, k);
    assert(a + e =~= a && e + b =~= b);
    lists::lemma_last_with_joined(a, b, p);
    assert(deps.push(d).drop_last() =~= deps);
    assert(build_deps.push(d).drop_last() =~= build_deps);
    sorted::lemma_map_of_reads(a + dep_pairs(d), k);
    assert(lists::flat(deps.push(d), f) + e =~= a + dep_pairs(d));
    lists::lemma_last_with_joined(a, dep_pairs(d), p);
    sorted::lemma_map_of_reads(b + dep_pairs(d), k);
    assert(e + lists::flat(build_deps.push(d), f) =~= b + dep_pairs(d));
    lists::lemma_last_with_joined(b, dep_pairs(d), p);
}

/// A file of flags is read back, line by line, as the flags.
pub proof fn lemma_flags_read_back(flags: Seq<Seq<char>>)
    requires
        forall|k: int|
            0 <= k < flags.len() ==> (#[trigger] flags[k]).len() > 0 && !flags[k].contains('\n') && flags[k].last() != '\r',
    ensures
        text::lines(flags_file(flags)) == flags,
        flags.len() > 0 ==> flags_file(flags).len() > 0 && flags_file(flags).last() == '\n',
    decreases flags.len(),
{
    reveal_strlit("\n");
    if flags.len() == 0 {
        assert(text::joined(flags, "\n"@) =~= Seq::empty());
        assert(text::lines(flags_file(flags)) =~= flags);
    } else {
        let t = flags.drop_last();
        let x = flags.last();
        assert(flags[flags.len() - 1] == x);
        assert forall|k: int| 0 <= k < t.len() implies (#[trigger] t[k]).len() > 0 && !t[k].contains('\n') && t[k].last()
            != '\r' by {
            assert(t[k] == flags[k]);
        }
        lemma_flags_read_back(t);
        text::lemma_one_line(x);
        if t.len() == 0 {
            assert(flags[0] == x);
            assert(flags_file(flags) =~= x.push('\n'));
            assert(flags =~= seq![x]);
        } else {
            let head = text::joined(t, "\n"@);
            assert(head.len() > 0);
            assert(flags_file(t) =~= head.push('\n'));
            assert(text::joined(flags, "\n"@) =~= head + "\n"@ + x);
            assert(flags_file(flags) =~= head.push('\n') + x.push('\n'));
            text::lemma_lines_joined(head.push('\n'), x.push('\n'));
            assert(t + seq![x] =~= flags);
        }
    }
}

/// A build script is what the crate names; none where it says `false`; and without a word `build.rs` where
/// there is one.
pub proof fn lemma_script_of(build: Seq<char>, has_build_rs: bool)
    ensures
        script_of("false"@, has_build_rs) is None,
        script_of(Seq::empty(), true) == Some("build.rs"@),
        script_of(Seq::empty(), false) is None,
        build.len() > 0 && build != "false"@ ==> script_of(build, has_build_rs) == Some(build),
{
    reveal_strlit("false");
    assert("false"@.len() == 5);
}

proof fn lemma_script_head(c: ConfigView, script: Seq<char>, build_dir: Seq<char>)
    ensures
        ({
            let h = script_head(c, script, build_dir);
            &&& lists::has_run(h, seq!["--crate-name"@, "build_script_build"@])
            &&& lists::has_run(h, seq![script, "--crate-type"@])
            &&& lists::has_run(h, seq!["--crate-type"@, "bin"@])
            &&& lists::has_run(h, seq!["--out-dir"@, build_dir])
            &&& lists::has_run(h, seq!["--emit=dep-info,link"@, "-L"@])
            &&& lists::has_run(h, seq!["-L"@, "dependency=target/buildDeps"@])
            &&& lists::has_run(h, seq!["--cap-lints"@, c.cap_lints])
        }),
{
    let h = script_head(c, script, build_dir);
    lists::lemma_run_pair(h, 0);
    lists::lemma_run_pair(h, 2);
    lists::lemma_run_pair(h, 3);
    lists::lemma_run_pair(h, 5);
    lists::lemma_run_pair(h, 7);
    lists::lemma_run_pair(h, 8);
    lists::lemma_run_pair(h, 10);
}

spec fn script_head(c: ConfigView, script: Seq<char>, build_dir: Seq<char>) -> Seq<Seq<char>> {
    seq![
        "--crate-name"@,
        "build_script_build"@,
        script,
        "--crate-type"@,
        "bin"@,
        "--out-dir"@,
        build_dir,
        "--emit=dep-info,link"@,
        "-L"@,
        "dependency=target/buildDeps"@,
        "--cap-lints"@,
        c.cap_lints,
    ]
}

proof fn lemma_script_part(
    c: ConfigView,
    script: Seq<char>,
    build_dir: Seq<char>,
    externs: Seq<Seq<char>>,
    build_link: Option<Seq<char>>,
    part: Seq<Seq<char>>,
)
    requires
        lists::has_run(script_head(c, script, build_dir), part) || lists::has_run(profile_flags(c), part)
            || lists::has_run(c.extra_rustc_opts_for_build_rs, part) || lists::has_run(
            feature_flags(c.crate_features),
            part,
        ) || lists::has_run(externs, part) || lists::has_run(opt_words(build_link), part) || lists::has_run(
            seq!["--color"@, c.colors],
            part,
        ),
    ensures
        lists::has_run(script_args(c, script, build_dir, externs, build_link), part),
{
    let a = script_head(c, script, build_dir);
    let b = profile_flags(c);
    let d = c.extra_rustc_opts_for_build_rs;
    let e = feature_flags(c.crate_features);
    let g = opt_words(build_link);
    let h = seq!["--color"@, c.colors];
    lists::lemma_run_joined(a, b, part);
    lists::lemma_run_joined(a + b, d, part);
    lists::lemma_run_joined(a + b + d, e, part);
    lists::lemma_run_joined(a + b + d + e, externs, part);
    lists::lemma_run_joined(a + b + d + e + externs, g, part);
    lists::lemma_run_joined(a + b + d + e + externs + g, h, part);
}

/// The call that compiles a build script has each of its options next to its value: it makes one program of
/// a fixed name, in the directory given, with the artifacts of build dependencies, under the profile of the
/// crate.
pub proof fn lemma_script_options(
    c: ConfigView,
    script: Seq<char>,
    build_dir: Seq<char>,
    externs: Seq<Seq<char>>,
    build_link: Option<Seq<char>>,
)
    ensures
        ({
            let a = script_args(c, script, build_dir, externs, build_link);
            &&& lists::has_run(a, seq!["--crate-name"@, "build_script_build"@])
            &&& a.contains(script)
            &&& lists::has_run(a, seq!["--crate-type"@, "bin"@])
            &&& lists::has_run(a, seq!["--out-dir"@, build_dir])
            &&& a.contains("--emit=dep-info,link"@)
            &&& lists::has_run(a, seq!["-L"@, "dependency=target/buildDeps"@])
            &&& lists::has_run(a, seq!["--cap-lints"@, c.cap_lints])
            &&& c.release ==> lists::has_run(a, seq!["-C"@, "opt-level=3"@])
            &&& !c.release ==> lists::has_run(a, seq!["-C"@, "debuginfo=2"@])
            &&& lists::has_run(a, seq!["-C"@, "codegen-units="@ + text::decimal(c.codegen_units as nat)])
            &&& lists::has_run(a, seq!["--color"@, c.colors])
        }),
{
    let a = script_args(c, script, build_dir, externs, build_link);
    let p = profile_flags(c);
    lemma_script_head(c, script, build_dir);
    lists::lemma_run_pair(p, 0);
    lists::lemma_run_pair(p, 2);
    lists::lemma_run_self(seq!["--color"@, c.colors]);
    lemma_script_part(c, script, build_dir, externs, build_link, seq!["--crate-name"@, "build_script_build"@]);
    lemma_script_part(c, script, build_dir, externs, build_link, seq![script, "--crate-type"@]);
    lists::lemma_run_has(a, seq![script, "--crate-type"@], 0);
    lemma_script_part(c, script, build_dir, externs, build_link, seq!["--crate-type"@, "bin"@]);
    lemma_script_part(c, script, build_dir, externs, build_link, seq!["--out-dir"@, build_dir]);
    lemma_script_part(c, script, build_dir, externs, build_link, seq!["--emit=dep-info,link"@, "-L"@]);
    lists::lemma_run_has(a, seq!["--emit=dep-info,link"@, "-L"@], 0);
    lemma_script_part(c, script, build_dir, externs, build_link, seq!["-L"@, "dependency=target/buildDeps"@]);
    lemma_script_part(c, script, build_dir, externs, build_link, seq!["--cap-lints"@, c.cap_lints]);
    lemma_script_part(c, script, build_dir, externs, build_link, seq![p[0], p[1]]);
    lemma_script_part(c, script, build_dir, externs, build_link, seq![p[2], p[3]]);
    lemma_script_part(c, script, build_dir, externs, build_link, seq!["--color"@, c.colors]);
}

/// The call that compiles a build script has the options given for it, a cfg for every feature, the
/// dependencies and the link flags gathered for it, and no argument besides.
pub proof fn lemma_script_shares(
    c: ConfigView,
    script: Seq<char>,
    build_dir: Seq<char>,
    externs: Seq<Seq<char>>,
    build_link: Option<Seq<char>>,
)
    ensures
        ({
            let a = script_args(c, script, build_dir, externs, build_link);
            &&& lists::has_run(a, c.extra_rustc_opts_for_build_rs)
            &&& forall|k: int|
                0 <= k < c.crate_features.len() ==> lists::has_run(
                    a,
                    seq!["--cfg"@, "feature=\""@ + #[trigger] c.crate_features[k] + "\""@],
                )
            &&& lists::has_run(a, externs)
            &&& build_link matches Some(s) ==> lists::has_run(a, text::words(s))
            &&& a.len() == 18 + c.extra_rustc_opts_for_build_rs.len() + 2 * c.crate_features.len() + externs.len() + (
            match build_link {
                Some(s) => text::words(s).len(),
                None => 0nat,
            })
        }),
{
    let a = script_args(c, script, build_dir, externs, build_link);
    let g = feature_flags_at();
    lists::lemma_flat_len(c.crate_features, g, 2);
    assert forall|k: int| 0 <= k < c.crate_features.len() implies lists::has_run(
        a,
        seq!["--cfg"@, "feature=\""@ + #[trigger] c.crate_features[k] + "\""@],
    ) by {
        lists::lemma_run_flat(c.crate_features, g, k);
        lemma_script_part(c, script, build_dir, externs, build_link, g(c.crate_features[k]));
    }
    lists::lemma_run_self(c.extra_rustc_opts_for_build_rs);
    lists::lemma_run_self(externs);
    lists::lemma_run_self(opt_words(build_link));
    lemma_script_part(c, script, build_dir, externs, build_link, c.extra_rustc_opts_for_build_rs);
    lemma_script_part(c, script, build_dir, externs, build_link, externs);
    lemma_script_part(c, script, build_dir, externs, build_link, opt_words(build_link));
}

} // verus!
