//! Evaluation of `cfg()` target expressions against a target description.

use crate::text;
use vstd::prelude::*;

verus! {

// ---------------------------------------------------------------------------
// Platforms
// ---------------------------------------------------------------------------

/// One cfg value: a name like `unix`, or a pair like `target_os = "linux"`.
#[derive(Debug, Clone)]
pub enum Cfg {
    Name(String),
    KeyPair(String, String),
}

/// The view of a [`Cfg`].
pub enum CfgView {
    Name(Seq<char>),
    KeyPair(Seq<char>, Seq<char>),
}

impl DeepView for Cfg {
    type V = CfgView;

    open spec fn deep_view(&self) -> CfgView {
        match self {
            Cfg::Name(n) => CfgView::Name(n@),
            Cfg::KeyPair(k, v) => CfgView::KeyPair(k@, v@),
        }
    }
}

/// A cfg expression.
#[derive(Debug)]
pub enum TargetExpr {
    Not(Box<TargetExpr>),
    All(Vec<TargetExpr>),
    Any(Vec<TargetExpr>),
    Is(Cfg),
}

/// The view of a [`TargetExpr`].
pub enum ExprView {
    Not(Box<ExprView>),
    All(Seq<ExprView>),
    Any(Seq<ExprView>),
    Is(CfgView),
}

pub open spec fn expr_view(e: TargetExpr) -> ExprView
    decreases e,
{
    match e {
        TargetExpr::Not(e) => ExprView::Not(Box::new(expr_view(*e))),
        TargetExpr::All(v) => ExprView::All(
            Seq::new(
                v@.len(),
                |i: int|
                    if 0 <= i < v@.len() {
                        expr_view(v@[i])
                    } else {
                        ExprView::All(Seq::empty())
                    },
            ),
        ),
        TargetExpr::Any(v) => ExprView::Any(
            Seq::new(
                v@.len(),
                |i: int|
                    if 0 <= i < v@.len() {
                        expr_view(v@[i])
                    } else {
                        ExprView::All(Seq::empty())
                    },
            ),
        ),
        TargetExpr::Is(c) => ExprView::Is(c.deep_view()),
    }
}

impl DeepView for TargetExpr {
    type V = ExprView;

    open spec fn deep_view(&self) -> ExprView {
        expr_view(*self)
    }
}

/// What a dependency's `target` names: one target, or those that an expression holds of.
#[derive(Debug)]
pub enum TargetSpec {
    Name(String),
    Cfg(TargetExpr),
}

/// The view of a [`TargetSpec`].
pub enum PlatformView {
    Name(Seq<char>),
    Cfg(ExprView),
}

impl DeepView for TargetSpec {
    type V = PlatformView;

    open spec fn deep_view(&self) -> PlatformView {
        match self {
            TargetSpec::Name(n) => PlatformView::Name(n@),
            TargetSpec::Cfg(e) => PlatformView::Cfg(e.deep_view()),
        }
    }
}

#[verifier::external_type_specification]
#[verifier::external_body]
pub struct ExPlatform(cargo_platform::Platform);

#[verifier::external_type_specification]
#[verifier::external_body]
pub struct ExCfgExpr(cargo_platform::CfgExpr);

/// What `cargo_platform::Platform::from_str` makes of a text.
pub uninterp spec fn platform_parsed(text: Seq<char>) -> Option<PlatformView>;

/// What a `cargo_platform::Platform` holds.
pub uninterp spec fn platform_held(p: cargo_platform::Platform) -> PlatformView;

/// What a `cargo_platform::CfgExpr` holds.
pub uninterp spec fn expr_held(e: cargo_platform::CfgExpr) -> ExprView;

/// `<cargo_platform::Platform as FromStr>::from_str`, `None` where it fails. A text that is not of
/// the form `cfg(..)` is taken as a target's name, unchanged.
#[verifier::external_body]
fn platform_from_str(text: &str) -> (r: Option<cargo_platform::Platform>)
    ensures
        platform_parsed(text@) == match r {
            Some(p) => Some(platform_held(p)),
            None => None::<PlatformView>,
        },
        r matches Some(p) ==> (platform_held(p) matches PlatformView::Name(n) ==> n == text@),
{
    text.parse::<cargo_platform::Platform>().ok()
}

/// The two kinds of `cargo_platform::Platform` told apart.
#[verifier::external_body]
fn platform_parts(p: cargo_platform::Platform) -> (r: Result<String, cargo_platform::CfgExpr>)
    ensures
        platform_held(p) == match r {
            Ok(n) => PlatformView::Name(n@),
            Err(e) => PlatformView::Cfg(expr_held(e)),
        },
{
    match p {
        cargo_platform::Platform::Name(n) => Ok(n),
        cargo_platform::Platform::Cfg(e) => Err(e),
    }
}

/// `cargo_platform::CfgExpr` carried over, each kind of expression to the same kind here.
#[verifier::external_body]
fn expr_of(e: &cargo_platform::CfgExpr) -> (r: TargetExpr)
    ensures
        r.deep_view() == expr_held(*e),
{
    match e {
        cargo_platform::CfgExpr::Not(e) => TargetExpr::Not(Box::new(expr_of(e))),
        cargo_platform::CfgExpr::All(v) => TargetExpr::All(v.iter().map(expr_of).collect()),
        cargo_platform::CfgExpr::Any(v) => TargetExpr::Any(v.iter().map(expr_of).collect()),
        cargo_platform::CfgExpr::Value(cargo_platform::Cfg::Name(n)) => TargetExpr::Is(Cfg::Name(n.clone())),
        cargo_platform::CfgExpr::Value(cargo_platform::Cfg::KeyPair(k, v)) => {
            TargetExpr::Is(Cfg::KeyPair(k.clone(), v.clone()))
        },
    }
}

impl TargetSpec {
    /// Reads a target name or a `cfg(..)` expression.
    pub fn parse(text: &str) -> (r: Option<TargetSpec>)
        ensures
            r.deep_view() == platform_parsed(text@),
            r matches Some(p) ==> (p.deep_view() matches PlatformView::Name(n) ==> n == text@),
    {
        match platform_from_str(text) {
            Some(p) => match platform_parts(p) {
                Ok(n) => Some(TargetSpec::Name(n)),
                Err(e) => Some(TargetSpec::Cfg(expr_of(&e))),
            },
            None => None,
        }
    }
}

// ---------------------------------------------------------------------------
// Targets
// ---------------------------------------------------------------------------

/// Description of a target platform for `cfg()` evaluation.
#[derive(Debug, Clone)]
pub struct TargetDescription {
    pub name: String,
    pub os: String,
    pub arch: String,
    pub vendor: String,
    pub env: String,
    pub family: Vec<String>,
    pub pointer_width: String,
    pub endian: String,
    pub unix: bool,
    pub windows: bool,
}

/// The view of a [`TargetDescription`].
pub struct TargetView {
    pub name: Seq<char>,
    pub os: Seq<char>,
    pub arch: Seq<char>,
    pub vendor: Seq<char>,
    pub env: Seq<char>,
    pub family: Seq<Seq<char>>,
    pub pointer_width: Seq<char>,
    pub endian: Seq<char>,
    pub unix: bool,
    pub windows: bool,
}

impl DeepView for TargetDescription {
    type V = TargetView;

    open spec fn deep_view(&self) -> TargetView {
        TargetView {
            name: self.name@,
            os: self.os@,
            arch: self.arch@,
            vendor: self.vendor@,
            env: self.env@,
            family: self.family.deep_view(),
            pointer_width: self.pointer_width@,
            endian: self.endian@,
            unix: self.unix,
            windows: self.windows,
        }
    }
}

/// The cfg values that rustc reports for a target.
pub open spec fn cfgs_of(t: TargetView) -> Seq<CfgView> {
    seq![
        CfgView::KeyPair("target_os"@, t.os),
        CfgView::KeyPair("target_arch"@, t.arch),
        CfgView::KeyPair("target_vendor"@, t.vendor),
        CfgView::KeyPair("target_env"@, t.env),
        CfgView::KeyPair("target_pointer_width"@, t.pointer_width),
        CfgView::KeyPair("target_endian"@, t.endian),
    ] + t.family.map_values(|f: Seq<char>| CfgView::KeyPair("target_family"@, f)) + (if t.unix {
        seq![CfgView::Name("unix"@)]
    } else {
        Seq::empty()
    }) + (if t.windows {
        seq![CfgView::Name("windows"@)]
    } else {
        Seq::empty()
    })
}

/// Builds the list of cfg values that rustc would report for this target.
pub fn target_cfgs(target: &TargetDescription) -> (r: Vec<Cfg>)
    ensures
        r.deep_view() == cfgs_of(target.deep_view()),
{
    let mut cfgs: Vec<Cfg> = Vec::new();
    cfgs.push(Cfg::KeyPair("target_os".to_owned(), target.os.clone()));
    cfgs.push(Cfg::KeyPair("target_arch".to_owned(), target.arch.clone()));
    cfgs.push(Cfg::KeyPair("target_vendor".to_owned(), target.vendor.clone()));
    cfgs.push(Cfg::KeyPair("target_env".to_owned(), target.env.clone()));
    cfgs.push(Cfg::KeyPair("target_pointer_width".to_owned(), target.pointer_width.clone()));
    cfgs.push(Cfg::KeyPair("target_endian".to_owned(), target.endian.clone()));
    let ghost t = target.deep_view();
    let ghost fixed = seq![
        CfgView::KeyPair("target_os"@, t.os),
        CfgView::KeyPair("target_arch"@, t.arch),
        CfgView::KeyPair("target_vendor"@, t.vendor),
        CfgView::KeyPair("target_env"@, t.env),
        CfgView::KeyPair("target_pointer_width"@, t.pointer_width),
        CfgView::KeyPair("target_endian"@, t.endian),
    ];
    let ghost families = t.family.map_values(|f: Seq<char>| CfgView::KeyPair("target_family"@, f));
    assert(cfgs.deep_view() =~= fixed + families.take(0));
    for i in 0..target.family.len()
        invariant
            t == target.deep_view(),
            families == t.family.map_values(|f: Seq<char>| CfgView::KeyPair("target_family"@, f)),
            cfgs.deep_view() == fixed + families.take(i as int),
    {
        let ghost o = cfgs.deep_view();
        let c = Cfg::KeyPair("target_family".to_owned(), target.family[i].clone());
        let ghost cv = c.deep_view();
        cfgs.push(c);
        assert(cfgs.deep_view() =~= o.push(cv));
        assert(families[i as int] == cv);
        assert(families.take(i + 1) =~= families.take(i as int).push(cv));
    }
    assert(families.take(t.family.len() as int) =~= families);
    let ghost o = cfgs.deep_view();
    if target.unix {
        cfgs.push(Cfg::Name("unix".to_owned()));
        assert(cfgs.deep_view() =~= o.push(CfgView::Name("unix"@)));
    }
    let ghost o = cfgs.deep_view();
    if target.windows {
        cfgs.push(Cfg::Name("windows".to_owned()));
        assert(cfgs.deep_view() =~= o.push(CfgView::Name("windows"@)));
    }
    assert(cfgs.deep_view() =~= cfgs_of(t));
    cfgs
}

// ---------------------------------------------------------------------------
// Matching
// ---------------------------------------------------------------------------

/// Whether an expression holds where exactly the values `cfgs` are set.
pub open spec fn expr_holds(e: ExprView, cfgs: Seq<CfgView>) -> bool
    decreases e,
{
    match e {
        ExprView::Not(e) => !expr_holds(*e, cfgs),
        ExprView::All(v) => forall|i: int| 0 <= i < v.len() ==> expr_holds(#[trigger] v[i], cfgs),
        ExprView::Any(v) => exists|i: int| 0 <= i < v.len() && expr_holds(#[trigger] v[i], cfgs),
        ExprView::Is(c) => cfgs.contains(c),
    }
}

proof fn lemma_all(v: Seq<ExprView>, cfgs: Seq<CfgView>)
    ensures
        expr_holds(ExprView::All(v), cfgs) <==> forall|i: int|
            0 <= i < v.len() ==> expr_holds(#[trigger] v[i], cfgs),
{
    let e = ExprView::All(v);
    if expr_holds(e, cfgs) {
        assert forall|i: int| 0 <= i < v.len() implies expr_holds(#[trigger] v[i], cfgs) by {
            assert(e->All_0[i] == v[i]);
        }
    }
}

proof fn lemma_any(v: Seq<ExprView>, cfgs: Seq<CfgView>)
    ensures
        expr_holds(ExprView::Any(v), cfgs) <==> exists|i: int|
            0 <= i < v.len() && expr_holds(#[trigger] v[i], cfgs),
{
    let e = ExprView::Any(v);
    if exists|i: int| 0 <= i < v.len() && expr_holds(#[trigger] v[i], cfgs) {
        let i = choose|i: int| 0 <= i < v.len() && expr_holds(#[trigger] v[i], cfgs);
        assert(expr_holds(e->Any_0[i], cfgs));
    }
}

/// Whether a platform is, or holds of, the target `t`.
pub open spec fn platform_matches(p: PlatformView, t: TargetView) -> bool {
    match p {
        PlatformView::Name(n) => n == t.name,
        PlatformView::Cfg(e) => expr_holds(e, cfgs_of(t)),
    }
}

fn same_cfg(a: &Cfg, b: &Cfg) -> (r: bool)
    ensures
        r == (a.deep_view() == b.deep_view()),
{
    match (a, b) {
        (Cfg::Name(x), Cfg::Name(y)) => text::same(x, y),
        (Cfg::KeyPair(j, v), Cfg::KeyPair(k, w)) => text::same(j, k) && text::same(v, w),
        _ => false,
    }
}

fn has_cfg(cfgs: &Vec<Cfg>, c: &Cfg) -> (r: bool)
    ensures
        r == cfgs.deep_view().contains(c.deep_view()),
{
    let ghost s = cfgs.deep_view();
    for i in 0..cfgs.len()
        invariant
            s == cfgs.deep_view(),
            forall|j: int| 0 <= j < i ==> s[j] != c.deep_view(),
    {
        assert(s[i as int] == cfgs@[i as int].deep_view());
        if same_cfg(&cfgs[i], c) {
            return true;
        }
    }
    false
}

fn evaluate(e: &TargetExpr, cfgs: &Vec<Cfg>) -> (r: bool)
    ensures
        r == expr_holds(e.deep_view(), cfgs.deep_view()),
    decreases e,
{
    match e {
        TargetExpr::Not(e) => !evaluate(e, cfgs),
        TargetExpr::All(v) => {
            let ghost s = e.deep_view()->All_0;
            for i in 0..v.len()
                invariant
                    e == TargetExpr::All(*v),
                    e.deep_view() == ExprView::All(s),
                    s.len() == v@.len(),
                    forall|j: int| 0 <= j < i ==> expr_holds(#[trigger] s[j], cfgs.deep_view()),
            {
                assert(s[i as int] == expr_view(v@[i as int]));
                if !evaluate(&v[i], cfgs) {
                    proof {
                        lemma_all(s, cfgs.deep_view());
                    }
                    return false;
                }
            }
            true
        },
        TargetExpr::Any(v) => {
            let ghost s = e.deep_view()->Any_0;
            for i in 0..v.len()
                invariant
                    e == TargetExpr::Any(*v),
                    e.deep_view() == ExprView::Any(s),
                    s.len() == v@.len(),
                    forall|j: int| 0 <= j < i ==> !expr_holds(#[trigger] s[j], cfgs.deep_view()),
            {
                assert(s[i as int] == expr_view(v@[i as int]));
                if evaluate(&v[i], cfgs) {
                    proof {
                        lemma_any(s, cfgs.deep_view());
                    }
                    return true;
                }
            }
            false
        },
        TargetExpr::Is(c) => has_cfg(cfgs, c),
    }
}

/// Evaluates whether a platform (cfg expression or named triple) matches the target.
pub fn matches_target(platform: &TargetSpec, target: &TargetDescription) -> (r: bool)
    ensures
        r == platform_matches(platform.deep_view(), target.deep_view()),
{
    match platform {
        TargetSpec::Name(n) => text::same(n, &target.name),
        TargetSpec::Cfg(e) => {
            let cfgs = target_cfgs(target);
            evaluate(e, &cfgs)
        },
    }
}

/// Whether a dependency that is declared for `spec`, if for anything, is one of the target's. A
/// text that is no platform excludes nothing.
pub open spec fn applies_to(spec_text: Option<Seq<char>>, t: TargetView) -> bool {
    match spec_text {
        Some(s) => match platform_parsed(s) {
            Some(p) => platform_matches(p, t),
            None => true,
        },
        None => true,
    }
}

pub fn applies(spec_text: &Option<String>, target: &TargetDescription) -> (r: bool)
    ensures
        r == applies_to(spec_text.deep_view(), target.deep_view()),
{
    match spec_text {
        Some(s) => match TargetSpec::parse(s) {
            Some(p) => matches_target(&p, target),
            None => true,
        },
        None => true,
    }
}

// ---------------------------------------------------------------------------
// Laws
// ---------------------------------------------------------------------------

/// `cfg(unix)` and `cfg(windows)` hold exactly of the targets that are so described.
pub proof fn lemma_family_names(t: TargetView)
    ensures
        expr_holds(ExprView::Is(CfgView::Name("unix"@)), cfgs_of(t)) == t.unix,
        expr_holds(ExprView::Is(CfgView::Name("windows"@)), cfgs_of(t)) == t.windows,
{
    reveal_strlit("unix");
    reveal_strlit("windows");
    let s = cfgs_of(t);
    let n = 6 + t.family.len();
    assert("unix"@[0] != "windows"@[0]);
    assert forall|i: int| 0 <= i < n implies (#[trigger] s[i]) is KeyPair by {
        if i < 6 {
        } else {
            assert(s[i] == CfgView::KeyPair("target_family"@, t.family[i - 6]));
        }
    }
    if t.unix {
        assert(s[n as int] == CfgView::Name("unix"@));
    }
    if t.windows {
        assert(s[s.len() - 1] == CfgView::Name("windows"@));
    }
}

/// The pairs of a target that are not of its families are its six fixed ones.
proof fn lemma_pairs(t: TargetView, k: Seq<char>, v: Seq<char>)
    ensures
        cfgs_of(t).contains(CfgView::KeyPair(k, v)) <==> (k == "target_os"@ && v == t.os) || (k == "target_arch"@ && v
            == t.arch) || (k == "target_vendor"@ && v == t.vendor) || (k == "target_env"@ && v == t.env) || (k
            == "target_pointer_width"@ && v == t.pointer_width) || (k == "target_endian"@ && v == t.endian) || (k
            == "target_family"@ && t.family.contains(v)),
{
    let s = cfgs_of(t);
    let c = CfgView::KeyPair(k, v);
    let n = t.family.len() as int;
    assert(s[0] == CfgView::KeyPair("target_os"@, t.os));
    assert(s[1] == CfgView::KeyPair("target_arch"@, t.arch));
    assert(s[2] == CfgView::KeyPair("target_vendor"@, t.vendor));
    assert(s[3] == CfgView::KeyPair("target_env"@, t.env));
    assert(s[4] == CfgView::KeyPair("target_pointer_width"@, t.pointer_width));
    assert(s[5] == CfgView::KeyPair("target_endian"@, t.endian));
    if s.contains(c) {
        let i = choose|i: int| 0 <= i < s.len() && s[i] == c;
        if 6 <= i < 6 + n {
            assert(s[i] == CfgView::KeyPair("target_family"@, t.family[i - 6]));
        }
    }
    if k == "target_family"@ && t.family.contains(v) {
        let i = choose|i: int| 0 <= i < n && t.family[i] == v;
        assert(s[i + 6] == c);
    }
}

/// A pair holds of a target exactly if the target has that value for that key, for each of the keys
/// by which a target is described.
pub proof fn lemma_target_pairs(t: TargetView, v: Seq<char>)
    ensures
        expr_holds(ExprView::Is(CfgView::KeyPair("target_os"@, v)), cfgs_of(t)) == (v == t.os),
        expr_holds(ExprView::Is(CfgView::KeyPair("target_arch"@, v)), cfgs_of(t)) == (v == t.arch),
        expr_holds(ExprView::Is(CfgView::KeyPair("target_vendor"@, v)), cfgs_of(t)) == (v == t.vendor),
        expr_holds(ExprView::Is(CfgView::KeyPair("target_env"@, v)), cfgs_of(t)) == (v == t.env),
        expr_holds(ExprView::Is(CfgView::KeyPair("target_pointer_width"@, v)), cfgs_of(t)) == (v == t.pointer_width),
        expr_holds(ExprView::Is(CfgView::KeyPair("target_endian"@, v)), cfgs_of(t)) == (v == t.endian),
        expr_holds(ExprView::Is(CfgView::KeyPair("target_family"@, v)), cfgs_of(t)) == t.family.contains(v),
{
    reveal_strlit("target_os");
    reveal_strlit("target_arch");
    reveal_strlit("target_vendor");
    reveal_strlit("target_env");
    reveal_strlit("target_pointer_width");
    reveal_strlit("target_endian");
    reveal_strlit("target_family");
    assert("target_os"@.len() == 9);
    assert("target_env"@.len() == 10);
    assert("target_arch"@.len() == 11);
    assert("target_pointer_width"@.len() == 20);
    assert("target_vendor"@.len() == 13 && "target_vendor"@[7] == 'v');
    assert("target_endian"@.len() == 13 && "target_endian"@[7] == 'e');
    assert("target_family"@.len() == 13 && "target_family"@[7] == 'f');
    lemma_pairs(t, "target_os"@, v);
    lemma_pairs(t, "target_arch"@, v);
    lemma_pairs(t, "target_vendor"@, v);
    lemma_pairs(t, "target_env"@, v);
    lemma_pairs(t, "target_pointer_width"@, v);
    lemma_pairs(t, "target_endian"@, v);
    lemma_pairs(t, "target_family"@, v);
}

/// A target's name, used as a platform, matches that target and no other.
pub proof fn lemma_name_matches_only_itself(n: Seq<char>, t: TargetView)
    ensures
        platform_matches(PlatformView::Name(n), t) == (n == t.name),
{
}

/// Negation, conjunction and disjunction of expressions mean what they say of their parts.
pub proof fn lemma_connectives(a: ExprView, b: ExprView, cfgs: Seq<CfgView>)
    ensures
        expr_holds(ExprView::Not(Box::new(a)), cfgs) == !expr_holds(a, cfgs),
        expr_holds(ExprView::All(seq![a, b]), cfgs) == (expr_holds(a, cfgs) && expr_holds(b, cfgs)),
        expr_holds(ExprView::Any(seq![a, b]), cfgs) == (expr_holds(a, cfgs) || expr_holds(b, cfgs)),
{
    let s = seq![a, b];
    assert(s[0] == a && s[1] == b);
    lemma_all(s, cfgs);
    lemma_any(s, cfgs);
}

/// A dependency that is declared for no platform, or for what is none, is one of every target's; one that is
/// declared for a target by its name is that target's only.
pub proof fn lemma_applies(s: Seq<char>, n: Seq<char>, t: TargetView)
    ensures
        applies_to(None, t),
        platform_parsed(s) is None ==> applies_to(Some(s), t),
        platform_parsed(s) == Some(PlatformView::Name(n)) ==> (applies_to(Some(s), t) <==> n == t.name),
{
}

/// An expression over no values: `all` holds and `any` does not.
pub proof fn lemma_no_conditions(cfgs: Seq<CfgView>)
    ensures
        expr_holds(ExprView::All(Seq::empty()), cfgs),
        !expr_holds(ExprView::Any(Seq::empty()), cfgs),
{
}

} // verus!
