//! Feature resolution: which features of which packages are on, and which optional dependencies.
//!
//! The manifests are turned into rules, each of which says that some facts bring about another. What
//! is on is what the rules bring about, and nothing else: the least set of facts that no rule leads
//! out of.

use crate::lists;
use crate::positions::Positions;
use crate::sorted;
use crate::sorted::StrMap;
use crate::text;
use vstd::prelude::*;

verus! {

// ---------------------------------------------------------------------------
// Packages
// ---------------------------------------------------------------------------

/// A dependency as feature resolution sees it. `name` is the key under which the manifest knows it.
#[derive(Debug, Clone)]
pub struct DepFeatureInfo {
    pub name: String,
    pub package_id: String,
    pub uses_default_features: bool,
    pub features: Vec<String>,
}

/// A package as feature resolution sees it.
#[derive(Debug, Clone)]
pub struct PackageFeatureInfo {
    pub features: StrMap<Vec<String>>,
    pub dependencies: Vec<DepFeatureInfo>,
    /// The names of the optional dependencies.
    pub optional_deps: Vec<String>,
}

/// The view of a [`DepFeatureInfo`].
pub struct DepFeatureView {
    pub name: Seq<char>,
    pub package_id: Seq<char>,
    pub uses_default_features: bool,
    pub features: Seq<Seq<char>>,
}

/// The view of a [`PackageFeatureInfo`].
pub struct PackageFeatureView {
    pub features: Seq<(Seq<char>, Seq<Seq<char>>)>,
    pub dependencies: Seq<DepFeatureView>,
    pub optional_deps: Seq<Seq<char>>,
}

impl DeepView for DepFeatureInfo {
    type V = DepFeatureView;

    open spec fn deep_view(&self) -> DepFeatureView {
        DepFeatureView {
            name: self.name@,
            package_id: self.package_id@,
            uses_default_features: self.uses_default_features,
            features: self.features.deep_view(),
        }
    }
}

impl DeepView for PackageFeatureInfo {
    type V = PackageFeatureView;

    open spec fn deep_view(&self) -> PackageFeatureView {
        PackageFeatureView {
            features: self.features.deep_view(),
            dependencies: self.dependencies.deep_view(),
            optional_deps: self.optional_deps.deep_view(),
        }
    }
}

// ---------------------------------------------------------------------------
// Facts and rules
// ---------------------------------------------------------------------------

/// What can be the case of a package, which is given by its place.
pub enum FactView {
    /// The package is part of the build.
    Active(int),
    /// The feature is on.
    Feature(int, Seq<char>),
    /// The optional dependency is on.
    Dep(int, Seq<char>),
}

/// All facts of `needs` together bring about `gives`.
pub struct RuleView {
    pub needs: Seq<FactView>,
    pub gives: FactView,
}

/// Whether all that a rule needs is in `s`.
pub open spec fn met(r: RuleView, s: Set<FactView>) -> bool {
    forall|j: int| 0 <= j < r.needs.len() ==> s.contains(#[trigger] r.needs[j])
}

/// Whether no rule leads out of `s`.
pub open spec fn closed_under(rules: Seq<RuleView>, s: Set<FactView>) -> bool {
    forall|k: int| 0 <= k < rules.len() && met(#[trigger] rules[k], s) ==> s.contains(rules[k].gives)
}

/// Whether the rules bring a fact about: it is in every set that they do not lead out of.
pub open spec fn derivable(rules: Seq<RuleView>, f: FactView) -> bool {
    forall|s: Set<FactView>| #[trigger] closed_under(rules, s) ==> s.contains(f)
}

/// A rule all of whose needs are brought about brings its fact about.
pub proof fn lemma_rule_applies(rules: Seq<RuleView>, r: RuleView)
    requires
        rules.contains(r),
        forall|j: int| 0 <= j < r.needs.len() ==> derivable(rules, #[trigger] r.needs[j]),
    ensures
        derivable(rules, r.gives),
{
    let k = choose|k: int| 0 <= k < rules.len() && rules[k] == r;
    assert forall|s: Set<FactView>| #[trigger] closed_under(rules, s) implies s.contains(r.gives) by {
        assert forall|j: int| 0 <= j < r.needs.len() implies s.contains(#[trigger] r.needs[j]) by {
            assert(derivable(rules, r.needs[j]));
        }
        assert(met(rules[k], s));
    }
}

/// More rules bring about no less.
pub proof fn lemma_more_rules(rules: Seq<RuleView>, more: Seq<RuleView>, f: FactView)
    requires
        forall|k: int| 0 <= k < rules.len() ==> more.contains(#[trigger] rules[k]),
        derivable(rules, f),
    ensures
        derivable(more, f),
{
    assert forall|s: Set<FactView>| #[trigger] closed_under(more, s) implies s.contains(f) by {
        assert forall|k: int| 0 <= k < rules.len() && met(#[trigger] rules[k], s) implies s.contains(
            rules[k].gives,
        ) by {
            let m = choose|m: int| 0 <= m < more.len() && more[m] == rules[k];
            assert(met(more[m], s));
        }
        assert(closed_under(rules, s));
    }
}

// ---------------------------------------------------------------------------
// The rules of a set of packages
// ---------------------------------------------------------------------------

/// What an entry of a feature's list says.
pub enum ItemView {
    /// `dep:name`
    DepOnly(Seq<char>),
    /// `name?/feature`
    Weak(Seq<char>, Seq<char>),
    /// `name/feature`
    Strong(Seq<char>, Seq<char>),
    /// `feature`
    Plain(Seq<char>),
}

pub open spec fn item_of(s: Seq<char>) -> ItemView {
    match text::after_prefix(s, "dep:"@) {
        Some(x) => ItemView::DepOnly(x),
        None => match text::cut_first(s, '/') {
            Some((a, b)) => if a.len() > 0 && a.last() == '?' {
                ItemView::Weak(a.drop_last(), b)
            } else {
                ItemView::Strong(a, b)
            },
            None => ItemView::Plain(s),
        },
    }
}

/// Whether some feature of a package names the dependency `x` with `dep:`.
pub open spec fn is_named(p: PackageFeatureView, x: Seq<char>) -> bool {
    exists|k: int, m: int|
        0 <= k < p.features.len() && 0 <= m < p.features[k].1.len() && item_of(#[trigger] p.features[k].1[m])
            == ItemView::DepOnly(x)
}

/// Whether a package has the feature `f`: it declares it, or it has an optional dependency of that
/// name. The name of an optional dependency that some feature names with `dep:` is no feature.
pub open spec fn has_feature(p: PackageFeatureView, f: Seq<char>) -> bool {
    ||| sorted::entry_of(p.features, f) is Some
    ||| p.optional_deps.contains(f) && !is_named(p, f)
}

/// The place of a package among all.
pub open spec fn place_of(pkgs: Seq<(Seq<char>, PackageFeatureView)>, id: Seq<char>) -> Option<int>
    decreases pkgs.len(),
{
    if pkgs.len() == 0 {
        None
    } else {
        match place_of(pkgs.drop_last(), id) {
            Some(i) => Some(i),
            None => if pkgs.last().0 == id {
                Some(pkgs.len() - 1)
            } else {
                None
            },
        }
    }
}

/// What has to be the case for a dependency of package `i` to be part of the build.
pub open spec fn edge_on(i: int, p: PackageFeatureView, name: Seq<char>) -> FactView {
    if p.optional_deps.contains(name) {
        FactView::Dep(i, name)
    } else {
        FactView::Active(i)
    }
}

pub open spec fn feature_given(needs: Seq<FactView>, j: int) -> spec_fn(Seq<char>) -> RuleView {
    |f: Seq<char>| RuleView { needs, gives: FactView::Feature(j, f) }
}

/// A dependency that is on makes its package part of the build, with the features asked for.
pub open spec fn dep_rules(
    pkgs: Seq<(Seq<char>, PackageFeatureView)>,
    i: int,
    d: DepFeatureView,
) -> Seq<RuleView> {
    let needs = seq![edge_on(i, pkgs[i].1, d.name)];
    match place_of(pkgs, d.package_id) {
        Some(j) => seq![RuleView { needs, gives: FactView::Active(j) }] + d.features.map_values(
            feature_given(needs, j),
        ) + if d.uses_default_features {
            seq![RuleView { needs, gives: FactView::Feature(j, "default"@) }]
        } else {
            Seq::empty()
        },
        None => Seq::empty(),
    }
}

pub open spec fn dep_rules_at(pkgs: Seq<(Seq<char>, PackageFeatureView)>, i: int) -> spec_fn(
    DepFeatureView,
) -> Seq<RuleView> {
    |d: DepFeatureView| dep_rules(pkgs, i, d)
}

/// The rule by which `needs` turns the feature `f` of the dependency `d` on, if that is `name`.
pub open spec fn forward_at(
    pkgs: Seq<(Seq<char>, PackageFeatureView)>,
    needs: Seq<FactView>,
    name: Seq<char>,
    f: Seq<char>,
) -> spec_fn(DepFeatureView) -> Option<RuleView> {
    |d: DepFeatureView|
        if d.name == name {
            match place_of(pkgs, d.package_id) {
                Some(j) => Some(RuleView { needs, gives: FactView::Feature(j, f) }),
                None => None,
            }
        } else {
            None
        }
}

/// What the entry `item` of the feature `feature` of package `i` brings about.
pub open spec fn item_rules(
    pkgs: Seq<(Seq<char>, PackageFeatureView)>,
    i: int,
    feature: Seq<char>,
    item: Seq<char>,
) -> Seq<RuleView> {
    let p = pkgs[i].1;
    let on = FactView::Feature(i, feature);
    match item_of(item) {
        ItemView::DepOnly(x) => seq![RuleView { needs: seq![on], gives: FactView::Dep(i, x) }],
        ItemView::Plain(g) => seq![RuleView { needs: seq![on], gives: FactView::Feature(i, g) }],
        ItemView::Strong(x, f) => (if p.optional_deps.contains(x) {
            seq![
                RuleView { needs: seq![on], gives: FactView::Dep(i, x) },
                RuleView { needs: seq![on], gives: FactView::Feature(i, x) },
            ]
        } else {
            Seq::empty()
        }) + p.dependencies.filter_map(forward_at(pkgs, seq![on], x, f)),
        ItemView::Weak(x, f) => p.dependencies.filter_map(
            forward_at(pkgs, seq![on, edge_on(i, p, x)], x, f),
        ),
    }
}

pub open spec fn item_rules_at(
    pkgs: Seq<(Seq<char>, PackageFeatureView)>,
    i: int,
    feature: Seq<char>,
) -> spec_fn(Seq<char>) -> Seq<RuleView> {
    |item: Seq<char>| item_rules(pkgs, i, feature, item)
}

pub open spec fn feature_rules_at(pkgs: Seq<(Seq<char>, PackageFeatureView)>, i: int) -> spec_fn(
    (Seq<char>, Seq<Seq<char>>),
) -> Seq<RuleView> {
    |e: (Seq<char>, Seq<Seq<char>>)| lists::flat(e.1, item_rules_at(pkgs, i, e.0))
}

/// An optional dependency without a feature of its name is turned on by that name.
pub open spec fn implicit_at(i: int, p: PackageFeatureView) -> spec_fn(Seq<char>) -> Option<RuleView> {
    |x: Seq<char>|
        if sorted::entry_of(p.features, x) is None {
            Some(RuleView { needs: seq![FactView::Feature(i, x)], gives: FactView::Dep(i, x) })
        } else {
            None
        }
}

/// The rules of package `i`.
pub open spec fn package_rules(pkgs: Seq<(Seq<char>, PackageFeatureView)>, i: int) -> Seq<RuleView> {
    let p = pkgs[i].1;
    lists::flat(p.dependencies, dep_rules_at(pkgs, i)) + lists::flat(p.features, feature_rules_at(pkgs, i))
        + p.optional_deps.filter_map(implicit_at(i, p))
}

/// The rules of the first `n` packages.
pub open spec fn rules_up_to(pkgs: Seq<(Seq<char>, PackageFeatureView)>, n: int) -> Seq<RuleView>
    decreases n,
{
    if n <= 0 {
        Seq::empty()
    } else {
        rules_up_to(pkgs, n - 1) + package_rules(pkgs, n - 1)
    }
}

/// A root is part of the build, with the features requested of it.
pub open spec fn root_rules(
    pkgs: Seq<(Seq<char>, PackageFeatureView)>,
    root: (Seq<char>, Seq<Seq<char>>),
) -> Seq<RuleView> {
    match place_of(pkgs, root.0) {
        Some(j) => seq![RuleView { needs: Seq::empty(), gives: FactView::Active(j) }] + root.1.map_values(
            feature_given(Seq::empty(), j),
        ),
        None => Seq::empty(),
    }
}

pub open spec fn root_rules_at(pkgs: Seq<(Seq<char>, PackageFeatureView)>) -> spec_fn(
    (Seq<char>, Seq<Seq<char>>),
) -> Seq<RuleView> {
    |root: (Seq<char>, Seq<Seq<char>>)| root_rules(pkgs, root)
}

/// What the roots and the packages ask for.
pub open spec fn wishes_of(
    pkgs: Seq<(Seq<char>, PackageFeatureView)>,
    roots: Seq<(Seq<char>, Seq<Seq<char>>)>,
) -> Seq<RuleView> {
    lists::flat(roots, root_rules_at(pkgs)) + rules_up_to(pkgs, pkgs.len() as int)
}

/// Whether what a rule gives can be: a feature that it turns on is one that the package has.
pub open spec fn can_be(pkgs: Seq<(Seq<char>, PackageFeatureView)>) -> spec_fn(RuleView) -> bool {
    |r: RuleView|
        match r.gives {
            FactView::Feature(j, f) => 0 <= j < pkgs.len() && has_feature(pkgs[j].1, f),
            _ => true,
        }
}

/// The rules of all packages, built from the given roots: what is asked for, as far as it can be.
pub open spec fn rules_of(
    pkgs: Seq<(Seq<char>, PackageFeatureView)>,
    roots: Seq<(Seq<char>, Seq<Seq<char>>)>,
) -> Seq<RuleView> {
    sorted::keep(wishes_of(pkgs, roots), can_be(pkgs))
}

// ---------------------------------------------------------------------------
// Building the rules
// ---------------------------------------------------------------------------

#[derive(Debug, Clone)]
enum Fact {
    Active(usize),
    Feature(usize, String),
    Dep(usize, String),
}

impl DeepView for Fact {
    type V = FactView;

    closed spec fn deep_view(&self) -> FactView {
        match self {
            Fact::Active(i) => FactView::Active(*i as int),
            Fact::Feature(i, x) => FactView::Feature(*i as int, x@),
            Fact::Dep(i, x) => FactView::Dep(*i as int, x@),
        }
    }
}

#[derive(Debug, Clone)]
struct Rule {
    needs: Vec<Fact>,
    gives: Fact,
}

impl DeepView for Rule {
    type V = RuleView;

    closed spec fn deep_view(&self) -> RuleView {
        RuleView { needs: self.needs.deep_view(), gives: self.gives.deep_view() }
    }
}

/// The package that a fact is about.
spec fn about(f: FactView) -> int {
    match f {
        FactView::Active(i) => i,
        FactView::Feature(i, _) => i,
        FactView::Dep(i, _) => i,
    }
}

/// Whether a rule speaks of packages below `n` only.
spec fn rule_below(r: RuleView, n: int) -> bool {
    &&& 0 <= about(r.gives) < n
    &&& forall|j: int| 0 <= j < r.needs.len() ==> 0 <= about(#[trigger] r.needs[j]) < n
}

spec fn rules_below(s: Seq<RuleView>, n: int) -> bool {
    forall|k: int| 0 <= k < s.len() ==> rule_below(#[trigger] s[k], n)
}

/// A package has the place where its ID first stands.
pub proof fn lemma_place_in_range(pkgs: Seq<(Seq<char>, PackageFeatureView)>, id: Seq<char>)
    ensures
        place_of(pkgs, id) matches Some(i) ==> 0 <= i < pkgs.len() && pkgs[i].0 == id && forall|j: int|
            0 <= j < i ==> (#[trigger] pkgs[j]).0 != id,
        place_of(pkgs, id) is None ==> forall|j: int| 0 <= j < pkgs.len() ==> (#[trigger] pkgs[j]).0 != id,
    decreases pkgs.len(),
{
    if pkgs.len() > 0 {
        let t = pkgs.drop_last();
        lemma_place_in_range(t, id);
        match place_of(t, id) {
            Some(i) => {
                assert(t[i] == pkgs[i]);
                assert forall|j: int| 0 <= j < i implies (#[trigger] pkgs[j]).0 != id by {
                    assert(t[j].0 != id);
                }
            },
            None => {
                assert forall|j: int| 0 <= j < t.len() implies (#[trigger] pkgs[j]).0 != id by {
                    assert(t[j].0 != id);
                }
            },
        }
    }
}

proof fn lemma_place_is(pkgs: Seq<(Seq<char>, PackageFeatureView)>, id: Seq<char>, i: int)
    requires
        0 <= i <= pkgs.len(),
        i < pkgs.len() ==> pkgs[i].0 == id,
        forall|j: int| 0 <= j < i ==> (#[trigger] pkgs[j]).0 != id,
    ensures
        place_of(pkgs, id) == if i < pkgs.len() { Some(i) } else { None::<int> },
{
    lemma_place_in_range(pkgs, id);
    match place_of(pkgs, id) {
        Some(k) => {
            if k < i {
                assert(pkgs[k].0 != id);
            } else if i < k {
                assert(pkgs[i].0 != id);
            }
        },
        None => {},
    }
}

spec fn id_at() -> spec_fn((Seq<char>, PackageFeatureView)) -> Seq<char> {
    |e: (Seq<char>, PackageFeatureView)| e.0
}

/// The packages, found by their IDs.
struct Directory<'a> {
    list: &'a StrMap<PackageFeatureInfo>,
    ids: Positions,
}

impl<'a> DeepView for Directory<'a> {
    type V = Seq<(Seq<char>, PackageFeatureView)>;

    closed spec fn deep_view(&self) -> Seq<(Seq<char>, PackageFeatureView)> {
        self.list.deep_view()
    }
}

impl<'a> Directory<'a> {
    #[verifier::type_invariant]
    spec fn inv(&self) -> bool {
        self.ids.keys() == self.list.deep_view().map_values(id_at())
    }

    fn of(list: &'a StrMap<PackageFeatureInfo>) -> (r: Directory<'a>)
        ensures
            r.deep_view() == list.deep_view(),
    {
        let ghost s = list.deep_view();
        let mut ids: Vec<&str> = Vec::new();
        for i in 0..list.entries.len()
            invariant
                s == list.entries.deep_view(),
                ids@.len() == i,
                forall|j: int| 0 <= j < i ==> (#[trigger] ids@[j])@ == s[j].0,
        {
            assert(s[i as int].0 == list.entries@[i as int].0@);
            ids.push(list.entries[i].0.as_str());
        }
        assert(ids.deep_view() =~= s.map_values(id_at()));
        Directory { list, ids: Positions::of(&ids) }
    }

    /// The place of a package.
    fn find(&self, id: &str) -> (r: Option<usize>)
        ensures
            match r {
                Some(i) => place_of(self.deep_view(), id@) == Some(i as int) && i < self.deep_view().len(),
                None => place_of(self.deep_view(), id@) is None,
            },
    {
        let ghost s = self.deep_view();
        let ghost keys = self.ids.keys();
        proof {
            use_type_invariant(self);
            assert forall|j: int| 0 <= j < s.len() implies keys[j] == (#[trigger] s[j]).0 by {}
        }
        let r = self.ids.first(id);
        proof {
            let n = match r {
                Some(i) => i as int,
                None => s.len() as int,
            };
            assert forall|j: int| 0 <= j < n implies (#[trigger] s[j]).0 != id@ by {
                assert(keys[j] != id@);
            }
            lemma_place_is(s, id@, n);
        }
        r
    }
}

fn push_rule(rules: &mut Vec<Rule>, needs: Vec<Fact>, gives: Fact)
    ensures
        final(rules).deep_view() == old(rules).deep_view().push(
            RuleView { needs: needs.deep_view(), gives: gives.deep_view() },
        ),
{
    let ghost o = rules.deep_view();
    let r = Rule { needs, gives };
    let ghost rv = r.deep_view();
    rules.push(r);
    assert(rules.deep_view() =~= o.push(rv));
}

fn one(f: Fact) -> (r: Vec<Fact>)
    ensures
        r.deep_view() == seq![f.deep_view()],
{
    let mut r: Vec<Fact> = Vec::new();
    r.push(f);
    assert(r.deep_view() =~= seq![f.deep_view()]);
    r
}

fn edge_fact(i: usize, p: &PackageFeatureInfo, name: &str) -> (r: Fact)
    ensures
        r.deep_view() == edge_on(i as int, p.deep_view(), name@),
{
    if sorted::has_text(&p.optional_deps, name) {
        Fact::Dep(i, name.to_owned())
    } else {
        Fact::Active(i)
    }
}

/// What the rules so far have become by adding `more`, which speaks of packages below `n` only.
spec fn grown(before: Seq<RuleView>, after: Seq<RuleView>, more: Seq<RuleView>, n: int) -> bool {
    &&& after == before + more
    &&& rules_below(before, n) ==> rules_below(after, n)
}

fn add_dep_rules(
    rules: &mut Vec<Rule>,
    packages: &Directory,
    i: usize,
    d: &DepFeatureInfo,
)
    requires
        i < packages.deep_view().len(),
    ensures
        grown(
            old(rules).deep_view(),
            final(rules).deep_view(),
            dep_rules(packages.deep_view(), i as int, d.deep_view()),
            packages.deep_view().len() as int,
        ),
{
    let ghost start = rules.deep_view();
    let ghost pkgs = packages.deep_view();
    let ghost n = pkgs.len() as int;
    let p = &packages.list.entries[i].1;
    assert(pkgs[i as int].1 == p.deep_view());
    match packages.find(&d.package_id) {
        None => {
            assert(rules.deep_view() =~= start + Seq::empty());
        },
        Some(j) => {
            let ghost needs = seq![edge_on(i as int, p.deep_view(), d.name@)];
            push_rule(rules, one(edge_fact(i, p, &d.name)), Fact::Active(j));
            let ghost head = seq![RuleView { needs, gives: FactView::Active(j as int) }];
            let ghost s = d.features.deep_view();
            let ghost full = s.map_values(feature_given(needs, j as int));
            assert(rules.deep_view() =~= start + head + full.take(0));
            for k in 0..d.features.len()
                invariant
                    s == d.features.deep_view(),
                    full == s.map_values(feature_given(needs, j as int)),
                    needs == seq![edge_on(i as int, p.deep_view(), d.name@)],
                    needs.len() == 1 && 0 <= about(needs[0]) < n,
                    j < n,
                    rules_below(start, n) ==> rules_below(rules.deep_view(), n),
                    rules.deep_view() == start + head + full.take(k as int),
            {
                assert(s[k as int] == d.features@[k as int]@);
                let ghost o = rules.deep_view();
                push_rule(rules, one(edge_fact(i, p, &d.name)), Fact::Feature(j, d.features[k].clone()));
                assert(rules.deep_view()[o.len() as int] == full[k as int]);
                assert(rules.deep_view() =~= start + head + full.take(k + 1));
            }
            assert(full.take(s.len() as int) =~= full);
            if d.uses_default_features {
                push_rule(rules, one(edge_fact(i, p, &d.name)), Fact::Feature(j, "default".to_owned()));
            }
            assert(rules.deep_view() =~= start + dep_rules(pkgs, i as int, d.deep_view()));
        },
    }
}

/// Adds a rule that turns the feature `f` on for each dependency called `name`.
fn add_forwards(
    rules: &mut Vec<Rule>,
    packages: &Directory,
    i: usize,
    feature: &str,
    weak: bool,
    name: &str,
    f: &str,
)
    requires
        i < packages.deep_view().len(),
    ensures
        ({
            let pkgs = packages.deep_view();
            let p = pkgs[i as int].1;
            let on = FactView::Feature(i as int, feature@);
            let needs = if weak {
                seq![on, edge_on(i as int, p, name@)]
            } else {
                seq![on]
            };
            grown(
                old(rules).deep_view(),
                final(rules).deep_view(),
                p.dependencies.filter_map(forward_at(pkgs, needs, name@, f@)),
                pkgs.len() as int,
            )
        }),
{
    let ghost start = rules.deep_view();
    let ghost pkgs = packages.deep_view();
    let ghost n = pkgs.len() as int;
    let p = &packages.list.entries[i].1;
    let ghost pv = p.deep_view();
    assert(pkgs[i as int].1 == pv);
    let ghost on = FactView::Feature(i as int, feature@);
    let ghost needs = if weak {
        seq![on, edge_on(i as int, pv, name@)]
    } else {
        seq![on]
    };
    let ghost s = pv.dependencies;
    let ghost g = forward_at(pkgs, needs, name@, f@);
    assert(rules.deep_view() =~= start + s.take(0).filter_map(g));
    for k in 0..p.dependencies.len()
        invariant
            pkgs == packages.deep_view(),
            n == pkgs.len(),
            i < n,
            pv == p.deep_view(),
            s == p.dependencies.deep_view(),
            on == FactView::Feature(i as int, feature@),
            needs == if weak {
                seq![on, edge_on(i as int, pv, name@)]
            } else {
                seq![on]
            },
            g == forward_at(pkgs, needs, name@, f@),
            rules_below(start, n) ==> rules_below(rules.deep_view(), n),
            rules.deep_view() == start + s.take(k as int).filter_map(g),
    {
        assert(s.take(k + 1).drop_last() =~= s.take(k as int));
        assert(s.take(k + 1).last() == p.dependencies@[k as int].deep_view());
        let ghost o = rules.deep_view();
        if text::same(&p.dependencies[k].name, name) {
            if let Some(j) = packages.find(&p.dependencies[k].package_id) {
                let mut needs_now: Vec<Fact> = one(Fact::Feature(i, feature.to_owned()));
                if weak {
                    let ghost first = needs_now.deep_view();
                    let edge = edge_fact(i, p, name);
                    let ghost ev = edge.deep_view();
                    needs_now.push(edge);
                    assert(needs_now.deep_view() =~= first.push(ev));
                }
                assert(needs_now.deep_view() =~= needs);
                assert(forall|m: int| 0 <= m < needs.len() ==> 0 <= about(#[trigger] needs[m]) < n);
                push_rule(rules, needs_now, Fact::Feature(j, f.to_owned()));
                assert(rules.deep_view() =~= start + s.take(k + 1).filter_map(g));
            }
        }
        assert(rules.deep_view() =~= start + s.take(k + 1).filter_map(g));
    }
    assert(s.take(s.len() as int) =~= s);
}

fn add_item_rules(
    rules: &mut Vec<Rule>,
    packages: &Directory,
    i: usize,
    feature: &str,
    item: &str,
)
    requires
        i < packages.deep_view().len(),
    ensures
        grown(
            old(rules).deep_view(),
            final(rules).deep_view(),
            item_rules(packages.deep_view(), i as int, feature@, item@),
            packages.deep_view().len() as int,
        ),
{
    let ghost start = rules.deep_view();
    let ghost pkgs = packages.deep_view();
    let ghost n = pkgs.len() as int;
    let ghost all = item_rules(pkgs, i as int, feature@, item@);
    assert(pkgs[i as int].1 == packages.list.entries@[i as int].1.deep_view());
    if let Some(x) = text::strip_prefix(item, "dep:") {
        push_rule(rules, one(Fact::Feature(i, feature.to_owned())), Fact::Dep(i, x.to_owned()));
        assert(rules.deep_view() =~= start + all);
        return;
    }
    match text::split_once(item, '/') {
        None => {
            push_rule(rules, one(Fact::Feature(i, feature.to_owned())), Fact::Feature(i, item.to_owned()));
            assert(rules.deep_view() =~= start + all);
        },
        Some((a, f)) => {
            let v = text::chars_of(a);
            if v.len() > 0 && v[v.len() - 1] == '?' {
                let name = text::text_of(&v, 0, v.len() - 1);
                assert(name@ =~= a@.drop_last());
                add_forwards(rules, packages, i, feature, true, &name, f);
            } else {
                if sorted::has_text(&packages.list.entries[i].1.optional_deps, a) {
                    push_rule(rules, one(Fact::Feature(i, feature.to_owned())), Fact::Dep(i, a.to_owned()));
                    push_rule(rules, one(Fact::Feature(i, feature.to_owned())), Fact::Feature(i, a.to_owned()));
                }
                let ghost mid = rules.deep_view();
                assert(rules_below(start, n) ==> rules_below(mid, n));
                add_forwards(rules, packages, i, feature, false, a, f);
                assert(rules.deep_view() =~= start + all);
            }
        },
    }
}

fn add_package_rules(rules: &mut Vec<Rule>, packages: &Directory, i: usize)
    requires
        i < packages.deep_view().len(),
    ensures
        grown(
            old(rules).deep_view(),
            final(rules).deep_view(),
            package_rules(packages.deep_view(), i as int),
            packages.deep_view().len() as int,
        ),
{
    let ghost start = rules.deep_view();
    let ghost pkgs = packages.deep_view();
    let ghost n = pkgs.len() as int;
    let p = &packages.list.entries[i].1;
    let ghost pv = p.deep_view();
    assert(pkgs[i as int].1 == pv);
    let ghost f1 = dep_rules_at(pkgs, i as int);
    assert(rules.deep_view() =~= start + lists::flat(pv.dependencies.take(0), f1));
    for k in 0..p.dependencies.len()
        invariant
            pkgs == packages.deep_view(),
            n == pkgs.len(),
            i < n,
            pv == p.deep_view(),
            f1 == dep_rules_at(pkgs, i as int),
            rules_below(start, n) ==> rules_below(rules.deep_view(), n),
            rules.deep_view() == start + lists::flat(pv.dependencies.take(k as int), f1),
    {
        assert(pv.dependencies.take(k + 1).drop_last() =~= pv.dependencies.take(k as int));
        assert(pv.dependencies.take(k + 1).last() == p.dependencies@[k as int].deep_view());
        add_dep_rules(rules, packages, i, &p.dependencies[k]);
        assert(rules.deep_view() =~= start + lists::flat(pv.dependencies.take(k + 1), f1));
    }
    assert(pv.dependencies.take(pv.dependencies.len() as int) =~= pv.dependencies);
    let ghost mid = rules.deep_view();
    let ghost f2 = feature_rules_at(pkgs, i as int);
    assert(rules.deep_view() =~= mid + lists::flat(pv.features.take(0), f2));
    for k in 0..p.features.entries.len()
        invariant
            pkgs == packages.deep_view(),
            n == pkgs.len(),
            i < n,
            pv == p.deep_view(),
            f2 == feature_rules_at(pkgs, i as int),
            rules_below(start, n) ==> rules_below(rules.deep_view(), n),
            rules.deep_view() == mid + lists::flat(pv.features.take(k as int), f2),
    {
        let e = &p.features.entries[k];
        let ghost ev = e.deep_view();
        assert(pv.features.take(k + 1).drop_last() =~= pv.features.take(k as int));
        assert(pv.features.take(k + 1).last() == ev);
        let ghost inner = rules.deep_view();
        let ghost f3 = item_rules_at(pkgs, i as int, ev.0);
        assert(rules.deep_view() =~= inner + lists::flat(ev.1.take(0), f3));
        for m in 0..e.1.len()
            invariant
                pkgs == packages.deep_view(),
                n == pkgs.len(),
                i < n,
                ev == e.deep_view(),
                f3 == item_rules_at(pkgs, i as int, ev.0),
                rules_below(start, n) ==> rules_below(rules.deep_view(), n),
                rules.deep_view() == inner + lists::flat(ev.1.take(m as int), f3),
        {
            assert(ev.1.take(m + 1).drop_last() =~= ev.1.take(m as int));
            assert(ev.1.take(m + 1).last() == e.1@[m as int]@);
            add_item_rules(rules, packages, i, &e.0, &e.1[m]);
            assert(rules.deep_view() =~= inner + lists::flat(ev.1.take(m + 1), f3));
        }
        assert(ev.1.take(ev.1.len() as int) =~= ev.1);
        assert(rules.deep_view() =~= mid + lists::flat(pv.features.take(k + 1), f2));
    }
    assert(pv.features.take(pv.features.len() as int) =~= pv.features);
    let ghost last = rules.deep_view();
    let ghost g = implicit_at(i as int, pv);
    assert(rules.deep_view() =~= last + pv.optional_deps.take(0).filter_map(g));
    for k in 0..p.optional_deps.len()
        invariant
            n == pkgs.len(),
            i < n,
            pv == p.deep_view(),
            g == implicit_at(i as int, pv),
            rules_below(start, n) ==> rules_below(rules.deep_view(), n),
            rules.deep_view() == last + pv.optional_deps.take(k as int).filter_map(g),
    {
        assert(pv.optional_deps.take(k + 1).drop_last() =~= pv.optional_deps.take(k as int));
        assert(pv.optional_deps.take(k + 1).last() == p.optional_deps@[k as int]@);
        if !p.features.contains_key(&p.optional_deps[k]) {
            push_rule(
                rules,
                one(Fact::Feature(i, p.optional_deps[k].clone())),
                Fact::Dep(i, p.optional_deps[k].clone()),
            );
        }
        assert(rules.deep_view() =~= last + pv.optional_deps.take(k + 1).filter_map(g));
    }
    assert(pv.optional_deps.take(pv.optional_deps.len() as int) =~= pv.optional_deps);
    assert(rules.deep_view() =~= start + package_rules(pkgs, i as int));
}

fn add_root_rules(
    rules: &mut Vec<Rule>,
    packages: &Directory,
    root: &(String, Vec<String>),
)
    ensures
        grown(
            old(rules).deep_view(),
            final(rules).deep_view(),
            root_rules(packages.deep_view(), root.deep_view()),
            packages.deep_view().len() as int,
        ),
{
    let ghost start = rules.deep_view();
    let ghost pkgs = packages.deep_view();
    let ghost n = pkgs.len() as int;
    match packages.find(&root.0) {
        None => {
            assert(rules.deep_view() =~= start + Seq::empty());
        },
        Some(j) => {
            let none: Vec<Fact> = Vec::new();
            let ghost e = Seq::<FactView>::empty();
            assert(none.deep_view() =~= e);
            push_rule(rules, none, Fact::Active(j));
            let ghost head = seq![RuleView { needs: e, gives: FactView::Active(j as int) }];
            let ghost s = root.1.deep_view();
            let ghost full = s.map_values(feature_given(e, j as int));
            assert(rules.deep_view() =~= start + head + full.take(0));
            for k in 0..root.1.len()
                invariant
                    s == root.1.deep_view(),
                    e == Seq::<FactView>::empty(),
                    full == s.map_values(feature_given(e, j as int)),
                    j < n,
                    rules_below(start, n) ==> rules_below(rules.deep_view(), n),
                    rules.deep_view() == start + head + full.take(k as int),
            {
                assert(s[k as int] == root.1@[k as int]@);
                let none: Vec<Fact> = Vec::new();
                assert(none.deep_view() =~= e);
                push_rule(rules, none, Fact::Feature(j, root.1[k].clone()));
                assert(rules.deep_view() =~= start + head + full.take(k + 1));
            }
            assert(full.take(s.len() as int) =~= full);
            assert(rules.deep_view() =~= start + root_rules(pkgs, root.deep_view()));
        },
    }
}

/// Whether some feature of a package names the dependency `x` with `dep:`.
pub fn names_dep(p: &PackageFeatureInfo, x: &str) -> (r: bool)
    ensures
        r == is_named(p.deep_view(), x@),
{
    let ghost s = p.deep_view().features;
    for k in 0..p.features.entries.len()
        invariant
            s == p.features.deep_view(),
            forall|i: int, m: int|
                0 <= i < k && 0 <= m < s[i].1.len() ==> item_of(#[trigger] s[i].1[m]) != ItemView::DepOnly(x@),
    {
        let e = &p.features.entries[k];
        assert(s[k as int] == e.deep_view());
        for n in 0..e.1.len()
            invariant
                s == p.features.deep_view(),
                k < s.len(),
                s[k as int] == e.deep_view(),
                forall|i: int, m: int|
                    0 <= i < k && 0 <= m < s[i].1.len() ==> item_of(#[trigger] s[i].1[m]) != ItemView::DepOnly(x@),
                forall|m: int| 0 <= m < n ==> item_of(#[trigger] s[k as int].1[m]) != ItemView::DepOnly(x@),
        {
            assert(s[k as int].1[n as int] == e.1@[n as int]@);
            if let Some(y) = text::strip_prefix(&e.1[n], "dep:") {
                if text::same(y, x) {
                    assert(item_of(s[k as int].1[n as int]) == ItemView::DepOnly(x@));
                    return true;
                }
            }
        }
    }
    false
}

fn knows_feature(p: &PackageFeatureInfo, f: &str) -> (r: bool)
    ensures
        r == has_feature(p.deep_view(), f@),
{
    p.features.contains_key(f) || (sorted::has_text(&p.optional_deps, f) && !names_dep(p, f))
}

fn keep_possible(rules: Vec<Rule>, packages: &StrMap<PackageFeatureInfo>) -> (r: Vec<Rule>)
    requires
        rules_below(rules.deep_view(), packages.deep_view().len() as int),
    ensures
        r.deep_view() == sorted::keep(rules.deep_view(), can_be(packages.deep_view())),
        rules_below(r.deep_view(), packages.deep_view().len() as int),
{
    let ghost pkgs = packages.deep_view();
    let ghost n = pkgs.len() as int;
    let ghost s = rules.deep_view();
    let ghost f = can_be(pkgs);
    let mut out: Vec<Rule> = Vec::new();
    assert(out.deep_view() =~= sorted::keep(s.take(0), f));
    for r in it: rules
        invariant
            it.seq().len() == s.len(),
            forall|j: int| 0 <= j < s.len() ==> #[trigger] it.seq()[j].deep_view() == s[j],
            pkgs == packages.deep_view(),
            n == pkgs.len(),
            f == can_be(pkgs),
            rules_below(s, n),
            rules_below(out.deep_view(), n),
            out.deep_view() == sorted::keep(s.take(it.index()), f),
    {
        let ghost i = it.index();
        let ghost o = out.deep_view();
        assert(it.seq()[i].deep_view() == s[i]);
        assert(rule_below(s[i], n));
        let possible = match &r.gives {
            Fact::Feature(j, x) => {
                assert(pkgs[*j as int].1 == packages.entries@[*j as int].1.deep_view());
                knows_feature(&packages.entries[*j].1, x)
            },
            _ => true,
        };
        assert(possible == f(s[i]));
        proof {
            sorted::lemma_keep_step(s, f, i);
        }
        if possible {
            out.push(r);
            assert(out.deep_view() =~= o.push(s[i]));
        }
    }
    assert(s.take(s.len() as int) =~= s);
    out
}

fn build_rules(packages: &StrMap<PackageFeatureInfo>, roots: &Vec<(String, Vec<String>)>) -> (r: Vec<Rule>)
    ensures
        r.deep_view() == rules_of(packages.deep_view(), roots.deep_view()),
        rules_below(r.deep_view(), packages.deep_view().len() as int),
{
    let directory = Directory::of(packages);
    let ghost pkgs = packages.deep_view();
    let ghost n = pkgs.len() as int;
    let ghost rs = roots.deep_view();
    let ghost f = root_rules_at(pkgs);
    let mut rules: Vec<Rule> = Vec::new();
    assert(rules.deep_view() =~= lists::flat(rs.take(0), f));
    for k in 0..roots.len()
        invariant
            pkgs == directory.deep_view(),
            n == pkgs.len(),
            rs == roots.deep_view(),
            f == root_rules_at(pkgs),
            rules_below(rules.deep_view(), n),
            rules.deep_view() == lists::flat(rs.take(k as int), f),
    {
        assert(rs.take(k + 1).drop_last() =~= rs.take(k as int));
        assert(rs.take(k + 1).last() == roots@[k as int].deep_view());
        add_root_rules(&mut rules, &directory, &roots[k]);
    }
    assert(rs.take(rs.len() as int) =~= rs);
    let ghost head = rules.deep_view();
    assert(rules.deep_view() =~= head + rules_up_to(pkgs, 0));
    for i in 0..packages.entries.len()
        invariant
            pkgs == directory.deep_view(),
            n == pkgs.len(),
            n == packages.entries@.len(),
            rules_below(rules.deep_view(), n),
            rules.deep_view() == head + rules_up_to(pkgs, i as int),
    {
        add_package_rules(&mut rules, &directory, i);
        assert(rules.deep_view() =~= head + rules_up_to(pkgs, i + 1));
    }
    keep_possible(rules, packages)
}

// ---------------------------------------------------------------------------
// Applying the rules
// ---------------------------------------------------------------------------

/// The facts that are known so far, package by package.
struct Facts {
    active: Vec<bool>,
    features: Vec<Vec<String>>,
    deps: Vec<Vec<String>>,
}

impl Facts {
    spec fn holds(&self, f: FactView) -> bool {
        match f {
            FactView::Active(i) => 0 <= i < self.active@.len() && self.active@[i],
            FactView::Feature(i, x) => 0 <= i < self.features@.len() && self.features@[i].deep_view().contains(x),
            FactView::Dep(i, x) => 0 <= i < self.deps@.len() && self.deps@[i].deep_view().contains(x),
        }
    }

    spec fn set(&self) -> Set<FactView> {
        Set::new(|f: FactView| self.holds(f))
    }

    spec fn wf(&self, n: int) -> bool {
        &&& self.active@.len() == n
        &&& self.features@.len() == n
        &&& self.deps@.len() == n
        &&& forall|i: int| 0 <= i < n ==> sorted::texts_ascending((#[trigger] self.features@[i]).deep_view())
        &&& forall|i: int| 0 <= i < n ==> sorted::texts_ascending((#[trigger] self.deps@[i]).deep_view())
    }

    fn none(n: usize) -> (r: Facts)
        ensures
            r.wf(n as int),
            r.set() == Set::<FactView>::empty(),
    {
        let mut active: Vec<bool> = Vec::new();
        let mut features: Vec<Vec<String>> = Vec::new();
        let mut deps: Vec<Vec<String>> = Vec::new();
        for i in 0..n
            invariant
                active@.len() == i,
                features@.len() == i,
                deps@.len() == i,
                forall|j: int| 0 <= j < i ==> !(#[trigger] active@[j]),
                forall|j: int| 0 <= j < i ==> (#[trigger] features@[j])@.len() == 0,
                forall|j: int| 0 <= j < i ==> (#[trigger] deps@[j])@.len() == 0,
        {
            active.push(false);
            features.push(Vec::new());
            deps.push(Vec::new());
        }
        let r = Facts { active, features, deps };
        assert(r.set() =~= Set::<FactView>::empty());
        r
    }

    fn has(&self, f: &Fact, Ghost(n): Ghost<int>) -> (r: bool)
        requires
            self.wf(n),
            0 <= about(f.deep_view()) < n,
        ensures
            r == self.set().contains(f.deep_view()),
    {
        match f {
            Fact::Active(i) => self.active[*i],
            Fact::Feature(i, x) => sorted::has_text(&self.features[*i], x),
            Fact::Dep(i, x) => sorted::has_text(&self.deps[*i], x),
        }
    }

    fn learn(&mut self, f: &Fact, Ghost(n): Ghost<int>)
        requires
            old(self).wf(n),
            0 <= about(f.deep_view()) < n,
        ensures
            final(self).wf(n),
            final(self).set() == old(self).set().insert(f.deep_view()),
    {
        let ghost before = *self;
        match f {
            Fact::Active(i) => {
                self.active.set(*i, true);
            },
            Fact::Feature(i, x) => {
                let mut list: Vec<String> = Vec::new();
                std::mem::swap(&mut list, &mut self.features[*i]);
                let ghost old_list = list.deep_view();
                sorted::insert_text(&mut list, x.clone());
                proof {
                    sorted::lemma_with_member(old_list, x@);
                }
                self.features.set(*i, list);
            },
            Fact::Dep(i, x) => {
                let mut list: Vec<String> = Vec::new();
                std::mem::swap(&mut list, &mut self.deps[*i]);
                let ghost old_list = list.deep_view();
                sorted::insert_text(&mut list, x.clone());
                proof {
                    sorted::lemma_with_member(old_list, x@);
                }
                self.deps.set(*i, list);
            },
        }
        proof {
            assert forall|g: FactView| #[trigger] self.holds(g) == (before.holds(g) || g == f.deep_view()) by {
                match g {
                    FactView::Active(i) => {},
                    FactView::Feature(i, x) => {
                        if 0 <= i < n {
                            assert(sorted::texts_ascending(before.features@[i].deep_view()));
                        }
                    },
                    FactView::Dep(i, x) => {
                        if 0 <= i < n {
                            assert(sorted::texts_ascending(before.deps@[i].deep_view()));
                        }
                    },
                }
            }
            assert(self.set() =~= before.set().insert(f.deep_view()));
        }
    }
}

fn is_met(r: &Rule, facts: &Facts, Ghost(n): Ghost<int>) -> (b: bool)
    requires
        facts.wf(n),
        rule_below(r.deep_view(), n),
    ensures
        b == met(r.deep_view(), facts.set()),
{
    let ghost needs = r.needs.deep_view();
    for j in 0..r.needs.len()
        invariant
            facts.wf(n),
            needs == r.needs.deep_view(),
            rule_below(r.deep_view(), n),
            forall|k: int| 0 <= k < j ==> facts.set().contains(#[trigger] needs[k]),
    {
        assert(needs[j as int] == r.needs@[j as int].deep_view());
        assert(r.deep_view().needs[j as int] == needs[j as int]);
        if !facts.has(&r.needs[j], Ghost(n)) {
            return false;
        }
    }
    true
}

spec fn all_derivable(rules: Seq<RuleView>, s: Set<FactView>) -> bool {
    forall|f: FactView| #[trigger] s.contains(f) ==> derivable(rules, f)
}

/// The number of rules that have not been applied.
spec fn left(done: Seq<bool>) -> nat
    decreases done.len(),
{
    if done.len() == 0 {
        0
    } else {
        left(done.drop_last()) + if done.last() {
            0nat
        } else {
            1nat
        }
    }
}

proof fn lemma_left_drops(done: Seq<bool>, k: int)
    requires
        0 <= k < done.len(),
        !done[k],
    ensures
        left(done.update(k, true)) < left(done),
    decreases done.len(),
{
    let u = done.update(k, true);
    if k == done.len() - 1 {
        assert(u.drop_last() =~= done.drop_last());
    } else {
        lemma_left_drops(done.drop_last(), k);
        assert(u.drop_last() =~= done.drop_last().update(k, true));
    }
}

/// Applies the rules until none brings about anything new.
fn saturate(rules: &Vec<Rule>, n: usize) -> (facts: Facts)
    requires
        rules_below(rules.deep_view(), n as int),
    ensures
        facts.wf(n as int),
        forall|f: FactView| #[trigger] facts.set().contains(f) <==> derivable(rules.deep_view(), f),
{
    let ghost rs = rules.deep_view();
    let mut facts = Facts::none(n);
    let mut done: Vec<bool> = Vec::new();
    for k in 0..rules.len()
        invariant
            done@.len() == k,
            forall|j: int| 0 <= j < k ==> !(#[trigger] done@[j]),
    {
        done.push(false);
    }
    let mut changed = true;
    while changed
        invariant
            rs == rules.deep_view(),
            rules_below(rs, n as int),
            facts.wf(n as int),
            done@.len() == rs.len(),
            all_derivable(rs, facts.set()),
            forall|k: int| 0 <= k < rs.len() && #[trigger] done@[k] ==> facts.set().contains(rs[k].gives),
            !changed ==> forall|k: int|
                0 <= k < rs.len() && met(#[trigger] rs[k], facts.set()) ==> facts.set().contains(rs[k].gives),
        decreases left(done@), (if changed { 1int } else { 0int }),
    {
        changed = false;
        let ghost d0 = done@;
        for k in 0..rules.len()
            invariant
                rs == rules.deep_view(),
                rules_below(rs, n as int),
                facts.wf(n as int),
                done@.len() == rs.len(),
                all_derivable(rs, facts.set()),
                forall|j: int| 0 <= j < rs.len() && #[trigger] done@[j] ==> facts.set().contains(rs[j].gives),
                changed ==> left(done@) < left(d0),
                !changed ==> done@ == d0,
                !changed ==> forall|j: int|
                    0 <= j < k && met(#[trigger] rs[j], facts.set()) ==> facts.set().contains(rs[j].gives),
        {
            let r = &rules[k];
            assert(rs[k as int] == r.deep_view());
            if !done[k] && is_met(r, &facts, Ghost(n as int)) {
                proof {
                    let rv = r.deep_view();
                    assert(rs.contains(rv)) by {
                        assert(rs[k as int] == rv);
                    }
                    lemma_rule_applies(rs, rv);
                    lemma_left_drops(done@, k as int);
                }
                facts.learn(&r.gives, Ghost(n as int));
                done.set(k, true);
                changed = true;
            }
        }
    }
    proof {
        let s = facts.set();
        assert(closed_under(rs, s));
        assert forall|f: FactView| #[trigger] s.contains(f) <==> derivable(rs, f) by {
            if derivable(rs, f) {
                assert(closed_under(rs, s) ==> s.contains(f));
            }
        }
    }
    facts
}

// ---------------------------------------------------------------------------
// Resolution
// ---------------------------------------------------------------------------

/// What resolution found: for each package, in the order given, the features that are on and the
/// optional dependencies that are on, both in order.
#[derive(Debug, Clone)]
pub struct FeatureResolution {
    pub features: Vec<(String, Vec<String>)>,
    pub active_optional_deps: Vec<(String, Vec<String>)>,
}

/// Whether `s` lists, in order, the features of package `i` that the rules turn on.
pub open spec fn lists_features(s: Seq<Seq<char>>, rules: Seq<RuleView>, i: int) -> bool {
    &&& sorted::texts_ascending(s)
    &&& forall|x: Seq<char>| #[trigger] s.contains(x) <==> derivable(rules, FactView::Feature(i, x))
}

/// Whether `s` lists, in order, the optional dependencies of package `i` that the rules turn on.
pub open spec fn lists_deps(s: Seq<Seq<char>>, rules: Seq<RuleView>, i: int) -> bool {
    &&& sorted::texts_ascending(s)
    &&& forall|x: Seq<char>| #[trigger] s.contains(x) <==> derivable(rules, FactView::Dep(i, x))
}

/// There is one such list only.
pub proof fn lemma_one_list(s: Seq<Seq<char>>, t: Seq<Seq<char>>, rules: Seq<RuleView>, i: int)
    requires
        lists_features(s, rules, i),
        lists_features(t, rules, i),
    ensures
        s == t,
{
    assert forall|x: Seq<char>| #[trigger] s.contains(x) <==> t.contains(x) by {
        assert(s.contains(x) <==> derivable(rules, FactView::Feature(i, x)));
        assert(t.contains(x) <==> derivable(rules, FactView::Feature(i, x)));
    }
    sorted::lemma_ascending_unique(s, t);
}

/// Finds out which features and which optional dependencies are on, given the features requested of
/// the root packages.
pub fn resolve_features(
    packages: &StrMap<PackageFeatureInfo>,
    roots: &Vec<(String, Vec<String>)>,
) -> (r: FeatureResolution)
    ensures
        r.features@.len() == packages.deep_view().len(),
        r.active_optional_deps@.len() == packages.deep_view().len(),
        forall|i: int|
            0 <= i < packages.deep_view().len() ==> (#[trigger] r.features@[i]).0@ == packages.deep_view()[i].0
                && lists_features(
                r.features@[i].1.deep_view(),
                rules_of(packages.deep_view(), roots.deep_view()),
                i,
            ),
        forall|i: int|
            0 <= i < packages.deep_view().len() ==> (#[trigger] r.active_optional_deps@[i]).0@
                == packages.deep_view()[i].0 && lists_deps(
                r.active_optional_deps@[i].1.deep_view(),
                rules_of(packages.deep_view(), roots.deep_view()),
                i,
            ),
{
    let ghost pkgs = packages.deep_view();
    let n: usize = packages.entries.len();
    let rules = build_rules(packages, roots);
    let facts = saturate(&rules, n);
    let ghost rs = rules.deep_view();
    let mut features: Vec<(String, Vec<String>)> = Vec::new();
    let mut deps: Vec<(String, Vec<String>)> = Vec::new();
    for i in 0..n
        invariant
            n == packages.entries@.len(),
            pkgs == packages.deep_view(),
            facts.wf(n as int),
            rs == rules_of(pkgs, roots.deep_view()),
            forall|f: FactView| #[trigger] facts.set().contains(f) <==> derivable(rs, f),
            features@.len() == i,
            deps@.len() == i,
            forall|j: int|
                0 <= j < i ==> (#[trigger] features@[j]).0@ == pkgs[j].0 && lists_features(
                    features@[j].1.deep_view(),
                    rs,
                    j,
                ),
            forall|j: int|
                0 <= j < i ==> (#[trigger] deps@[j]).0@ == pkgs[j].0 && lists_deps(deps@[j].1.deep_view(), rs, j),
    {
        proof {
            assert(pkgs[i as int].0 == packages.entries@[i as int].0@);
            let fs = facts.features@[i as int].deep_view();
            assert forall|x: Seq<char>| #[trigger] fs.contains(x) <==> derivable(
                rs,
                FactView::Feature(i as int, x),
            ) by {
                assert(facts.set().contains(FactView::Feature(i as int, x)) == fs.contains(x));
            }
            let ds = facts.deps@[i as int].deep_view();
            assert forall|x: Seq<char>| #[trigger] ds.contains(x) <==> derivable(rs, FactView::Dep(i as int, x)) by {
                assert(facts.set().contains(FactView::Dep(i as int, x)) == ds.contains(x));
            }
        }
        features.push((packages.entries[i].0.clone(), sorted::copy_texts(&facts.features[i])));
        deps.push((packages.entries[i].0.clone(), sorted::copy_texts(&facts.deps[i])));
    }
    FeatureResolution { features, active_optional_deps: deps }
}

// ---------------------------------------------------------------------------
// Laws
// ---------------------------------------------------------------------------

proof fn lemma_package_rule(
    pkgs: Seq<(Seq<char>, PackageFeatureView)>,
    roots: Seq<(Seq<char>, Seq<Seq<char>>)>,
    i: int,
    r: RuleView,
)
    requires
        0 <= i < pkgs.len(),
        package_rules(pkgs, i).contains(r),
        can_be(pkgs)(r),
    ensures
        rules_of(pkgs, roots).contains(r),
{
    lemma_rules_up_to_has(pkgs, pkgs.len() as int, i, r);
    lists::lemma_concat_has(lists::flat(roots, root_rules_at(pkgs)), rules_up_to(pkgs, pkgs.len() as int), r);
    lemma_wish_is_rule(pkgs, roots, r);
}

proof fn lemma_wish_is_rule(
    pkgs: Seq<(Seq<char>, PackageFeatureView)>,
    roots: Seq<(Seq<char>, Seq<Seq<char>>)>,
    r: RuleView,
)
    requires
        wishes_of(pkgs, roots).contains(r),
        can_be(pkgs)(r),
    ensures
        rules_of(pkgs, roots).contains(r),
{
    let s = wishes_of(pkgs, roots);
    sorted::lemma_keep_holds(s, can_be(pkgs));
    let k = choose|k: int| 0 <= k < s.len() && s[k] == r;
    assert(can_be(pkgs)(s[k]));
}

/// No feature is on in a package that does not have it.
pub proof fn lemma_only_own_features(
    pkgs: Seq<(Seq<char>, PackageFeatureView)>,
    roots: Seq<(Seq<char>, Seq<Seq<char>>)>,
    j: int,
    f: Seq<char>,
)
    requires
        derivable(rules_of(pkgs, roots), FactView::Feature(j, f)),
    ensures
        0 <= j < pkgs.len(),
        has_feature(pkgs[j].1, f),
{
    let rules = rules_of(pkgs, roots);
    let s = Set::new(
        |a: FactView|
            match a {
                FactView::Feature(i, x) => 0 <= i < pkgs.len() && has_feature(pkgs[i].1, x),
                _ => true,
            },
    );
    sorted::lemma_keep_holds(wishes_of(pkgs, roots), can_be(pkgs));
    assert forall|k: int| 0 <= k < rules.len() && met(#[trigger] rules[k], s) implies s.contains(rules[k].gives) by {
        assert(can_be(pkgs)(rules[k]));
    }
    assert(closed_under(rules, s));
}

proof fn lemma_rules_up_to_has(pkgs: Seq<(Seq<char>, PackageFeatureView)>, n: int, i: int, r: RuleView)
    requires
        0 <= i < n,
        package_rules(pkgs, i).contains(r),
    ensures
        rules_up_to(pkgs, n).contains(r),
    decreases n,
{
    if i < n - 1 {
        lemma_rules_up_to_has(pkgs, n - 1, i, r);
    }
    lists::lemma_concat_has(rules_up_to(pkgs, n - 1), package_rules(pkgs, n - 1), r);
}

proof fn lemma_dep_rule(
    pkgs: Seq<(Seq<char>, PackageFeatureView)>,
    roots: Seq<(Seq<char>, Seq<Seq<char>>)>,
    i: int,
    k: int,
    r: RuleView,
)
    requires
        0 <= i < pkgs.len(),
        0 <= k < pkgs[i].1.dependencies.len(),
        dep_rules(pkgs, i, pkgs[i].1.dependencies[k]).contains(r),
        can_be(pkgs)(r),
    ensures
        rules_of(pkgs, roots).contains(r),
{
    let p = pkgs[i].1;
    lists::lemma_flat_has(p.dependencies, dep_rules_at(pkgs, i), k, r);
    let a = lists::flat(p.dependencies, dep_rules_at(pkgs, i));
    let b = lists::flat(p.features, feature_rules_at(pkgs, i));
    let c = p.optional_deps.filter_map(implicit_at(i, p));
    lists::lemma_concat_has(a, b, r);
    lists::lemma_concat_has(a + b, c, r);
    lemma_package_rule(pkgs, roots, i, r);
}

proof fn lemma_item_rule(
    pkgs: Seq<(Seq<char>, PackageFeatureView)>,
    roots: Seq<(Seq<char>, Seq<Seq<char>>)>,
    i: int,
    k: int,
    m: int,
    r: RuleView,
)
    requires
        0 <= i < pkgs.len(),
        0 <= k < pkgs[i].1.features.len(),
        0 <= m < pkgs[i].1.features[k].1.len(),
        item_rules(pkgs, i, pkgs[i].1.features[k].0, pkgs[i].1.features[k].1[m]).contains(r),
        can_be(pkgs)(r),
    ensures
        rules_of(pkgs, roots).contains(r),
{
    let p = pkgs[i].1;
    let e = p.features[k];
    lists::lemma_flat_has(e.1, item_rules_at(pkgs, i, e.0), m, r);
    lists::lemma_flat_has(p.features, feature_rules_at(pkgs, i), k, r);
    let a = lists::flat(p.dependencies, dep_rules_at(pkgs, i));
    let b = lists::flat(p.features, feature_rules_at(pkgs, i));
    let c = p.optional_deps.filter_map(implicit_at(i, p));
    lists::lemma_concat_has(a, b, r);
    lists::lemma_concat_has(a + b, c, r);
    lemma_package_rule(pkgs, roots, i, r);
}

/// A dependency that is on is part of the build, with every feature asked of it that its package has,
/// and with its default features if those are used.
pub proof fn lemma_dependency_gets_features(
    pkgs: Seq<(Seq<char>, PackageFeatureView)>,
    roots: Seq<(Seq<char>, Seq<Seq<char>>)>,
    i: int,
    k: int,
    j: int,
)
    requires
        0 <= i < pkgs.len(),
        0 <= k < pkgs[i].1.dependencies.len(),
        place_of(pkgs, pkgs[i].1.dependencies[k].package_id) == Some(j),
        derivable(rules_of(pkgs, roots), edge_on(i, pkgs[i].1, pkgs[i].1.dependencies[k].name)),
    ensures
        derivable(rules_of(pkgs, roots), FactView::Active(j)),
        forall|m: int|
            0 <= m < pkgs[i].1.dependencies[k].features.len() && has_feature(
                pkgs[j].1,
                #[trigger] pkgs[i].1.dependencies[k].features[m],
            ) ==> derivable(
                rules_of(pkgs, roots),
                FactView::Feature(j, pkgs[i].1.dependencies[k].features[m]),
            ),
        pkgs[i].1.dependencies[k].uses_default_features && has_feature(pkgs[j].1, "default"@) ==> derivable(
            rules_of(pkgs, roots),
            FactView::Feature(j, "default"@),
        ),
{
    let d = pkgs[i].1.dependencies[k];
    let rules = rules_of(pkgs, roots);
    let needs = seq![edge_on(i, pkgs[i].1, d.name)];
    let s = dep_rules(pkgs, i, d);
    let active = RuleView { needs, gives: FactView::Active(j) };
    lemma_place_in_range(pkgs, d.package_id);
    assert(s[0] == active);
    assert(s.contains(active));
    lemma_dep_rule(pkgs, roots, i, k, active);
    lemma_rule_applies(rules, active);
    let q = pkgs[j].1;
    assert forall|m: int| 0 <= m < d.features.len() && has_feature(q, #[trigger] d.features[m]) implies derivable(
        rules,
        FactView::Feature(j, d.features[m]),
    ) by {
        let r = RuleView { needs, gives: FactView::Feature(j, d.features[m]) };
        assert(s[m + 1] == r);
        assert(s.contains(r));
        lemma_dep_rule(pkgs, roots, i, k, r);
        lemma_rule_applies(rules, r);
    }
    if d.uses_default_features && has_feature(pkgs[j].1, "default"@) {
        let r = RuleView { needs, gives: FactView::Feature(j, "default"@) };
        assert(s[s.len() - 1] == r);
        assert(s.contains(r));
        lemma_dep_rule(pkgs, roots, i, k, r);
        lemma_rule_applies(rules, r);
    }
}

/// Features are unified: of a package that two others depend on, each asking for a feature that it
/// has, both features are on.
pub proof fn lemma_features_unify(
    pkgs: Seq<(Seq<char>, PackageFeatureView)>,
    roots: Seq<(Seq<char>, Seq<Seq<char>>)>,
    a: int,
    ka: int,
    b: int,
    kb: int,
    c: int,
    x: Seq<char>,
    y: Seq<char>,
)
    requires
        0 <= a < pkgs.len(),
        0 <= b < pkgs.len(),
        0 <= ka < pkgs[a].1.dependencies.len(),
        0 <= kb < pkgs[b].1.dependencies.len(),
        place_of(pkgs, pkgs[a].1.dependencies[ka].package_id) == Some(c),
        place_of(pkgs, pkgs[b].1.dependencies[kb].package_id) == Some(c),
        pkgs[a].1.dependencies[ka].features.contains(x),
        pkgs[b].1.dependencies[kb].features.contains(y),
        has_feature(pkgs[c].1, x),
        has_feature(pkgs[c].1, y),
        derivable(rules_of(pkgs, roots), edge_on(a, pkgs[a].1, pkgs[a].1.dependencies[ka].name)),
        derivable(rules_of(pkgs, roots), edge_on(b, pkgs[b].1, pkgs[b].1.dependencies[kb].name)),
    ensures
        derivable(rules_of(pkgs, roots), FactView::Feature(c, x)),
        derivable(rules_of(pkgs, roots), FactView::Feature(c, y)),
{
    lemma_dependency_gets_features(pkgs, roots, a, ka, c);
    lemma_dependency_gets_features(pkgs, roots, b, kb, c);
    let da = pkgs[a].1.dependencies[ka];
    let db = pkgs[b].1.dependencies[kb];
    let m = choose|m: int| 0 <= m < da.features.len() && da.features[m] == x;
    assert(has_feature(pkgs[c].1, da.features[m]));
    let l = choose|l: int| 0 <= l < db.features.len() && db.features[l] == y;
    assert(has_feature(pkgs[c].1, db.features[l]));
}

/// A feature that is on turns on the features that it lists, of those that the package has, and the
/// optional dependencies that it names with `dep:`.
pub proof fn lemma_feature_expands(
    pkgs: Seq<(Seq<char>, PackageFeatureView)>,
    roots: Seq<(Seq<char>, Seq<Seq<char>>)>,
    i: int,
    k: int,
    m: int,
)
    requires
        0 <= i < pkgs.len(),
        0 <= k < pkgs[i].1.features.len(),
        0 <= m < pkgs[i].1.features[k].1.len(),
        derivable(rules_of(pkgs, roots), FactView::Feature(i, pkgs[i].1.features[k].0)),
    ensures
        match item_of(pkgs[i].1.features[k].1[m]) {
            ItemView::Plain(g) => has_feature(pkgs[i].1, g) ==> derivable(
                rules_of(pkgs, roots),
                FactView::Feature(i, g),
            ),
            ItemView::DepOnly(x) => derivable(rules_of(pkgs, roots), FactView::Dep(i, x)),
            ItemView::Strong(x, f) => pkgs[i].1.optional_deps.contains(x) ==> derivable(
                rules_of(pkgs, roots),
                FactView::Dep(i, x),
            ),
            ItemView::Weak(x, f) => true,
        },
{
    let e = pkgs[i].1.features[k];
    let on = FactView::Feature(i, e.0);
    let rules = rules_of(pkgs, roots);
    let s = item_rules(pkgs, i, e.0, e.1[m]);
    match item_of(e.1[m]) {
        ItemView::Plain(g) => {
            if has_feature(pkgs[i].1, g) {
                let r = RuleView { needs: seq![on], gives: FactView::Feature(i, g) };
                assert(s[0] == r);
                assert(s.contains(r));
                lemma_item_rule(pkgs, roots, i, k, m, r);
                lemma_rule_applies(rules, r);
            }
        },
        ItemView::DepOnly(x) => {
            let r = RuleView { needs: seq![on], gives: FactView::Dep(i, x) };
            assert(s[0] == r);
            assert(s.contains(r));
            lemma_item_rule(pkgs, roots, i, k, m, r);
            lemma_rule_applies(rules, r);
        },
        ItemView::Strong(x, f) => {
            if pkgs[i].1.optional_deps.contains(x) {
                let r = RuleView { needs: seq![on], gives: FactView::Dep(i, x) };
                assert(s[0] == r);
                assert(s.contains(r));
                lemma_item_rule(pkgs, roots, i, k, m, r);
                lemma_rule_applies(rules, r);
            }
        },
        ItemView::Weak(x, f) => {},
    }
}

/// The name of an optional dependency without a feature of that name is a feature that turns the
/// dependency on.
pub proof fn lemma_name_brings_dependency(
    pkgs: Seq<(Seq<char>, PackageFeatureView)>,
    roots: Seq<(Seq<char>, Seq<Seq<char>>)>,
    i: int,
    x: Seq<char>,
)
    requires
        0 <= i < pkgs.len(),
        pkgs[i].1.optional_deps.contains(x),
        sorted::entry_of(pkgs[i].1.features, x) is None,
        derivable(rules_of(pkgs, roots), FactView::Feature(i, x)),
    ensures
        derivable(rules_of(pkgs, roots), FactView::Dep(i, x)),
{
    let p = pkgs[i].1;
    let r = RuleView { needs: seq![FactView::Feature(i, x)], gives: FactView::Dep(i, x) };
    let k = choose|k: int| 0 <= k < p.optional_deps.len() && p.optional_deps[k] == x;
    let a = lists::flat(p.dependencies, dep_rules_at(pkgs, i));
    let b = lists::flat(p.features, feature_rules_at(pkgs, i));
    lists::lemma_filter_map_has(p.optional_deps, implicit_at(i, p), k, r);
    lists::lemma_concat_has(a + b, p.optional_deps.filter_map(implicit_at(i, p)), r);
    lemma_package_rule(pkgs, roots, i, r);
    lemma_rule_applies(rules_of(pkgs, roots), r);
}

/// `name/feature` in a feature that is on turns `feature` on in that dependency, if its package has
/// it.
pub proof fn lemma_feature_forwarded(
    pkgs: Seq<(Seq<char>, PackageFeatureView)>,
    roots: Seq<(Seq<char>, Seq<Seq<char>>)>,
    i: int,
    k: int,
    m: int,
    d: int,
    j: int,
    f: Seq<char>,
)
    requires
        0 <= i < pkgs.len(),
        0 <= k < pkgs[i].1.features.len(),
        0 <= m < pkgs[i].1.features[k].1.len(),
        0 <= d < pkgs[i].1.dependencies.len(),
        item_of(pkgs[i].1.features[k].1[m]) == ItemView::Strong(pkgs[i].1.dependencies[d].name, f),
        place_of(pkgs, pkgs[i].1.dependencies[d].package_id) == Some(j),
        has_feature(pkgs[j].1, f),
        derivable(rules_of(pkgs, roots), FactView::Feature(i, pkgs[i].1.features[k].0)),
    ensures
        derivable(rules_of(pkgs, roots), FactView::Feature(j, f)),
{
    lemma_place_in_range(pkgs, pkgs[i].1.dependencies[d].package_id);
    let p = pkgs[i].1;
    let e = p.features[k];
    let on = FactView::Feature(i, e.0);
    let x = p.dependencies[d].name;
    let r = RuleView { needs: seq![on], gives: FactView::Feature(j, f) };
    let g = forward_at(pkgs, seq![on], x, f);
    lists::lemma_filter_map_has(p.dependencies, g, d, r);
    let a = if p.optional_deps.contains(x) {
        seq![
            RuleView { needs: seq![on], gives: FactView::Dep(i, x) },
            RuleView { needs: seq![on], gives: FactView::Feature(i, x) },
        ]
    } else {
        Seq::empty()
    };
    lists::lemma_concat_has(a, p.dependencies.filter_map(g), r);
    lemma_item_rule(pkgs, roots, i, k, m, r);
    lemma_rule_applies(rules_of(pkgs, roots), r);
}

/// Every root is part of the build, and of the features requested of it those are on that it has.
pub proof fn lemma_roots_on(
    pkgs: Seq<(Seq<char>, PackageFeatureView)>,
    roots: Seq<(Seq<char>, Seq<Seq<char>>)>,
    k: int,
    j: int,
)
    requires
        0 <= k < roots.len(),
        place_of(pkgs, roots[k].0) == Some(j),
    ensures
        derivable(rules_of(pkgs, roots), FactView::Active(j)),
        forall|m: int|
            0 <= m < roots[k].1.len() && has_feature(pkgs[j].1, #[trigger] roots[k].1[m]) ==> derivable(
                rules_of(pkgs, roots),
                FactView::Feature(j, roots[k].1[m]),
            ),
{
    lemma_place_in_range(pkgs, roots[k].0);
    let rules = rules_of(pkgs, roots);
    let s = root_rules(pkgs, roots[k]);
    let e = Seq::<FactView>::empty();
    let tail = rules_up_to(pkgs, pkgs.len() as int);
    let active = RuleView { needs: e, gives: FactView::Active(j) };
    assert(s[0] == active);
    assert(s.contains(active));
    lists::lemma_flat_has(roots, root_rules_at(pkgs), k, active);
    lists::lemma_concat_has(lists::flat(roots, root_rules_at(pkgs)), tail, active);
    lemma_wish_is_rule(pkgs, roots, active);
    lemma_rule_applies(rules, active);
    let p = pkgs[j].1;
    assert forall|m: int| 0 <= m < roots[k].1.len() && has_feature(p, #[trigger] roots[k].1[m]) implies derivable(
        rules,
        FactView::Feature(j, roots[k].1[m]),
    ) by {
        let r = RuleView { needs: e, gives: FactView::Feature(j, roots[k].1[m]) };
        assert(s[m + 1] == r);
        assert(s.contains(r));
        lists::lemma_flat_has(roots, root_rules_at(pkgs), k, r);
        lists::lemma_concat_has(lists::flat(roots, root_rules_at(pkgs)), tail, r);
        lemma_wish_is_rule(pkgs, roots, r);
        lemma_rule_applies(rules, r);
    }
}

/// Whether an entry of a feature asks the dependency `name` for its feature `g`.
pub open spec fn forwards(item: Seq<char>, name: Seq<char>, g: Seq<char>) -> bool {
    match item_of(item) {
        ItemView::Strong(y, h) => y == name && h == g,
        ItemView::Weak(y, h) => y == name && h == g,
        _ => false,
    }
}

/// Whether a package asks its dependency `d` for the feature `g`: with the dependency itself, by using
/// the default features, or from one of its own features.
pub open spec fn asks_for(p: PackageFeatureView, d: DepFeatureView, g: Seq<char>) -> bool {
    ||| d.features.contains(g)
    ||| d.uses_default_features && g == "default"@
    ||| exists|k: int, m: int|
        0 <= k < p.features.len() && 0 <= m < p.features[k].1.len() && forwards(
            #[trigger] p.features[k].1[m],
            d.name,
            g,
        )
}

/// Whether no dependency on package `i` asks for its feature `g`.
pub open spec fn not_asked(pkgs: Seq<(Seq<char>, PackageFeatureView)>, i: int, g: Seq<char>) -> bool {
    forall|n: int, k: int|
        0 <= n < pkgs.len() && 0 <= k < pkgs[n].1.dependencies.len() && place_of(
            pkgs,
            (#[trigger] pkgs[n].1.dependencies[k]).package_id,
        ) == Some(i) ==> !asks_for(pkgs[n].1, pkgs[n].1.dependencies[k], g)
}

/// Whether an entry of a feature speaks neither of the feature `f` nor of the dependency `x`.
pub open spec fn is_silent(item: Seq<char>, f: Seq<char>, x: Seq<char>) -> bool {
    match item_of(item) {
        ItemView::DepOnly(y) => y != x,
        ItemView::Plain(g) => g != x && g != f,
        ItemView::Strong(y, g) => y != x && y != f,
        ItemView::Weak(y, g) => true,
    }
}

/// Whether, within a package, only the feature `f` and the name `x` itself turn the optional
/// dependency `x` on.
pub open spec fn only_by(p: PackageFeatureView, f: Seq<char>, x: Seq<char>) -> bool {
    forall|k: int, m: int|
        0 <= k < p.features.len() && 0 <= m < p.features[k].1.len() && p.features[k].0 != f && p.features[k].0
            != x ==> is_silent(#[trigger] p.features[k].1[m], f, x)
}

/// Whether neither `f` nor `x` is requested of package `i`.
pub open spec fn not_requested(
    pkgs: Seq<(Seq<char>, PackageFeatureView)>,
    roots: Seq<(Seq<char>, Seq<Seq<char>>)>,
    i: int,
    f: Seq<char>,
    x: Seq<char>,
) -> bool {
    forall|k: int|
        0 <= k < roots.len() && place_of(pkgs, (#[trigger] roots[k]).0) == Some(i) ==> !roots[k].1.contains(f)
            && !roots[k].1.contains(x)
}

/// The facts without those that would turn `x` on in package `i`.
spec fn without(i: int, f: Seq<char>, x: Seq<char>) -> Set<FactView> {
    Set::new(
        |a: FactView|
            a != FactView::Feature(i, f) && a != FactView::Feature(i, x) && a != FactView::Dep(i, x),
    )
}

spec fn stays_within(r: RuleView, s: Set<FactView>) -> bool {
    met(r, s) ==> s.contains(r.gives)
}

proof fn lemma_package_stays(
    pkgs: Seq<(Seq<char>, PackageFeatureView)>,
    n: int,
    i: int,
    f: Seq<char>,
    x: Seq<char>,
    r: RuleView,
)
    requires
        0 <= n < pkgs.len(),
        not_asked(pkgs, i, f),
        not_asked(pkgs, i, x),
        n == i ==> only_by(pkgs[n].1, f, x),
        package_rules(pkgs, n).contains(r),
    ensures
        stays_within(r, without(i, f, x)),
{
    let p = pkgs[n].1;
    let s = without(i, f, x);
    let a = lists::flat(p.dependencies, dep_rules_at(pkgs, n));
    let b = lists::flat(p.features, feature_rules_at(pkgs, n));
    let c = p.optional_deps.filter_map(implicit_at(n, p));
    lists::lemma_concat_from(a + b, c, r);
    if c.contains(r) {
        lists::lemma_gathered_from(p.optional_deps, implicit_at(n, p), r);
        let k = choose|k: int|
            0 <= k < p.optional_deps.len() && implicit_at(n, p)(#[trigger] p.optional_deps[k]) == Some(r);
        assert(r.needs[0] == FactView::Feature(n, p.optional_deps[k]));
        if met(r, s) {
            assert(s.contains(r.needs[0]));
        }
    } else {
        lists::lemma_concat_from(a, b, r);
        if a.contains(r) {
            lists::lemma_flat_from(p.dependencies, dep_rules_at(pkgs, n), r);
            let k = choose|k: int|
                0 <= k < p.dependencies.len() && dep_rules_at(pkgs, n)(#[trigger] p.dependencies[k]).contains(r);
            let d = p.dependencies[k];
            lemma_dep_rule_gives(pkgs, n, d, r);
            if place_of(pkgs, d.package_id) == Some(i) {
                assert(!asks_for(pkgs[n].1, pkgs[n].1.dependencies[k], f));
                assert(!asks_for(pkgs[n].1, pkgs[n].1.dependencies[k], x));
            }
        } else {
            lists::lemma_flat_from(p.features, feature_rules_at(pkgs, n), r);
            let k = choose|k: int|
                0 <= k < p.features.len() && feature_rules_at(pkgs, n)(#[trigger] p.features[k]).contains(r);
            let e = p.features[k];
            lists::lemma_flat_from(e.1, item_rules_at(pkgs, n, e.0), r);
            let m = choose|m: int|
                0 <= m < e.1.len() && item_rules_at(pkgs, n, e.0)(#[trigger] e.1[m]).contains(r);
            lemma_item_stays(pkgs, n, k, m, i, f, x, r);
        }
    }
}

/// What a rule of a dependency gives is about the package that the dependency leads to, and is asked
/// for.
proof fn lemma_dep_rule_gives(pkgs: Seq<(Seq<char>, PackageFeatureView)>, n: int, d: DepFeatureView, r: RuleView)
    requires
        dep_rules(pkgs, n, d).contains(r),
    ensures
        place_of(pkgs, d.package_id) == Some(about(r.gives)),
        !(r.gives is Dep),
        r.gives matches FactView::Feature(_, g) ==> asks_for(pkgs[n].1, d, g),
{
    let needs = seq![edge_on(n, pkgs[n].1, d.name)];
    let j = place_of(pkgs, d.package_id)->Some_0;
    let a = seq![RuleView { needs, gives: FactView::Active(j) }];
    let b = d.features.map_values(feature_given(needs, j));
    let c = if d.uses_default_features {
        seq![RuleView { needs, gives: FactView::Feature(j, "default"@) }]
    } else {
        Seq::empty()
    };
    lists::lemma_concat_from(a + b, c, r);
    if !c.contains(r) {
        lists::lemma_concat_from(a, b, r);
        if b.contains(r) {
            let m = choose|m: int| 0 <= m < b.len() && b[m] == r;
            assert(d.features.contains(d.features[m]));
        }
    }
}

proof fn lemma_item_stays(
    pkgs: Seq<(Seq<char>, PackageFeatureView)>,
    n: int,
    k: int,
    m: int,
    i: int,
    f: Seq<char>,
    x: Seq<char>,
    r: RuleView,
)
    requires
        0 <= n < pkgs.len(),
        0 <= k < pkgs[n].1.features.len(),
        0 <= m < pkgs[n].1.features[k].1.len(),
        not_asked(pkgs, i, f),
        not_asked(pkgs, i, x),
        n == i ==> only_by(pkgs[n].1, f, x),
        item_rules(pkgs, n, pkgs[n].1.features[k].0, pkgs[n].1.features[k].1[m]).contains(r),
    ensures
        stays_within(r, without(i, f, x)),
{
    let p = pkgs[n].1;
    let e = p.features[k];
    let item = e.1[m];
    let on = FactView::Feature(n, e.0);
    let s = without(i, f, x);
    if n == i && e.0 != f && e.0 != x {
        assert(is_silent(p.features[k].1[m], f, x));
    }
    match item_of(item) {
        ItemView::DepOnly(y) => {
            assert(r.needs[0] == on);
            if met(r, s) {
                assert(s.contains(r.needs[0]));
            }
        },
        ItemView::Plain(g) => {
            assert(r.needs[0] == on);
            if met(r, s) {
                assert(s.contains(r.needs[0]));
            }
        },
        ItemView::Strong(y, g) => {
            let a = if p.optional_deps.contains(y) {
                seq![
                    RuleView { needs: seq![on], gives: FactView::Dep(n, y) },
                    RuleView { needs: seq![on], gives: FactView::Feature(n, y) },
                ]
            } else {
                Seq::empty()
            };
            let b = p.dependencies.filter_map(forward_at(pkgs, seq![on], y, g));
            lists::lemma_concat_from(a, b, r);
            if a.contains(r) {
                assert(r.needs[0] == on);
                if met(r, s) {
                    assert(s.contains(r.needs[0]));
                }
            } else {
                lists::lemma_gathered_from(p.dependencies, forward_at(pkgs, seq![on], y, g), r);
                let q = choose|q: int|
                    0 <= q < p.dependencies.len() && forward_at(pkgs, seq![on], y, g)(#[trigger] p.dependencies[q])
                        == Some(r);
                assert(forwards(p.features[k].1[m], pkgs[n].1.dependencies[q].name, g));
                assert(asks_for(pkgs[n].1, pkgs[n].1.dependencies[q], g));
            }
        },
        ItemView::Weak(y, g) => {
            let h = forward_at(pkgs, seq![on, edge_on(n, p, y)], y, g);
            lists::lemma_gathered_from(p.dependencies, h, r);
            let q = choose|q: int| 0 <= q < p.dependencies.len() && h(#[trigger] p.dependencies[q]) == Some(r);
            assert(forwards(p.features[k].1[m], pkgs[n].1.dependencies[q].name, g));
            assert(asks_for(pkgs[n].1, pkgs[n].1.dependencies[q], g));
        },
    }
}

proof fn lemma_rules_up_to_from(pkgs: Seq<(Seq<char>, PackageFeatureView)>, n: int, r: RuleView)
    requires
        rules_up_to(pkgs, n).contains(r),
    ensures
        exists|k: int| 0 <= k < n && #[trigger] package_rules(pkgs, k).contains(r),
    decreases n,
{
    if n > 0 {
        lists::lemma_concat_from(rules_up_to(pkgs, n - 1), package_rules(pkgs, n - 1), r);
        if rules_up_to(pkgs, n - 1).contains(r) {
            lemma_rules_up_to_from(pkgs, n - 1, r);
        }
    }
}

/// An optional dependency that only one feature turns on is off unless that feature or its own name is
/// requested or asked for.
pub proof fn lemma_off_unless_requested(
    pkgs: Seq<(Seq<char>, PackageFeatureView)>,
    roots: Seq<(Seq<char>, Seq<Seq<char>>)>,
    i: int,
    f: Seq<char>,
    x: Seq<char>,
)
    requires
        0 <= i < pkgs.len(),
        not_asked(pkgs, i, f),
        not_asked(pkgs, i, x),
        only_by(pkgs[i].1, f, x),
        not_requested(pkgs, roots, i, f, x),
    ensures
        !derivable(rules_of(pkgs, roots), FactView::Dep(i, x)),
        !derivable(rules_of(pkgs, roots), FactView::Feature(i, f)),
{
    let s = without(i, f, x);
    let rules = rules_of(pkgs, roots);
    let first = lists::flat(roots, root_rules_at(pkgs));
    let rest = rules_up_to(pkgs, pkgs.len() as int);
    sorted::lemma_keep_holds(wishes_of(pkgs, roots), can_be(pkgs));
    assert forall|q: int| 0 <= q < rules.len() && met(#[trigger] rules[q], s) implies s.contains(rules[q].gives) by {
        let r = rules[q];
        assert(wishes_of(pkgs, roots).contains(r));
        lists::lemma_concat_from(first, rest, r);
        if first.contains(r) {
            lists::lemma_flat_from(roots, root_rules_at(pkgs), r);
            let k = choose|k: int| 0 <= k < roots.len() && root_rules_at(pkgs)(#[trigger] roots[k]).contains(r);
            let j = place_of(pkgs, roots[k].0)->Some_0;
            let a = seq![RuleView { needs: Seq::empty(), gives: FactView::Active(j) }];
            let b = roots[k].1.map_values(feature_given(Seq::empty(), j));
            lists::lemma_concat_from(a, b, r);
            if b.contains(r) {
                let n = choose|n: int| 0 <= n < b.len() && b[n] == r;
                assert(r.gives == FactView::Feature(j, roots[k].1[n]));
                assert(roots[k].1.contains(roots[k].1[n]));
            }
        } else {
            lemma_rules_up_to_from(pkgs, pkgs.len() as int, r);
            let n = choose|n: int| 0 <= n < pkgs.len() && #[trigger] package_rules(pkgs, n).contains(r);
            lemma_package_stays(pkgs, n, i, f, x, r);
        }
    }
    assert(closed_under(rules, s));
    assert(!s.contains(FactView::Dep(i, x)));
    assert(!s.contains(FactView::Feature(i, f)));
}

/// What an entry of a feature means by how it is written: `dep:x` a dependency, `x/f` a feature of a
/// dependency that is turned on for it, `x?/f` one that is not, and anything else a feature of the package.
pub proof fn lemma_items(x: Seq<char>, f: Seq<char>)
    requires
        !x.contains('/'),
        x.len() > 0,
        x.last() != '?',
        !text::has_prefix(x, "dep:"@),
        !text::has_prefix(x + "/"@ + f, "dep:"@),
        !text::has_prefix(x + "?/"@ + f, "dep:"@),
    ensures
        item_of("dep:"@ + x) == ItemView::DepOnly(x),
        item_of(x + "/"@ + f) == ItemView::Strong(x, f),
        item_of(x + "?/"@ + f) == ItemView::Weak(x, f),
        item_of(x) == ItemView::Plain(x),
{
    reveal_strlit("/");
    reveal_strlit("?/");
    text::lemma_after_prefix("dep:"@, x);
    assert(x + "/"@ + f =~= x.push('/') + f);
    text::lemma_cut_first_at(x, '/', f);
    let y = x.push('?');
    assert(!y.contains('/')) by {
        if y.contains('/') {
            let i = choose|i: int| 0 <= i < y.len() && y[i] == '/';
            if i < x.len() {
                assert(x[i] == '/');
            }
        }
    }
    assert(x + "?/"@ + f =~= y.push('/') + f);
    text::lemma_cut_first_at(y, '/', f);
    assert(y.drop_last() =~= x);
    text::lemma_cut_first_none(x, '/');
}

/// What an entry of a feature brings about needs that feature to be on; and a feature of a dependency that
/// the entry does not turn on needs that dependency to be on besides.
pub proof fn lemma_item_needs(
    pkgs: Seq<(Seq<char>, PackageFeatureView)>,
    i: int,
    feature: Seq<char>,
    item: Seq<char>,
    k: int,
)
    requires
        0 <= k < item_rules(pkgs, i, feature, item).len(),
    ensures
        ({
            let r = item_rules(pkgs, i, feature, item)[k];
            &&& r.needs.contains(FactView::Feature(i, feature))
            &&& item_of(item) matches ItemView::Weak(x, f) ==> r.needs.contains(
                if pkgs[i].1.optional_deps.contains(x) {
                    FactView::Dep(i, x)
                } else {
                    FactView::Active(i)
                },
            ) && !(r.gives is Dep)
            &&& item_of(item) matches ItemView::DepOnly(x) ==> r.gives == FactView::Dep(i, x)
            &&& item_of(item) matches ItemView::Plain(g) ==> r.gives == FactView::Feature(i, g)
        }),
{
    let p = pkgs[i].1;
    let on = FactView::Feature(i, feature);
    let all = item_rules(pkgs, i, feature, item);
    assert(seq![on][0] == on);
    match item_of(item) {
        ItemView::Strong(x, f) => {
            let g = forward_at(pkgs, seq![on], x, f);
            let head = if p.optional_deps.contains(x) {
                seq![
                    RuleView { needs: seq![on], gives: FactView::Dep(i, x) },
                    RuleView { needs: seq![on], gives: FactView::Feature(i, x) },
                ]
            } else {
                Seq::empty()
            };
            if k >= head.len() {
                let made = p.dependencies.filter_map(g);
                assert(all[k] == made[k - head.len()]);
                assert(made.contains(all[k]));
                lists::lemma_gathered_from(p.dependencies, g, all[k]);
            } else {
                assert(all[k] == head[k]);
            }
        },
        ItemView::Weak(x, f) => {
            let needs = seq![on, edge_on(i, p, x)];
            let g = forward_at(pkgs, needs, x, f);
            assert(all.contains(all[k]));
            lists::lemma_gathered_from(p.dependencies, g, all[k]);
            assert(needs[0] == on && needs[1] == edge_on(i, p, x));
        },
        _ => {},
    }
}

/// What a dependency brings about needs it to be on, and is only that its package is part of the build and
/// has the features that are asked for, `default` among them unless it does without.
pub proof fn lemma_dependency_asks(
    pkgs: Seq<(Seq<char>, PackageFeatureView)>,
    i: int,
    d: DepFeatureView,
    k: int,
)
    requires
        0 <= k < dep_rules(pkgs, i, d).len(),
    ensures
        ({
            let r = dep_rules(pkgs, i, d)[k];
            &&& r.needs == seq![
                if pkgs[i].1.optional_deps.contains(d.name) {
                    FactView::Dep(i, d.name)
                } else {
                    FactView::Active(i)
                },
            ]
            &&& place_of(pkgs, d.package_id) matches Some(j) && (r.gives == FactView::Active(j) || (r.gives matches FactView::Feature(n, f)
                && n == j && (d.features.contains(f) || (d.uses_default_features && f == "default"@))))
        }),
{
    let r = dep_rules(pkgs, i, d)[k];
    if let Some(j) = place_of(pkgs, d.package_id) {
        if 1 <= k && k < 1 + d.features.len() {
            assert(r.gives == FactView::Feature(j, d.features[k - 1]));
            assert(d.features.contains(d.features[k - 1]));
        }
    }
}

/// `name?/feature` in a feature that is on turns `feature` on in that dependency where the dependency is part of
/// the build: one that is optional if it is turned on, any other if its package is built.
pub proof fn lemma_weakly_forwarded(
    pkgs: Seq<(Seq<char>, PackageFeatureView)>,
    roots: Seq<(Seq<char>, Seq<Seq<char>>)>,
    i: int,
    k: int,
    m: int,
    d: int,
    j: int,
    f: Seq<char>,
)
    requires
        0 <= i < pkgs.len(),
        0 <= k < pkgs[i].1.features.len(),
        0 <= m < pkgs[i].1.features[k].1.len(),
        0 <= d < pkgs[i].1.dependencies.len(),
        item_of(pkgs[i].1.features[k].1[m]) == ItemView::Weak(pkgs[i].1.dependencies[d].name, f),
        place_of(pkgs, pkgs[i].1.dependencies[d].package_id) == Some(j),
        has_feature(pkgs[j].1, f),
        derivable(rules_of(pkgs, roots), FactView::Feature(i, pkgs[i].1.features[k].0)),
        pkgs[i].1.optional_deps.contains(pkgs[i].1.dependencies[d].name) ==> derivable(
            rules_of(pkgs, roots),
            FactView::Dep(i, pkgs[i].1.dependencies[d].name),
        ),
        !pkgs[i].1.optional_deps.contains(pkgs[i].1.dependencies[d].name) ==> derivable(
            rules_of(pkgs, roots),
            FactView::Active(i),
        ),
    ensures
        derivable(rules_of(pkgs, roots), FactView::Feature(j, f)),
{
    lemma_place_in_range(pkgs, pkgs[i].1.dependencies[d].package_id);
    let p = pkgs[i].1;
    let e = p.features[k];
    let on = FactView::Feature(i, e.0);
    let x = p.dependencies[d].name;
    let needs = seq![on, edge_on(i, p, x)];
    let r = RuleView { needs, gives: FactView::Feature(j, f) };
    let g = forward_at(pkgs, needs, x, f);
    lists::lemma_filter_map_has(p.dependencies, g, d, r);
    lemma_item_rule(pkgs, roots, i, k, m, r);
    lemma_rule_applies(rules_of(pkgs, roots), r);
}

/// `name/feature` in a feature that is on turns the feature of an optional dependency's name on too, if the
/// package has it.
pub proof fn lemma_name_turned_on(
    pkgs: Seq<(Seq<char>, PackageFeatureView)>,
    roots: Seq<(Seq<char>, Seq<Seq<char>>)>,
    i: int,
    k: int,
    m: int,
    x: Seq<char>,
    f: Seq<char>,
)
    requires
        0 <= i < pkgs.len(),
        0 <= k < pkgs[i].1.features.len(),
        0 <= m < pkgs[i].1.features[k].1.len(),
        item_of(pkgs[i].1.features[k].1[m]) == ItemView::Strong(x, f),
        pkgs[i].1.optional_deps.contains(x),
        has_feature(pkgs[i].1, x),
        derivable(rules_of(pkgs, roots), FactView::Feature(i, pkgs[i].1.features[k].0)),
    ensures
        derivable(rules_of(pkgs, roots), FactView::Feature(i, x)),
{
    let e = pkgs[i].1.features[k];
    let r = RuleView { needs: seq![FactView::Feature(i, e.0)], gives: FactView::Feature(i, x) };
    let s = item_rules(pkgs, i, e.0, e.1[m]);
    assert(s[1] == r);
    assert(s.contains(r));
    lemma_item_rule(pkgs, roots, i, k, m, r);
    lemma_rule_applies(rules_of(pkgs, roots), r);
}

/// `name/feature` brings about only this: the dependency, the feature of its name, and `feature` in the package
/// of a dependency of that name.
pub proof fn lemma_strong_asks(
    pkgs: Seq<(Seq<char>, PackageFeatureView)>,
    i: int,
    feature: Seq<char>,
    item: Seq<char>,
    x: Seq<char>,
    f: Seq<char>,
    k: int,
)
    requires
        item_of(item) == ItemView::Strong(x, f) || item_of(item) == ItemView::Weak(x, f),
        0 <= k < item_rules(pkgs, i, feature, item).len(),
    ensures
        ({
            let r = item_rules(pkgs, i, feature, item)[k];
            ||| item_of(item) is Strong && r.gives == FactView::Dep(i, x) && pkgs[i].1.optional_deps.contains(x)
            ||| item_of(item) is Strong && r.gives == FactView::Feature(i, x) && pkgs[i].1.optional_deps.contains(x)
            ||| exists|d: int|
                0 <= d < pkgs[i].1.dependencies.len() && (#[trigger] pkgs[i].1.dependencies[d]).name == x && (place_of(
                    pkgs,
                    pkgs[i].1.dependencies[d].package_id,
                ) matches Some(j) && r.gives == FactView::Feature(j, f))
        }),
{
    let p = pkgs[i].1;
    let on = FactView::Feature(i, feature);
    let all = item_rules(pkgs, i, feature, item);
    let needs = if item_of(item) is Strong {
        seq![on]
    } else {
        seq![on, edge_on(i, p, x)]
    };
    let g = forward_at(pkgs, needs, x, f);
    let made = p.dependencies.filter_map(g);
    let n: int = if item_of(item) is Strong && p.optional_deps.contains(x) {
        2
    } else {
        0
    };
    if k >= n {
        assert(all[k] == made[k - n]);
        assert(made.contains(all[k]));
        lists::lemma_gathered_from(p.dependencies, g, all[k]);
        let d = choose|d: int| 0 <= d < p.dependencies.len() && g(#[trigger] p.dependencies[d]) == Some(all[k]);
        assert(p.dependencies[d].name == x);
    }
}

/// The features of a package: those that it declares, and the names of its optional dependencies, except of those
/// that one of its features names with `dep:`.
pub proof fn lemma_features_had(p: PackageFeatureView, f: Seq<char>, k: int, m: int)
    ensures
        sorted::entry_of(p.features, f) is Some ==> has_feature(p, f),
        !p.optional_deps.contains(f) && sorted::entry_of(p.features, f) is None ==> !has_feature(p, f),
        p.features.len() == 0 && p.optional_deps.contains(f) ==> has_feature(p, f),
        0 <= k < p.features.len() && 0 <= m < p.features[k].1.len() && p.features[k].1[m] == "dep:"@ + f
            && sorted::entry_of(p.features, f) is None ==> !has_feature(p, f),
{
    text::lemma_after_prefix("dep:"@, f);
    if 0 <= k < p.features.len() && 0 <= m < p.features[k].1.len() && p.features[k].1[m] == "dep:"@ + f {
        assert(item_of(p.features[k].1[m]) == ItemView::DepOnly(f));
        assert(is_named(p, f));
    }
}

} // verus!
