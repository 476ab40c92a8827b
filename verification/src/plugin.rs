//! What the resolver is asked for, and where its input comes from.

use crate::cfg_eval::{TargetDescription, TargetView};
use crate::disk;
use crate::paths;
use crate::resolve;
use crate::resolve::{WorkspaceResult, WorkspaceView};
use crate::sorted;
use crate::text;
use vstd::prelude::*;

verus! {

/// What the resolver is asked for.
#[derive(Debug, Clone)]
pub struct PluginInput {
    /// The output of `cargo metadata`.
    pub metadata: Option<String>,
    /// The text of `Cargo.lock`.
    pub cargo_lock: Option<String>,
    /// The manifest on which to run `cargo metadata`.
    pub manifest_path: Option<String>,
    pub target: TargetDescription,
    pub root_features: Vec<String>,
}

/// The view of a [`PluginInput`].
pub struct InputView {
    pub metadata: Option<Seq<char>>,
    pub cargo_lock: Option<Seq<char>>,
    pub manifest_path: Option<Seq<char>>,
    pub target: TargetView,
    pub root_features: Seq<Seq<char>>,
}

impl DeepView for PluginInput {
    type V = InputView;

    open spec fn deep_view(&self) -> InputView {
        InputView {
            metadata: self.metadata.deep_view(),
            cargo_lock: self.cargo_lock.deep_view(),
            manifest_path: self.manifest_path.deep_view(),
            target: self.target.deep_view(),
            root_features: self.root_features.deep_view(),
        }
    }
}

/// Where the metadata comes from.
#[derive(Debug, Clone, PartialEq, Eq)]
pub enum InputChoice {
    /// It is given, and so is the lockfile.
    Given { metadata: String, cargo_lock: String },
    /// `cargo metadata` is to be run on this manifest.
    Run { manifest_path: String },
}

/// The features of the root package: those that are asked for, by default its default features.
pub fn root_features_or_default(features: Option<Vec<String>>) -> (r: Vec<String>)
    ensures
        r.deep_view() == match features.deep_view() {
            Some(f) => f,
            None => seq!["default"@],
        },
{
    match features {
        Some(f) => f,
        None => {
            let mut r: Vec<String> = Vec::new();
            sorted::push_text(&mut r, "default");
            assert(r.deep_view() =~= seq!["default"@]);
            r
        },
    }
}

/// The view of an [`InputChoice`].
pub enum ChoiceView {
    Given { metadata: Seq<char>, cargo_lock: Seq<char> },
    Run { manifest_path: Seq<char> },
}

impl DeepView for InputChoice {
    type V = ChoiceView;

    open spec fn deep_view(&self) -> ChoiceView {
        match self {
            InputChoice::Given { metadata, cargo_lock } => ChoiceView::Given {
                metadata: metadata@,
                cargo_lock: cargo_lock@,
            },
            InputChoice::Run { manifest_path } => ChoiceView::Run { manifest_path: manifest_path@ },
        }
    }
}

/// Where the metadata comes from: exactly one of the metadata and a manifest has to be there, and with
/// the metadata the lockfile.
pub open spec fn choice(input: InputView) -> Result<ChoiceView, Seq<char>> {
    match (input.metadata, input.manifest_path) {
        (Some(_), Some(_)) => Err("Provide either 'metadata' or 'manifestPath', not both."@),
        (None, None) => Err("Provide either 'metadata' (explicit JSON) or 'manifestPath' (path to Cargo.toml)."@),
        (Some(metadata), None) => match input.cargo_lock {
            Some(cargo_lock) => Ok(ChoiceView::Given { metadata, cargo_lock }),
            None => Err("'cargoLock' is required when 'metadata' is provided."@),
        },
        (None, Some(manifest_path)) => Ok(ChoiceView::Run { manifest_path }),
    }
}

/// Decides where the metadata comes from.
pub fn choose_input(input: &PluginInput) -> (r: Result<InputChoice, String>)
    ensures
        choice(input.deep_view()) == match r {
            Ok(c) => Ok::<ChoiceView, Seq<char>>(c.deep_view()),
            Err(e) => Err::<ChoiceView, Seq<char>>(e@),
        },
{
    match (&input.metadata, &input.manifest_path) {
        (Some(_), Some(_)) => Err("Provide either 'metadata' or 'manifestPath', not both.".to_owned()),
        (None, None) => Err(
            "Provide either 'metadata' (explicit JSON) or 'manifestPath' (path to Cargo.toml).".to_owned(),
        ),
        (Some(m), None) => match &input.cargo_lock {
            Some(l) => Ok(InputChoice::Given { metadata: m.clone(), cargo_lock: l.clone() }),
            None => Err("'cargoLock' is required when 'metadata' is provided.".to_owned()),
        },
        (None, Some(p)) => Ok(InputChoice::Run { manifest_path: p.clone() }),
    }
}

/// The arguments with which `cargo` describes the workspace of a manifest.
pub fn cargo_metadata_args(manifest: &str) -> (r: Vec<String>)
    ensures
        r.deep_view() == seq!["metadata"@, "--format-version"@, "1"@, "--locked"@, "--manifest-path"@, manifest@],
{
    let mut r: Vec<String> = Vec::new();
    sorted::push_two(&mut r, "metadata", "--format-version");
    sorted::push_two(&mut r, "1", "--locked");
    sorted::push_two(&mut r, "--manifest-path", manifest);
    assert(r.deep_view() =~= seq![
        "metadata"@,
        "--format-version"@,
        "1"@,
        "--locked"@,
        "--manifest-path"@,
        manifest@,
    ]);
    r
}

/// What running `cargo metadata` came to: what it printed, or, where it failed, its status and what it
/// complained of, with a hint.
pub fn metadata_outcome(success: bool, status: &str, stdout: &str, stderr: &str) -> (r: Result<String, String>)
    ensures
        match r {
            Ok(s) => success && s@ == stdout@,
            Err(e) => !success && e@ == "cargo metadata failed ("@ + status@ + "):\n"@ + stderr@
                + "\nHint: pass 'metadata' explicitly for offline/pure usage."@,
        },
{
    if success {
        Ok(stdout.to_owned())
    } else {
        Err(
            text::cat5(
                "cargo metadata failed (",
                status,
                "):\n",
                stderr,
                "\nHint: pass 'metadata' explicitly for offline/pure usage.",
            ),
        )
    }
}

/// Where the lockfile of a manifest stands: beside it.
pub fn lock_path(manifest_path: &str) -> (r: Result<String, String>)
    ensures
        match paths::parent_of(manifest_path@) {
            Some(dir) => r matches Ok(p) && p@ == disk::joined_path(dir, "Cargo.lock"@),
            None => r matches Err(e) && e@ == "Cannot determine parent of "@ + manifest_path@,
        },
{
    match paths::parent(manifest_path) {
        Some(dir) => Ok(disk::join_path(&dir, "Cargo.lock")),
        None => Err(text::cat2("Cannot determine parent of ", manifest_path)),
    }
}

/// The texts from which an input is resolved: those that are given, or those that were `fetched` for
/// its manifest.
pub open spec fn texts_for(
    input: InputView,
    fetched: Result<(Seq<char>, Seq<char>), Seq<char>>,
) -> Result<(Seq<char>, Seq<char>), Seq<char>> {
    match choice(input) {
        Err(e) => Err(e),
        Ok(ChoiceView::Given { metadata, cargo_lock }) => Ok((metadata, cargo_lock)),
        Ok(ChoiceView::Run { manifest_path }) => fetched,
    }
}

/// Whether `r` is the answer to an input.
pub open spec fn is_answer(
    input: InputView,
    fetched: Result<(Seq<char>, Seq<char>), Seq<char>>,
    r: Result<WorkspaceView, Seq<char>>,
) -> bool {
    match texts_for(input, fetched) {
        Err(e) => r == Err::<WorkspaceView, Seq<char>>(e),
        Ok((metadata, cargo_lock)) => resolve::workspace_resolved(
            metadata,
            cargo_lock,
            input.target,
            input.root_features,
            r,
        ),
    }
}

/// Answers an input. `fetched` is what running `cargo metadata` on the manifest and reading the
/// lockfile beside it gave; it counts only where there is a manifest.
pub fn validate_and_resolve(input: &PluginInput, fetched: &Result<(String, String), String>) -> (r: Result<
    WorkspaceResult,
    String,
>)
    ensures
        is_answer(
            input.deep_view(),
            match fetched {
                Ok(t) => Ok::<(Seq<char>, Seq<char>), Seq<char>>((t.0@, t.1@)),
                Err(e) => Err::<(Seq<char>, Seq<char>), Seq<char>>(e@),
            },
            match r {
                Ok(w) => Ok::<WorkspaceView, Seq<char>>(w.deep_view()),
                Err(e) => Err::<WorkspaceView, Seq<char>>(e@),
            },
        ),
        r matches Ok(w) ==> w.workspace_members.wf() && w.crates.wf(),
{
    match choose_input(input) {
        Err(e) => Err(e),
        Ok(InputChoice::Given { metadata, cargo_lock }) => resolve::resolve_workspace(
            &metadata,
            &cargo_lock,
            &input.target,
            &input.root_features,
        ),
        Ok(InputChoice::Run { manifest_path: _ }) => match fetched {
            Ok(t) => resolve::resolve_workspace(&t.0, &t.1, &input.target, &input.root_features),
            Err(e) => Err(e.clone()),
        },
    }
}

/// Metadata that is given and metadata that Cargo was asked for are answered alike: the same texts
/// give the same answer, whatever else was fetched, and whatever lockfile stands beside a manifest.
pub proof fn lemma_given_and_run_alike(
    run: InputView,
    given: InputView,
    metadata: Seq<char>,
    cargo_lock: Seq<char>,
    other: Result<(Seq<char>, Seq<char>), Seq<char>>,
    a: Result<WorkspaceView, Seq<char>>,
    b: Result<WorkspaceView, Seq<char>>,
)
    requires
        run.metadata is None,
        run.manifest_path is Some,
        given.metadata == Some(metadata),
        given.cargo_lock == Some(cargo_lock),
        given.manifest_path is None,
        run.target == given.target,
        run.root_features == given.root_features,
        is_answer(run, Ok((metadata, cargo_lock)), a),
        is_answer(given, other, b),
    ensures
        a == b,
{
    resolve::lemma_one_answer(metadata, cargo_lock, given.target, given.root_features, a, b);
}

/// What is accepted: the metadata with a lockfile and no manifest, or a manifest and no metadata; everything
/// else is refused, each with a text that says what is wrong.
pub proof fn lemma_choice(input: InputView)
    ensures
        choice(input) is Ok <==> (input.metadata is Some && input.cargo_lock is Some && input.manifest_path is None) || (
        input.metadata is None && input.manifest_path is Some),
        choice(input) matches Ok(ChoiceView::Given { metadata, cargo_lock }) ==> input.metadata == Some(metadata)
            && input.cargo_lock == Some(cargo_lock),
        choice(input) matches Ok(ChoiceView::Run { manifest_path }) ==> input.manifest_path == Some(manifest_path),
        input.metadata is Some && input.manifest_path is Some ==> choice(input) == Err::<ChoiceView, Seq<char>>(
            "Provide either 'metadata' or 'manifestPath', not both."@,
        ),
        input.metadata is None && input.manifest_path is None ==> choice(input) == Err::<ChoiceView, Seq<char>>(
            "Provide either 'metadata' (explicit JSON) or 'manifestPath' (path to Cargo.toml)."@,
        ),
        input.metadata is Some && input.manifest_path is None && input.cargo_lock is None ==> choice(input) == Err::<
            ChoiceView,
            Seq<char>,
        >("'cargoLock' is required when 'metadata' is provided."@),
{
}

/// An input that is refused is answered with the refusal, and one whose texts could not be had with what went
/// wrong; what was fetched does not count for an input that brings its own texts.
pub proof fn lemma_refusals(
    input: InputView,
    fetched: Result<(Seq<char>, Seq<char>), Seq<char>>,
    other: Result<(Seq<char>, Seq<char>), Seq<char>>,
    e: Seq<char>,
    r: Result<WorkspaceView, Seq<char>>,
)
    requires
        is_answer(input, fetched, r),
    ensures
        choice(input) == Err::<ChoiceView, Seq<char>>(e) ==> r == Err::<WorkspaceView, Seq<char>>(e),
        input.metadata is None && input.manifest_path is Some && fetched == Err::<(Seq<char>, Seq<char>), Seq<char>>(e)
            ==> r == Err::<WorkspaceView, Seq<char>>(e),
        input.metadata is Some ==> is_answer(input, other, r),
{
}

} // verus!
