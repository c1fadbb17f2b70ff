use vstd::prelude::*;
use crate::error::ProcessorError;

verus! {

/// The steps of processing an image, in the order they run.
#[derive(Debug, Clone, Copy, PartialEq, Eq, Structural)]
pub enum Stage {
    /// Check that the input image exists.
    CheckInput,
    /// Check that the parameters file exists.
    CheckParams,
    /// Decode the input image into RGBA pixels.
    LoadImage,
    /// Read the parameters file.
    ReadParams,
    /// Load the plugin library and find its entry point.
    LoadPlugin,
    /// Turn the parameters into the C string handed to the plugin.
    PrepareParams,
    /// Run the plugin on the pixels and wrap them back into an image.
    RunPlugin,
    /// Save the result as PNG.
    SaveOutput,
}

/// How the outside work of a stage went.
#[derive(Debug, PartialEq, Eq)]
pub enum StepOutcome {
    /// The work succeeded.
    Done,
    /// A file the stage needs is missing; carries its path.
    Missing(String),
    /// The work failed; carries the failure's message.
    Failed(String),
}

/// What to do after a stage.
#[derive(Debug, PartialEq, Eq)]
pub enum Step {
    /// Go on with the given stage.
    Next(Stage),
    /// Processing is over, with this result.
    Finished(Result<(), ProcessorError>),
}

/// Message of the error reported when the processed pixels cannot be wrapped
/// back into an image.
pub open spec fn wrap_failure_message() -> Seq<char> {
    "Failed to create image from raw data"@
}

/// The stage that follows `stage`, if any.
pub open spec fn stage_after(stage: Stage) -> Option<Stage> {
    match stage {
        Stage::CheckInput => Some(Stage::CheckParams),
        Stage::CheckParams => Some(Stage::LoadImage),
        Stage::LoadImage => Some(Stage::ReadParams),
        Stage::ReadParams => Some(Stage::LoadPlugin),
        Stage::LoadPlugin => Some(Stage::PrepareParams),
        Stage::PrepareParams => Some(Stage::RunPlugin),
        Stage::RunPlugin => Some(Stage::SaveOutput),
        Stage::SaveOutput => None,
    }
}

/// Whether `e` is the error that a failure with text `d` at `stage` is
/// reported as (`missing` tells a missing file from another failure).
pub open spec fn reported_as(stage: Stage, missing: bool, d: Seq<char>, e: ProcessorError) -> bool {
    match stage {
        Stage::CheckInput => e matches ProcessorError::InputFileNotFound(p) && p@ == d,
        Stage::CheckParams => e matches ProcessorError::ParamsFileNotFound(p) && p@ == d,
        Stage::LoadImage => e matches ProcessorError::ImageLoadError(m) && m@ == d,
        Stage::ReadParams => e matches ProcessorError::ParamsReadError(m) && m@ == d,
        Stage::LoadPlugin => if missing {
            e matches ProcessorError::PluginNotFound(p) && p@ == d
        } else {
            e matches ProcessorError::PluginLoadError(m) && m@ == d
        },
        Stage::PrepareParams => e matches ProcessorError::PluginLoadError(m) && m@ == d,
        Stage::RunPlugin => e matches ProcessorError::ImageSaveError(m) && m@
            == wrap_failure_message(),
        Stage::SaveOutput => e matches ProcessorError::ImageSaveError(m) && m@ == d,
    }
}

/// Whether `step` is what follows `stage` when its work ended with `outcome`.
pub open spec fn steps_to(stage: Stage, outcome: StepOutcome, step: Step) -> bool {
    match outcome {
        StepOutcome::Done => match stage_after(stage) {
            Some(next) => step == Step::Next(next),
            None => step == Step::Finished(Ok(())),
        },
        StepOutcome::Missing(d) => step matches Step::Finished(Err(e)) && reported_as(
            stage,
            true,
            d@,
            e,
        ),
        StepOutcome::Failed(d) => step matches Step::Finished(Err(e)) && reported_as(
            stage,
            false,
            d@,
            e,
        ),
    }
}

/// Decides what follows `stage`, whose outside work ended with `outcome`:
/// success moves on to the next stage (or ends processing after the last);
/// a failure ends processing with the error that the stage reports it as.
pub fn advance(stage: Stage, outcome: StepOutcome) -> (step: Step)
    ensures
        steps_to(stage, outcome, step),
{
    match outcome {
        StepOutcome::Done => match stage {
            Stage::CheckInput => Step::Next(Stage::CheckParams),
            Stage::CheckParams => Step::Next(Stage::LoadImage),
            Stage::LoadImage => Step::Next(Stage::ReadParams),
            Stage::ReadParams => Step::Next(Stage::LoadPlugin),
            Stage::LoadPlugin => Step::Next(Stage::PrepareParams),
            Stage::PrepareParams => Step::Next(Stage::RunPlugin),
            Stage::RunPlugin => Step::Next(Stage::SaveOutput),
            Stage::SaveOutput => Step::Finished(Ok(())),
        },
        StepOutcome::Missing(d) => Step::Finished(Err(failure(stage, true, d))),
        StepOutcome::Failed(d) => Step::Finished(Err(failure(stage, false, d))),
    }
}

/// The error that a failure with text `d` at `stage` is reported as.
fn failure(stage: Stage, missing: bool, d: String) -> (e: ProcessorError)
    ensures
        reported_as(stage, missing, d@, e),
{
    match stage {
        Stage::CheckInput => ProcessorError::InputFileNotFound(d),
        Stage::CheckParams => ProcessorError::ParamsFileNotFound(d),
        Stage::LoadImage => ProcessorError::ImageLoadError(d),
        Stage::ReadParams => ProcessorError::ParamsReadError(d),
        Stage::LoadPlugin => if missing {
            ProcessorError::PluginNotFound(d)
        } else {
            ProcessorError::PluginLoadError(d)
        },
        Stage::PrepareParams => ProcessorError::PluginLoadError(d),
        Stage::RunPlugin => ProcessorError::ImageSaveError(
            String::from_str("Failed to create image from raw data"),
        ),
        Stage::SaveOutput => ProcessorError::ImageSaveError(d),
    }
}

/// Position of `stage` in the order the stages run.
pub open spec fn stage_index(stage: Stage) -> int {
    match stage {
        Stage::CheckInput => 0,
        Stage::CheckParams => 1,
        Stage::LoadImage => 2,
        Stage::ReadParams => 3,
        Stage::LoadPlugin => 4,
        Stage::PrepareParams => 5,
        Stage::RunPlugin => 6,
        Stage::SaveOutput => 7,
    }
}

/// A run of `n` stages: it starts by checking the input, each stage's step is
/// what `advance` decides from its outcome, and each step but the last goes on
/// to the next stage of the run.
pub open spec fn is_run(stages: Seq<Stage>, outcomes: Seq<StepOutcome>, steps: Seq<Step>) -> bool {
    &&& stages.len() == outcomes.len() == steps.len()
    &&& stages.len() > 0
    &&& stages[0] == Stage::CheckInput
    &&& forall|k: int| 0 <= k < stages.len() ==> #[trigger] steps_to(stages[k], outcomes[k], steps[k])
    &&& forall|k: int| 0 <= k < stages.len() - 1 ==> #[trigger] steps[k] == Step::Next(stages[k + 1])
}

/// Processing succeeds only after all eight stages, each in its turn, have
/// done their work: a run that ends in success has exactly eight steps, the
/// k-th of them the k-th stage, and every outcome was `Done`.
pub proof fn lemma_success_needs_every_stage(
    stages: Seq<Stage>,
    outcomes: Seq<StepOutcome>,
    steps: Seq<Step>,
)
    requires
        is_run(stages, outcomes, steps),
        steps.last() == Step::Finished(Ok(())),
    ensures
        stages.len() == 8,
        forall|k: int| 0 <= k < 8 ==> stage_index(#[trigger] stages[k]) == k,
        forall|k: int| 0 <= k < 8 ==> #[trigger] outcomes[k] == StepOutcome::Done,
{
    let n = stages.len() as int;
    assert forall|k: int| 0 <= k < n implies stage_index(#[trigger] stages[k]) == k
        && (k < n - 1 ==> outcomes[k] == StepOutcome::Done) by {
        lemma_run_prefix(stages, outcomes, steps, k);
    }
    assert(steps_to(stages[n - 1], outcomes[n - 1], steps[n - 1]));
    assert(stages[n - 1] == Stage::SaveOutput && outcomes[n - 1] == StepOutcome::Done);
    assert forall|k: int| 0 <= k < n implies #[trigger] outcomes[k] == StepOutcome::Done by {
        lemma_run_prefix(stages, outcomes, steps, k);
    }
}

proof fn lemma_run_prefix(stages: Seq<Stage>, outcomes: Seq<StepOutcome>, steps: Seq<Step>, k: int)
    requires
        is_run(stages, outcomes, steps),
        0 <= k < stages.len(),
    ensures
        stage_index(stages[k]) == k,
        k < stages.len() - 1 ==> outcomes[k] == StepOutcome::Done,
    decreases k,
{
    if k > 0 {
        lemma_run_prefix(stages, outcomes, steps, k - 1);
        assert(steps_to(stages[k - 1], outcomes[k - 1], steps[k - 1]));
        assert(steps[k - 1] == Step::Next(stages[k]));
    }
    if k < stages.len() - 1 {
        assert(steps_to(stages[k], outcomes[k], steps[k]));
        assert(steps[k] == Step::Next(stages[k + 1]));
    }
}

} // verus!
