//! Model task vocabulary and the model-adapter seam used by detectors.

use vstd::prelude::*;

verus! {

/// Model tasks recognized by production adapters without hardcoding a model runtime.
#[derive(Clone, Debug, PartialEq, Eq)]
pub enum ModelTask {
    /// Produces a foreground or region mask.
    Segmentation,
    /// Produces page or object corner coordinates.
    CornerRegression,
    /// Predicts image or capture quality signals.
    QualityPrediction,
    /// Produces restoration/cleanup masks.
    CleanupMask,
    /// Future artifact task declared by its manifest.
    Custom(String),
}

/// The stable label of a task.
pub open spec fn task_label(task: ModelTask) -> Seq<char> {
    match task {
        ModelTask::Segmentation => "segmentation"@,
        ModelTask::CornerRegression => "corner-regression"@,
        ModelTask::QualityPrediction => "quality-prediction"@,
        ModelTask::CleanupMask => "cleanup-mask"@,
        ModelTask::Custom(value) => value@,
    }
}

impl ModelTask {
    /// Stable artifact task label.
    pub fn as_str(&self) -> (label: &str)
        ensures
            label@ == task_label(*self),
    {
        match self {
            ModelTask::Segmentation => "segmentation",
            ModelTask::CornerRegression => "corner-regression",
            ModelTask::QualityPrediction => "quality-prediction",
            ModelTask::CleanupMask => "cleanup-mask",
            ModelTask::Custom(value) => value.as_str(),
        }
    }
}

/// Model adapter contract separating artifact metadata from a concrete inference runtime.
pub trait ModelDetectorAdapter {
    /// Model artifact identifier from the model-artifact contract.
    fn artifact_id(&self) -> &str;
    /// Declared artifact task, for example `segmentation` or `corner-regression`.
    fn task(&self) -> &ModelTask;
    /// Runtime class required by the adapter.
    fn runtime_class(&self) -> &str;
}

} // verus!
