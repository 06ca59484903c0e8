//! The errors that stop a run before anything on disk is touched.
use vstd::prelude::*;
use crate::template::TemplateError;

verus! {

/// Why a run was refused.
#[derive(Debug)]
pub enum RenameError {
    /// The regular expression, as anchored, does not compile.
    InvalidPattern { message: String },
    /// The destination template is malformed.
    InvalidTemplate(TemplateError),
    /// The template names capture group `index`, which did not take part in
    /// the match of `source`.
    CaptureGroupMissing { source: String, index: usize },
    /// Changes `first` and `second` of the plan (`first < second`) both go to
    /// `destination`.
    DestinationCollision { destination: String, first: usize, second: usize },
    /// No file matched.
    NothingToDo,
    /// `--dry-run` and `--silent` were given together.
    UsageConflict,
}

} // verus!
