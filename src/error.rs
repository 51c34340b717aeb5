//! Errors of the library and of the jobs that use it.

use vstd::prelude::*;
use crate::item::ItemError;

verus! {

/// Why a template could not be rendered, or a job could not run.
#[derive(Clone, Debug)]
pub enum AppError {
    /// A destination already exists.
    PathExists,
    /// A filesystem operation failed; the message describes it.
    IO { message: String },
    /// Moving or copying an entry failed; the message describes it.
    FsExtra { message: String },
    /// The job list could not be read; the message describes it.
    ParseError { message: String },
    ConvertTime,
    UnknownToken,
    UnknownSpecifier,
    UnknownModifier,
    /// The template is malformed.
    Pattern,
    /// A fact that a variable needs could not be had.
    ItemError { error: ItemError },
}

impl AppError {
    pub fn from_item(error: ItemError) -> (r: AppError)
        ensures
            r == (AppError::ItemError { error }),
    {
        AppError::ItemError { error }
    }
}

} // verus!
