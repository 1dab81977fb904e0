//! What to do when a file cannot be opened.

use vstd::prelude::*;

verus! {

/// Why opening a file failed.
#[derive(Clone, Copy, Debug, PartialEq, Eq, Structural)]
pub enum OpenFailure {
    /// There is no file of that name.
    NotFound,
    /// Any other reason.
    Other,
}

/// The step that follows a failed attempt to open a file.
#[derive(Clone, Copy, Debug, PartialEq, Eq, Structural)]
pub enum Recovery {
    /// Create the file and go on with the new one.
    Create,
    /// Stop: nothing can be done.
    GiveUp,
}

/// A missing file is created; every other failure ends the work.
pub fn recover(failure: OpenFailure) -> (step: Recovery)
    ensures
        step == (match failure {
            OpenFailure::NotFound => Recovery::Create,
            OpenFailure::Other => Recovery::GiveUp,
        }),
{
    match failure {
        OpenFailure::NotFound => Recovery::Create,
        OpenFailure::Other => Recovery::GiveUp,
    }
}

} // verus!
