//! The ways in which an operation of the library can fail.

use vstd::prelude::*;

verus! {

/// Why an operation was refused.
#[derive(Clone, Copy, Debug, PartialEq, Eq, Structural)]
pub enum ErrorKind {
    /// A script name that is empty or carries the script-file extension.
    InvalidInput,
    /// A build is already active, or none is active where one is needed.
    StateConflict,
    /// Something that should be there could not be found.
    MissingResource,
    /// The history asks for more prompts than the session recorded.
    ParseInconsistency,
}

} // verus!
