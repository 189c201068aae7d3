//! Recoverable error values for the dialog helpers.

use vstd::prelude::*;

verus! {

/// What went wrong in a helper that takes user-supplied data.
#[derive(Clone, Copy, Debug, PartialEq, Eq, Structural)]
pub enum ErrorKind {
    /// The typed text does not parse as the requested kind of value.
    InvalidInput,
    /// An operation on a highlighted selection was asked for while
    /// nothing is selected.
    NoSelection,
}

} // verus!
