//! The kinds of failure.

use vstd::prelude::*;

verus! {

/// Why an operation did not do what was asked.
#[derive(Clone, Copy, Debug, PartialEq, Eq)]
pub enum ErrorKind {
    /// No profile has the name.
    NotFound,
    /// A command's argument does not have the shape that the command needs.
    MalformedCommand,
    /// The configuration could not be written.
    PersistenceFailure,
    /// A message was sent to a connection that is closed.
    TransportClosed,
}

} // verus!
