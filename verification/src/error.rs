//! The failures that end a statement-build pass.

use vstd::prelude::*;

verus! {

/// Why a statement-build pass was abandoned. No failure is retried by the
/// library: the caller discards the statement in progress.
#[derive(Clone, Copy, Debug, PartialEq, Eq, Structural)]
pub enum Error {
    /// Field bytes were longer than a field element, or held an integer that
    /// is not below the field modulus.
    EncodingError,
    /// A constraint or a lookup named a variable that was never registered.
    UnknownVariable,
    /// A gadget answered with variable ids that differ from the assigned ones.
    IdMismatch,
    /// A gadget reported a failure of its own; the circuit counts as
    /// unsatisfiable.
    GadgetFailure,
    /// A value that proving needs was absent.
    IncompleteWitness,
}

impl Error {
    /// The description of each failure.
    pub open spec fn spec_message(self) -> Seq<char> {
        match self {
            Error::EncodingError => "field element bytes are oversized or not canonical"@,
            Error::UnknownVariable => "a variable was used before it was registered"@,
            Error::IdMismatch => "the gadget answered with unexpected variable ids"@,
            Error::GadgetFailure => "the gadget failed: the circuit is unsatisfiable"@,
            Error::IncompleteWitness => "a value required for proving is missing"@,
        }
    }

    /// A short description for the user.
    pub fn message(&self) -> (text: &'static str)
        ensures
            text@ == self.spec_message(),
    {
        match self {
            Error::EncodingError => "field element bytes are oversized or not canonical",
            Error::UnknownVariable => "a variable was used before it was registered",
            Error::IdMismatch => "the gadget answered with unexpected variable ids",
            Error::GadgetFailure => "the gadget failed: the circuit is unsatisfiable",
            Error::IncompleteWitness => "a value required for proving is missing",
        }
    }
}

} // verus!
