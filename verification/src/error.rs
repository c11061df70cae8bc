//! The kinds of failure that relay operations report.

use vstd::prelude::*;

verus! {

/// Why an operation did not do what was asked.
#[derive(Clone, Copy, Debug, PartialEq, Eq, Structural)]
pub enum RelayError {
    /// A referenced channel, connection or rule is absent.
    NotFound,
    /// The thing to create is already there; nothing changed.
    AlreadyExists,
    /// The chat platform refused to create or execute a delivery handle.
    DeliveryUnavailable,
    /// The persistence layer failed.
    StoreError,
    /// There was nothing to match a name against.
    NoCandidates,
}

impl RelayError {
    /// The reason as contracts see it.
    pub open spec fn reason(self) -> Seq<char> {
        match self {
            RelayError::NotFound => "not found"@,
            RelayError::AlreadyExists => "already exists"@,
            RelayError::DeliveryUnavailable => "delivery unavailable"@,
            RelayError::StoreError => "store error"@,
            RelayError::NoCandidates => "no candidates"@,
        }
    }

    /// The reason in words, for the one who gave the command.
    pub fn describe(&self) -> (r: String)
        ensures
            r@ == self.reason(),
    {
        match self {
            RelayError::NotFound => String::from_str("not found"),
            RelayError::AlreadyExists => String::from_str("already exists"),
            RelayError::DeliveryUnavailable => String::from_str("delivery unavailable"),
            RelayError::StoreError => String::from_str("store error"),
            RelayError::NoCandidates => String::from_str("no candidates"),
        }
    }
}

} // verus!
