use vstd::prelude::*;

verus! {

/// The error kinds the ledger engine reports. All failures are returned as
/// values; no verified function panics on bad input data.
#[derive(Debug)]
pub enum Error {
    /// The underlying storage cannot be opened, read or written.
    RepoError(String),
    /// A ledger commit's payload is structurally or semantically invalid.
    TransactionParseError(String),
    /// A transaction could not be serialized for embedding.
    TransactionSerializeError(String),
    /// A user-supplied value violates a model invariant.
    ValidationError(String),
}

impl Error {
    /// The human-readable message for this error, with the same prefixes a
    /// `Display` implementation would render.
    pub fn message(&self) -> (r: String)
        ensures
            match self {
                Error::RepoError(m) => r@ == "Repo error: "@ + m@,
                Error::TransactionParseError(m) => r@ == "Could not parse transaction: "@ + m@,
                Error::TransactionSerializeError(m) => r@ == "Could not serialize transaction: "@
                    + m@,
                Error::ValidationError(m) => r@ == "Validation error: "@ + m@,
            },
    {
        match self {
            Error::RepoError(m) => String::from_str("Repo error: ").concat(m.as_str()),
            Error::TransactionParseError(m) => String::from_str(
                "Could not parse transaction: ",
            ).concat(m.as_str()),
            Error::TransactionSerializeError(m) => String::from_str(
                "Could not serialize transaction: ",
            ).concat(m.as_str()),
            Error::ValidationError(m) => String::from_str("Validation error: ").concat(m.as_str()),
        }
    }
}

} // verus!
