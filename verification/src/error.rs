use vstd::prelude::*;

verus! {

/// The errors the domain operations report.
#[derive(Debug)]
pub enum Error {
    /// A requested entity does not exist.
    NotFound(String),
    /// The session may not access or change an entity.
    Forbidden(String),
    /// The request itself is malformed or contradicts the data.
    BadRequest(String),
    /// The request collides with the current state.
    Conflict(String),
    /// The persistent store failed.
    DatabaseFailure(String),
    /// Any other failure.
    AnyFailure(String),
}

/// Result type of the domain operations.
pub type TbResult<T> = Result<T, Error>;

impl Error {
    /// Which kind of error this is, as a small number usable in contracts.
    pub open spec fn kind(self) -> nat {
        match self {
            Error::NotFound(_) => 0,
            Error::Forbidden(_) => 1,
            Error::BadRequest(_) => 2,
            Error::Conflict(_) => 3,
            Error::DatabaseFailure(_) => 4,
            Error::AnyFailure(_) => 5,
        }
    }
}

} // verus!
