//! The outcome of an operation, as the HTTP status that answers it.

use vstd::prelude::*;

verus! {

/// The statuses with which the operations of this crate answer.
#[derive(Clone, Copy, Debug, PartialEq, Eq, Structural, Hash)]
pub enum Status {
    /// The operation was carried out.
    Okay,
    /// The caller's input is invalid.
    BadRequest,
    /// The runner or board that was named does not exist.
    NotFound,
    /// The operation is not valid in the current state.
    Conflict,
    /// Configuration is missing or an outside call failed.
    InternalServerError,
}

impl Status {
    /// The numeric HTTP code of a status.
    pub open spec fn spec_code(self) -> u16 {
        match self {
            Status::Okay => 200,
            Status::BadRequest => 400,
            Status::NotFound => 404,
            Status::Conflict => 409,
            Status::InternalServerError => 500,
        }
    }

    /// The numeric HTTP code of this status.
    #[verifier::when_used_as_spec(spec_code)]
    pub fn code(self) -> (r: u16)
        ensures
            r == self.spec_code(),
    {
        match self {
            Status::Okay => 200,
            Status::BadRequest => 400,
            Status::NotFound => 404,
            Status::Conflict => 409,
            Status::InternalServerError => 500,
        }
    }

    /// Whether this status reports success.
    pub fn is_ok(self) -> (r: bool)
        ensures
            r == (self == Status::Okay),
    {
        self == Status::Okay
    }
}

} // verus!
