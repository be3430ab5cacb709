use vstd::prelude::*;

verus! {

/// The error taxonomy of the engine.
///
/// Decode, filter and compare paths never fail; mutation and lookup paths
/// surface one of these typed errors instead of panicking.
#[derive(Clone, Copy, Debug, PartialEq, Eq, Structural)]
pub enum DatabaseError {
    /// An unknown view, database, field or row id.
    NotFound,
    /// An invariant violation, e.g. an operation that strictly requires an
    /// initialized session while none is present.
    Internal,
    /// A malformed import payload.
    Validation,
}

impl DatabaseError {
    /// A short human-readable description of the error.
    pub fn describe(&self) -> (r: &'static str)
        ensures
            r@ == match *self {
                DatabaseError::NotFound => "record not found"@,
                DatabaseError::Internal => "internal error"@,
                DatabaseError::Validation => "invalid import payload"@,
            },
    {
        match *self {
            DatabaseError::NotFound => "record not found",
            DatabaseError::Internal => "internal error",
            DatabaseError::Validation => "invalid import payload",
        }
    }
}

} // verus!
