//! Error taxonomy of the store and the window lifecycle manager.

use vstd::prelude::*;

verus! {

/// Why an operation failed.
///
/// `NotFound`: a lookup by note id or setting key matched no row.
/// `StorageFailure`: the durable medium refused a read or write, or a
/// constraint (such as id uniqueness) was violated.
/// `InitializationFailure`: the store could not be brought up; fatal.
/// `SurfaceFailure`: the host windowing system could not create or focus a
/// surface.
#[derive(Debug, Clone, Copy, PartialEq, Eq, Structural)]
pub enum StoreError {
    NotFound,
    StorageFailure,
    InitializationFailure,
    SurfaceFailure,
}

impl StoreError {
    /// A descriptive message for callers that report errors as strings.
    pub fn message(&self) -> (r: &'static str)
        ensures
            *self is NotFound ==> r@ == "no matching row"@,
            *self is StorageFailure ==> r@ == "storage failure"@,
            *self is InitializationFailure ==> r@ == "initialization failure"@,
            *self is SurfaceFailure ==> r@ == "window surface failure"@,
    {
        match self {
            StoreError::NotFound => "no matching row",
            StoreError::StorageFailure => "storage failure",
            StoreError::InitializationFailure => "initialization failure",
            StoreError::SurfaceFailure => "window surface failure",
        }
    }
}

} // verus!
