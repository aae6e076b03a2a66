use vstd::prelude::*;

verus! {

/// The closed set of failure kinds this core reports. The surrounding
/// transport layer maps them to status codes; none of them carries
/// filesystem detail.
#[derive(Clone, Copy, Debug, PartialEq, Eq, Structural)]
pub enum Error {
    /// Malformed or escaping path, malformed or unsatisfiable range,
    /// invalid or expired share signature, malformed search query.
    BadRequest,
    /// The resolved path does not exist.
    NotFound,
    /// A filesystem failure during stat, read or walk.
    IOError,
    /// An invariant violation inside the core.
    InternalError,
}

} // verus!
