use vstd::prelude::*;

verus! {

/// Why an operation failed.
#[derive(Debug, Clone, Copy, PartialEq, Eq, Structural)]
pub enum Error {
    /// A payload was not a well-formed signal.
    Decode,
    /// An invitation to retract does not exist, or no longer does.
    NotFound,
    /// The shared store could not carry out a request.
    Storage,
}

} // verus!
