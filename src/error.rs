use vstd::prelude::*;

verus! {

/// The ways a read of the container can fail.
#[derive(Debug, Clone, Copy, PartialEq, Eq, Structural)]
pub enum DbError {
    /// The bytes handed over are not the span that was asked for (a short read).
    Io,
    /// The bytes do not follow the container format.
    Decode,
    /// The catalog has no table of the requested name.
    NotFound,
}

} // verus!
