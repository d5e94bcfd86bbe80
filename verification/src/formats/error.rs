//! The ways in which reading a tag can fail.

use vstd::prelude::*;

verus! {

/// Why a parse was given up.
#[derive(Clone, Copy, Debug, PartialEq, Eq, Structural)]
pub enum Error {
    /// The bytes contradict the format: an impossible size, a bad flag, an
    /// identifier outside its alphabet, text that does not decode.
    Malformed,
    /// The bytes are well formed but use a feature that is not implemented.
    Unsupported,
    /// The structure that holds the tag is absent.
    NotFound,
    /// The input ends before the bytes that had to be read.
    Truncated,
}

/// A result with its value replaced by the value's view.
pub open spec fn viewed<T: View>(r: Result<T, Error>) -> Result<T::V, Error> {
    match r {
        Ok(t) => Ok(t@),
        Err(e) => Err(e),
    }
}

} // verus!
