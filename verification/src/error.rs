//! Failure conditions of the loader and of the basic-block model.

use vstd::prelude::*;

verus! {

/// Everything that can go wrong while loading object files or editing blocks.
#[derive(Clone, Debug, PartialEq, Eq)]
pub enum Error {
    /// The first bytes of a buffer are not a recognized ELF signature.
    InvalidFormat,
    /// A header field of an object file describes a byte range that lies
    /// outside the file, or the file's tables cannot be decoded.
    MalformedInput,
    /// A file could not be opened or read; carries the path for diagnostics.
    IoError { path: String },
    /// The machine field of an object file names an architecture this
    /// loader does not handle.
    UnsupportedArchitecture,
    /// No instruction with the given block-local index exists.
    NotFound { index: u64 },
    /// An internal consistency assumption failed, such as a dynamic string
    /// table address with no covering section header.
    InternalInvariantViolation,
}

} // verus!
