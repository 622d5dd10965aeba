//! The error taxonomy of the library.

use vstd::prelude::*;

verus! {

/// Why an archive operation failed.
#[derive(Clone, Copy, Debug, PartialEq, Eq, Structural)]
pub enum NcaError {
    /// Wrong magic, an index out of range, a key generation the keyset
    /// lacks, a missing required title key, or a malformed table.
    InvalidInput,
    /// A feature the reader does not implement: a sparse section, an
    /// encryption type other than AES-CTR, or a path absent from a RomFS.
    Unsupported,
    /// A read beyond the end of the underlying byte source.
    Io,
    /// A file read whose offset plus length exceeds the file's size.
    OutOfRange,
}

impl NcaError {
    /// A short human-readable label for the error.
    pub fn describe(&self) -> (r: &'static str)
        ensures
            self is InvalidInput ==> r@ == "invalid input"@,
            self is Unsupported ==> r@ == "unsupported"@,
            self is Io ==> r@ == "io error"@,
            self is OutOfRange ==> r@ == "out of range"@,
    {
        match self {
            NcaError::InvalidInput => "invalid input",
            NcaError::Unsupported => "unsupported",
            NcaError::Io => "io error",
            NcaError::OutOfRange => "out of range",
        }
    }
}

} // verus!
