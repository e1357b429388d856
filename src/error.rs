use vstd::prelude::*;
use crate::kinds::FileType;
use crate::resref::ResRefError;
use crate::x2da::X2daError;

verus! {

/// Why a read or a build failed.
#[derive(Debug, PartialEq, Eq)]
pub enum Error {
    /// The input ended before a read of the declared length.
    UnexpectedEof,
    /// A relative seek before the start of the input.
    InvalidSeek,
    /// Bytes that were to be text are not UTF-8.
    InvalidUtf8,
    /// A container larger than its 32-bit offsets can address.
    TooLarge,
    /// Tables that must run in parallel have different lengths.
    StructuralMismatch,
    X2daError(X2daError),
    PathAlreadyExists(String),
    InvalidFileTypeForErf(FileType),
    ResRefError(ResRefError),
}

} // verus!
