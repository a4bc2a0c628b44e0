use vstd::prelude::*;

verus! {

/// Every way an operation of this crate can fail.
#[derive(Debug, Clone, Copy, PartialEq, Eq, Structural)]
pub enum Error {
    /// The input ends before a field that has to be read.
    Truncation,
    /// A chunk type given as text is not four ASCII letters.
    InvalidChunkType,
    /// A decoded chunk has a type that breaks the property rules, or its
    /// checksum does not belong to its type and payload.
    InvalidChunk,
    /// A payload that was asked for as text is not UTF-8.
    InvalidStringData,
    /// No chunk of the container has the requested type.
    ChunkNotFound,
    /// The input does not start with the PNG signature.
    SignatureMismatch,
}

} // verus!
