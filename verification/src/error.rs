//! The error taxonomy of the library.

use vstd::prelude::*;

verus! {

/// Everything that can go wrong while reading a region container or
/// decoding a chunk document.
///
/// `ChunkAbsent` is not a failure: it signals an empty slot and is
/// always handled locally by callers.
#[derive(Clone, Copy, Debug, PartialEq, Eq, Structural)]
pub enum Error {
    /// A region container buffer was shorter than the 8192-byte header.
    ContainerTooSmall,
    /// The addressed slot holds no chunk (sector index and count both zero).
    ChunkAbsent,
    /// A chunk would occupy more than 256 sectors, or the rebuilt
    /// container grew past what the slot header format can address.
    SectorLimitExceeded,
    /// A document carried a type id outside the known range.
    UnknownTagType,
    /// A document ended before its declared contents were fully read.
    TruncatedDocument,
    /// No time-active field was found under either document layout.
    FieldNotFound,
    /// The byte-array decompression transform failed or returned nothing.
    TransformFailed,
}

} // verus!
