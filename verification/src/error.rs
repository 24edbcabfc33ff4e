use vstd::prelude::*;

verus! {

/// Every way a container can fail to decode or encode.
///
/// `UnbackfilledPlaceholder` is an internal invariant violation of the write
/// protocol, never a data problem; the other variants describe malformed or
/// missing input.
#[derive(Clone, Copy, Debug, PartialEq, Eq, Structural)]
pub enum CodecError {
    /// A declared length exceeds the bytes available, or a chunk body codec
    /// consumed a different number of bytes than the header declared.
    TruncatedChunk,
    /// An offset points outside the valid file range, or a pointer string
    /// runs off the end of the file.
    DanglingPointer,
    /// A reserved offset slot was never backfilled before the write
    /// finished.
    UnbackfilledPlaceholder,
    /// A version tuple is unparseable.
    UnsupportedVersion,
    /// A derived sibling container file is not available.
    AuxiliaryFileMissing,
    /// A backfilled offset or length does not fit the serialized width.
    OffsetOverflow,
}

impl CodecError {
    /// A short stable name for the error, for callers that report it.
    pub fn describe(&self) -> &'static str {
        match self {
            CodecError::TruncatedChunk => "truncated chunk",
            CodecError::DanglingPointer => "dangling pointer",
            CodecError::UnbackfilledPlaceholder => "unbackfilled placeholder",
            CodecError::UnsupportedVersion => "unsupported version",
            CodecError::AuxiliaryFileMissing => "auxiliary file missing",
            CodecError::OffsetOverflow => "offset overflow",
        }
    }
}

} // verus!
