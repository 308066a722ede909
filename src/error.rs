use vstd::prelude::*;

verus! {

/// Why a delta could not be applied to a source buffer.
#[derive(Debug, Clone, Copy, PartialEq, Eq, Structural)]
pub enum DeltaError {
    /// A size field or a command operand was cut off by the end of the stream.
    TruncatedStream,
    /// The header's source length is not the length of the source buffer.
    SourceLengthMismatch,
    /// The commands produced a buffer whose length differs from the header's target length.
    TargetLengthMismatch,
    /// A copy command reaches past the end of the source buffer.
    CopyOutOfBounds,
    /// An insert command asks for more literal bytes than the stream still holds.
    InsertOutOfBounds,
    /// A size field holds a value that does not fit in `usize`.
    SizeOverflow,
}

} // verus!
