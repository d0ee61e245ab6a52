//! The closed set of ways in which a rendering request can fail.

use vstd::prelude::*;

verus! {

/// Why a request was refused. Each kind is local to the request: the caller
/// may report it and go on.
#[derive(Clone, Copy, Debug, PartialEq, Eq, Structural)]
pub enum RenderError {
    /// The highlighter itself failed; this is not a syntax error in the text.
    HighlighterFault,
    /// An enter event names a category that the colour table does not hold.
    UnknownCategory,
    /// An exit event came with no category open.
    StackUnderflow,
    /// A text span does not lie inside the source text.
    SpanOutOfRange,
    /// One serialised line does not fit into a chunk even alone.
    LineTooLong,
    /// The projected pixel area is above the ceiling.
    ImageTooLarge,
    /// The raster image could not be encoded.
    EncodingFailed,
    /// The encoded image is above the upload ceiling.
    OutputTooLarge,
    /// The same identity already has a render in flight.
    AlreadyRendering,
}

} // verus!
