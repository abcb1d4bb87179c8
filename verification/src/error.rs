use vstd::prelude::*;

verus! {

/// Everything that can go wrong while translating paths or assembling the
/// document. All failures are reported immediately; nothing is retried.
#[derive(Clone, Copy, Debug, PartialEq, Eq, Structural)]
pub enum LyonTranslationError {
    /// A path produced zero drawing commands, or a command stream that does
    /// not begin with a move.
    EmptyGeometry,
    /// A text size that is not positive.
    InvalidFontSize,
    /// The assembler holds no nodes at all, so no viewport can be computed.
    DegenerateViewport,
    /// Text flattening was requested but no font provider is attached.
    MissingFontProvider,
    /// The font shaper collaborator failed.
    FontFailure,
    /// The document serializer collaborator failed.
    SerializationFailure,
    /// The output sink collaborator failed.
    IoError,
}

} // verus!
