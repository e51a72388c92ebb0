use vstd::prelude::*;

verus! {

/// The recoverable failures of the compositing engine.
///
/// A source read failure is not listed here: reading frame content from
/// disk happens outside the library, and its error is propagated to the
/// caller unchanged.
#[derive(Clone, Copy, Debug, PartialEq, Eq, Structural)]
pub enum CineError {
    /// A frame whose dimensions differ from the movie's was appended.
    DimensionMismatch,
    /// A playback rate of zero frames per second was supplied.
    InvalidFrameRate,
    /// A movie overlay was attempted against a movie with no frames,
    /// which would leave the cyclic frame pairing undefined.
    EmptyOverlaySource,
}

} // verus!
