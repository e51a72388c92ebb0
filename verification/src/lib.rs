//! Terminal ASCII-art animation: fixed-size character grids ("frames")
//! with a clipped overlay operation, and ordered frame sequences
//! ("movies") with cyclic sequence-to-sequence overlay and playback
//! timing.
//!
//! The compositing logic is verified; reading frame content from disk
//! and writing frames to a terminal are left to the embedding program.

pub mod error;
pub mod frame;
pub mod movie;

pub use error::CineError;
pub use frame::Frame;
pub use movie::Movie;
