//! Errors while converting animation data.
use vstd::prelude::*;
use crate::anim_data::bitutils::BitReadError;

verus! {

/// Errors while converting animation data to and from the file representation.
#[derive(Debug)]
pub enum Error {
    /// Creating an animation for the given version is not supported.
    UnsupportedVersion { major_version: u16, minor_version: u16 },

    /// The final frame index is negative or smaller than the index of the final frame
    /// in the longest track. The index is carried as its `f32` bit pattern.
    InvalidFinalFrameIndex { final_frame_index: u32 },

    /// An error occurred while writing data to a buffer.
    Io(std::io::Error),

    /// An error occurred while reading compressed data from a buffer.
    BitError(BitReadError),

    /// The compressed header's bits per entry does not match the compression.
    UnexpectedBitCount { expected: usize, actual: usize },

    /// The track data range is out of range for the buffer.
    InvalidTrackDataRange { start: usize, size: usize, buffer_size: usize },

    /// The buffer index is not valid for a version 1.2 animation.
    BufferIndexOutOfRange { buffer_index: usize, buffer_count: usize },

    /// The provided animation data is malformed or incomplete.
    InvalidData,

    /// The track data compression header is malformed and cannot be read.
    MalformedCompressionHeader,
}

} // verus!
