//! Errors while converting mesh data.
use vstd::prelude::*;

verus! {

/// Errors while converting mesh data to and from the file representation.
#[derive(Debug)]
pub enum Error {
    /// The attributes have a different number of elements, so the vertex count cannot be determined.
    AttributeDataLengthMismatch,

    /// A vertex index that would result in an out of bounds access when rendering.
    /// All vertex indices should be strictly less than the vertex count.
    VertexIndexOutOfRange { vertex_index: usize, vertex_count: usize },

    /// The vertex index count is not a multiple of 3. Only triangles are supported.
    NonTriangulatedFaces { vertex_index_count: usize },

    /// `vertex_index` exceeds the representable limit for skin weight indices.
    /// Version 1.8 and 1.9 have a limit of `u32::MAX`.
    /// Version 1.10 has a limit of `u16::MAX`.
    SkinWeightVertexIndexExceedsLimit {
        vertex_index: usize,
        limit: usize,
        major_version: u16,
        minor_version: u16,
    },

    /// Creating a mesh file for the given version is not supported.
    UnsupportedVersion { major_version: u16, minor_version: u16 },

    /// An error occurred while writing data to a buffer.
    Io(std::io::Error),
}

/// Errors while reading mesh attribute data.
#[derive(Debug)]
pub enum AttributeError {
    /// An attribute buffer index that does not refer to an available vertex buffer.
    BufferIndexOutOfRange { buffer_index: usize, buffer_count: usize },

    /// No offset or stride exists for the given buffer index.
    /// Buffer indices higher than 3 are not supported.
    NoOffsetOrStride(u64),

    /// An error occurred while reading the data from the buffer.
    Io(std::io::Error),
}

} // verus!
