//! A fixed-dimension vector segment store: a little-endian binary layout for
//! collections of equal-length embedding vectors, with verified encoding,
//! decoding and random access by ordinal index.
//!
//! The library works on byte images of segment files; opening, seeking and
//! flushing files is left to the caller.

pub mod binary_io;
pub mod hexdump;
pub mod models;
pub mod segment;
pub mod vector;

pub use binary_io::{
    read_f32, read_f32_vec, read_f64, read_u32, read_u64, write_f32, write_f32_slice, write_f64,
    write_u32, write_u64,
};
pub use hexdump::hex_dump;
pub use models::{default_top_k, ApiResponse, DistanceMetric, SearchRequest, VectorDbError};
pub use segment::{
    decode_vector, decode_vectors, read_segment, read_segment_header, read_vector_at,
    read_vectors_range, write_segment,
    SegmentError, SegmentHeader, HEADER_SIZE, MAGIC, VERSION,
};
pub use vector::Vector;
