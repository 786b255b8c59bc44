//! Collapses runs of spaces and tabs into single spaces, trimming them at
//! both ends, with a bulk pass over sixteen-byte lanes and a scalar tail.
pub mod collapse;
pub mod encoding;
pub mod lanes;
pub mod laws;
pub mod model;
pub mod words;

pub use collapse::collapse_whitespace;
