//! Chunk and page metadata model for a binary codec of numeric columns.
//!
//! The codec groups values into quantization buckets ("bins"), entropy-codes
//! the bucket choices with a tabled asymmetric numeral system (ANS), and
//! stores a small residual offset per value. This crate holds the metadata
//! layer: the in-memory record of everything needed to reconstruct one chunk
//! (the bucket tables, the coder's table sizes and final states, the
//! arithmetic mode, and delta-encoding bookkeeping) together with its exact
//! bit-level serialization.
//!
//! Every field of the format is specified as a sequence of bits
//! ([`bits::u_bits`]), and the writers and parsers are proved to emit and
//! accept exactly the specified encodings.

pub mod bin;
pub mod bit_reader;
pub mod bit_writer;
pub mod bits;
pub mod chunk_metadata;
pub mod constants;
pub mod delta;
pub mod errors;
pub mod flags;
pub mod format;
pub mod laws;
pub mod modes;
