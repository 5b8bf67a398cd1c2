//! Format constants: the fixed widths of every metadata field.
//!
//! These widths are part of the versioned binary format; any change breaks
//! compatibility with previously written data.

use vstd::prelude::*;

verus! {

/// Number of bits in a field, or a count of bits already read or written.
pub type Bitlen = u32;

/// One state of the ANS entropy coder, an index into its table.
pub type AnsState = u64;

/// The multiplicity of one bin in the ANS table.
pub type Weight = u32;

/// Bit width of the unsigned representation type that carries values
/// (and bit-reinterpreted floats) through the codec.
pub const U_BITS: Bitlen = 64;

/// Width of the per-latent `ans_size_log` field.
pub const BITS_TO_ENCODE_ANS_SIZE_LOG: Bitlen = 4;

/// Width of the per-latent bin count field.
pub const BITS_TO_ENCODE_N_BINS: Bitlen = 15;

/// Width of the chunk entry count field (standalone mode only).
pub const BITS_TO_ENCODE_N_ENTRIES: Bitlen = 24;

/// Width of the compressed body size field (standalone mode only).
pub const BITS_TO_ENCODE_COMPRESSED_BODY_SIZE: Bitlen = 32;

/// Width of the mode tag field.
pub const BITS_TO_ENCODE_MODE: Bitlen = 4;

/// Width of the delta encoding order field; orders 0 through 7 fit.
pub const BITS_TO_ENCODE_DELTA_ENCODING_ORDER: Bitlen = 3;

/// Width of the per-bin `offset_bits` field, enough for `0..=U_BITS`.
pub const BITS_TO_ENCODE_OFFSET_BITS: Bitlen = 7;

/// How many interleaved ANS lanes a page records final states for.
pub const ANS_INTERLEAVING: usize = 4;

/// The highest delta encoding order the format can store.
pub const MAX_DELTA_ENCODING_ORDER: usize = 7;

} // verus!
