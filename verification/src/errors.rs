//! Errors surfaced while parsing metadata.
//!
//! Corruption means the stream is internally inconsistent with the format's
//! invariants; compatibility means a recognized-but-unsupported value from a
//! newer format revision. Both abort parsing of the whole chunk or page:
//! a misparsed field would silently desynchronize every later read.

use vstd::prelude::*;

verus! {

use crate::constants::Bitlen;

/// The specific format invariant a corrupt stream violated, with the
/// offending values.
#[derive(Clone, Copy, Debug, PartialEq, Eq, Structural)]
pub enum CorruptionKind {
    /// An ANS table of `2^ans_size_log` states cannot hold `n_bins` bins.
    AnsSizeLogTooSmall { ans_size_log: Bitlen, n_bins: u64 },
    /// A single-bin table needs no table at all, so its `ans_size_log`
    /// must be 0.
    SingleBinNonzeroAnsSizeLog { ans_size_log: Bitlen },
    /// `offset_bits` exceeds the bit width of the representation type.
    OffsetBitsTooLarge { offset_bits: Bitlen },
    /// Nonzero bits in the final, padded byte of chunk metadata.
    NonzeroPaddingChunk,
    /// Nonzero bits in the final, padded byte of page metadata.
    NonzeroPaddingPage,
}

/// An error from parsing chunk or page metadata. Non-retryable: after any
/// of these the stream position is not meaningful for further reads.
#[derive(Clone, Copy, Debug, PartialEq, Eq, Structural)]
pub enum PcoError {
    /// The stream ended in the middle of a field.
    InsufficientData,
    /// The stream is internally inconsistent with the format.
    Corruption(CorruptionKind),
    /// The stream carries a mode tag this revision does not know.
    Compatibility { mode_tag: u64 },
}

/// The result of any fallible metadata operation.
pub type PcoResult<T> = Result<T, PcoError>;

impl PcoError {
    /// A human-readable description of the violated invariant.
    pub fn message(&self) -> &'static str {
        match self {
            PcoError::InsufficientData => "ran out of data mid-field",
            PcoError::Corruption(kind) => match kind {
                CorruptionKind::AnsSizeLogTooSmall { .. } => {
                    "corruption: ANS size log is too small for the number of bins"
                },
                CorruptionKind::SingleBinNonzeroAnsSizeLog { .. } => {
                    "corruption: only 1 bin but ANS size log is not 0"
                },
                CorruptionKind::OffsetBitsTooLarge { .. } => {
                    "corruption: offset bits exceed the width of the data type"
                },
                CorruptionKind::NonzeroPaddingChunk => {
                    "corruption: nonzero bits in end of final byte of chunk metadata"
                },
                CorruptionKind::NonzeroPaddingPage => {
                    "corruption: non-zero bits at end of data page metadata"
                },
            },
            PcoError::Compatibility { .. } => "compatibility: unknown mode value",
        }
    }
}

} // verus!
