//! Configuration handed down by the embedding layer.

use vstd::prelude::*;

verus! {

/// How chunk metadata is framed.
///
/// In wrapped mode an outer container format owns the entry count and the
/// compressed body size, so chunk metadata stores neither.
#[derive(Clone, Copy, Debug, PartialEq, Eq, Structural)]
pub struct Flags {
    /// True when an outer format owns `n` and `compressed_body_size`.
    pub use_wrapped_mode: bool,
}

} // verus!
