//! The ways a call can be refused.

use vstd::prelude::*;

verus! {

/// Why the cipher refused its input.
#[derive(Debug, Clone, Copy, PartialEq, Eq, Structural)]
pub enum CipherError {
    /// The key is longer than 255 bytes.
    InvalidKeyLength,
    /// The input is not a whole number of blocks.
    InvalidInputLength,
}

} // verus!
