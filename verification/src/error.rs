//! Error type shared by every decoder of the crate.

use vstd::prelude::*;

verus! {

/// Everything that can go wrong while decoding.
#[derive(Debug, PartialEq, Eq, Clone, Structural)]
pub enum BitcoinError {
    /// The buffer ends before a required field can be fully read.
    InsufficientBytes,
    /// A malformed textual representation (bad hex, wrong length).
    InvalidFormat,
}

} // verus!
