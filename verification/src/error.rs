//! Error kinds observable to the protocol engine.

use vstd::prelude::*;

verus! {

/// What can go wrong, as seen by the engine and its callers.
#[derive(Clone, Copy, Debug, PartialEq, Eq, Structural)]
pub enum Error {
    /// No peers are known when checking sync.
    NotConnected,
    /// A frame could not be decoded.
    DecodeFailed,
    /// A frame carried a magic other than the configured network's.
    MagicMismatch,
    /// The block tree rejected a header import.
    TreeValidation,
    /// The transport failed (socket read, write or connect).
    TransportFailed,
}

} // verus!
