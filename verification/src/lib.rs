//! A deterministic Bitcoin peer-to-peer protocol core: a pure state machine
//! that drives handshakes, peer lifecycle and initial block-header
//! synchronization, together with a verified wire codec and a
//! network-adjusted clock.

pub mod clock;
pub mod codec;
pub mod error;
pub mod message;
pub mod peer;
pub mod protocol;
pub mod table;
pub mod tree;
