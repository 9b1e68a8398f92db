//! Offline payment queueing for a Stellar mesh wallet.
//!
//! The crate orders a device's own outgoing payments, caps how many of them
//! may jump the queue, hands out account sequence numbers while there is no
//! connectivity, caches multisig signer sets, and proves in zero knowledge
//! that the emergency spend of a window stays below a cap.
mod bytes;
pub mod clock;
pub mod curve;
pub mod errors;
pub mod fiat_shamir;
pub mod message;
pub mod padding;
pub mod queue;
pub mod range_proof;
pub mod text;
