//! The envelope in which a signed transaction travels the mesh.
use vstd::prelude::*;

verus! {

/// A signed transaction with its routing data.
#[derive(Debug, Clone)]
pub struct TransactionEnvelope {
    /// Identifies the envelope on the mesh.
    pub message_id: [u8; 32],
    /// Ed25519 public key of the device that made the envelope.
    pub origin_pubkey: [u8; 32],
    /// The transaction, as base64 XDR.
    pub tx_xdr: String,
    /// How many more hops the envelope may travel.
    pub ttl_hops: u8,
    /// Unix seconds at which the envelope was made.
    pub timestamp: u64,
    /// Ed25519 signature of the origin over the envelope.
    pub signature: [u8; 64],
}

} // verus!
