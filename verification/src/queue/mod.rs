//! The queue of outgoing payments: the order they go in, the sequence numbers
//! they are signed against, and proofs that their sum stays below a cap.
pub mod dispatch_history;
pub mod priority;
pub mod reservation_history;
pub mod sequence;
pub mod spend_cap_laws;
pub mod zk_spend_proof;

pub use priority::{EmergencyGuardConfig, OutboundTxQueue, TxPriority};
pub use sequence::{MultisigAccountRegistry, ReconciliationOutcome, SequenceReservationManager};
pub use zk_spend_proof::{
    build_prover_for_window, SpendCapProof, SpendCapProver, SpendCapVerifier,
};
