# Sync engine queue

The queueing layer of a wallet that pays over a mesh while it is offline,
verified with Verus.

- `src/queue/priority.rs`: the order in which payments go, and the guard on
  emergency payments. `src/queue/dispatch_history.rs` states what holds over
  whole histories of calls.
- `src/queue/sequence.rs`: sequence numbers reserved offline, and cached
  multisig signers. `src/queue/reservation_history.rs` states what holds over
  whole histories of calls.
- `src/queue/zk_spend_proof.rs`: proofs that the emergency payments of a window
  stay below a cap, over `src/curve.rs`, `src/fiat_shamir.rs` and
  `src/range_proof.rs`, which hold what is trusted of the cryptographic crates.
- `app/`: the machine's clock.
- `extras/spend_proof_vector.py`: makes the stored proof that
  `tests/stored_proof.rs` verifies.
