use curve25519_dalek::constants::RISTRETTO_BASEPOINT_POINT;
use curve25519_dalek::scalar::Scalar;

use stellarconduit_sync_engine::curve;
use stellarconduit_sync_engine::errors::SyncEngineError;
use stellarconduit_sync_engine::queue::{
    build_prover_for_window, SpendCapProof, SpendCapProver, SpendCapVerifier,
};
use stellarconduit_sync_engine::text;

#[test]
fn test_valid_compliant_spend_proof_verifies() {
    let amounts = vec![300_000_000u64, 200_000_000u64, 100_000_000u64]; // 600M stroops total
    let cap = 1_000_000_000u64; // 1B stroops

    let prover = SpendCapProver::new(amounts, cap);
    let proof = prover
        .generate_proof()
        .expect("proof generation must succeed");

    SpendCapVerifier::verify_proof(&proof)
        .expect("valid compliant proof must verify without error");
}

#[test]
fn test_over_cap_spend_proof_fails_verification() {
    // The prover refuses to generate a proof for sum >= cap.
    let amounts = vec![600_000_000u64, 500_000_000u64]; // 1.1B stroops
    let cap = 1_000_000_000u64; // cap = 1B — sum is over cap

    let prover = SpendCapProver::new(amounts, cap);
    let err = prover
        .generate_proof()
        .expect_err("prover must refuse to prove a false statement (sum >= cap)");
    assert!(
        matches!(err, SyncEngineError::ZkProofInput(_)),
        "expected ZkProofInput, got {:?}",
        err
    );

    // A valid proof, but verifier's cap is reduced so the
    // homomorphic sum check fails.  This simulates an attacker who
    // generated a proof against a large cap but submits it to a relay
    // with a smaller cap.
    let honest_amounts = vec![300_000_000u64, 200_000_000u64];
    let honest_cap = 1_000_000_000u64;
    let proof = SpendCapProver::new(honest_amounts, honest_cap)
        .generate_proof()
        .expect("valid proof generation");

    // Relay has a smaller cap: tamper by reducing proof.cap.
    let mut tampered_proof = proof.clone();
    tampered_proof.cap = 400_000_000u64; // sum = 500M > 400M

    let err = SpendCapVerifier::verify_proof(&tampered_proof)
        .expect_err("tampered cap must fail verification");
    assert!(
        matches!(err, SyncEngineError::ZkProofVerification(_)),
        "expected ZkProofVerification, got {:?}",
        err
    );
}

#[test]
fn test_single_amount_proof_verifies() {
    let proof = SpendCapProver::new(vec![1_000u64], 10_000u64)
        .generate_proof()
        .expect("single-amount proof");
    SpendCapVerifier::verify_proof(&proof).expect("single-amount proof must verify");
}

#[test]
fn test_amount_at_cap_minus_one_verifies() {
    // Exactly cap - 1 is the maximum allowed sum.
    let cap = 100u64;
    let proof = SpendCapProver::new(vec![cap - 1], cap)
        .generate_proof()
        .expect("amount = cap - 1 proof");
    SpendCapVerifier::verify_proof(&proof).expect("amount = cap - 1 must verify");
}

#[test]
fn test_amount_equal_to_cap_is_rejected_by_prover() {
    let cap = 100u64;
    let err = SpendCapProver::new(vec![cap], cap)
        .generate_proof()
        .expect_err("amount = cap must be rejected");
    assert!(matches!(err, SyncEngineError::ZkProofInput(_)));
}

#[test]
fn test_empty_amounts_rejected() {
    let err = SpendCapProver::new(vec![], 1_000u64)
        .generate_proof()
        .expect_err("empty amounts must be rejected");
    assert!(matches!(err, SyncEngineError::ZkProofInput(_)));
}

#[test]
fn test_zero_cap_rejected() {
    let err = SpendCapProver::new(vec![1u64], 0u64)
        .generate_proof()
        .expect_err("zero cap must be rejected");
    assert!(matches!(err, SyncEngineError::ZkProofInput(_)));
}

#[test]
fn test_tampered_proof_bytes_rejected() {
    let proof = SpendCapProver::new(vec![100u64, 200u64], 1_000u64)
        .generate_proof()
        .expect("proof generation");

    let mut tampered = proof.clone();
    // Flip a byte in the middle of the proof to corrupt the range proof.
    let mid = tampered.proof_bytes.len() / 2;
    tampered.proof_bytes[mid] ^= 0xFF;

    let err = SpendCapVerifier::verify_proof(&tampered)
        .expect_err("tampered proof bytes must fail verification");
    assert!(
        matches!(
            err,
            SyncEngineError::ZkProofInput(_) | SyncEngineError::ZkProofVerification(_)
        ),
        "expected ZkProofInput or ZkProofVerification, got {:?}",
        err
    );
}

#[test]
fn test_tampered_commitment_rejected() {
    let proof = SpendCapProver::new(vec![100u64, 200u64], 1_000u64)
        .generate_proof()
        .expect("proof generation");

    let mut tampered = proof.clone();
    // Replace the first amount commitment with zeros.
    tampered.amount_commitments[0] = [0u8; 32];

    let err = SpendCapVerifier::verify_proof(&tampered)
        .expect_err("tampered commitment must fail verification");
    assert!(
        matches!(
            err,
            SyncEngineError::ZkProofInput(_) | SyncEngineError::ZkProofVerification(_)
        ),
        "expected ZkProofInput or ZkProofVerification, got {:?}",
        err
    );
}

#[test]
fn test_with_envelope_ids() {
    let ids: Vec<[u8; 32]> = (0u8..3).map(|i| [i; 32]).collect();
    let proof = SpendCapProver::new(vec![100u64, 200u64, 300u64], 1_000u64)
        .with_envelope_ids(ids.clone())
        .generate_proof()
        .expect("proof with envelope IDs");

    assert_eq!(proof.envelope_ids, ids);
    SpendCapVerifier::verify_proof(&proof).expect("proof with IDs must verify");
}

#[test]
fn test_with_context_binds_to_transcript() {
    let amounts = vec![100u64, 200u64];
    let cap = 1_000u64;
    let ctx = b"relay-nonce-abc123".to_vec();

    // Proof generated with context.
    let proof = SpendCapProver::new(amounts.clone(), cap)
        .with_context(ctx.clone())
        .generate_proof()
        .expect("proof with context");

    // Verifying with the correct context succeeds.
    SpendCapVerifier::verify_proof_with_context(&proof, &ctx)
        .expect("verification with matching context");

    // Verifying with no context fails (different transcript state).
    let err = SpendCapVerifier::verify_proof_with_context(&proof, &[])
        .expect_err("verification with wrong context must fail");
    assert!(matches!(err, SyncEngineError::ZkProofVerification(_)));

    // Verifying with a different context also fails.
    let err = SpendCapVerifier::verify_proof_with_context(&proof, b"wrong-nonce")
        .expect_err("verification with different context must fail");
    assert!(matches!(err, SyncEngineError::ZkProofVerification(_)));
}

#[test]
fn test_build_prover_for_window_empty_returns_none() {
    assert!(build_prover_for_window(vec![], 1_000u64).is_none());
}

#[test]
fn test_build_prover_for_window_over_cap_returns_none() {
    assert!(build_prover_for_window(vec![500u64, 600u64], 1_000u64).is_none());
}

#[test]
fn test_build_prover_for_window_valid_returns_prover() {
    let prover = build_prover_for_window(vec![200u64, 300u64], 1_000u64)
        .expect("valid window should produce a prover");
    let proof = prover.generate_proof().expect("proof from window prover");
    SpendCapVerifier::verify_proof(&proof).expect("window proof must verify");
}

fn input_error(text: &str) -> SyncEngineError {
    SyncEngineError::ZkProofInput(text.to_string())
}

fn verification_error(text: &str) -> SyncEngineError {
    SyncEngineError::ZkProofVerification(text.to_string())
}

fn small_proof() -> SpendCapProof {
    SpendCapProver::new(vec![300u64], 1_000u64)
        .generate_proof()
        .unwrap()
}

const SUM_CHECK_FAILED: &str =
    "homomorphic sum check failed: committed values do not sum to cap \u{2212} 1";

const RANGE_CHECK_FAILED: &str =
    "Bulletproofs range proof verification failed: Proof verification failed.";

#[test]
fn unprovable_spends_are_refused_with_the_reason() {
    assert_eq!(
        SpendCapProver::new(vec![], 0).generate_proof().unwrap_err(),
        input_error("amounts list is empty; nothing to prove")
    );
    assert_eq!(
        SpendCapProver::new(vec![1], 0).generate_proof().unwrap_err(),
        input_error("cap must be > 0 (cap = 0 means no Emergency payment can ever be compliant)")
    );
    assert_eq!(
        SpendCapProver::new(vec![u64::MAX, 1], 5).generate_proof().unwrap_err(),
        input_error("sum of amounts overflows u64; amounts are unreasonably large")
    );
    assert_eq!(
        SpendCapProver::new(vec![600, 500], 1_000).generate_proof().unwrap_err(),
        input_error(
            "sum of amounts (1100) >= cap (1000); cannot prove compliance with a false statement"
        )
    );
}

#[test]
fn malformed_proofs_are_refused_with_the_reason() {
    let proof = small_proof();
    let mut empty = proof.clone();
    empty.amount_commitments.clear();
    empty.cap = 0;
    assert_eq!(
        SpendCapVerifier::verify_proof(&empty),
        Err(input_error("proof contains no amount commitments"))
    );

    let mut capless = proof.clone();
    capless.cap = 0;
    capless.proof_bytes.clear();
    assert_eq!(
        SpendCapVerifier::verify_proof(&capless),
        Err(input_error("proof.cap must be > 0"))
    );

    let unreadable = Err(input_error(
        "failed to deserialise range proof: Proof data could not be parsed.",
    ));
    let mut cut = proof.clone();
    cut.proof_bytes.pop();
    assert_eq!(SpendCapVerifier::verify_proof(&cut), unreadable);
    cut.proof_bytes.truncate(32 * 8);
    assert_eq!(SpendCapVerifier::verify_proof(&cut), unreadable);
    cut.proof_bytes.clear();
    assert_eq!(SpendCapVerifier::verify_proof(&cut), unreadable);

    let mut unreduced = proof.clone();
    let last = unreduced.proof_bytes.len() - 1;
    unreduced.proof_bytes[last] = 0xFF;
    assert_eq!(SpendCapVerifier::verify_proof(&unreduced), unreadable);
}

#[test]
fn tampering_fails_the_range_check_or_the_sum_check() {
    let proof = small_proof();

    let mut no_point = proof.clone();
    no_point.amount_commitments[0] = [0xFF; 32];
    assert_eq!(
        SpendCapVerifier::verify_proof(&no_point),
        Err(verification_error(RANGE_CHECK_FAILED))
    );

    let mut too_many = proof.clone();
    too_many.amount_commitments.push([0u8; 32]);
    assert_eq!(
        SpendCapVerifier::verify_proof(&too_many),
        Err(verification_error(RANGE_CHECK_FAILED))
    );

    let mut swapped = proof.clone();
    swapped.amount_commitments[0] = proof.slack_commitment;
    swapped.slack_commitment = proof.amount_commitments[0];
    assert_eq!(
        SpendCapVerifier::verify_proof(&swapped),
        Err(verification_error(RANGE_CHECK_FAILED))
    );

    let mut wrong_sum = proof.clone();
    wrong_sum.blinding_sum[0] ^= 1;
    assert_eq!(
        SpendCapVerifier::verify_proof(&wrong_sum),
        Err(verification_error(SUM_CHECK_FAILED))
    );
}

#[test]
fn the_conclusion_follows_the_range_verifier_and_the_sum() {
    let proof = small_proof();
    assert_eq!(SpendCapVerifier::conclude(&proof, Ok(())), Ok(()));
    assert_eq!(
        SpendCapVerifier::conclude(&proof, Err("out of luck".to_string())),
        Err(verification_error(
            "Bulletproofs range proof verification failed: out of luck"
        ))
    );

    let mut other_cap = proof.clone();
    other_cap.cap = 1_001;
    assert_eq!(
        SpendCapVerifier::conclude(&other_cap, Ok(())),
        Err(verification_error(SUM_CHECK_FAILED))
    );

    let mut no_point = proof.clone();
    no_point.slack_commitment = [0xFF; 32];
    assert_eq!(
        SpendCapVerifier::conclude(&no_point, Ok(())),
        Err(input_error("a Pedersen commitment point failed to decompress"))
    );
}

#[test]
fn no_other_cap_is_accepted() {
    let proof = small_proof();
    for cap in [1u64, 300, 301, 999, 1_001, u64::MAX] {
        let mut tampered = proof.clone();
        tampered.cap = cap;
        assert!(matches!(
            SpendCapVerifier::verify_proof(&tampered),
            Err(SyncEngineError::ZkProofVerification(_))
        ));
    }
}

#[test]
fn a_single_payment_takes_736_bytes() {
    let proof = small_proof();
    assert_eq!(proof.proof_bytes.len(), 736);
    assert_eq!(proof.amount_commitments.len(), 1);
}

#[test]
fn three_payments_take_800_bytes() {
    let proof = SpendCapProver::new(vec![1, 2, 3], 1_000).generate_proof().unwrap();
    assert_eq!(proof.proof_bytes.len(), 800);
    assert_eq!(proof.amount_commitments.len(), 3);
}

#[test]
fn the_largest_cap_verifies() {
    let proof = SpendCapProver::new(vec![u64::MAX - 1], u64::MAX)
        .generate_proof()
        .unwrap();
    SpendCapVerifier::verify_proof(&proof).unwrap();
}

#[test]
fn the_smallest_cap_verifies() {
    let proof = SpendCapProver::new(vec![0], 1).generate_proof().unwrap();
    SpendCapVerifier::verify_proof(&proof).unwrap();
}

#[test]
fn an_empty_context_is_no_context() {
    let proof = SpendCapProver::new(vec![5], 9)
        .with_context(vec![])
        .generate_proof()
        .unwrap();
    SpendCapVerifier::verify_proof(&proof).unwrap();
    SpendCapVerifier::verify_proof_with_context(&proof, &[]).unwrap();
}

#[test]
fn the_same_amount_is_never_committed_to_alike() {
    let first = small_proof();
    let second = small_proof();
    assert_ne!(first.amount_commitments, second.amount_commitments);
    assert_ne!(first.slack_commitment, second.slack_commitment);
    assert_ne!(first.proof_bytes, second.proof_bytes);
    assert_eq!(
        SpendCapVerifier::verify_proof(&first),
        SpendCapVerifier::verify_proof(&second)
    );
}

/// A proof's commitments, made with the generators themselves.
fn commitments_to(amounts: &[u64], cap: u64) -> SpendCapProof {
    let gens = bulletproofs::PedersenGens::default();
    let slack = cap - 1 - amounts.iter().sum::<u64>();
    let mut total = Scalar::ZERO;
    let mut commitments: Vec<[u8; 32]> = Vec::new();
    for (i, &value) in amounts.iter().chain([&slack]).enumerate() {
        let blinding = Scalar::from(1_000_003 * i as u64 + 17);
        total += blinding;
        commitments.push(gens.commit(Scalar::from(value), blinding).compress().to_bytes());
    }
    let slack_commitment = commitments.pop().unwrap();
    SpendCapProof {
        proof_bytes: vec![],
        amount_commitments: commitments,
        slack_commitment,
        blinding_sum: total.to_bytes(),
        cap,
        envelope_ids: vec![],
    }
}

#[test]
fn eight_amounts_add_up_to_the_cap_and_to_no_other() {
    let amounts: Vec<u64> = (1..=8).map(|i| i * 1_000u64).collect();
    let mut proof = commitments_to(&amounts, 100_000);
    assert_eq!(SpendCapVerifier::conclude(&proof, Ok(())), Ok(()));
    for cap in [1u64, 36_000, 99_999, 100_001, u64::MAX] {
        proof.cap = cap;
        assert_eq!(
            SpendCapVerifier::conclude(&proof, Ok(())),
            Err(verification_error(SUM_CHECK_FAILED))
        );
    }
}

#[test]
fn a_proof_carries_the_cap_and_opens_to_it() {
    let proof = SpendCapProver::new(vec![11], 40).generate_proof().unwrap();
    assert_eq!(proof.cap, 40);
    assert!(proof.envelope_ids.is_empty());
    let mut commitments = proof.amount_commitments.clone();
    commitments.push(proof.slack_commitment);
    let gens = bulletproofs::PedersenGens::default();
    let blinding = Scalar::from_bytes_mod_order(proof.blinding_sum);
    assert_eq!(
        curve::sum_points(&commitments),
        Some(gens.commit(Scalar::from(39u64), blinding).compress().to_bytes())
    );
}

#[test]
fn a_proof_with_given_blindings_commits_under_them() {
    let drawn = vec![Scalar::from(3u64).to_bytes(), (-Scalar::from(8u64)).to_bytes()];
    let proof = SpendCapProver::new(vec![11], 40).prove_with(&drawn).unwrap();
    let gens = bulletproofs::PedersenGens::default();
    assert_eq!(
        proof.amount_commitments,
        [gens.commit(Scalar::from(11u64), Scalar::from(3u64)).compress().to_bytes()]
    );
    assert_eq!(
        proof.slack_commitment,
        gens.commit(Scalar::from(28u64), -Scalar::from(8u64)).compress().to_bytes()
    );
    assert_eq!(proof.blinding_sum, (-Scalar::from(5u64)).to_bytes());
    SpendCapVerifier::verify_proof(&proof).unwrap();
}

#[test]
fn given_blindings_do_not_make_a_false_statement_provable() {
    let drawn = vec![[1u8; 32], [2u8; 32]];
    assert_eq!(
        SpendCapProver::new(vec![40], 40).prove_with(&drawn).unwrap_err(),
        input_error(
            "sum of amounts (40) >= cap (40); cannot prove compliance with a false statement"
        )
    );
}

#[test]
fn blindings_are_neither_zero_nor_shared() {
    let proof = small_proof();
    let gens = bulletproofs::PedersenGens::default();
    let bare = gens.commit(Scalar::from(300u64), Scalar::ZERO).compress().to_bytes();
    assert_ne!(proof.amount_commitments[0], bare);
    let total = Scalar::from_bytes_mod_order(proof.blinding_sum);
    let half = total * Scalar::from(2u64).invert();
    assert_ne!(
        proof.amount_commitments[0],
        gens.commit(Scalar::from(300u64), half).compress().to_bytes()
    );
}

#[test]
fn other_envelope_ids_change_no_answer() {
    let mut proof = small_proof();
    proof.envelope_ids = vec![[7u8; 32], [8u8; 32]];
    SpendCapVerifier::verify_proof(&proof).unwrap();
    proof.cap += 1;
    assert_eq!(
        SpendCapVerifier::conclude(&proof, Ok(())),
        Err(verification_error(SUM_CHECK_FAILED))
    );
}

#[test]
fn assembling_sums_the_blindings_of_amounts_and_slack() {
    let prover = SpendCapProver::new(vec![7], 10).with_envelope_ids(vec![[3u8; 32]]);
    let mut one = [0u8; 32];
    one[0] = 1;
    let minus_two = (-Scalar::from(2u64)).to_bytes();
    let blindings = vec![minus_two, one, [9u8; 32]];
    let commitments = vec![[1u8; 32], [2u8; 32], [4u8; 32]];
    let proof = prover
        .assemble(&blindings, Ok((vec![8, 8, 8], commitments)))
        .unwrap();
    assert_eq!(proof.proof_bytes, [8, 8, 8]);
    assert_eq!(proof.amount_commitments, [[1u8; 32]]);
    assert_eq!(proof.slack_commitment, [2u8; 32]);
    assert_eq!(proof.blinding_sum, (-Scalar::from(1u64)).to_bytes());
    assert_eq!(proof.cap, 10);
    assert_eq!(proof.envelope_ids, [[3u8; 32]]);
}

#[test]
fn a_failure_of_the_range_prover_is_passed_on() {
    let prover = SpendCapProver::new(vec![7], 10);
    let blindings = vec![[0u8; 32], [0u8; 32]];
    assert_eq!(
        prover.assemble(&blindings, Err("no luck".to_string())).unwrap_err(),
        SyncEngineError::ZkProofGeneration(
            "Bulletproofs prove_multiple failed: no luck".to_string()
        )
    );
}

#[test]
fn a_window_at_its_cap_or_beyond_u64_has_no_prover() {
    assert!(build_prover_for_window(vec![400, 600], 1_000).is_none());
    assert!(build_prover_for_window(vec![u64::MAX, 1], u64::MAX).is_none());
    assert!(build_prover_for_window(vec![0], 0).is_none());
    assert!(build_prover_for_window(vec![400, 599], 1_000).is_some());
}

#[test]
fn points_are_summed_in_the_group() {
    let base = RISTRETTO_BASEPOINT_POINT.compress().to_bytes();
    let triple = (RISTRETTO_BASEPOINT_POINT * Scalar::from(3u64)).compress().to_bytes();
    assert_eq!(curve::sum_points(&vec![]), Some([0u8; 32]));
    assert_eq!(curve::sum_points(&vec![base]), Some(base));
    assert_eq!(curve::sum_points(&vec![base, base, base]), Some(triple));
    assert_eq!(curve::sum_points(&vec![base, [0xFF; 32]]), None);
}

#[test]
fn numbers_are_written_in_decimal() {
    assert_eq!(text::decimal_text(0), "0");
    assert_eq!(text::decimal_text(9), "9");
    assert_eq!(text::decimal_text(10), "10");
    assert_eq!(text::decimal_text(u64::MAX), "18446744073709551615");
    assert_eq!(text::signed_decimal_text(-70), "-70");
    assert_eq!(text::signed_decimal_text(i64::MAX), "9223372036854775807");
    assert_eq!(text::joined("ab", "cd"), "abcd");
}
