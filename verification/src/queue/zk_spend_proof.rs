//! Proofs that the emergency payments of a window stay below a cap.
//!
//! The device proves to a relay that its emergency payments add up to less
//! than a cap, without telling any amount or the sum.
//!
//! - It commits to each amount, and to the slack: what is left of `cap - 1`
//!   once the amounts are taken off. Each commitment has a fresh blinding.
//! - One aggregated range proof shows that every committed value fits in 64
//!   bits. It takes a power of two of values, so zeros under the zero blinding
//!   are added; their commitments are the identity, and need not be sent.
//! - The commitments have to add up to the commitment to `cap - 1` under the
//!   sum of the blindings. Commitments add up as what they commit to, so this
//!   holds exactly where the amounts and the slack add up to `cap - 1`.
//!
//! Each payment takes a fresh proof over the whole window, so no blinding has
//! to be kept.
//!
//! Out of scope: that a relay does check, that the cap is the one in force,
//! that the proof is fresh (a nonce can be given as context), and that the
//! amounts are those of the transactions.
use merlin::Transcript;
use vstd::arithmetic::power2;
use vstd::prelude::*;
use vstd::string::*;

use crate::bytes;
use crate::curve;
use crate::errors::{ErrorView, SyncEngineError};
use crate::fiat_shamir::Step;
use crate::fiat_shamir;
use crate::padding;
use crate::range_proof;
use crate::text;

verus! {

/// Bit width of every committed value: all of `u64`.
pub const RANGE_BITS: usize = 64;

/// Domain separator of the transcript: `stellarconduit-emergency-spend-cap-v1`.
/// Another label makes every existing proof invalid.
pub const TRANSCRIPT_LABEL: [u8; 37] = [
    115, 116, 101, 108, 108, 97, 114, 99, 111, 110, 100, 117,
    105, 116, 45, 101, 109, 101, 114, 103, 101, 110, 99, 121,
    45, 115, 112, 101, 110, 100, 45, 99, 97, 112, 45, 118,
    49,
];

/// The label of the cap in the transcript: `cap`.
pub const CAP_LABEL: [u8; 3] = [99, 97, 112];

/// The label of the caller's context in the transcript: `context`.
pub const CONTEXT_LABEL: [u8; 7] = [99, 111, 110, 116, 101, 120, 116];

/// What the transcript holds before a proof is made or checked: the domain
/// separator, the cap in eight little-endian bytes, and the context unless
/// it is empty.
pub open spec fn opening_record(context: Seq<u8>, cap: u64) -> Seq<Step> {
    let start = seq![
        Step::Appended { label: fiat_shamir::DOMAIN_LABEL@, message: TRANSCRIPT_LABEL@ },
        Step::Appended { label: CAP_LABEL@, message: fiat_shamir::number_bytes(cap as nat) },
    ];
    if context.len() == 0 {
        start
    } else {
        start.push(Step::Appended { label: CONTEXT_LABEL@, message: context })
    }
}

/// The transcript that prover and verifier both start from.
fn build_transcript(context: &[u8], cap: u64) -> (opening: Transcript)
    requires
        context@.len() <= u32::MAX,
    ensures
        fiat_shamir::transcript_record(opening) == opening_record(context@, cap),
{
    let mut opening = Transcript::new(&TRANSCRIPT_LABEL);
    fiat_shamir::append_number(&mut opening, &CAP_LABEL, cap);
    if context.len() > 0 {
        opening.append_message(&CONTEXT_LABEL, context);
    }
    assert(fiat_shamir::transcript_record(opening) =~= opening_record(context@, cap));
    opening
}

/// A proof, to whoever checks it, that the emergency payments of a window
/// add up to less than a cap. It hides the amounts and their sum.
#[derive(Debug, Clone)]
pub struct SpendCapProof {
    /// The serialised range proof over all committed values, the slack and
    /// the padding included.
    pub proof_bytes: Vec<u8>,
    /// Commitment to each amount, in the order of the amounts.
    pub amount_commitments: Vec<[u8; 32]>,
    /// Commitment to the slack, `cap - 1` less the sum of the amounts.
    pub slack_commitment: [u8; 32],
    /// The sum of all blindings, in little-endian order. By itself it says
    /// nothing about any amount.
    pub blinding_sum: [u8; 32],
    /// The cap that the proof was made for.
    pub cap: u64,
    /// Identifiers of the envelopes that carry the payments, as given by the
    /// prover. They have no part in the proof.
    pub envelope_ids: Vec<[u8; 32]>,
}

/// The commitments that a proof carries: to the amounts, then to the slack.
pub open spec fn carried_commitments(proof: SpendCapProof) -> Seq<Seq<u8>> {
    curve::encodings(proof.amount_commitments@).push(proof.slack_commitment@)
}

/// The commitments that the range proof is over: those that the proof
/// carries, then identity points up to the padded size.
pub open spec fn padded_commitments(proof: SpendCapProof) -> Seq<Seq<u8>> {
    let carried = carried_commitments(proof);
    carried + Seq::new(
        (padding::padded_size(carried.len()) - carried.len()) as nat,
        |i: int| curve::zero_bytes(),
    )
}

/// Whether the commitments of `proof` add up to the commitment to `cap - 1`
/// under the sum of the blindings.
pub open spec fn sums_to_cap(proof: SpendCapProof, cap: u64) -> bool {
    curve::point_total(carried_commitments(proof)) == curve::pedersen_commitment(
        cap - 1,
        curve::scalar(proof.blinding_sum@),
    )
}

/// What a result is, with the text of an error as a character sequence.
pub open spec fn answer(result: Result<(), SyncEngineError>) -> Result<(), ErrorView> {
    match result {
        Ok(_) => Ok(()),
        Err(e) => Err(e@),
    }
}

/// Why a proof is not even looked into, if it is not.
pub open spec fn malformed(proof: SpendCapProof) -> Option<ErrorView> {
    if proof.amount_commitments@.len() == 0 {
        Some(ErrorView::ZkProofInput("proof contains no amount commitments"@))
    } else if proof.cap == 0 {
        Some(ErrorView::ZkProofInput("proof.cap must be > 0"@))
    } else if !range_proof::is_range_proof(proof.proof_bytes@) {
        Some(
            ErrorView::ZkProofInput(
                "failed to deserialise range proof: "@ + "Proof data could not be parsed."@,
            ),
        )
    } else {
        None
    }
}

/// The answer to a proof whose range proof was rejected with `text`.
pub open spec fn range_rejection(text: Seq<char>) -> ErrorView {
    ErrorView::ZkProofVerification("Bulletproofs range proof verification failed: "@ + text)
}

/// The answer to a well-formed proof whose range proof was accepted.
pub open spec fn sum_verdict(proof: SpendCapProof) -> Result<(), ErrorView> {
    let carried = carried_commitments(proof);
    if exists|i: int| 0 <= i < carried.len() && !curve::is_point(#[trigger] carried[i]) {
        Err(ErrorView::ZkProofInput("a Pedersen commitment point failed to decompress"@))
    } else if !sums_to_cap(proof, proof.cap) {
        Err(
            ErrorView::ZkProofVerification(
                "homomorphic sum check failed: committed values do not sum to cap \u{2212} 1"@,
            ),
        )
    } else {
        Ok(())
    }
}

/// What acceptance of `proof` says of the committed values: no other cap
/// would have been accepted, and under every opening of the commitments whose
/// blindings add up to the stated sum, the values add up to `cap - 1`.
pub open spec fn binds_to_cap(proof: SpendCapProof) -> bool {
    &&& forall|other: u64| #[trigger] sums_to_cap(proof, other) && other > 0 ==> other == proof.cap
    &&& forall|values: Seq<u64>, blindings: Seq<Seq<u8>>| #[trigger]
        curve::opens(carried_commitments(proof), values, blindings) && curve::blinding_total(blindings)
            % curve::group_order() == curve::scalar(proof.blinding_sum@) ==> curve::amount_total(
            values,
        ) == proof.cap - 1
}

/// Whether a range verifier that draws `weight` accepts the range proof of
/// `proof` under `context`.
pub open spec fn range_accepts(proof: SpendCapProof, context: Seq<u8>, weight: int) -> bool {
    range_proof::range_proof_accepted(
        opening_record(context, proof.cap),
        RANGE_BITS as nat,
        padded_commitments(proof),
        proof.proof_bytes@,
        weight,
    )
}

/// The answer to a well-formed proof, given whether its range proof was
/// accepted.
pub open spec fn ruling(proof: SpendCapProof, range_accepted: bool) -> Result<(), ErrorView> {
    if range_accepted {
        sum_verdict(proof)
    } else {
        Err(range_rejection("Proof verification failed."@))
    }
}

/// Whether `out` may be the answer to `proof` under `context`.
///
/// A malformed proof is answered as such. Any other is answered with the
/// rejection of its range proof, or with the verdict of the sum check where
/// the range proof is accepted; that rests on the weight which the range
/// verifier draws. A commitment that is no point is found by the range
/// verifier. Acceptance binds to the cap, and fixes the length of the range
/// proof.
pub open spec fn may_answer(
    proof: SpendCapProof,
    context: Seq<u8>,
    out: Result<(), ErrorView>,
) -> bool {
    match malformed(proof) {
        Some(error) => out == Err::<(), ErrorView>(error),
        None => {
            &&& exists|weight: int|
                out == ruling(proof, #[trigger] range_accepts(proof, context, weight))
            &&& forall|i: int|
                0 <= i < carried_commitments(proof).len() && !curve::is_point(
                    #[trigger] carried_commitments(proof)[i],
                ) ==> out == ruling(proof, false)
            &&& out is Ok ==> binds_to_cap(proof)
            &&& out is Ok ==> RANGE_BITS * padded_commitments(proof).len() == power2::pow2(
                range_proof::rounds(proof.proof_bytes@.len()) as nat,
            )
        },
    }
}

/// As many amounts as a list can hold add up to less than the group order.
proof fn amounts_stay_below_order(values: Seq<u64>)
    requires
        values.len() <= usize::MAX,
    ensures
        0 <= curve::amount_total(values) < curve::group_order(),
{
    amount_total_bounds(values);
    assert(values.len() * 0x1_0000_0000_0000_0000 <= 0x1_0000_0000_0000_0000
        * 0x1_0000_0000_0000_0000) by (nonlinear_arith)
        requires
            values.len() <= 0x1_0000_0000_0000_0000,
    ;
}

/// A sum of amounts is no more than their number times the largest amount.
pub proof fn amount_total_bounds(values: Seq<u64>)
    ensures
        0 <= curve::amount_total(values) <= values.len() * 0x1_0000_0000_0000_0000,
    decreases values.len(),
{
    if values.len() > 0 {
        amount_total_bounds(values.drop_last());
    }
}

/// The commitments that the range proof of `proof` is over.
fn padded_list(proof: &SpendCapProof) -> (commitments: Vec<[u8; 32]>)
    requires
        padded_commitments(*proof).len() <= usize::MAX,
    ensures
        curve::encodings(commitments@) == padded_commitments(*proof),
{
    let ghost list = padded_commitments(*proof);
    proof {
        padding::padded_size_is_tight(carried_commitments(*proof).len());
    }
    let count = proof.amount_commitments.len() + 1;
    let size = padding::padded_len(count);
    let mut commitments = bytes::copy_list(&proof.amount_commitments);
    commitments.push(proof.slack_commitment);
    assert(curve::encodings(commitments@) =~= list.take(count as int));
    let padding = [0u8; 32];
    assert(padding@ =~= curve::zero_bytes());
    while commitments.len() < size
        invariant
            count <= commitments.len() <= size,
            size == list.len(),
            list == padded_commitments(*proof),
            carried_commitments(*proof).len() == count,
            padding@ == curve::zero_bytes(),
            curve::encodings(commitments@) == list.take(commitments.len() as int),
        decreases size - commitments.len(),
    {
        commitments.push(padding);
        assert(curve::encodings(commitments@) =~= list.take(commitments.len() as int));
    }
    assert(curve::encodings(commitments@) =~= list);
    commitments
}

/// Whether chance spoilt the range proof of `proof`, made with `context`: a
/// verifier would meet a point that is the identity, or a zero challenge. A
/// proof by an honest prover that is not spoilt is accepted.
pub fn is_spoilt(proof: &SpendCapProof, context: &[u8]) -> (is: bool)
    requires
        malformed(*proof) is None,
        context@.len() <= u32::MAX,
        RANGE_BITS * padded_commitments(*proof).len() <= usize::MAX,
    ensures
        is == spoilt(*proof, context@),
        is == range_proof::range_proof_degenerate(
            proof.proof_bytes@,
            range_proof::inverted_challenges(
                opening_record(context@, proof.cap),
                64,
                padded_commitments(*proof),
                proof.proof_bytes@,
            ),
        ),
{
    let commitments = padded_list(proof);
    let mut opening = build_transcript(context, proof.cap);
    proof {
        assert(commitments@.len() == padded_commitments(*proof).len());
    }
    range_proof::is_degenerate(&mut opening, RANGE_BITS, &commitments, &proof.proof_bytes)
}

/// Checks [`SpendCapProof`]s.
///
/// It does not know which cap is in force, nor which envelopes have arrived:
/// that `cap` and `envelope_ids` are the expected ones is for the caller to
/// see to.
pub struct SpendCapVerifier;

impl SpendCapVerifier {
    /// Checks `proof`, made without context.
    pub fn verify_proof(proof: &SpendCapProof) -> (result: Result<(), SyncEngineError>)
        requires
            malformed(*proof) is None ==> RANGE_BITS * padded_commitments(*proof).len()
                <= usize::MAX,
        ensures
            may_answer(*proof, Seq::empty(), answer(result)),
            proof.amount_commitments@.len() == 0 ==> (result matches Err(
                SyncEngineError::ZkProofInput(reason),
            ) && reason@ == "proof contains no amount commitments"@),
            proof.amount_commitments@.len() > 0 && proof.cap == 0 ==> (result matches Err(
                SyncEngineError::ZkProofInput(reason),
            ) && reason@ == "proof.cap must be > 0"@),
            proof.amount_commitments@.len() > 0 && proof.cap > 0 && !range_proof::is_range_proof(
                proof.proof_bytes@,
            ) ==> (result matches Err(SyncEngineError::ZkProofInput(reason)) && reason@
                == "failed to deserialise range proof: "@ + "Proof data could not be parsed."@),
            proof.amount_commitments@.len() > 0 && proof.cap > 0 && range_proof::is_range_proof(
                proof.proof_bytes@,
            ) ==> exists|weight: int|
                {
                    let accepted = #[trigger] range_proof::range_proof_accepted(
                        opening_record(Seq::empty(), proof.cap),
                        64,
                        padded_commitments(*proof),
                        proof.proof_bytes@,
                        weight,
                    );
                    let balanced = curve::point_total(
                        curve::encodings(proof.amount_commitments@).push(proof.slack_commitment@),
                    ) == curve::pedersen_commitment(
                        proof.cap - 1,
                        curve::scalar(proof.blinding_sum@),
                    );
                    &&& result is Ok <==> accepted && balanced
                    &&& !accepted ==> (result matches Err(
                        SyncEngineError::ZkProofVerification(reason),
                    ) && reason@ == "Bulletproofs range proof verification failed: "@
                        + "Proof verification failed."@)
                    &&& accepted && !balanced ==> (result matches Err(
                        SyncEngineError::ZkProofVerification(reason),
                    ) && reason@
                        == "homomorphic sum check failed: committed values do not sum to cap \u{2212} 1"@)
                },
            result is Ok ==> curve::is_point(proof.slack_commitment@),
            result is Ok ==> forall|i: int|
                0 <= i < proof.amount_commitments@.len() ==> curve::is_point(
                    (#[trigger] proof.amount_commitments@[i])@,
                ),
    {
        let none: [u8; 0] = [];
        assert(none@ =~= Seq::<u8>::empty());
        Self::verify_proof_with_context(proof, &none)
    }

    /// Checks `proof`, made with the given context bytes.
    pub fn verify_proof_with_context(proof: &SpendCapProof, context: &[u8]) -> (result: Result<
        (),
        SyncEngineError,
    >)
        requires
            malformed(*proof) is None ==> context@.len() <= u32::MAX && RANGE_BITS
                * padded_commitments(*proof).len() <= usize::MAX,
        ensures
            may_answer(*proof, context@, answer(result)),
            proof.amount_commitments@.len() == 0 ==> (result matches Err(
                SyncEngineError::ZkProofInput(reason),
            ) && reason@ == "proof contains no amount commitments"@),
            proof.amount_commitments@.len() > 0 && proof.cap == 0 ==> (result matches Err(
                SyncEngineError::ZkProofInput(reason),
            ) && reason@ == "proof.cap must be > 0"@),
            proof.amount_commitments@.len() > 0 && proof.cap > 0 && !range_proof::is_range_proof(
                proof.proof_bytes@,
            ) ==> (result matches Err(SyncEngineError::ZkProofInput(reason)) && reason@
                == "failed to deserialise range proof: "@ + "Proof data could not be parsed."@),
            proof.amount_commitments@.len() > 0 && proof.cap > 0 && range_proof::is_range_proof(
                proof.proof_bytes@,
            ) ==> exists|weight: int|
                {
                    let accepted = #[trigger] range_proof::range_proof_accepted(
                        opening_record(context@, proof.cap),
                        64,
                        padded_commitments(*proof),
                        proof.proof_bytes@,
                        weight,
                    );
                    let balanced = curve::point_total(
                        curve::encodings(proof.amount_commitments@).push(proof.slack_commitment@),
                    ) == curve::pedersen_commitment(
                        proof.cap - 1,
                        curve::scalar(proof.blinding_sum@),
                    );
                    &&& result is Ok <==> accepted && balanced
                    &&& !accepted ==> (result matches Err(
                        SyncEngineError::ZkProofVerification(reason),
                    ) && reason@ == "Bulletproofs range proof verification failed: "@
                        + "Proof verification failed."@)
                    &&& accepted && !balanced ==> (result matches Err(
                        SyncEngineError::ZkProofVerification(reason),
                    ) && reason@
                        == "homomorphic sum check failed: committed values do not sum to cap \u{2212} 1"@)
                },
            result is Ok ==> curve::is_point(proof.slack_commitment@),
            result is Ok ==> forall|i: int|
                0 <= i < proof.amount_commitments@.len() ==> curve::is_point(
                    (#[trigger] proof.amount_commitments@[i])@,
                ),
    {
        if proof.amount_commitments.len() == 0 {
            return Err(
                SyncEngineError::ZkProofInput(
                    String::from("proof contains no amount commitments"),
                ),
            );
        }
        if proof.cap == 0 {
            return Err(SyncEngineError::ZkProofInput(String::from("proof.cap must be > 0")));
        }
        if let Err(text) = range_proof::parse_range_proof(proof.proof_bytes.as_slice()) {
            return Err(
                SyncEngineError::ZkProofInput(
                    text::joined("failed to deserialise range proof: ", text.as_str()),
                ),
            );
        }
        let ghost list = padded_commitments(*proof);
        let commitments = padded_list(proof);
        let mut opening = build_transcript(context, proof.cap);
        let range = range_proof::verify_range(
            &proof.proof_bytes,
            RANGE_BITS,
            &mut opening,
            &commitments,
        );
        proof {
            let weight = choose|weight: int|
                range is Ok <==> #[trigger] range_proof::range_proof_accepted(
                    opening_record(context@, proof.cap),
                    RANGE_BITS as nat,
                    list,
                    proof.proof_bytes@,
                    weight,
                );
            assert(range is Ok <==> range_accepts(*proof, context@, weight));
            assert forall|i: int|
                range is Ok && 0 <= i < carried_commitments(*proof).len() implies curve::is_point(
                #[trigger] carried_commitments(*proof)[i],
            ) by {
                assert(list[i] == carried_commitments(*proof)[i]);
            }
            if range is Ok {
                let points = carried_commitments(*proof);
                assert(points[proof.amount_commitments@.len() as int] == proof.slack_commitment@);
                assert forall|i: int| 0 <= i < proof.amount_commitments@.len() implies
                    curve::is_point((#[trigger] proof.amount_commitments@[i])@) by {
                    assert(points[i] == proof.amount_commitments@[i]@);
                }
            }
        }
        Self::conclude(proof, range)
    }

    /// The answer to a well-formed `proof`, given what the range verifier
    /// said of it: its rejection, or else the verdict of the sum check.
    pub fn conclude(proof: &SpendCapProof, range: Result<(), String>) -> (result: Result<
        (),
        SyncEngineError,
    >)
        requires
            proof.cap > 0,
            proof.amount_commitments@.len() < usize::MAX,
        ensures
            range matches Err(text) ==> answer(result) == Err::<(), ErrorView>(
                range_rejection(text@),
            ),
            range is Ok ==> answer(result) == sum_verdict(*proof),
            result is Ok ==> binds_to_cap(*proof),
            range matches Err(text) ==> (result matches Err(
                SyncEngineError::ZkProofVerification(reason),
            ) && reason@ == "Bulletproofs range proof verification failed: "@ + text@),
            range is Ok ==> {
                let points = curve::encodings(proof.amount_commitments@).push(
                    proof.slack_commitment@,
                );
                let decoded = forall|i: int|
                    0 <= i < points.len() ==> curve::is_point(#[trigger] points[i]);
                let balanced = curve::point_total(points) == curve::pedersen_commitment(
                    proof.cap - 1,
                    curve::scalar(proof.blinding_sum@),
                );
                &&& result is Ok <==> decoded && balanced
                &&& !decoded ==> (result matches Err(SyncEngineError::ZkProofInput(reason))
                    && reason@ == "a Pedersen commitment point failed to decompress"@)
                &&& decoded && !balanced ==> (result matches Err(
                    SyncEngineError::ZkProofVerification(reason),
                ) && reason@
                    == "homomorphic sum check failed: committed values do not sum to cap \u{2212} 1"@)
            },
    {
        if let Err(text) = range {
            return Err(
                SyncEngineError::ZkProofVerification(
                    text::joined("Bulletproofs range proof verification failed: ", text.as_str()),
                ),
            );
        }
        let ghost list = carried_commitments(*proof);
        let mut carried = bytes::copy_list(&proof.amount_commitments);
        carried.push(proof.slack_commitment);
        assert(curve::encodings(carried@) =~= list);
        let left = match curve::sum_points(&carried) {
            Some(total) => total,
            None => {
                proof {
                    let i = choose|i: int|
                        0 <= i < carried.len() && !(#[trigger] curve::is_point(carried[i]@));
                    assert(!curve::is_point(list[i]));
                }
                return Err(
                    SyncEngineError::ZkProofInput(
                        String::from("a Pedersen commitment point failed to decompress"),
                    ),
                );
            },
        };
        proof {
            assert forall|i: int| 0 <= i < list.len() implies curve::is_point(
                #[trigger] list[i],
            ) by {
                assert(list[i] == carried[i]@);
            }
        }
        let right = curve::commit(proof.cap - 1, &proof.blinding_sum);
        if !bytes::same_bytes(&left, &right) {
            return Err(
                SyncEngineError::ZkProofVerification(
                    String::from(
                        "homomorphic sum check failed: committed values do not sum to cap \u{2212} 1",
                    ),
                ),
            );
        }
        proof {
            assert forall|other: u64| #[trigger]
                sums_to_cap(*proof, other) && other > 0 implies other == proof.cap by {
                assert(right@ == curve::pedersen_commitment(
                    other - 1,
                    curve::scalar(proof.blinding_sum@),
                ));
            }
            assert forall|values: Seq<u64>, blindings: Seq<Seq<u8>>| #[trigger]
                curve::opens(list, values, blindings) && curve::blinding_total(blindings)
                    % curve::group_order() == curve::scalar(
                    proof.blinding_sum@,
                ) implies curve::amount_total(values) == proof.cap - 1 by {
                let v = curve::amount_total(values) % curve::group_order();
                assert(right@ == curve::pedersen_commitment(
                    v,
                    curve::scalar(proof.blinding_sum@),
                ));
                amounts_stay_below_order(values);
                vstd::arithmetic::div_mod::lemma_small_mod(
                    curve::amount_total(values) as nat,
                    curve::group_order() as nat,
                );
            }
        }
        Ok(())
    }
}

/// What a prover was given.
pub struct ProverView {
    pub amounts: Seq<u64>,
    pub cap: u64,
    pub envelope_ids: Seq<[u8; 32]>,
    pub context: Seq<u8>,
}

/// Makes [`SpendCapProof`]s from the amounts of the emergency payments that
/// a device has queued in the current window.
pub struct SpendCapProver {
    amounts: Vec<u64>,
    cap: u64,
    envelope_ids: Vec<[u8; 32]>,
    context: Vec<u8>,
}

impl View for SpendCapProver {
    type V = ProverView;

    closed spec fn view(&self) -> ProverView {
        ProverView {
            amounts: self.amounts@,
            cap: self.cap,
            envelope_ids: self.envelope_ids@,
            context: self.context@,
        }
    }
}

/// Why no proof can be made for these amounts under this cap, if none can.
pub open spec fn unprovable(amounts: Seq<u64>, cap: u64) -> Option<ErrorView> {
    let total = curve::amount_total(amounts);
    if amounts.len() == 0 {
        Some(ErrorView::ZkProofInput("amounts list is empty; nothing to prove"@))
    } else if cap == 0 {
        Some(
            ErrorView::ZkProofInput(
                "cap must be > 0 (cap = 0 means no Emergency payment can ever be compliant)"@,
            ),
        )
    } else if total > u64::MAX {
        Some(
            ErrorView::ZkProofInput(
                "sum of amounts overflows u64; amounts are unreasonably large"@,
            ),
        )
    } else if total >= cap {
        Some(
            ErrorView::ZkProofInput(
                "sum of amounts ("@ + text::decimal(total as nat) + ") >= cap ("@ + text::decimal(
                    cap as nat,
                ) + "); cannot prove compliance with a false statement"@,
            ),
        )
    } else {
        None
    }
}

/// What is committed to: the amounts, then what is left below the cap.
pub open spec fn witness(amounts: Seq<u64>, cap: u64) -> Seq<u64> {
    amounts.push((cap - 1 - curve::amount_total(amounts)) as u64)
}

/// The witness, followed by zeros up to the padded size.
pub open spec fn padded_witness(amounts: Seq<u64>, cap: u64) -> Seq<u64> {
    witness(amounts, cap) + Seq::new(
        (padding::padded_size(amounts.len() + 1) - (amounts.len() + 1)) as nat,
        |i: int| 0u64,
    )
}

/// Whether the commitments of `proof` are to the witness under `blindings`,
/// and the stated sum is that of `blindings`.
pub open spec fn committed_under(
    prover: ProverView,
    proof: SpendCapProof,
    blindings: Seq<Seq<u8>>,
) -> bool {
    &&& curve::opens(carried_commitments(proof), witness(prover.amounts, prover.cap), blindings)
    &&& curve::is_canonical_scalar(proof.blinding_sum@)
    &&& curve::scalar(proof.blinding_sum@) == curve::blinding_total(blindings)
        % curve::group_order()
}

/// Whether the commitments of `proof` are to the witness under `drawn`, one
/// drawn blinding for each amount and one for the slack.
pub open spec fn drawn_for(
    prover: ProverView,
    proof: SpendCapProof,
    drawn: Seq<[u8; 32]>,
) -> bool {
    &&& drawn.len() == prover.amounts.len() + 1
    &&& forall|i: int| 0 <= i < drawn.len() ==> curve::is_drawn(#[trigger] drawn[i])
    &&& committed_under(prover, proof, curve::encodings(drawn))
}

/// Whether every commitment of `proof` is under a blinding that was drawn.
pub open spec fn freshly_blinded(prover: ProverView, proof: SpendCapProof) -> bool {
    exists|drawn: Seq<[u8; 32]>| #[trigger] drawn_for(prover, proof, drawn)
}

/// The largest padded size whose range proof can be read back.
pub open spec fn readable_size() -> nat {
    0x200_0000
}

/// Whether chance spoilt the range proof of `proof`, made with `context`.
pub open spec fn spoilt(proof: SpendCapProof, context: Seq<u8>) -> bool {
    range_proof::range_proof_degenerate(
        proof.proof_bytes@,
        range_proof::inverted_challenges(
            opening_record(context, proof.cap),
            RANGE_BITS as nat,
            padded_commitments(proof),
            proof.proof_bytes@,
        ),
    )
}

/// What the prover promises of a proof it returns.
///
/// The proof is for the prover's cap and carries its envelope identifiers;
/// it commits to each amount and to the slack; the commitments add up to
/// `cap - 1`; the range proof grows by two elements with every doubling of
/// the padded size. Up to the readable size the range proof has the right
/// form, and it holds unless chance spoilt it.
pub open spec fn is_proof_by(prover: ProverView, proof: SpendCapProof) -> bool {
    let size = padding::padded_size(prover.amounts.len() + 1);
    &&& proof.cap == prover.cap
    &&& proof.envelope_ids@ == prover.envelope_ids
    &&& proof.amount_commitments@.len() == prover.amounts.len()
    &&& exists|blindings: Seq<Seq<u8>>| #[trigger] committed_under(prover, proof, blindings)
    &&& forall|i: int|
        0 <= i <= prover.amounts.len() ==> curve::is_point(
            #[trigger] carried_commitments(proof)[i],
        )
    &&& sums_to_cap(proof, prover.cap)
    &&& forall|e: nat|
        size == #[trigger] power2::pow2(e) ==> proof.proof_bytes@.len() == 32 * (21 + 2 * e)
    &&& size <= readable_size() ==> range_proof::is_range_proof(proof.proof_bytes@)
    &&& size <= readable_size() && !spoilt(proof, prover.context) ==> range_proof::range_proof_holds(
        opening_record(prover.context, proof.cap),
        RANGE_BITS as nat,
        padded_commitments(proof),
        proof.proof_bytes@,
    )
}

/// The first amounts add up to no more than all of them.
proof fn amount_total_grows(values: Seq<u64>, n: int)
    requires
        0 <= n <= values.len(),
    ensures
        curve::amount_total(values.take(n)) <= curve::amount_total(values),
    decreases values.len(),
{
    if n < values.len() {
        amount_total_grows(values.drop_last(), n);
        assert(values.drop_last().take(n) =~= values.take(n));
    } else {
        assert(values.take(n) =~= values);
    }
}

/// The sum of `amounts`, unless it is more than a `u64` holds.
fn checked_total(amounts: &Vec<u64>) -> (total: Option<u64>)
    ensures
        total is None <==> curve::amount_total(amounts@) > u64::MAX,
        total matches Some(sum) ==> sum == curve::amount_total(amounts@),
{
    let mut sum: u64 = 0;
    let mut i: usize = 0;
    while i < amounts.len()
        invariant
            i <= amounts.len(),
            sum == curve::amount_total(amounts@.take(i as int)),
        decreases amounts.len() - i,
    {
        proof {
            assert(amounts@.take(i + 1).drop_last() =~= amounts@.take(i as int));
            amount_total_grows(amounts@, i + 1);
        }
        sum = match sum.checked_add(amounts[i]) {
            Some(next) => next,
            None => return None,
        };
        i += 1;
    }
    assert(amounts@.take(amounts.len() as int) =~= amounts@);
    Some(sum)
}

/// A prover for the amounts of the current window, or nothing where there is
/// nothing to prove or the amounts reach the cap.
pub fn build_prover_for_window(window_amounts: Vec<u64>, cap: u64) -> (prover: Option<
    SpendCapProver,
>)
    ensures
        prover is None <==> window_amounts@.len() == 0 || curve::amount_total(window_amounts@)
            >= cap,
        prover is Some <==> unprovable(window_amounts@, cap) is None,
        prover matches Some(p) ==> p@ == (ProverView {
            amounts: window_amounts@,
            cap,
            envelope_ids: Seq::empty(),
            context: Seq::empty(),
        }),
{
    if window_amounts.len() == 0 {
        return None;
    }
    proof {
        amount_total_bounds(window_amounts@);
    }
    match checked_total(&window_amounts) {
        Some(sum) => if sum >= cap {
            None
        } else {
            Some(SpendCapProver::new(window_amounts, cap))
        },
        None => None,
    }
}

impl SpendCapProver {
    /// A prover for `amounts` and `cap`, without envelope identifiers and
    /// without context. Whether a proof can be made is found when making it.
    pub fn new(amounts: Vec<u64>, cap: u64) -> (prover: Self)
        ensures
            prover@ == (ProverView {
                amounts: amounts@,
                cap,
                envelope_ids: Seq::empty(),
                context: Seq::empty(),
            }),
    {
        SpendCapProver { amounts, cap, envelope_ids: Vec::new(), context: Vec::new() }
    }

    /// The same prover with these envelope identifiers.
    pub fn with_envelope_ids(self, ids: Vec<[u8; 32]>) -> (prover: Self)
        ensures
            prover@ == (ProverView { envelope_ids: ids@, ..self@ }),
    {
        SpendCapProver { envelope_ids: ids, ..self }
    }

    /// The same prover with these context bytes, such as a nonce of the
    /// party that will check the proof.
    pub fn with_context(self, ctx: Vec<u8>) -> (prover: Self)
        ensures
            prover@ == (ProverView { context: ctx@, ..self@ }),
    {
        SpendCapProver { context: ctx, ..self }
    }
}

/// The answer to a failure of the range prover with `text`.
pub open spec fn generation_failure(text: Seq<char>) -> ErrorView {
    ErrorView::ZkProofGeneration("Bulletproofs prove_multiple failed: "@ + text)
}

/// The one failure of the range prover: its transcript yielded a zero
/// challenge.
pub open spec fn prover_out_of_luck() -> ErrorView {
    generation_failure(
        "Internal error during proof creation: Dealer gave a malicious challenge value."@,
    )
}

/// The values to commit to, padded with zeros.
fn build_witness(amounts: &Vec<u64>, cap: u64, sum: u64, size: usize) -> (values: Vec<u64>)
    requires
        sum == curve::amount_total(amounts@),
        sum < cap,
        size == padding::padded_size(amounts@.len() + 1),
    ensures
        values@ == padded_witness(amounts@, cap),
        values@.len() == size,
        forall|i: int| 0 <= i < amounts@.len() ==> #[trigger] values@[i] == amounts@[i],
        values@[amounts@.len() as int] == cap - 1 - sum,
        forall|i: int| amounts@.len() < i < size ==> #[trigger] values@[i] == 0,
{
    let ghost list = padded_witness(amounts@, cap);
    proof {
        padding::padded_size_is_tight(amounts@.len() + 1);
    }
    let mut values: Vec<u64> = Vec::new();
    let mut i: usize = 0;
    while i < amounts.len()
        invariant
            i <= amounts.len(),
            amounts.len() < list.len(),
            list == padded_witness(amounts@, cap),
            values@ == list.take(i as int),
        decreases amounts.len() - i,
    {
        values.push(amounts[i]);
        i += 1;
        assert(values@ =~= list.take(i as int));
    }
    values.push((cap - 1) - sum);
    assert(values@ =~= list.take(amounts.len() + 1));
    while values.len() < size
        invariant
            amounts.len() < values.len() <= size,
            size == list.len(),
            list == padded_witness(amounts@, cap),
            values@ == list.take(values.len() as int),
        decreases size - values.len(),
    {
        values.push(0);
        assert(values@ =~= list.take(values.len() as int));
    }
    assert(values@ =~= list);
    values
}

/// The drawn blindings, followed by zeros up to `size`. The zeros make the
/// padding commitments the identity, which the verifier can add by itself.
fn pad_blindings(drawn: &Vec<[u8; 32]>, size: usize) -> (blindings: Vec<[u8; 32]>)
    requires
        drawn@.len() <= size,
    ensures
        blindings@.len() == size,
        blindings@.take(drawn@.len() as int) == drawn@,
        forall|i: int|
            drawn@.len() <= i < size ==> #[trigger] blindings@[i]@ == curve::zero_bytes(),
{
    let mut blindings = bytes::copy_list(drawn);
    let zero = [0u8; 32];
    assert(zero@ =~= curve::zero_bytes());
    assert(blindings@.take(drawn@.len() as int) =~= drawn@);
    while blindings.len() < size
        invariant
            drawn@.len() <= blindings.len() <= size,
            zero@ == curve::zero_bytes(),
            blindings@.take(drawn@.len() as int) == drawn@,
            forall|i: int|
                drawn@.len() <= i < blindings.len() ==> #[trigger] blindings@[i]@
                    == curve::zero_bytes(),
        decreases size - blindings.len(),
    {
        blindings.push(zero);
        assert(blindings@.take(drawn@.len() as int) =~= drawn@);
    }
    blindings
}

/// The sum of the first `count` blindings.
fn sum_blindings(blindings: &Vec<[u8; 32]>, count: usize) -> (sum: [u8; 32])
    requires
        count <= blindings@.len(),
    ensures
        curve::is_canonical_scalar(sum@),
        curve::scalar(sum@) == curve::blinding_total(
            curve::encodings(blindings@).take(count as int),
        ) % curve::group_order(),
{
    let ghost list = curve::encodings(blindings@);
    let mut sum = [0u8; 32];
    assert(sum@ =~= curve::zero_bytes());
    proof {
        curve::zero_bytes_are_zero();
    }
    let mut i: usize = 0;
    while i < count
        invariant
            i <= count <= blindings.len(),
            list == curve::encodings(blindings@),
            curve::is_canonical_scalar(sum@),
            curve::scalar(sum@) == curve::blinding_total(list.take(i as int))
                % curve::group_order(),
        decreases count - i,
    {
        sum = curve::add_scalars(&sum, &blindings[i]);
        proof {
            let longer = list.take(i + 1);
            assert(longer.drop_last() =~= list.take(i as int));
            vstd::arithmetic::div_mod::lemma_add_mod_noop_right(
                curve::scalar(blindings[i as int]@),
                curve::blinding_total(list.take(i as int)),
                curve::group_order(),
            );
        }
        i += 1;
    }
    sum
}

/// Each amount is committed to as it is, at its place and under the blinding at
/// its place. What is left below the cap is committed to under the last
/// blinding, and the stated sum is that of all the blindings.
pub proof fn each_amount_is_committed_to(
    prover: ProverView,
    proof: SpendCapProof,
    drawn: Seq<[u8; 32]>,
)
    requires
        curve::amount_total(prover.amounts) < prover.cap,
        committed_under(prover, proof, curve::encodings(drawn)),
    ensures
        drawn.len() == prover.amounts.len() + 1,
        proof.amount_commitments@.len() == prover.amounts.len(),
        forall|i: int|
            0 <= i < prover.amounts.len() ==> (#[trigger] proof.amount_commitments@[i])@
                == curve::pedersen_commitment(
                prover.amounts[i] as int,
                curve::scalar(drawn[i]@),
            ),
        proof.slack_commitment@ == curve::pedersen_commitment(
            prover.cap - 1 - curve::amount_total(prover.amounts),
            curve::scalar(drawn[prover.amounts.len() as int]@),
        ),
        curve::scalar(proof.blinding_sum@) == curve::blinding_total(curve::encodings(drawn))
            % curve::group_order(),
{
    let n = prover.amounts.len() as int;
    let points = carried_commitments(proof);
    let values = witness(prover.amounts, prover.cap);
    amount_total_bounds(prover.amounts);
    assert forall|i: int| 0 <= i < n implies (#[trigger] proof.amount_commitments@[i])@
        == curve::pedersen_commitment(prover.amounts[i] as int, curve::scalar(drawn[i]@)) by {
        assert(points[i] == proof.amount_commitments@[i]@);
        assert(values[i] == prover.amounts[i]);
    }
    assert(points[n] == proof.slack_commitment@);
    assert(values[n] == prover.cap - 1 - curve::amount_total(prover.amounts));
}

impl SpendCapProver {
    /// The proof made of what the range prover returned, or its failure. Of
    /// the commitments, those to the amounts and to the slack are kept; of
    /// the blindings, theirs are summed.
    pub fn assemble(
        &self,
        blindings: &Vec<[u8; 32]>,
        outcome: Result<(Vec<u8>, Vec<[u8; 32]>), String>,
    ) -> (result: Result<SpendCapProof, SyncEngineError>)
        requires
            self@.amounts.len() < blindings@.len(),
            outcome matches Ok((bytes, commitments)) ==> self@.amounts.len() < commitments@.len(),
        ensures
            outcome matches Err(text) ==> (result matches Err(e) && e@ == generation_failure(
                text@,
            )),
            outcome matches Err(text) ==> (result matches Err(
                SyncEngineError::ZkProofGeneration(reason),
            ) && reason@ == "Bulletproofs prove_multiple failed: "@ + text@),
            outcome matches Ok((bytes, commitments)) ==> {
                let n = self@.amounts.len() as int;
                &&& result matches Ok(proof)
                &&& proof.proof_bytes@ == bytes@
                &&& proof.amount_commitments@ == commitments@.take(n)
                &&& proof.slack_commitment == commitments@[n]
                &&& curve::is_canonical_scalar(proof.blinding_sum@)
                &&& curve::scalar(proof.blinding_sum@) == curve::blinding_total(
                    curve::encodings(blindings@).take(n + 1),
                ) % curve::group_order()
                &&& proof.cap == self@.cap
                &&& proof.envelope_ids@ == self@.envelope_ids
            },
    {
        let (proof_bytes, commitments) = match outcome {
            Ok(made) => made,
            Err(text) => {
                return Err(
                    SyncEngineError::ZkProofGeneration(
                        text::joined("Bulletproofs prove_multiple failed: ", text.as_str()),
                    ),
                );
            },
        };
        let n = self.amounts.len();
        let mut amount_commitments: Vec<[u8; 32]> = Vec::new();
        while amount_commitments.len() < n
            invariant
                amount_commitments.len() <= n < commitments.len(),
                amount_commitments@ == commitments@.take(amount_commitments.len() as int),
            decreases n - amount_commitments.len(),
        {
            amount_commitments.push(commitments[amount_commitments.len()]);
            assert(amount_commitments@ =~= commitments@.take(amount_commitments.len() as int));
        }
        Ok(
            SpendCapProof {
                proof_bytes,
                amount_commitments,
                slack_commitment: commitments[n],
                blinding_sum: sum_blindings(blindings, n + 1),
                cap: self.cap,
                envelope_ids: bytes::copy_list(&self.envelope_ids),
            },
        )
    }

    /// The sum of the amounts, or why no proof can be made for them.
    fn provable_sum(&self) -> (result: Result<u64, SyncEngineError>)
        ensures
            match result {
                Ok(sum) => unprovable(self@.amounts, self@.cap) is None && sum
                    == curve::amount_total(self@.amounts) && sum < self@.cap,
                Err(e) => unprovable(self@.amounts, self@.cap) == Some(e@),
            },
            self@.amounts.len() > 0 && curve::amount_total(self@.amounts) < self@.cap
                ==> result is Ok,
            self@.amounts.len() == 0 ==> (result matches Err(SyncEngineError::ZkProofInput(reason))
                && reason@ == "amounts list is empty; nothing to prove"@),
            self@.amounts.len() > 0 && self@.cap == 0 ==> (result matches Err(
                SyncEngineError::ZkProofInput(reason),
            ) && reason@
                == "cap must be > 0 (cap = 0 means no Emergency payment can ever be compliant)"@),
            self@.amounts.len() > 0 && self@.cap > 0 && curve::amount_total(self@.amounts)
                > u64::MAX ==> (result matches Err(SyncEngineError::ZkProofInput(reason)) && reason@
                == "sum of amounts overflows u64; amounts are unreasonably large"@),
            self@.amounts.len() > 0 && self@.cap > 0 && self@.cap <= curve::amount_total(
                self@.amounts,
            ) <= u64::MAX ==> (result matches Err(SyncEngineError::ZkProofInput(reason)) && reason@
                == "sum of amounts ("@ + text::decimal(curve::amount_total(self@.amounts) as nat)
                + ") >= cap ("@ + text::decimal(self@.cap as nat)
                + "); cannot prove compliance with a false statement"@),
    {
        proof {
            amount_total_bounds(self@.amounts);
        }
        if self.amounts.len() == 0 {
            return Err(
                SyncEngineError::ZkProofInput(
                    String::from("amounts list is empty; nothing to prove"),
                ),
            );
        }
        if self.cap == 0 {
            return Err(
                SyncEngineError::ZkProofInput(
                    String::from(
                        "cap must be > 0 (cap = 0 means no Emergency payment can ever be compliant)",
                    ),
                ),
            );
        }
        let sum: u64 = match checked_total(&self.amounts) {
            Some(sum) => sum,
            None => {
                return Err(
                    SyncEngineError::ZkProofInput(
                        String::from(
                            "sum of amounts overflows u64; amounts are unreasonably large",
                        ),
                    ),
                );
            },
        };
        if sum >= self.cap {
            let mut reason = text::joined("sum of amounts (", text::decimal_text(sum).as_str());
            reason.append(") >= cap (");
            reason.append(text::decimal_text(self.cap).as_str());
            reason.append("); cannot prove compliance with a false statement");
            return Err(SyncEngineError::ZkProofInput(reason));
        }
        Ok(sum)
    }

    /// Makes the proof, each commitment under a freshly drawn blinding.
    ///
    /// Refuses with the reason where the amounts are empty, the cap is zero,
    /// or the amounts add up to the cap or more: a false statement is not
    /// proved.
    pub fn generate_proof(&self) -> (result: Result<SpendCapProof, SyncEngineError>)
        requires
            unprovable(self@.amounts, self@.cap) is None ==> self@.context.len() <= u32::MAX
                && RANGE_BITS * padding::padded_size(self@.amounts.len() + 1) <= usize::MAX,
        ensures
            unprovable(self@.amounts, self@.cap) matches Some(error) ==> (result matches Err(e)
                && e@ == error),
            unprovable(self@.amounts, self@.cap) is None ==> match result {
                Ok(proof) => is_proof_by(self@, proof) && freshly_blinded(self@, proof),
                Err(e) => e@ == prover_out_of_luck(),
            },
            self@.amounts.len() == 0 ==> (result matches Err(SyncEngineError::ZkProofInput(reason))
                && reason@ == "amounts list is empty; nothing to prove"@),
            self@.amounts.len() > 0 && self@.cap == 0 ==> (result matches Err(
                SyncEngineError::ZkProofInput(reason),
            ) && reason@
                == "cap must be > 0 (cap = 0 means no Emergency payment can ever be compliant)"@),
            self@.amounts.len() > 0 && self@.cap > 0 && curve::amount_total(self@.amounts)
                > u64::MAX ==> (result matches Err(SyncEngineError::ZkProofInput(reason)) && reason@
                == "sum of amounts overflows u64; amounts are unreasonably large"@),
            self@.amounts.len() > 0 && self@.cap > 0 && self@.cap <= curve::amount_total(
                self@.amounts,
            ) <= u64::MAX ==> (result matches Err(SyncEngineError::ZkProofInput(reason)) && reason@
                == "sum of amounts ("@ + text::decimal(curve::amount_total(self@.amounts) as nat)
                + ") >= cap ("@ + text::decimal(self@.cap as nat)
                + "); cannot prove compliance with a false statement"@),
            self@.amounts.len() > 0 && curve::amount_total(self@.amounts) < self@.cap ==> match result {
                Ok(proof) => exists|drawn: Seq<[u8; 32]>| #[trigger]
                    drawn_for(self@, proof, drawn) && drawn.len() == self@.amounts.len() + 1 && (
                    forall|i: int| 0 <= i < drawn.len() ==> curve::is_drawn(#[trigger] drawn[i]))
                        && {
                    let n = self@.amounts.len() as int;
                    &&& proof.cap == self@.cap
                    &&& proof.envelope_ids@ == self@.envelope_ids
                    &&& proof.amount_commitments@.len() == n
                    &&& forall|i: int|
                        0 <= i < n ==> (#[trigger] proof.amount_commitments@[i])@
                            == curve::pedersen_commitment(
                            self@.amounts[i] as int,
                            curve::scalar(drawn[i]@),
                        )
                    &&& proof.slack_commitment@ == curve::pedersen_commitment(
                        self@.cap - 1 - curve::amount_total(self@.amounts),
                        curve::scalar(drawn[n]@),
                    )
                    &&& curve::scalar(proof.blinding_sum@) == curve::blinding_total(
                        curve::encodings(drawn),
                    ) % curve::group_order()
                },
                Err(SyncEngineError::ZkProofGeneration(reason)) => reason@
                    == "Bulletproofs prove_multiple failed: "@
                    + "Internal error during proof creation: Dealer gave a malicious challenge value."@,
                Err(_) => false,
            },
    {
        if let Err(e) = self.provable_sum() {
            return Err(e);
        }
        proof {
            padding::padded_size_is_tight(self@.amounts.len() + 1);
        }
        let drawn = curve::draw_scalars(self.amounts.len() + 1);
        let result = self.prove_with(&drawn);
        proof {
            if result is Ok {
                assert(drawn_for(self@, result->Ok_0, drawn@));
            }
        }
        result
    }

    /// Makes the proof under the given blindings: one for each amount, in
    /// order, and one for the slack. They have to be secret, and drawn anew
    /// for each proof, or the proof gives the amounts away.
    pub fn prove_with(&self, drawn: &Vec<[u8; 32]>) -> (result: Result<
        SpendCapProof,
        SyncEngineError,
    >)
        requires
            unprovable(self@.amounts, self@.cap) is None ==> {
                &&& drawn@.len() == self@.amounts.len() + 1
                &&& self@.context.len() <= u32::MAX
                &&& RANGE_BITS * padding::padded_size(self@.amounts.len() + 1) <= usize::MAX
            },
        ensures
            unprovable(self@.amounts, self@.cap) matches Some(error) ==> (result matches Err(e)
                && e@ == error),
            unprovable(self@.amounts, self@.cap) is None ==> match result {
                Ok(proof) => is_proof_by(self@, proof) && committed_under(
                    self@,
                    proof,
                    curve::encodings(drawn@),
                ),
                Err(e) => e@ == prover_out_of_luck(),
            },
            self@.amounts.len() == 0 ==> (result matches Err(SyncEngineError::ZkProofInput(reason))
                && reason@ == "amounts list is empty; nothing to prove"@),
            self@.amounts.len() > 0 && self@.cap == 0 ==> (result matches Err(
                SyncEngineError::ZkProofInput(reason),
            ) && reason@
                == "cap must be > 0 (cap = 0 means no Emergency payment can ever be compliant)"@),
            self@.amounts.len() > 0 && self@.cap > 0 && curve::amount_total(self@.amounts)
                > u64::MAX ==> (result matches Err(SyncEngineError::ZkProofInput(reason)) && reason@
                == "sum of amounts overflows u64; amounts are unreasonably large"@),
            self@.amounts.len() > 0 && self@.cap > 0 && self@.cap <= curve::amount_total(
                self@.amounts,
            ) <= u64::MAX ==> (result matches Err(SyncEngineError::ZkProofInput(reason)) && reason@
                == "sum of amounts ("@ + text::decimal(curve::amount_total(self@.amounts) as nat)
                + ") >= cap ("@ + text::decimal(self@.cap as nat)
                + "); cannot prove compliance with a false statement"@),
            self@.amounts.len() > 0 && curve::amount_total(self@.amounts) < self@.cap ==> match result {
                Ok(proof) => {
                    let n = self@.amounts.len() as int;
                    &&& proof.cap == self@.cap
                    &&& proof.envelope_ids@ == self@.envelope_ids
                    &&& proof.amount_commitments@.len() == n
                    &&& forall|i: int|
                        0 <= i < n ==> (#[trigger] proof.amount_commitments@[i])@
                            == curve::pedersen_commitment(
                            self@.amounts[i] as int,
                            curve::scalar(drawn@[i]@),
                        )
                    &&& proof.slack_commitment@ == curve::pedersen_commitment(
                        self@.cap - 1 - curve::amount_total(self@.amounts),
                        curve::scalar(drawn@[n]@),
                    )
                    &&& curve::scalar(proof.blinding_sum@) == curve::blinding_total(
                        curve::encodings(drawn@),
                    ) % curve::group_order()
                },
                Err(SyncEngineError::ZkProofGeneration(reason)) => reason@
                    == "Bulletproofs prove_multiple failed: "@
                    + "Internal error during proof creation: Dealer gave a malicious challenge value."@,
                Err(_) => false,
            },
    {
        let sum: u64 = match self.provable_sum() {
            Ok(sum) => sum,
            Err(e) => {
                return Err(e);
            },
        };
        proof {
            padding::padded_size_is_tight(self@.amounts.len() + 1);
        }
        let size = padding::padded_len(self.amounts.len() + 1);
        let values = build_witness(&self.amounts, self.cap, sum, size);
        let blindings = pad_blindings(drawn, size);
        let mut opening = build_transcript(self.context.as_slice(), self.cap);
        let outcome = range_proof::prove_range(RANGE_BITS, &mut opening, &values, &blindings);
        let ghost made = outcome;
        let result = self.assemble(&blindings, outcome);
        proof {
            if let Ok((bytes, commitments)) = made {
                let proof = result->Ok_0;
                self.made_proof_is_ours(proof, values@, blindings@, bytes@, commitments@);
                assert(curve::encodings(blindings@).take(drawn@.len() as int)
                    =~= curve::encodings(blindings@.take(drawn@.len() as int)));
                each_amount_is_committed_to(self@, proof, drawn@);
            }
        }
        result
    }

    /// What the range prover says of its commitments and bytes is what
    /// [`is_proof_by`] asks of the assembled proof.
    proof fn made_proof_is_ours(
        &self,
        proof: SpendCapProof,
        values: Seq<u64>,
        blindings: Seq<[u8; 32]>,
        bytes: Seq<u8>,
        commitments: Seq<[u8; 32]>,
    )
        requires
            unprovable(self@.amounts, self@.cap) is None,
            values == padded_witness(self@.amounts, self@.cap),
            blindings.len() == values.len(),
            forall|i: int|
                self@.amounts.len() < i < values.len() ==> #[trigger] blindings[i]@
                    == curve::zero_bytes(),
            curve::opens(curve::encodings(commitments), values, curve::encodings(blindings)),
            forall|i: int|
                0 <= i < commitments.len() ==> curve::is_point(
                    #[trigger] curve::encodings(commitments)[i],
                ),
            forall|i: int|
                0 <= i < commitments.len() && values[i] == 0 && curve::scalar(blindings[i]@) == 0
                    ==> #[trigger] curve::encodings(commitments)[i] == curve::zero_bytes(),
            forall|n: int|
                0 <= n <= commitments.len() ==> #[trigger] curve::point_total(
                    curve::encodings(commitments).take(n),
                ) == curve::pedersen_commitment(
                    curve::amount_total(values.take(n)) % curve::group_order(),
                    curve::blinding_total(curve::encodings(blindings).take(n))
                        % curve::group_order(),
                ),
            forall|e: nat|
                RANGE_BITS * values.len() == #[trigger] power2::pow2(e) ==> {
                    &&& bytes.len() == 32 * (9 + 2 * e)
                    &&& e < 32 ==> range_proof::is_range_proof(bytes)
                    &&& e < 32 && !range_proof::range_proof_degenerate(
                        bytes,
                        range_proof::inverted_challenges(
                            opening_record(self@.context, self@.cap),
                            RANGE_BITS as nat,
                            curve::encodings(commitments),
                            bytes,
                        ),
                    ) ==> range_proof::range_proof_holds(
                        opening_record(self@.context, self@.cap),
                        RANGE_BITS as nat,
                        curve::encodings(commitments),
                        bytes,
                    )
                },
            proof.proof_bytes@ == bytes,
            proof.amount_commitments@ == commitments.take(self@.amounts.len() as int),
            proof.slack_commitment == commitments[self@.amounts.len() as int],
            curve::is_canonical_scalar(proof.blinding_sum@),
            curve::scalar(proof.blinding_sum@) == curve::blinding_total(
                curve::encodings(blindings).take((self@.amounts.len() + 1) as int),
            ) % curve::group_order(),
            proof.cap == self@.cap,
            proof.envelope_ids@ == self@.envelope_ids,
        ensures
            is_proof_by(self@, proof),
            committed_under(
                self@,
                proof,
                curve::encodings(blindings).take((self@.amounts.len() + 1) as int),
            ),
    {
        let n = self@.amounts.len() as int;
        let list = curve::encodings(commitments);
        let kept = curve::encodings(blindings).take(n + 1);
        let size = padding::padded_size(self@.amounts.len() + 1);
        padding::padded_size_is_tight(self@.amounts.len() + 1);
        curve::zero_bytes_are_zero();
        amount_total_bounds(self@.amounts);

        assert(carried_commitments(proof) =~= list.take(n + 1));
        assert(values.take(n + 1) =~= witness(self@.amounts, self@.cap));
        assert(witness(self@.amounts, self@.cap).drop_last() =~= self@.amounts);
        assert(curve::amount_total(values.take(n + 1)) == self@.cap - 1);
        vstd::arithmetic::div_mod::lemma_small_mod(
            (self@.cap - 1) as nat,
            curve::group_order() as nat,
        );
        assert(curve::point_total(list.take(n + 1)) == curve::pedersen_commitment(
            curve::amount_total(values.take(n + 1)) % curve::group_order(),
            curve::blinding_total(kept) % curve::group_order(),
        ));
        assert(sums_to_cap(proof, self@.cap));

        assert forall|i: int| 0 <= i < n + 1 implies #[trigger] carried_commitments(proof)[i]
            == curve::pedersen_commitment(
            witness(self@.amounts, self@.cap)[i] as int,
            curve::scalar(kept[i]),
        ) by {
            assert(list[i] == carried_commitments(proof)[i]);
            assert(values[i] == values.take(n + 1)[i]);
        }
        assert(committed_under(self@, proof, kept));
        assert forall|i: int| 0 <= i <= n implies curve::is_point(
            #[trigger] carried_commitments(proof)[i],
        ) by {
            assert(list[i] == carried_commitments(proof)[i]);
        }

        assert forall|i: int| n < i < size implies #[trigger] list[i] == curve::zero_bytes() by {
            assert(values[i] == 0);
            assert(blindings[i]@ == curve::zero_bytes());
        }
        assert(padded_commitments(proof) =~= list);

        let e = choose|e: nat| size == #[trigger] power2::pow2(e);
        assert forall|e: nat| size == #[trigger] power2::pow2(e) implies RANGE_BITS * values.len()
            == power2::pow2(e + 6) by {
            power2::lemma2_to64();
            power2::lemma_pow2_adds(e, 6);
        }
        if size <= readable_size() {
            power2::lemma2_to64();
            if e > 25 {
                power2::lemma_pow2_strictly_increases(25, e);
            }
            assert(e + 6 < 32);
            assert(RANGE_BITS * values.len() == power2::pow2(e + 6));
        }
    }
}

/// A compliant spend is accepted: a proof that the prover returns is answered
/// with `Ok` by a verifier that uses the same context, unless chance spoilt
/// the range proof or there are too many amounts for it to be read back.
pub proof fn honest_proof_is_accepted(
    prover: ProverView,
    proof: SpendCapProof,
    out: Result<(), ErrorView>,
)
    requires
        unprovable(prover.amounts, prover.cap) is None,
        is_proof_by(prover, proof),
        padding::padded_size(prover.amounts.len() + 1) <= readable_size(),
        !spoilt(proof, prover.context),
        may_answer(proof, prover.context, out),
    ensures
        out is Ok,
{
}

/// A proof is good for its own cap only: with any other cap written into it,
/// it is refused, whatever the context and the range verifier. Where the
/// other cap is not zero and the range proof can be read back, the refusal
/// says that the proof does not hold.
pub proof fn proof_with_another_cap_is_refused(
    prover: ProverView,
    proof: SpendCapProof,
    tampered: SpendCapProof,
    context: Seq<u8>,
    out: Result<(), ErrorView>,
)
    requires
        unprovable(prover.amounts, prover.cap) is None,
        is_proof_by(prover, proof),
        tampered == (SpendCapProof { cap: tampered.cap, ..proof }),
        tampered.cap != proof.cap,
        may_answer(tampered, context, out),
    ensures
        out is Err,
        tampered.cap > 0 && padding::padded_size(prover.amounts.len() + 1) <= readable_size() ==> (
        out matches Err(ErrorView::ZkProofVerification(_))),
{
    assert(carried_commitments(tampered) == carried_commitments(proof));
    assert(sums_to_cap(tampered, proof.cap));
}

/// An accepted proof is of a spend below the cap: whatever amounts and slack
/// its commitments are opened to, under blindings that add up to the stated
/// sum, the amounts add up to less than the cap.
pub proof fn accepted_spend_is_below_cap(
    proof: SpendCapProof,
    context: Seq<u8>,
    amounts: Seq<u64>,
    slack: u64,
    blindings: Seq<Seq<u8>>,
)
    requires
        may_answer(proof, context, Ok(())),
        curve::opens(carried_commitments(proof), amounts.push(slack), blindings),
        curve::blinding_total(blindings) % curve::group_order() == curve::scalar(
            proof.blinding_sum@,
        ),
    ensures
        curve::amount_total(amounts) + slack == proof.cap - 1,
        curve::amount_total(amounts) < proof.cap,
{
    assert(amounts.push(slack).drop_last() =~= amounts);
}

/// Prover and verifier start from the same transcript exactly when they use
/// the same cap and the same context.
pub proof fn transcripts_tell_caps_and_contexts_apart(
    context: Seq<u8>,
    cap: u64,
    other_context: Seq<u8>,
    other_cap: u64,
)
    ensures
        opening_record(context, cap) == opening_record(other_context, other_cap) <==> context
            == other_context && cap == other_cap,
{
    vstd::bytes::lemma_auto_spec_u64_to_from_le_bytes();
    let a = opening_record(context, cap);
    let b = opening_record(other_context, other_cap);
    if a == b {
        assert(a[1] == b[1]);
        assert(vstd::bytes::spec_u64_to_le_bytes(cap) == vstd::bytes::spec_u64_to_le_bytes(
            other_cap,
        ));
        if context.len() > 0 {
            assert(a[2] == b[2]);
        } else {
            assert(context =~= other_context);
        }
    }
}

/// An answer that a proof may get, it may also get under other envelope
/// identifiers.
proof fn relabelling_keeps_answers(
    proof: SpendCapProof,
    relabelled: SpendCapProof,
    context: Seq<u8>,
    out: Result<(), ErrorView>,
)
    requires
        relabelled == (SpendCapProof { envelope_ids: relabelled.envelope_ids, ..proof }),
        may_answer(proof, context, out),
    ensures
        may_answer(relabelled, context, out),
{
    assert(carried_commitments(relabelled) == carried_commitments(proof));
    assert(padded_commitments(relabelled) == padded_commitments(proof));
    assert(malformed(relabelled) == malformed(proof));
    assert(forall|accepted: bool| #[trigger]
        ruling(relabelled, accepted) == ruling(proof, accepted));
    assert(forall|cap: u64| #[trigger] sums_to_cap(relabelled, cap) == sums_to_cap(proof, cap));
    if malformed(proof) is None {
        let weight = choose|weight: int|
            out == ruling(proof, #[trigger] range_accepts(proof, context, weight));
        assert(out == ruling(relabelled, range_accepts(relabelled, context, weight)));
    }
}

/// The envelope identifiers carry no weight: with any others in their place,
/// a proof may be answered just as before.
pub proof fn envelope_ids_carry_no_weight(
    proof: SpendCapProof,
    relabelled: SpendCapProof,
    context: Seq<u8>,
    out: Result<(), ErrorView>,
)
    requires
        relabelled == (SpendCapProof { envelope_ids: relabelled.envelope_ids, ..proof }),
    ensures
        may_answer(relabelled, context, out) == may_answer(proof, context, out),
{
    if may_answer(proof, context, out) {
        relabelling_keeps_answers(proof, relabelled, context, out);
    }
    if may_answer(relabelled, context, out) {
        relabelling_keeps_answers(relabelled, proof, context, out);
    }
}

/// What is committed to always adds up to one less than the cap.
pub proof fn witness_adds_up_to_cap(amounts: Seq<u64>, cap: u64)
    requires
        unprovable(amounts, cap) is None,
    ensures
        curve::amount_total(witness(amounts, cap)) == cap - 1,
{
    amount_total_bounds(amounts);
    assert(witness(amounts, cap).drop_last() =~= amounts);
}

/// The range proof for up to eight payments takes less than a kilobyte.
pub proof fn eight_payments_take_less_than_a_kilobyte(prover: ProverView, proof: SpendCapProof)
    requires
        is_proof_by(prover, proof),
        prover.amounts.len() <= 8,
    ensures
        proof.proof_bytes@.len() < 1024,
{
    padding::padded_size_is_tight(prover.amounts.len() + 1);
    let size = padding::padded_size(prover.amounts.len() + 1);
    let e = choose|e: nat| size == #[trigger] power2::pow2(e);
    power2::lemma2_to64();
    if e >= 5 {
        if e > 5 {
            power2::lemma_pow2_strictly_increases(5, e);
        }
        assert(false);
    }
}

} // verus!
