//! What holds of spend-cap proofs, said of the parts themselves: what an
//! accepted proof has passed, what a proof is refused for, what the range proof
//! covers, and what a prover commits to.
use vstd::arithmetic::power2;
use vstd::prelude::*;
use vstd::string::*;

use crate::curve;
use crate::errors::{ErrorView, SyncEngineError};
use crate::fiat_shamir;
use crate::fiat_shamir::Step;
use crate::padding;
use crate::queue::zk_spend_proof;
use crate::queue::zk_spend_proof::{ProverView, SpendCapProof};
use crate::range_proof;
use crate::text;

verus! {

/// A proof is accepted only where a range verifier has accepted its range
/// proof, over all its commitments and on the transcript of its cap and of the
/// context.
pub proof fn accepted_proof_has_an_accepted_range_proof(proof: SpendCapProof, context: Seq<u8>)
    requires
        zk_spend_proof::may_answer(proof, context, Ok(())),
    ensures
        exists|weight: int| #[trigger]
            range_proof::range_proof_accepted(
                zk_spend_proof::opening_record(context, proof.cap),
                64,
                zk_spend_proof::padded_commitments(proof),
                proof.proof_bytes@,
                weight,
            ),
        range_proof::is_range_proof(proof.proof_bytes@),
        64 * zk_spend_proof::padded_commitments(proof).len() == power2::pow2(
            ((proof.proof_bytes@.len() as int / 32 - 9) / 2) as nat,
        ),
{
    let weight = choose|weight: int|
        Ok::<(), ErrorView>(()) == zk_spend_proof::ruling(
            proof,
            #[trigger] zk_spend_proof::range_accepts(proof, context, weight),
        );
    assert(range_proof::range_proof_accepted(
        zk_spend_proof::opening_record(context, proof.cap),
        64,
        zk_spend_proof::padded_commitments(proof),
        proof.proof_bytes@,
        weight,
    ));
}

/// A proof is accepted only where it has amounts and a cap, each commitment is
/// a point, and the commitments add up to that to `cap - 1`.
pub proof fn accepted_proof_adds_up(proof: SpendCapProof, context: Seq<u8>)
    requires
        zk_spend_proof::may_answer(proof, context, Ok(())),
    ensures
        proof.amount_commitments@.len() > 0,
        proof.cap > 0,
        curve::is_point(proof.slack_commitment@),
        forall|i: int|
            0 <= i < proof.amount_commitments@.len() ==> curve::is_point(
                (#[trigger] proof.amount_commitments@[i])@,
            ),
        curve::point_total(
            curve::encodings(proof.amount_commitments@).push(proof.slack_commitment@),
        ) == curve::pedersen_commitment(proof.cap - 1, curve::scalar(proof.blinding_sum@)),
{
    let points = curve::encodings(proof.amount_commitments@).push(proof.slack_commitment@);
    assert(points[proof.amount_commitments@.len() as int] == proof.slack_commitment@);
    assert forall|i: int| 0 <= i < proof.amount_commitments@.len() implies curve::is_point(
        (#[trigger] proof.amount_commitments@[i])@,
    ) by {
        assert(points[i] == proof.amount_commitments@[i]@);
    }
}

/// An accepted proof is good for no other cap: its commitments add up to that
/// to one less than its own cap, and to that of no other.
pub proof fn accepted_proof_is_good_for_one_cap(
    proof: SpendCapProof,
    context: Seq<u8>,
    other: u64,
)
    requires
        zk_spend_proof::may_answer(proof, context, Ok(())),
        other > 0,
    ensures
        curve::point_total(
            curve::encodings(proof.amount_commitments@).push(proof.slack_commitment@),
        ) == curve::pedersen_commitment(other - 1, curve::scalar(proof.blinding_sum@)) <==> other
            == proof.cap,
{
    accepted_proof_adds_up(proof, context);
    if curve::point_total(
        curve::encodings(proof.amount_commitments@).push(proof.slack_commitment@),
    ) == curve::pedersen_commitment(other - 1, curve::scalar(proof.blinding_sum@)) {
        assert(zk_spend_proof::sums_to_cap(proof, other));
    }
}

/// A well-formed proof is answered by what the range verifier said, for some
/// weight that it drew, and then by the sum check, in that order. It is
/// accepted exactly where both agree, and else refused with the reason of the
/// one that did not.
pub proof fn answer_rests_on_the_range_proof_and_the_sum(
    proof: SpendCapProof,
    context: Seq<u8>,
    out: Result<(), ErrorView>,
)
    requires
        zk_spend_proof::may_answer(proof, context, out),
        proof.amount_commitments@.len() > 0,
        proof.cap > 0,
        range_proof::is_range_proof(proof.proof_bytes@),
    ensures
        exists|weight: int|
            {
                let accepted = #[trigger] range_proof::range_proof_accepted(
                    zk_spend_proof::opening_record(context, proof.cap),
                    64,
                    zk_spend_proof::padded_commitments(proof),
                    proof.proof_bytes@,
                    weight,
                );
                let balanced = curve::point_total(
                    curve::encodings(proof.amount_commitments@).push(proof.slack_commitment@),
                ) == curve::pedersen_commitment(
                    proof.cap - 1,
                    curve::scalar(proof.blinding_sum@),
                );
                &&& out is Ok <==> accepted && balanced
                &&& !accepted ==> out == Err::<(), ErrorView>(
                    ErrorView::ZkProofVerification(
                        "Bulletproofs range proof verification failed: "@
                            + "Proof verification failed."@,
                    ),
                )
                &&& accepted && !balanced ==> out == Err::<(), ErrorView>(
                    ErrorView::ZkProofVerification(
                        "homomorphic sum check failed: committed values do not sum to cap \u{2212} 1"@,
                    ),
                )
            },
{
    let weight = choose|weight: int|
        out == zk_spend_proof::ruling(
            proof,
            #[trigger] zk_spend_proof::range_accepts(proof, context, weight),
        );
    let accepted = range_proof::range_proof_accepted(
        zk_spend_proof::opening_record(context, proof.cap),
        64,
        zk_spend_proof::padded_commitments(proof),
        proof.proof_bytes@,
        weight,
    );
    assert(accepted == zk_spend_proof::range_accepts(proof, context, weight));
    let carried = zk_spend_proof::carried_commitments(proof);
    if accepted && exists|i: int| 0 <= i < carried.len() && !curve::is_point(#[trigger] carried[i]) {
        let i = choose|i: int| 0 <= i < carried.len() && !curve::is_point(#[trigger] carried[i]);
        assert(!curve::is_point(zk_spend_proof::carried_commitments(proof)[i]));
        assert(false);
    }
}

/// A proof without amounts, without a cap or without a readable range proof is
/// answered with the first of these that holds, whatever the context.
pub proof fn malformed_proof_is_answered_as_such(
    proof: SpendCapProof,
    context: Seq<u8>,
    out: Result<(), ErrorView>,
)
    requires
        zk_spend_proof::may_answer(proof, context, out),
    ensures
        proof.amount_commitments@.len() == 0 ==> out == Err::<(), ErrorView>(
            ErrorView::ZkProofInput("proof contains no amount commitments"@),
        ),
        proof.amount_commitments@.len() > 0 && proof.cap == 0 ==> out == Err::<(), ErrorView>(
            ErrorView::ZkProofInput("proof.cap must be > 0"@),
        ),
        proof.amount_commitments@.len() > 0 && proof.cap > 0 && !range_proof::is_range_proof(
            proof.proof_bytes@,
        ) ==> out == Err::<(), ErrorView>(
            ErrorView::ZkProofInput(
                "failed to deserialise range proof: "@ + "Proof data could not be parsed."@,
            ),
        ),
{
}

/// A proof with a commitment that is no point is refused, and the range
/// verifier is the one to refuse it.
pub proof fn commitment_that_is_no_point_is_refused(
    proof: SpendCapProof,
    context: Seq<u8>,
    out: Result<(), ErrorView>,
)
    requires
        zk_spend_proof::may_answer(proof, context, out),
        !curve::is_point(proof.slack_commitment@) || exists|i: int|
            0 <= i < proof.amount_commitments@.len() && !curve::is_point(
                (#[trigger] proof.amount_commitments@[i])@,
            ),
    ensures
        out is Err,
        proof.amount_commitments@.len() > 0 && proof.cap > 0 && range_proof::is_range_proof(
            proof.proof_bytes@,
        ) ==> out == Err::<(), ErrorView>(
            ErrorView::ZkProofVerification(
                "Bulletproofs range proof verification failed: "@ + "Proof verification failed."@,
            ),
        ),
{
    let n = proof.amount_commitments@.len() as int;
    if !curve::is_point(proof.slack_commitment@) {
        assert(zk_spend_proof::carried_commitments(proof)[n] == proof.slack_commitment@);
    } else {
        let i = choose|i: int|
            0 <= i < proof.amount_commitments@.len() && !curve::is_point(
                (#[trigger] proof.amount_commitments@[i])@,
            );
        assert(zk_spend_proof::carried_commitments(proof)[i] == proof.amount_commitments@[i]@);
    }
}

/// An answer in code says no more and no less than the answer in the model.
pub proof fn answers_keep_their_error(result: Result<(), SyncEngineError>)
    ensures
        zk_spend_proof::answer(result) is Ok <==> result is Ok,
        result matches Err(e) ==> zk_spend_proof::answer(result) == Err::<(), ErrorView>(e@),
{
}

/// The range proof covers every commitment of a proof: those to the amounts in
/// their order, then that to the slack. What follows is the identity, up to
/// the next power of two and no further.
pub proof fn range_proof_covers_every_commitment(proof: SpendCapProof)
    ensures
        ({
            let n = proof.amount_commitments@.len() as int;
            let covered = zk_spend_proof::padded_commitments(proof);
            &&& padding::is_power_of_two(covered.len())
            &&& n + 1 <= covered.len() < 2 * (n + 1)
            &&& forall|i: int| 0 <= i < n ==> #[trigger] covered[i] == proof.amount_commitments@[i]@
            &&& covered[n] == proof.slack_commitment@
            &&& forall|i: int|
                n < i < covered.len() ==> #[trigger] covered[i] == Seq::new(32, |j: int| 0u8)
        }),
{
    let n = proof.amount_commitments@.len();
    padding::padded_size_is_tight(n + 1);
    let covered = zk_spend_proof::padded_commitments(proof);
    assert(covered.len() == padding::padded_size(n + 1));
}

/// Prover and verifier start from the domain separator, the cap in eight
/// little-endian bytes and, unless it is empty, the whole context.
pub proof fn transcript_starts_with_cap_and_context(context: Seq<u8>, cap: u64)
    ensures
        ({
            let record = zk_spend_proof::opening_record(context, cap);
            &&& record.len() == if context.len() == 0 {
                2nat
            } else {
                3nat
            }
            &&& (record[0] matches Step::Appended { label, message } && fiat_shamir::spells(label, "dom-sep"@)
                && fiat_shamir::spells(message, "stellarconduit-emergency-spend-cap-v1"@))
            &&& (record[1] matches Step::Appended { label, message } && fiat_shamir::spells(label, "cap"@)
                && message.len() == 8 && curve::le_value(message) == cap)
            &&& context.len() > 0 ==> (record[2] matches Step::Appended { label, message }
                && fiat_shamir::spells(label, "context"@) && message == context)
        }),
{
    reveal_strlit("dom-sep");
    reveal_strlit("stellarconduit-emergency-spend-cap-v1");
    reveal_strlit("cap");
    reveal_strlit("context");
    fiat_shamir::numbers_join_in_little_endian_order(cap);
}

/// What is committed to are the amounts as they are, each at its place, then
/// what is left of `cap - 1`. The rest of what the range proof is over is
/// zero.
pub proof fn witness_is_the_amounts_and_the_slack(amounts: Seq<u64>, cap: u64)
    requires
        curve::amount_total(amounts) < cap,
    ensures
        ({
            let values = zk_spend_proof::witness(amounts, cap);
            let padded = zk_spend_proof::padded_witness(amounts, cap);
            &&& values.len() == amounts.len() + 1
            &&& forall|i: int| 0 <= i < amounts.len() ==> #[trigger] values[i] == amounts[i]
            &&& values[amounts.len() as int] == cap - 1 - curve::amount_total(amounts)
            &&& padding::is_power_of_two(padded.len())
            &&& amounts.len() + 1 <= padded.len() < 2 * (amounts.len() + 1)
            &&& forall|i: int| 0 <= i <= amounts.len() ==> #[trigger] padded[i] == values[i]
            &&& forall|i: int| amounts.len() < i < padded.len() ==> #[trigger] padded[i] == 0
        }),
{
    padding::padded_size_is_tight(amounts.len() + 1);
    zk_spend_proof::amount_total_bounds(amounts);
}

/// A spend can be proved exactly where there is one and it is below the cap;
/// the refusal of any other names the first thing that is wrong with it.
pub proof fn only_a_spend_below_the_cap_is_provable(amounts: Seq<u64>, cap: u64)
    ensures
        ({
            let total = curve::amount_total(amounts);
            let refusal = zk_spend_proof::unprovable(amounts, cap);
            &&& refusal is None <==> amounts.len() > 0 && total < cap
            &&& amounts.len() == 0 ==> refusal == Some(
                ErrorView::ZkProofInput("amounts list is empty; nothing to prove"@),
            )
            &&& amounts.len() > 0 && cap == 0 ==> refusal == Some(
                ErrorView::ZkProofInput(
                    "cap must be > 0 (cap = 0 means no Emergency payment can ever be compliant)"@,
                ),
            )
            &&& amounts.len() > 0 && cap > 0 && total > u64::MAX ==> refusal == Some(
                ErrorView::ZkProofInput(
                    "sum of amounts overflows u64; amounts are unreasonably large"@,
                ),
            )
            &&& amounts.len() > 0 && cap > 0 && cap <= total <= u64::MAX ==> refusal == Some(
                ErrorView::ZkProofInput(
                    "sum of amounts ("@ + text::decimal(total as nat) + ") >= cap ("@
                        + text::decimal(cap as nat)
                        + "); cannot prove compliance with a false statement"@,
                ),
            )
        }),
{
    zk_spend_proof::amount_total_bounds(amounts);
}

/// A prover out of luck says so, and blames the range prover.
pub proof fn prover_out_of_luck_says_so()
    ensures
        zk_spend_proof::prover_out_of_luck() == ErrorView::ZkProofGeneration(
            "Bulletproofs prove_multiple failed: "@
                + "Internal error during proof creation: Dealer gave a malicious challenge value."@,
        ),
{
}

/// A proof is the prover's own: it has the prover's cap and its envelope
/// identifiers, one commitment to each amount, and commitments that are points
/// and add up to that to `cap - 1`. Its range proof takes 672 bytes, and 64
/// more for every doubling of what it covers.
pub proof fn made_proof_is_the_provers_own(prover: ProverView, proof: SpendCapProof, e: nat)
    requires
        zk_spend_proof::is_proof_by(prover, proof),
    ensures
        proof.cap == prover.cap,
        proof.envelope_ids@ == prover.envelope_ids,
        proof.amount_commitments@.len() == prover.amounts.len(),
        curve::is_point(proof.slack_commitment@),
        forall|i: int|
            0 <= i < proof.amount_commitments@.len() ==> curve::is_point(
                (#[trigger] proof.amount_commitments@[i])@,
            ),
        curve::point_total(
            curve::encodings(proof.amount_commitments@).push(proof.slack_commitment@),
        ) == curve::pedersen_commitment(prover.cap - 1, curve::scalar(proof.blinding_sum@)),
        curve::is_canonical_scalar(proof.blinding_sum@),
        power2::pow2(e) < 2 * (prover.amounts.len() + 1) && prover.amounts.len() + 1
            <= power2::pow2(e) ==> proof.proof_bytes@.len() == 672 + 64 * e,
{
    let n = prover.amounts.len() as int;
    let points = zk_spend_proof::carried_commitments(proof);
    assert(points[n] == proof.slack_commitment@);
    assert forall|i: int| 0 <= i < n implies curve::is_point(
        (#[trigger] proof.amount_commitments@[i])@,
    ) by {
        assert(points[i] == proof.amount_commitments@[i]@);
    }
    let size = padding::padded_size(prover.amounts.len() + 1);
    padding::padded_size_is_tight(prover.amounts.len() + 1);
    if power2::pow2(e) < 2 * (n + 1) && n + 1 <= power2::pow2(e) {
        padding::padded_size_is_smallest(prover.amounts.len() + 1, e);
        let r = choose|r: nat| size == #[trigger] power2::pow2(r);
        if r < e {
            power2::lemma_pow2_unfold(e);
            if r < e - 1 {
                power2::lemma_pow2_strictly_increases(r, (e - 1) as nat);
            }
        } else if e < r {
            power2::lemma_pow2_strictly_increases(e, r);
        }
        assert(size == power2::pow2(e));
    }
}

/// For up to 0x200_0000 commitments, the padding counted, the range proof of a
/// made proof can be read back. A range verifier then accepts it whatever it
/// draws, on the transcript of the prover's cap and context and over all
/// commitments, unless a point of it is the identity or a challenge is zero.
pub proof fn made_range_proof_is_accepted(prover: ProverView, proof: SpendCapProof, weight: int)
    requires
        zk_spend_proof::is_proof_by(prover, proof),
        padding::padded_size(prover.amounts.len() + 1) <= 0x200_0000,
    ensures
        range_proof::is_range_proof(proof.proof_bytes@),
        !range_proof::range_proof_degenerate(
            proof.proof_bytes@,
            range_proof::inverted_challenges(
                zk_spend_proof::opening_record(prover.context, prover.cap),
                64,
                zk_spend_proof::padded_commitments(proof),
                proof.proof_bytes@,
            ),
        ) ==> range_proof::range_proof_accepted(
            zk_spend_proof::opening_record(prover.context, prover.cap),
            64,
            zk_spend_proof::padded_commitments(proof),
            proof.proof_bytes@,
            weight,
        ),
{
}

/// A made proof with at most 0x1ff_ffff amounts is accepted under the prover's
/// context, unless a point of its range proof is the identity or a challenge is
/// zero.
pub proof fn made_proof_is_accepted(
    prover: ProverView,
    proof: SpendCapProof,
    out: Result<(), ErrorView>,
)
    requires
        0 < prover.amounts.len() < 0x200_0000,
        curve::amount_total(prover.amounts) < prover.cap,
        zk_spend_proof::is_proof_by(prover, proof),
        !range_proof::range_proof_degenerate(
            proof.proof_bytes@,
            range_proof::inverted_challenges(
                zk_spend_proof::opening_record(prover.context, prover.cap),
                64,
                zk_spend_proof::padded_commitments(proof),
                proof.proof_bytes@,
            ),
        ),
        zk_spend_proof::may_answer(proof, prover.context, out),
    ensures
        out is Ok,
{
    zk_spend_proof::amount_total_bounds(prover.amounts);
    power2::lemma2_to64();
    padding::padded_size_is_smallest(prover.amounts.len() + 1, 25);
    zk_spend_proof::honest_proof_is_accepted(prover, proof, out);
}

/// A spoilt range proof is one with an identity among its points, or whose
/// verifier would have to invert a zero challenge.
pub proof fn only_chance_spoils_a_proof(proof: SpendCapProof, context: Seq<u8>)
    ensures
        zk_spend_proof::spoilt(proof, context) <==> range_proof::range_proof_degenerate(
            proof.proof_bytes@,
            range_proof::inverted_challenges(
                zk_spend_proof::opening_record(context, proof.cap),
                64,
                zk_spend_proof::padded_commitments(proof),
                proof.proof_bytes@,
            ),
        ),
{
}

/// Where a proof is freshly blinded, each amount is committed to, at its place
/// and as it is, under a blinding that was drawn, and so is the slack.
pub proof fn fresh_blindings_hide_every_amount(prover: ProverView, proof: SpendCapProof) -> (drawn:
    Seq<[u8; 32]>)
    requires
        curve::amount_total(prover.amounts) < prover.cap,
        zk_spend_proof::freshly_blinded(prover, proof),
    ensures
        drawn.len() == prover.amounts.len() + 1,
        forall|i: int| 0 <= i < drawn.len() ==> curve::is_drawn(#[trigger] drawn[i]),
        forall|i: int|
            0 <= i < prover.amounts.len() ==> (#[trigger] proof.amount_commitments@[i])@
                == curve::pedersen_commitment(
                prover.amounts[i] as int,
                curve::scalar(drawn[i]@),
            ),
        proof.slack_commitment@ == curve::pedersen_commitment(
            prover.cap - 1 - curve::amount_total(prover.amounts),
            curve::scalar(drawn[prover.amounts.len() as int]@),
        ),
{
    let drawn = choose|drawn: Seq<[u8; 32]>| #[trigger]
        zk_spend_proof::drawn_for(prover, proof, drawn);
    zk_spend_proof::each_amount_is_committed_to(prover, proof, drawn);
    drawn
}

} // verus!
