//! Aggregated range proofs over Merlin transcripts.
//!
//! Proving and verifying is done by `bulletproofs`; a proof stands here as
//! its serialised bytes, a commitment as its compressed encoding.
use bulletproofs::{BulletproofGens, PedersenGens, RangeProof};
use curve25519_dalek::ristretto::CompressedRistretto;
use curve25519_dalek::scalar::Scalar;
use merlin::Transcript;
use rand::rngs::OsRng;
use vstd::arithmetic::power2;
use vstd::prelude::*;

use crate::curve;
use crate::fiat_shamir::Step;
use crate::fiat_shamir;
use crate::padding;

verus! {

/// The 32-byte element at position `i` of a serialised proof.
pub open spec fn element(bytes: Seq<u8>, i: int) -> Seq<u8> {
    bytes.subrange(32 * i, 32 * i + 32)
}

/// How many folding rounds a serialised proof of that many bytes records.
pub open spec fn rounds(len: nat) -> int {
    (len as int / 32 - 9) / 2
}

/// Whether `bytes` have the form of a serialised range proof: four points,
/// three reduced scalars, fewer than 32 pairs of points, two reduced scalars.
pub open spec fn is_range_proof(bytes: Seq<u8>) -> bool {
    let elements = bytes.len() as int / 32;
    &&& bytes.len() % 32 == 0
    &&& elements >= 9
    &&& (elements - 9) % 2 == 0
    &&& rounds(bytes.len()) < 32
    &&& curve::is_canonical_scalar(element(bytes, 4))
    &&& curve::is_canonical_scalar(element(bytes, 5))
    &&& curve::is_canonical_scalar(element(bytes, 6))
    &&& curve::is_canonical_scalar(element(bytes, elements - 2))
    &&& curve::is_canonical_scalar(element(bytes, elements - 1))
}

/// Whether the serialised proof `proof` is accepted for `commitments` and
/// values of `bits` bits, on a transcript with that `record`, by a verifier
/// that draws `weight`, taken modulo the group order, to batch its two
/// equations.
pub uninterp spec fn range_proof_accepted(
    record: Seq<Step>,
    bits: nat,
    commitments: Seq<Seq<u8>>,
    proof: Seq<u8>,
    weight: int,
) -> bool;

/// Whether a range proof is accepted whatever weight the verifier draws.
pub open spec fn range_proof_holds(
    record: Seq<Step>,
    bits: nat,
    commitments: Seq<Seq<u8>>,
    proof: Seq<u8>,
) -> bool {
    forall|weight: int| #[trigger]
        range_proof_accepted(record, bits, commitments, proof, weight)
}

/// `rangeproof v1`.
pub const PROOF_DOMAIN: [u8; 13] = [114, 97, 110, 103, 101, 112, 114, 111, 111, 102, 32, 118, 49];

/// `ipp v1`.
pub const FOLDING_DOMAIN: [u8; 6] = [105, 112, 112, 32, 118, 49];

/// `n`.
pub const BITS_LABEL: [u8; 1] = [110];

/// `m`.
pub const PARTIES_LABEL: [u8; 1] = [109];

/// `V`.
pub const VALUE_LABEL: [u8; 1] = [86];

/// `A`.
pub const A_LABEL: [u8; 1] = [65];

/// `S`.
pub const S_LABEL: [u8; 1] = [83];

/// `y`.
pub const Y_LABEL: [u8; 1] = [121];

/// `z`.
pub const Z_LABEL: [u8; 1] = [122];

/// `T_1`.
pub const T1_LABEL: [u8; 3] = [84, 95, 49];

/// `T_2`.
pub const T2_LABEL: [u8; 3] = [84, 95, 50];

/// `x`.
pub const X_LABEL: [u8; 1] = [120];

/// `t_x`.
pub const TX_LABEL: [u8; 3] = [116, 95, 120];

/// `t_x_blinding`.
pub const TX_BLINDING_LABEL: [u8; 12] = [116, 95, 120, 95, 98, 108, 105, 110, 100, 105, 110, 103];

/// `e_blinding`.
pub const E_BLINDING_LABEL: [u8; 10] = [101, 95, 98, 108, 105, 110, 100, 105, 110, 103];

/// `w`.
pub const W_LABEL: [u8; 1] = [119];

/// `L`.
pub const LEFT_LABEL: [u8; 1] = [76];

/// `R`.
pub const RIGHT_LABEL: [u8; 1] = [82];

/// `u`.
pub const U_LABEL: [u8; 1] = [117];

/// What the values join a transcript as: how many bits each has, how many there
/// are, and the commitment to each.
pub open spec fn statement(bits: nat, commitments: Seq<Seq<u8>>) -> Seq<Step> {
    seq![
        Step::Appended { label: fiat_shamir::DOMAIN_LABEL@, message: PROOF_DOMAIN@ },
        Step::Appended { label: BITS_LABEL@, message: fiat_shamir::number_bytes(bits) },
        Step::Appended {
            label: PARTIES_LABEL@,
            message: fiat_shamir::number_bytes(commitments.len()),
        },
    ] + Seq::new(
        commitments.len(),
        |i: int| Step::Appended { label: VALUE_LABEL@, message: commitments[i] },
    )
}

/// The record at which the challenge `y` is drawn.
pub open spec fn record_at_y(
    record: Seq<Step>,
    bits: nat,
    commitments: Seq<Seq<u8>>,
    proof: Seq<u8>,
) -> Seq<Step> {
    record + statement(bits, commitments) + seq![
        Step::Appended { label: A_LABEL@, message: element(proof, 0) },
        Step::Appended { label: S_LABEL@, message: element(proof, 1) },
    ]
}

/// The record at which the folding begins.
pub open spec fn record_at_folding(
    record: Seq<Step>,
    bits: nat,
    commitments: Seq<Seq<u8>>,
    proof: Seq<u8>,
) -> Seq<Step> {
    record_at_y(record, bits, commitments, proof) + seq![
        Step::Drawn { label: Y_LABEL@ },
        Step::Drawn { label: Z_LABEL@ },
        Step::Appended { label: T1_LABEL@, message: element(proof, 2) },
        Step::Appended { label: T2_LABEL@, message: element(proof, 3) },
        Step::Drawn { label: X_LABEL@ },
        Step::Appended { label: TX_LABEL@, message: element(proof, 4) },
        Step::Appended { label: TX_BLINDING_LABEL@, message: element(proof, 5) },
        Step::Appended { label: E_BLINDING_LABEL@, message: element(proof, 6) },
        Step::Drawn { label: W_LABEL@ },
        Step::Appended { label: fiat_shamir::DOMAIN_LABEL@, message: FOLDING_DOMAIN@ },
        Step::Appended {
            label: BITS_LABEL@,
            message: fiat_shamir::number_bytes(bits * commitments.len()),
        },
    ]
}

/// The record at which the challenge of a folding round is drawn, where
/// `start` is the record at which the folding begins.
pub open spec fn record_at_round(start: Seq<Step>, proof: Seq<u8>, round: nat) -> Seq<Step>
    decreases round,
{
    let before = if round == 0 {
        start
    } else {
        record_at_round(start, proof, (round - 1) as nat).push(Step::Drawn { label: U_LABEL@ })
    };
    before + seq![
        Step::Appended { label: LEFT_LABEL@, message: element(proof, 7int + 2 * round) },
        Step::Appended { label: RIGHT_LABEL@, message: element(proof, 8int + 2 * round) },
    ]
}

/// The challenges that a verifier of `proof` has to invert, each reduced by
/// the group order: `y`, and that of every folding round.
pub open spec fn inverted_challenges(
    record: Seq<Step>,
    bits: nat,
    commitments: Seq<Seq<u8>>,
    proof: Seq<u8>,
) -> Seq<int> {
    let y = fiat_shamir::transcript_challenge(
        record_at_y(record, bits, commitments, proof),
        Y_LABEL@,
    );
    let start = record_at_folding(record, bits, commitments, proof);
    seq![curve::scalar(y)] + Seq::new(
        rounds(proof.len()) as nat,
        |i: int|
            curve::scalar(
                fiat_shamir::transcript_challenge(
                    record_at_round(start, proof, i as nat),
                    U_LABEL@,
                ),
            ),
    )
}

/// Whether the element at position `i` of a serialised proof is a point: one
/// of the first four, or one of the pairs of the folding rounds.
pub open spec fn is_point_position(len: nat, i: int) -> bool {
    0 <= i < 4 || 7 <= i < 7 + 2 * rounds(len)
}

/// Whether one of the points of `proof` is the identity, or one of the
/// `challenges` is zero. A prover meets this by chance alone, with a
/// probability in the order of one in the group order.
pub open spec fn range_proof_degenerate(proof: Seq<u8>, challenges: Seq<int>) -> bool {
    ||| exists|i: int| #[trigger]
        is_point_position(proof.len(), i) && element(proof, i) == curve::zero_bytes()
    ||| exists|k: int| 0 <= k < challenges.len() && #[trigger] challenges[k] == 0
}

/// A proof is degenerate exactly where a point of it is 32 zero bytes, or a
/// challenge is zero: one of the first four elements, or one of those between
/// the three scalars behind them and the two at the end.
pub proof fn degenerate_is_an_identity_or_a_zero(proof: Seq<u8>, challenges: Seq<int>)
    requires
        is_range_proof(proof),
    ensures
        range_proof_degenerate(proof, challenges) <==> {
            ||| exists|i: int|
                (0 <= i < 4 || 7 <= i < proof.len() / 32 - 2) && (#[trigger] element(proof, i))
                    == Seq::new(32, |j: int| 0u8)
            ||| exists|k: int| 0 <= k < challenges.len() && #[trigger] challenges[k] == 0
        },
        forall|i: int, j: int|
            #![trigger element(proof, i)[j]]
            0 <= i < proof.len() / 32 && 0 <= j < 32 ==> element(proof, i)[j] == proof[32 * i + j],
{
    if exists|i: int|
        (0 <= i < 4 || 7 <= i < proof.len() / 32 - 2) && (#[trigger] element(proof, i)) == Seq::new(
            32,
            |j: int| 0u8,
        ) {
        let i = choose|i: int|
            (0 <= i < 4 || 7 <= i < proof.len() / 32 - 2) && (#[trigger] element(proof, i))
                == Seq::new(32, |j: int| 0u8);
        assert(is_point_position(proof.len(), i));
        assert(Seq::new(32, |j: int| 0u8) =~= curve::zero_bytes());
    }
    if exists|i: int| #[trigger]
        is_point_position(proof.len(), i) && element(proof, i) == curve::zero_bytes() {
        let i = choose|i: int| #[trigger]
            is_point_position(proof.len(), i) && element(proof, i) == curve::zero_bytes();
        assert(Seq::new(32, |j: int| 0u8) =~= curve::zero_bytes());
        assert((0 <= i < 4 || 7 <= i < proof.len() / 32 - 2) && element(proof, i) == Seq::new(
            32,
            |j: int| 0u8,
        ));
    }
}

/// A verifier puts the whole statement on the transcript before it draws `y`:
/// behind what was there, the width of the values, their number and every
/// commitment in order, and then the first two elements of the proof.
pub proof fn y_is_drawn_behind_the_whole_statement(
    record: Seq<Step>,
    bits: u64,
    commitments: Seq<Seq<u8>>,
    proof: Seq<u8>,
)
    requires
        commitments.len() <= u64::MAX,
    ensures
        ({
            let all = record_at_y(record, bits as nat, commitments, proof);
            let r = record.len() as int;
            let m = commitments.len() as int;
            &&& all.len() == r + m + 5
            &&& all.take(r) == record
            &&& (all[r] matches Step::Appended { label, message } && fiat_shamir::spells(
                label,
                "dom-sep"@,
            ) && fiat_shamir::spells(message, "rangeproof v1"@))
            &&& (all[r + 1] matches Step::Appended { label, message } && fiat_shamir::spells(
                label,
                "n"@,
            ) && message.len() == 8 && curve::le_value(message) == bits)
            &&& (all[r + 2] matches Step::Appended { label, message } && fiat_shamir::spells(
                label,
                "m"@,
            ) && message.len() == 8 && curve::le_value(message) == m)
            &&& forall|i: int|
                0 <= i < m ==> (#[trigger] all[r + 3 + i] matches Step::Appended { label, message }
                    && fiat_shamir::spells(label, "V"@) && message == commitments[i])
            &&& (all[r + 3 + m] matches Step::Appended { label, message } && fiat_shamir::spells(
                label,
                "A"@,
            ) && message == element(proof, 0))
            &&& (all[r + 4 + m] matches Step::Appended { label, message } && fiat_shamir::spells(
                label,
                "S"@,
            ) && message == element(proof, 1))
        }),
{
    reveal_strlit("dom-sep");
    reveal_strlit("rangeproof v1");
    reveal_strlit("n");
    reveal_strlit("m");
    reveal_strlit("V");
    reveal_strlit("A");
    reveal_strlit("S");
    fiat_shamir::numbers_join_in_little_endian_order(bits);
    fiat_shamir::numbers_join_in_little_endian_order(commitments.len() as u64);
    assert(record_at_y(record, bits as nat, commitments, proof).take(record.len() as int)
        =~= record);
}

/// The challenges that a verifier inverts are `y` and one for each folding
/// round, each as the scalar it is reduced to.
pub proof fn one_challenge_is_inverted_for_each_round(
    record: Seq<Step>,
    bits: nat,
    commitments: Seq<Seq<u8>>,
    proof: Seq<u8>,
)
    requires
        is_range_proof(proof),
    ensures
        ({
            let challenges = inverted_challenges(record, bits, commitments, proof);
            let start = record_at_folding(record, bits, commitments, proof);
            &&& 32 * (7 + 2 * challenges.len()) == proof.len()
            &&& challenges[0] == curve::le_value(
                fiat_shamir::transcript_challenge(
                    record_at_y(record, bits, commitments, proof),
                    seq![121u8],
                ),
            ) as int % curve::group_order()
            &&& forall|i: int|
                1 <= i < challenges.len() ==> #[trigger] challenges[i] == curve::le_value(
                    fiat_shamir::transcript_challenge(
                        record_at_round(start, proof, (i - 1) as nat),
                        seq![117u8],
                    ),
                ) as int % curve::group_order()
        }),
{
    assert(Y_LABEL@ =~= seq![121u8]);
    assert(U_LABEL@ =~= seq![117u8]);
}

/// Between `y` and the folding a verifier draws three more challenges and
/// appends five elements of the proof, in the order in which they stand, and
/// then the length of what is folded.
pub proof fn folding_begins_behind_the_first_seven_elements(
    record: Seq<Step>,
    bits: nat,
    commitments: Seq<Seq<u8>>,
    proof: Seq<u8>,
)
    requires
        bits * commitments.len() <= u64::MAX,
    ensures
        ({
            let before = record_at_y(record, bits, commitments, proof);
            let all = record_at_folding(record, bits, commitments, proof);
            let r = before.len() as int;
            &&& all.len() == r + 11
            &&& all.take(r) == before
            &&& (all[r] matches Step::Drawn { label } && fiat_shamir::spells(label, "y"@))
            &&& (all[r + 1] matches Step::Drawn { label } && fiat_shamir::spells(label, "z"@))
            &&& (all[r + 2] matches Step::Appended { label, message } && fiat_shamir::spells(
                label,
                "T_1"@,
            ) && message == element(proof, 2))
            &&& (all[r + 3] matches Step::Appended { label, message } && fiat_shamir::spells(
                label,
                "T_2"@,
            ) && message == element(proof, 3))
            &&& (all[r + 4] matches Step::Drawn { label } && fiat_shamir::spells(label, "x"@))
            &&& (all[r + 5] matches Step::Appended { label, message } && fiat_shamir::spells(
                label,
                "t_x"@,
            ) && message == element(proof, 4))
            &&& (all[r + 6] matches Step::Appended { label, message } && fiat_shamir::spells(
                label,
                "t_x_blinding"@,
            ) && message == element(proof, 5))
            &&& (all[r + 7] matches Step::Appended { label, message } && fiat_shamir::spells(
                label,
                "e_blinding"@,
            ) && message == element(proof, 6))
            &&& (all[r + 8] matches Step::Drawn { label } && fiat_shamir::spells(label, "w"@))
            &&& (all[r + 9] matches Step::Appended { label, message } && fiat_shamir::spells(
                label,
                "dom-sep"@,
            ) && fiat_shamir::spells(message, "ipp v1"@))
            &&& (all[r + 10] matches Step::Appended { label, message } && fiat_shamir::spells(
                label,
                "n"@,
            ) && message.len() == 8 && curve::le_value(message) == bits * commitments.len())
        }),
{
    reveal_strlit("y");
    reveal_strlit("z");
    reveal_strlit("T_1");
    reveal_strlit("T_2");
    reveal_strlit("x");
    reveal_strlit("t_x");
    reveal_strlit("t_x_blinding");
    reveal_strlit("e_blinding");
    reveal_strlit("w");
    reveal_strlit("dom-sep");
    reveal_strlit("ipp v1");
    reveal_strlit("n");
    fiat_shamir::numbers_join_in_little_endian_order((bits * commitments.len()) as u64);
    let before = record_at_y(record, bits, commitments, proof);
    assert(record_at_folding(record, bits, commitments, proof).take(before.len() as int)
        =~= before);
}

/// Each folding round appends its pair of points behind the challenge of the
/// round before it.
pub proof fn rounds_follow_one_another(start: Seq<Step>, proof: Seq<u8>, round: nat)
    ensures
        ({
            let all = record_at_round(start, proof, round);
            let n = all.len() as int;
            &&& n == start.len() + 3 * round + 2
            &&& (all[n - 2] matches Step::Appended { label, message } && fiat_shamir::spells(
                label,
                "L"@,
            ) && message == element(proof, 7int + 2 * round))
            &&& (all[n - 1] matches Step::Appended { label, message } && fiat_shamir::spells(
                label,
                "R"@,
            ) && message == element(proof, 8int + 2 * round))
            &&& round == 0 ==> all.take(n - 2) == start
            &&& round > 0 ==> all.take(n - 3) == record_at_round(start, proof, (round - 1) as nat)
                && (all[n - 3] matches Step::Drawn { label } && fiat_shamir::spells(label, "u"@))
        }),
    decreases round,
{
    reveal_strlit("L");
    reveal_strlit("R");
    reveal_strlit("u");
    let all = record_at_round(start, proof, round);
    if round > 0 {
        rounds_follow_one_another(start, proof, (round - 1) as nat);
        assert(all.take(all.len() - 3) =~= record_at_round(start, proof, (round - 1) as nat));
    } else {
        assert(all.take(all.len() - 2) =~= start);
    }
}

/// The element at position `i` of a serialised proof.
fn element_at(proof: &Vec<u8>, i: usize) -> (part: &[u8])
    requires
        32 * i + 32 <= proof@.len(),
    ensures
        part@ == element(proof@, i as int),
        part@.len() == 32,
{
    let len: usize = proof.len();
    assert(32 * i + 32 <= len);
    vstd::slice::slice_subrange(proof.as_slice(), 32 * i, 32 * i + 32)
}

/// Whether a slice holds zeros only.
fn all_zero(part: &[u8]) -> (zero: bool)
    requires
        part@.len() == 32,
    ensures
        zero == (part@ == curve::zero_bytes()),
{
    let mut i: usize = 0;
    while i < part.len()
        invariant
            i <= part@.len(),
            part@.len() == 32,
            forall|j: int| 0 <= j < i ==> part@[j] == 0,
        decreases part@.len() - i,
    {
        if part[i] != 0 {
            assert(curve::zero_bytes()[i as int] == 0);
            return false;
        }
        i += 1;
    }
    assert(part@ =~= curve::zero_bytes());
    true
}

/// Whether one of the points of a proof is the identity.
fn has_identity(proof: &Vec<u8>) -> (has: bool)
    requires
        is_range_proof(proof@),
    ensures
        has == exists|i: int| #[trigger]
            is_point_position(proof@.len(), i) && element(proof@, i) == curve::zero_bytes(),
{
    let end: usize = proof.len() / 32 - 2;
    let mut i: usize = 0;
    while i < end
        invariant
            is_range_proof(proof@),
            i <= end,
            end == proof@.len() / 32 - 2,
            end == 7 + 2 * rounds(proof@.len()),
            forall|j: int|
                0 <= j < i && #[trigger] is_point_position(proof@.len(), j) ==> element(proof@, j)
                    != curve::zero_bytes(),
        decreases end - i,
    {
        if i < 4 || i >= 7 {
            assert(is_point_position(proof@.len(), i as int));
            if all_zero(element_at(proof, i)) {
                return true;
            }
        }
        i += 1;
    }
    false
}

/// Whether a challenge drawn now is zero.
fn draws_zero(transcript: &mut Transcript, label: &'static [u8]) -> (zero: bool)
    ensures
        zero == (curve::scalar(
            fiat_shamir::transcript_challenge(
                fiat_shamir::transcript_record(*old(transcript)),
                label@,
            ),
        ) == 0),
        fiat_shamir::transcript_record(*final(transcript)) == fiat_shamir::transcript_record(
            *old(transcript),
        ).push(Step::Drawn { label: label@ }),
{
    let reduced = curve::reduce_wide(&fiat_shamir::challenge(transcript, label));
    proof {
        curve::zero_bytes_are_zero();
        if curve::scalar(reduced@) == 0 {
            curve::only_zero_bytes_are_zero(reduced@);
        }
    }
    all_zero(reduced.as_slice())
}

/// Whether a verifier of `proof` meets a point that is the identity, or has to
/// invert a zero challenge, on a transcript with the given record.
pub(crate) fn is_degenerate(
    transcript: &mut Transcript,
    bits: usize,
    commitments: &Vec<[u8; 32]>,
    proof: &Vec<u8>,
) -> (is: bool)
    requires
        is_range_proof(proof@),
        bits * commitments@.len() <= usize::MAX,
    ensures
        is == range_proof_degenerate(
            proof@,
            inverted_challenges(
                fiat_shamir::transcript_record(*old(transcript)),
                bits as nat,
                curve::encodings(commitments@),
                proof@,
            ),
        ),
{
    let ghost record = fiat_shamir::transcript_record(*transcript);
    let ghost list = curve::encodings(commitments@);
    let ghost challenges = inverted_challenges(record, bits as nat, list, proof@);
    let ghost start = record_at_folding(record, bits as nat, list, proof@);
    if has_identity(proof) {
        return true;
    }
    transcript.append_message(&fiat_shamir::DOMAIN_LABEL, &PROOF_DOMAIN);
    fiat_shamir::append_number(transcript, &BITS_LABEL, bits as u64);
    fiat_shamir::append_number(transcript, &PARTIES_LABEL, commitments.len() as u64);
    let ghost head = statement(bits as nat, list);
    let mut i: usize = 0;
    assert(fiat_shamir::transcript_record(*transcript) =~= record + head.take(3));
    while i < commitments.len()
        invariant
            i <= commitments@.len(),
            list == curve::encodings(commitments@),
            head == statement(bits as nat, list),
            fiat_shamir::transcript_record(*transcript) == record + head.take(3 + i),
        decreases commitments@.len() - i,
    {
        transcript.append_message(&VALUE_LABEL, commitments[i].as_slice());
        i += 1;
        assert(fiat_shamir::transcript_record(*transcript) =~= record + head.take(3 + i));
    }
    assert(head.take(3 + i) =~= head);
    transcript.append_message(&A_LABEL, element_at(proof, 0));
    transcript.append_message(&S_LABEL, element_at(proof, 1));
    assert(fiat_shamir::transcript_record(*transcript) =~= record_at_y(
        record,
        bits as nat,
        list,
        proof@,
    ));
    let zero = draws_zero(transcript, &Y_LABEL);
    if zero {
        assert(challenges[0] == 0);
        return true;
    }
    let _ = fiat_shamir::challenge(transcript, &Z_LABEL);
    transcript.append_message(&T1_LABEL, element_at(proof, 2));
    transcript.append_message(&T2_LABEL, element_at(proof, 3));
    let _ = fiat_shamir::challenge(transcript, &X_LABEL);
    transcript.append_message(&TX_LABEL, element_at(proof, 4));
    transcript.append_message(&TX_BLINDING_LABEL, element_at(proof, 5));
    transcript.append_message(&E_BLINDING_LABEL, element_at(proof, 6));
    let _ = fiat_shamir::challenge(transcript, &W_LABEL);
    transcript.append_message(&fiat_shamir::DOMAIN_LABEL, &FOLDING_DOMAIN);
    fiat_shamir::append_number(transcript, &BITS_LABEL, (bits * commitments.len()) as u64);
    assert(fiat_shamir::transcript_record(*transcript) =~= start);
    let count: usize = (proof.len() / 32 - 9) / 2;
    let mut round: usize = 0;
    while round < count
        invariant
            is_range_proof(proof@),
            round <= count,
            count == rounds(proof@.len()),
            record == fiat_shamir::transcript_record(*old(transcript)),
            list == curve::encodings(commitments@),
            challenges == inverted_challenges(record, bits as nat, list, proof@),
            start == record_at_folding(record, bits as nat, list, proof@),
            fiat_shamir::transcript_record(*transcript) == if round == 0 {
                start
            } else {
                record_at_round(start, proof@, (round - 1) as nat).push(
                    Step::Drawn { label: U_LABEL@ },
                )
            },
            forall|k: int| 0 <= k <= round ==> #[trigger] challenges[k] != 0,
        decreases count - round,
    {
        transcript.append_message(&LEFT_LABEL, element_at(proof, 7 + 2 * round));
        transcript.append_message(&RIGHT_LABEL, element_at(proof, 8 + 2 * round));
        assert(fiat_shamir::transcript_record(*transcript) =~= record_at_round(
            start,
            proof@,
            round as nat,
        ));
        let zero = draws_zero(transcript, &U_LABEL);
        assert(challenges[round + 1] == curve::scalar(
            fiat_shamir::transcript_challenge(
                record_at_round(start, proof@, round as nat),
                U_LABEL@,
            ),
        ));
        if zero {
            return true;
        }
        round += 1;
    }
    false
}

/// `RangeProof::from_bytes` of `bulletproofs`: accepts exactly the bytes that
/// have the form of a serialised proof, and has one text for all others.
#[verifier::external_body]
pub(crate) fn parse_range_proof(bytes: &[u8]) -> (parsed: Result<(), String>)
    ensures
        parsed is Ok <==> is_range_proof(bytes@),
        parsed matches Err(text) ==> text@ == "Proof data could not be parsed."@,
{
    RangeProof::from_bytes(bytes).map(|_| ()).map_err(|e| e.to_string())
}

/// `RangeProof::prove_multiple_with_rng` of `bulletproofs` on `OsRng`, with
/// the default commitment generators and generators for as many parties as
/// there are values. Returns the serialised proof and the commitments.
///
/// Each commitment is that of `PedersenGens::commit` to the value under the
/// blinding; commitments add up; zero under zero is the identity. The proof
/// has two elements per round besides nine others, and halves the bits of all
/// values together in each round. It holds for the transcript it was made on,
/// unless chance made it degenerate or it has too many rounds to be read
/// back. The call fails only where the transcript yields a zero challenge.
/// What the proof's bytes are rests on the generator, and nothing is said of
/// the transcript that it leaves behind.
#[verifier::external_body]
pub(crate) fn prove_range(
    bits: usize,
    transcript: &mut Transcript,
    values: &Vec<u64>,
    blindings: &Vec<[u8; 32]>,
) -> (outcome: Result<(Vec<u8>, Vec<[u8; 32]>), String>)
    requires
        bits == 64,
        values@.len() == blindings@.len(),
        padding::is_power_of_two(values@.len()),
        64 * values@.len() <= usize::MAX,
    ensures
        outcome matches Ok((proof, commitments)) ==> curve::opens(
            curve::encodings(commitments@),
            values@,
            curve::encodings(blindings@),
        ),
        outcome matches Ok((proof, commitments)) ==> forall|i: int|
            0 <= i < commitments@.len() ==> curve::is_point(
                #[trigger] curve::encodings(commitments@)[i],
            ),
        outcome matches Ok((proof, commitments)) ==> forall|i: int|
            0 <= i < commitments@.len() && values@[i] == 0 && curve::scalar(blindings@[i]@) == 0
                ==> #[trigger] curve::encodings(commitments@)[i] == curve::zero_bytes(),
        outcome matches Ok((proof, commitments)) ==> forall|n: int|
            0 <= n <= commitments@.len() ==> #[trigger] curve::point_total(
                curve::encodings(commitments@).take(n),
            ) == curve::pedersen_commitment(
                curve::amount_total(values@.take(n)) % curve::group_order(),
                curve::blinding_total(curve::encodings(blindings@).take(n)) % curve::group_order(),
            ),
        outcome matches Ok((proof, commitments)) ==> forall|e: nat|
            bits * values@.len() == #[trigger] power2::pow2(e) ==> {
                &&& proof@.len() == 32 * (9 + 2 * e)
                &&& e < 32 ==> is_range_proof(proof@)
                &&& e < 32 && !range_proof_degenerate(
                    proof@,
                    inverted_challenges(
                        fiat_shamir::transcript_record(*old(transcript)),
                        bits as nat,
                        curve::encodings(commitments@),
                        proof@,
                    ),
                ) ==> range_proof_holds(
                    fiat_shamir::transcript_record(*old(transcript)),
                    bits as nat,
                    curve::encodings(commitments@),
                    proof@,
                )
            },
        outcome matches Err(text) ==> text@
            == "Internal error during proof creation: Dealer gave a malicious challenge value."@,
{
    let gens = BulletproofGens::new(bits, values.len());
    let scalars: Vec<Scalar> = blindings.iter().map(|b| Scalar::from_bytes_mod_order(*b)).collect();
    RangeProof::prove_multiple_with_rng(
        &gens, &PedersenGens::default(), transcript, values, &scalars, bits, &mut OsRng,
    )
    .map(|(proof, points)| (proof.to_bytes(), points.iter().map(|p| p.to_bytes()).collect()))
    .map_err(|e| e.to_string())
}

/// `RangeProof::verify_multiple` of `bulletproofs`, with the default
/// commitment generators and generators for as many parties as there are
/// commitments.
///
/// The verifier draws a random scalar and weighs its two equations by it;
/// that scalar and the arguments decide the answer. An accepted proof has as
/// many rounds as the bits of all values together can be halved, and every
/// commitment is then the encoding of a point. There is one text for every
/// rejection. Nothing is said of the transcript that the call leaves behind.
#[verifier::external_body]
pub(crate) fn verify_range(
    proof: &Vec<u8>,
    bits: usize,
    transcript: &mut Transcript,
    commitments: &Vec<[u8; 32]>,
) -> (outcome: Result<(), String>)
    requires
        bits == 64,
        is_range_proof(proof@),
        64 * commitments@.len() <= usize::MAX,
    ensures
        exists|weight: int|
            outcome is Ok <==> #[trigger] range_proof_accepted(
                fiat_shamir::transcript_record(*old(transcript)),
                bits as nat,
                curve::encodings(commitments@),
                proof@,
                weight,
            ),
        outcome is Ok ==> bits * commitments@.len() == power2::pow2(rounds(proof@.len()) as nat),
        outcome is Ok ==> forall|i: int|
            0 <= i < commitments@.len() ==> curve::is_point(
                #[trigger] curve::encodings(commitments@)[i],
            ),
        outcome matches Err(text) ==> text@ == "Proof verification failed."@,
{
    let gens = BulletproofGens::new(bits, commitments.len());
    let points: Vec<CompressedRistretto> = commitments.iter().map(|c| CompressedRistretto(*c)).collect();
    RangeProof::from_bytes(proof)
        .and_then(|p| p.verify_multiple(&gens, &PedersenGens::default(), transcript, &points, bits))
        .map_err(|e| e.to_string())
}

} // verus!
