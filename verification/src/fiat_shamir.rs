//! Merlin transcripts, from which prover and verifier draw their challenges.
//!
//! A transcript stands as the record of what was done to it: the messages
//! that were appended and the challenges that were drawn, in order. A
//! challenge is a function of the record before it and of its label.
use merlin::Transcript;
use vstd::prelude::*;

use crate::curve;

verus! {

/// `merlin::Transcript`, the running record that prover and verifier draw
/// their challenges from.
#[verifier::external_type_specification]
#[verifier::external_body]
pub struct ExTranscript(Transcript);

/// One thing that was done to a transcript.
pub enum Step {
    /// A message was appended.
    Appended { label: Seq<u8>, message: Seq<u8> },
    /// A challenge of 64 bytes was drawn.
    Drawn { label: Seq<u8> },
}

/// What was done to a transcript since it was begun, in order.
pub uninterp spec fn transcript_record(transcript: Transcript) -> Seq<Step>;

/// The 64 bytes that a transcript with the given record yields when a
/// challenge with that label is drawn from it.
pub uninterp spec fn transcript_challenge(record: Seq<Step>, label: Seq<u8>) -> Seq<u8>;

/// The label under which a transcript holds its domain separator: `dom-sep`.
pub const DOMAIN_LABEL: [u8; 7] = [100, 111, 109, 45, 115, 101, 112];

/// `Transcript::new` of `merlin`: a transcript that holds the domain
/// separator and nothing else. A label longer than `u32::MAX` bytes would
/// make it panic.
pub assume_specification[ Transcript::new ](label: &'static [u8]) -> (transcript: Transcript)
    requires
        label@.len() <= u32::MAX,
    ensures
        transcript_record(transcript) == seq![
            Step::Appended { label: DOMAIN_LABEL@, message: label@ },
        ],
;

/// `Transcript::append_message` of `merlin`: the message joins the end of the
/// transcript. A message longer than `u32::MAX` bytes would make it panic.
pub assume_specification[ Transcript::append_message ](
    transcript: &mut Transcript,
    label: &'static [u8],
    message: &[u8],
)
    requires
        message@.len() <= u32::MAX,
    ensures
        transcript_record(*final(transcript)) == transcript_record(*old(transcript)).push(
            Step::Appended { label: label@, message: message@ },
        ),
;

/// `Transcript::challenge_bytes` of `merlin` on 64 bytes: they are a function
/// of what was done to the transcript before and of the label, and drawing
/// them leaves its mark on the transcript.
#[verifier::external_body]
pub(crate) fn challenge(transcript: &mut Transcript, label: &'static [u8]) -> (bytes: [u8; 64])
    ensures
        bytes@ == transcript_challenge(transcript_record(*old(transcript)), label@),
        transcript_record(*final(transcript)) == transcript_record(*old(transcript)).push(
            Step::Drawn { label: label@ },
        ),
{
    let mut bytes = [0u8; 64];
    transcript.challenge_bytes(label, &mut bytes);
    bytes
}

/// The eight bytes under which a number joins a transcript.
pub open spec fn number_bytes(number: nat) -> Seq<u8> {
    vstd::bytes::spec_u64_to_le_bytes(number as u64)
}

/// A number joins a transcript in eight bytes that spell it in little-endian
/// order, so no two numbers join it alike.
pub proof fn numbers_join_in_little_endian_order(number: u64)
    ensures
        number_bytes(number as nat).len() == 8,
        curve::le_value(number_bytes(number as nat)) == number,
{
    vstd::bytes::lemma_auto_spec_u64_to_from_le_bytes();
    vstd::bytes::spec_u64_to_le_bytes_to_open(number);
    let bytes = number_bytes(number as nat);
    reveal_with_fuel(curve::le_value, 9);
    let b1 = bytes.drop_first();
    let b2 = b1.drop_first();
    let b3 = b2.drop_first();
    let b4 = b3.drop_first();
    let b5 = b4.drop_first();
    let b6 = b5.drop_first();
    let b7 = b6.drop_first();
    assert(b7.drop_first().len() == 0);
    assert(curve::le_value(bytes) == bytes[0] + 256 * (bytes[1] + 256 * (bytes[2] + 256 * (bytes[3]
        + 256 * (bytes[4] + 256 * (bytes[5] + 256 * (bytes[6] + 256 * bytes[7])))))));
    let x = number;
    assert(x == (x & 0xff) + 256 * ((x >> 8) & 0xff) + 0x1_0000 * ((x >> 16) & 0xff) + 0x100_0000
        * ((x >> 24) & 0xff) + 0x1_0000_0000 * ((x >> 32) & 0xff) + 0x100_0000_0000 * ((x >> 40)
        & 0xff) + 0x1_0000_0000_0000 * ((x >> 48) & 0xff) + 0x100_0000_0000_0000 * ((x >> 56)
        & 0xff)) by (bit_vector);
    assert(x & 0xff < 256 && (x >> 8) & 0xff < 256 && (x >> 16) & 0xff < 256 && (x >> 24) & 0xff
        < 256 && (x >> 32) & 0xff < 256 && (x >> 40) & 0xff < 256 && (x >> 48) & 0xff < 256 && (x
        >> 56) & 0xff < 256) by (bit_vector);
}

/// Whether bytes are the characters of a plain text, one for one.
pub open spec fn spells(bytes: Seq<u8>, characters: Seq<char>) -> bool {
    &&& bytes.len() == characters.len()
    &&& forall|i: int| 0 <= i < bytes.len() ==> #[trigger] bytes[i] as int == characters[i] as int
}

/// Appends a number, in eight little-endian bytes.
pub(crate) fn append_number(transcript: &mut Transcript, label: &'static [u8], number: u64)
    ensures
        transcript_record(*final(transcript)) == transcript_record(*old(transcript)).push(
            Step::Appended { label: label@, message: number_bytes(number as nat) },
        ),
{
    let bytes = vstd::bytes::u64_to_le_bytes(number);
    proof {
        vstd::bytes::lemma_auto_spec_u64_to_from_le_bytes();
    }
    transcript.append_message(label, bytes.as_slice());
}

} // verus!
