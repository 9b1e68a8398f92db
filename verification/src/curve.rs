//! Scalars, points and Pedersen commitments of the Ristretto group.
//!
//! A scalar stands as its 32 little-endian bytes and a point as its 32-byte
//! compressed encoding. The encoding of a point is canonical: two points are
//! equal exactly when their encodings are. The arithmetic itself is done by
//! `curve25519_dalek`, and the commitments by `bulletproofs`.
use bulletproofs::PedersenGens;
use curve25519_dalek::ristretto::{CompressedRistretto, RistrettoPoint};
use curve25519_dalek::scalar::Scalar;
use rand::rngs::OsRng;
use vstd::prelude::*;

verus! {

/// The prime order of the Ristretto group.
pub open spec fn group_order() -> int {
    7237005577332262213973186563042994240857116359379907606001950938285454250989int
}

/// The number that `bytes` spell in little-endian order.
pub open spec fn le_value(bytes: Seq<u8>) -> nat
    decreases bytes.len(),
{
    if bytes.len() == 0 {
        0
    } else {
        bytes[0] as nat + 256 * le_value(bytes.drop_first())
    }
}

/// The scalar that 32 bytes stand for: their value, reduced by the order.
pub open spec fn scalar(bytes: Seq<u8>) -> int {
    le_value(bytes) as int % group_order()
}

/// Whether `bytes` are the reduced form of a scalar.
pub open spec fn is_canonical_scalar(bytes: Seq<u8>) -> bool {
    bytes.len() == 32 && le_value(bytes) < group_order()
}

/// 32 zero bytes: the zero scalar, and the encoding of the identity point.
pub open spec fn zero_bytes() -> Seq<u8> {
    Seq::new(32, |i: int| 0u8)
}

/// The encodings held by a list of byte arrays.
pub open spec fn encodings(list: Seq<[u8; 32]>) -> Seq<Seq<u8>> {
    Seq::new(list.len(), |i: int| list[i]@)
}

/// The sum of the scalars in a list, before reduction.
pub open spec fn blinding_total(blindings: Seq<Seq<u8>>) -> int
    decreases blindings.len(),
{
    if blindings.len() == 0 {
        0
    } else {
        blinding_total(blindings.drop_last()) + scalar(blindings.last())
    }
}

/// Whether 32 bytes are the encoding of a point.
pub uninterp spec fn is_point(encoding: Seq<u8>) -> bool;

/// The encoding of the sum of two encoded points.
pub uninterp spec fn point_sum(a: Seq<u8>, b: Seq<u8>) -> Seq<u8>;

/// The encoding of the Pedersen commitment to `value` under `blinding`, both
/// taken modulo the group order, for the default generators.
pub uninterp spec fn pedersen_commitment(value: int, blinding: int) -> Seq<u8>;

/// The sum of a list of encoded points, starting from the identity.
pub open spec fn point_total(points: Seq<Seq<u8>>) -> Seq<u8>
    decreases points.len(),
{
    if points.len() == 0 {
        zero_bytes()
    } else {
        point_sum(point_total(points.drop_last()), points.last())
    }
}

/// The sum of a list of amounts.
pub open spec fn amount_total(amounts: Seq<u64>) -> int
    decreases amounts.len(),
{
    if amounts.len() == 0 {
        0
    } else {
        amount_total(amounts.drop_last()) + amounts.last()
    }
}

/// Whether `points` are commitments to `values` under `blindings`, in order.
pub open spec fn opens(points: Seq<Seq<u8>>, values: Seq<u64>, blindings: Seq<Seq<u8>>) -> bool {
    &&& values.len() == points.len()
    &&& blindings.len() == points.len()
    &&& forall|i: int|
        0 <= i < points.len() ==> #[trigger] points[i] == pedersen_commitment(
            values[i] as int,
            scalar(blindings[i]),
        )
}

/// Each amount counts once towards a sum, whatever its size.
pub proof fn every_amount_counts(amounts: Seq<u64>, amount: u64)
    ensures
        amount_total(Seq::empty()) == 0,
        amount_total(amounts.push(amount)) == amount_total(amounts) + amount,
{
    assert(amounts.push(amount).drop_last() =~= amounts);
}

/// Each blinding counts once towards a sum, as the scalar it stands for.
pub proof fn every_blinding_counts(blindings: Seq<Seq<u8>>, blinding: Seq<u8>)
    ensures
        blinding_total(Seq::empty()) == 0,
        blinding_total(blindings.push(blinding)) == blinding_total(blindings) + le_value(blinding)
            as int % group_order(),
{
    assert(blindings.push(blinding).drop_last() =~= blindings);
}

/// Each point is added once to a sum, the last one last; no points add up to
/// the identity.
pub proof fn every_point_counts(points: Seq<Seq<u8>>, point: Seq<u8>)
    ensures
        point_total(Seq::empty()) == Seq::new(32, |i: int| 0u8),
        point_total(points.push(point)) == point_sum(point_total(points), point),
{
    assert(points.push(point).drop_last() =~= points);
}

/// Commitments open to values and blindings exactly where there are as many of
/// each, and each commitment is that to the value at its place under the
/// blinding at its place.
pub proof fn opening_is_place_by_place(
    list: Seq<[u8; 32]>,
    values: Seq<u64>,
    blindings: Seq<[u8; 32]>,
)
    ensures
        opens(encodings(list), values, encodings(blindings)) <==> {
            &&& list.len() == values.len()
            &&& list.len() == blindings.len()
            &&& forall|i: int|
                0 <= i < list.len() ==> (#[trigger] list[i])@ == pedersen_commitment(
                    values[i] as int,
                    le_value(blindings[i]@) as int % group_order(),
                )
        },
{
    let points = encodings(list);
    if opens(points, values, encodings(blindings)) {
        assert forall|i: int| 0 <= i < list.len() implies (#[trigger] list[i])@
            == pedersen_commitment(values[i] as int, scalar(blindings[i]@)) by {
            assert(points[i] == list[i]@);
        }
    }
}

/// The place of a byte tells its weight: the first byte counts once, and each
/// further one 256 times as much as the one before.
pub proof fn first_byte_counts_least(first: u8, rest: Seq<u8>)
    ensures
        le_value(Seq::empty()) == 0,
        le_value(seq![first] + rest) == first + 256 * le_value(rest),
{
    let bytes = seq![first] + rest;
    assert(bytes.drop_first() =~= rest);
}

/// `Scalar::random` of `curve25519_dalek` on `OsRng`: a fresh scalar in
/// reduced form. Which scalar rests on the operating system's generator.
#[verifier::external_body]
pub(crate) fn random_scalar() -> (bytes: [u8; 32])
    ensures
        is_canonical_scalar(bytes@),
{
    Scalar::random(&mut OsRng).to_bytes()
}

/// Whether `bytes` are what a call of [`random_scalar`] can have returned, and
/// so were drawn.
pub closed spec fn is_drawn(bytes: [u8; 32]) -> bool {
    call_ensures(random_scalar, (), bytes)
}

/// `count` fresh scalars, each drawn by itself.
pub(crate) fn draw_scalars(count: usize) -> (drawn: Vec<[u8; 32]>)
    ensures
        drawn@.len() == count,
        forall|i: int| 0 <= i < count ==> is_drawn(#[trigger] drawn@[i]),
        forall|i: int|
            #![trigger drawn@[i]]
            0 <= i < count ==> call_ensures(random_scalar, (), drawn@[i]),
        forall|i: int| 0 <= i < count ==> is_canonical_scalar(#[trigger] drawn@[i]@),
{
    let mut drawn: Vec<[u8; 32]> = Vec::new();
    while drawn.len() < count
        invariant
            drawn.len() <= count,
            forall|i: int| 0 <= i < drawn.len() ==> is_drawn(#[trigger] drawn@[i]),
            forall|i: int| 0 <= i < drawn.len() ==> is_canonical_scalar(#[trigger] drawn@[i]@),
        decreases count - drawn.len(),
    {
        let bytes = random_scalar();
        assert(call_ensures(random_scalar, (), bytes));
        drawn.push(bytes);
    }
    drawn
}

/// Only what [`random_scalar`] can have returned was drawn, so whatever was
/// drawn is in reduced form.
pub(crate) proof fn drawn_comes_from_the_generator(bytes: [u8; 32])
    requires
        is_drawn(bytes),
    ensures
        call_ensures(random_scalar, (), bytes),
        is_canonical_scalar(bytes@),
{
}

/// `+` on two `Scalar`s of `curve25519_dalek`, each read with
/// `Scalar::from_bytes_mod_order`: the sum in the field of the group order,
/// in reduced form.
#[verifier::external_body]
pub(crate) fn add_scalars(a: &[u8; 32], b: &[u8; 32]) -> (sum: [u8; 32])
    ensures
        is_canonical_scalar(sum@),
        scalar(sum@) == (scalar(a@) + scalar(b@)) % group_order(),
{
    (Scalar::from_bytes_mod_order(*a) + Scalar::from_bytes_mod_order(*b)).to_bytes()
}

/// `Scalar::from_bytes_mod_order_wide` of `curve25519_dalek`: the value of 64
/// bytes, reduced by the order.
#[verifier::external_body]
pub(crate) fn reduce_wide(bytes: &[u8; 64]) -> (reduced: [u8; 32])
    ensures
        is_canonical_scalar(reduced@),
        scalar(reduced@) == scalar(bytes@),
{
    Scalar::from_bytes_mod_order_wide(bytes).to_bytes()
}

/// `CompressedRistretto::decompress` of `curve25519_dalek`: whether the bytes
/// are the canonical encoding of a point.
#[verifier::external_body]
pub(crate) fn decompresses(encoding: &[u8; 32]) -> (is: bool)
    ensures
        is == is_point(encoding@),
{
    CompressedRistretto(*encoding).decompress().is_some()
}

/// `RistrettoPoint::default` of `curve25519_dalek`: the identity. Its
/// encoding is 32 zero bytes, and it is the commitment to zero under the
/// zero blinding.
#[verifier::external_body]
pub(crate) fn identity_point() -> (encoding: [u8; 32])
    ensures
        encoding@ == zero_bytes(),
        is_point(encoding@),
        encoding@ == pedersen_commitment(0, 0),
{
    RistrettoPoint::default().compress().to_bytes()
}

/// `+` on two `RistrettoPoint`s of `curve25519_dalek`. A commitment is
/// `value * B + blinding * B_blinding`, so the sum of two commitments is the
/// commitment to the sum of the values under the sum of the blindings.
#[verifier::external_body]
pub(crate) fn add_points(a: &[u8; 32], b: &[u8; 32]) -> (sum: [u8; 32])
    requires
        is_point(a@),
        is_point(b@),
    ensures
        is_point(sum@),
        sum@ == point_sum(a@, b@),
        forall|v: int, r: int, w: int, s: int|
            a@ == #[trigger] pedersen_commitment(v, r) && b@ == #[trigger] pedersen_commitment(w, s)
                ==> sum@ == pedersen_commitment((v + w) % group_order(), (r + s) % group_order()),
{
    let left = CompressedRistretto(*a).decompress().unwrap();
    let right = CompressedRistretto(*b).decompress().unwrap();
    (left + right).compress().to_bytes()
}

/// `PedersenGens::commit` of `bulletproofs` with the default generators:
/// `value * B + blinding * B_blinding`, the blinding read with
/// `Scalar::from_bytes_mod_order`. `B` generates a group of prime order, so
/// under one blinding no two scalars have the same commitment.
#[verifier::external_body]
pub(crate) fn commit(value: u64, blinding: &[u8; 32]) -> (commitment: [u8; 32])
    ensures
        commitment@ == pedersen_commitment(value as int, scalar(blinding@)),
        forall|v: int|
            0 <= v < group_order() && commitment@ == #[trigger] pedersen_commitment(
                v,
                scalar(blinding@),
            ) ==> v == value,
{
    let blinding = Scalar::from_bytes_mod_order(*blinding);
    PedersenGens::default().commit(Scalar::from(value), blinding).compress().to_bytes()
}

/// 32 zero bytes are the zero scalar.
pub proof fn zero_bytes_are_zero()
    ensures
        is_canonical_scalar(zero_bytes()),
        scalar(zero_bytes()) == 0,
{
    zeros_have_value_zero(zero_bytes());
}

/// No other bytes in reduced form are the zero scalar.
pub proof fn only_zero_bytes_are_zero(bytes: Seq<u8>)
    requires
        is_canonical_scalar(bytes),
        scalar(bytes) == 0,
    ensures
        bytes == zero_bytes(),
{
    vstd::arithmetic::div_mod::lemma_small_mod(le_value(bytes), group_order() as nat);
    value_zero_has_zeros(bytes);
    assert(bytes =~= zero_bytes());
}

/// Only zeros spell zero.
proof fn value_zero_has_zeros(bytes: Seq<u8>)
    requires
        le_value(bytes) == 0,
    ensures
        forall|i: int| 0 <= i < bytes.len() ==> bytes[i] == 0,
    decreases bytes.len(),
{
    if bytes.len() > 0 {
        value_zero_has_zeros(bytes.drop_first());
        assert(forall|i: int|
            1 <= i < bytes.len() ==> #[trigger] bytes[i] == bytes.drop_first()[i - 1]);
    }
}

/// Zeros spell zero.
proof fn zeros_have_value_zero(bytes: Seq<u8>)
    requires
        forall|i: int| 0 <= i < bytes.len() ==> bytes[i] == 0,
    ensures
        le_value(bytes) == 0,
    decreases bytes.len(),
{
    if bytes.len() > 0 {
        zeros_have_value_zero(bytes.drop_first());
    }
}

/// The sum of the points, or nothing where one of them is no encoding of a
/// point. Where the points are commitments, it is the commitment to the sum
/// of what they commit to.
pub fn sum_points(points: &Vec<[u8; 32]>) -> (total: Option<[u8; 32]>)
    ensures
        total is Some <==> (forall|i: int|
            0 <= i < points.len() ==> #[trigger] is_point(points[i]@)),
        total matches Some(sum) ==> sum@ == point_total(encodings(points@)),
        total matches Some(sum) ==> forall|values: Seq<u64>, blindings: Seq<Seq<u8>>| #[trigger]
            opens(encodings(points@), values, blindings) ==> sum@ == pedersen_commitment(
                amount_total(values) % group_order(),
                blinding_total(blindings) % group_order(),
            ),
{
    let mut sum = identity_point();
    let ghost list = encodings(points@);
    let mut i: usize = 0;
    while i < points.len()
        invariant
            i <= points.len(),
            list == encodings(points@),
            forall|j: int| 0 <= j < i ==> #[trigger] is_point(points[j]@),
            is_point(sum@),
            sum@ == point_total(list.take(i as int)),
            forall|values: Seq<u64>, blindings: Seq<Seq<u8>>| #[trigger]
                opens(list.take(i as int), values, blindings) ==> sum@ == pedersen_commitment(
                    amount_total(values) % group_order(),
                    blinding_total(blindings) % group_order(),
                ),
        decreases points.len() - i,
    {
        if !decompresses(&points[i]) {
            return None;
        }
        let ghost before = sum@;
        sum = add_points(&sum, &points[i]);
        proof {
            let longer = list.take(i + 1);
            assert(longer.drop_last() =~= list.take(i as int));
            assert(longer.last() == points[i as int]@);
            assert forall|values: Seq<u64>, blindings: Seq<Seq<u8>>| #[trigger]
                opens(longer, values, blindings) implies sum@ == pedersen_commitment(
                amount_total(values) % group_order(),
                blinding_total(blindings) % group_order(),
            ) by {
                let v = values.drop_last();
                let r = blindings.drop_last();
                assert forall|j: int| 0 <= j < list.take(i as int).len() implies
                    #[trigger] list.take(i as int)[j] == pedersen_commitment(v[j] as int, scalar(r[j])) by {
                    assert(longer[j] == list.take(i as int)[j]);
                }
                assert(opens(list.take(i as int), v, r));
                assert(before == pedersen_commitment(
                    amount_total(v) % group_order(),
                    blinding_total(r) % group_order(),
                ));
                assert(longer[i as int] == pedersen_commitment(
                    values.last() as int,
                    scalar(blindings.last()),
                ));
                assert((amount_total(v) % group_order() + values.last()) % group_order()
                    == amount_total(values) % group_order()) by {
                    vstd::arithmetic::div_mod::lemma_add_mod_noop_right(
                        values.last() as int,
                        amount_total(v),
                        group_order(),
                    );
                }
                assert((blinding_total(r) % group_order() + scalar(blindings.last())) % group_order()
                    == blinding_total(blindings) % group_order()) by {
                    vstd::arithmetic::div_mod::lemma_add_mod_noop_right(
                        scalar(blindings.last()),
                        blinding_total(r),
                        group_order(),
                    );
                }
            }
        }
        i += 1;
    }
    proof {
        assert(list.take(points.len() as int) =~= list);
    }
    Some(sum)
}

} // verus!
