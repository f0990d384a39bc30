use vstd::prelude::*;
use ark_bls12_381::{Bls12_381, G1Affine, G2Affine};
use ark_ec::AffineRepr;
use ark_ec::CurveGroup;
use ark_ec::pairing::Pairing;
use ark_ff::One;
use ark_ff::PrimeField;
use ark_serialize::{CanonicalDeserialize, CanonicalSerialize};

verus! {

/// What the curve library returns for negating the G1 point encoded by `p`:
/// `None` when the bytes are not a valid encoding.
pub uninterp spec fn g1_neg_of(p: Seq<u8>) -> Option<Seq<u8>>;

/// What the curve library returns for multiplying the G1 point encoded by
/// `p` with the scalar whose big-endian bytes are `scalar` (reduced modulo
/// the scalar-field order).
pub uninterp spec fn g1_mul_of(p: Seq<u8>, scalar: Seq<u8>) -> Option<Seq<u8>>;

/// What the curve library returns for adding the G1 points encoded by `p`
/// and `q`.
pub uninterp spec fn g1_add_of(p: Seq<u8>, q: Seq<u8>) -> Option<Seq<u8>>;

/// What the curve library returns for the four-pair product-of-pairings
/// identity check on G1 points `a0..a3` and G2 points `b0..b3`: whether the
/// product of the four pairings is the identity of the target field, or
/// `None` when any encoding is invalid or the final exponentiation fails.
pub uninterp spec fn pairing_check_of(
    a0: Seq<u8>,
    a1: Seq<u8>,
    a2: Seq<u8>,
    a3: Seq<u8>,
    b0: Seq<u8>,
    b1: Seq<u8>,
    b2: Seq<u8>,
    b3: Seq<u8>,
) -> Option<bool>;

/// The bytes held by an optional byte vector.
pub open spec fn opt_bytes(r: Option<Vec<u8>>) -> Option<Seq<u8>> {
    match r {
        Some(v) => Some(v@),
        None => None,
    }
}

/// Relies on `ark_bls12_381`: G1 uncompressed deserialization (with on-curve
/// and subgroup checks), point negation, and serialization. The outcome is a
/// function of the input bytes alone.
#[verifier::external_body]
pub(crate) fn g1_neg(p: &Vec<u8>) -> (r: Option<Vec<u8>>)
    ensures
        opt_bytes(r) == g1_neg_of(p@),
        r matches Some(v) ==> v@.len() == 96,
{
    let pt = G1Affine::deserialize_uncompressed(&p[..]).ok()?;
    let mut out: Vec<u8> = Vec::new();
    (-pt).serialize_uncompressed(&mut out).ok()?;
    Some(out)
}

/// Relies on `ark_bls12_381`: G1 uncompressed deserialization (with on-curve
/// and subgroup checks), `Fr::from_be_bytes_mod_order`, scalar
/// multiplication, and serialization. The outcome is a function of the input
/// bytes alone.
#[verifier::external_body]
pub(crate) fn g1_mul(p: &Vec<u8>, scalar: &Vec<u8>) -> (r: Option<Vec<u8>>)
    ensures
        opt_bytes(r) == g1_mul_of(p@, scalar@),
        r matches Some(v) ==> v@.len() == 96,
{
    let pt = G1Affine::deserialize_uncompressed(&p[..]).ok()?;
    let s = ark_bls12_381::Fr::from_be_bytes_mod_order(&scalar[..]);
    let prod = (pt * s).into_affine();
    let mut out: Vec<u8> = Vec::new();
    prod.serialize_uncompressed(&mut out).ok()?;
    Some(out)
}

/// Relies on `ark_bls12_381`: G1 uncompressed deserialization (with on-curve
/// and subgroup checks), point addition, and serialization. The outcome is a
/// function of the input bytes alone.
#[verifier::external_body]
pub(crate) fn g1_add(p: &Vec<u8>, q: &Vec<u8>) -> (r: Option<Vec<u8>>)
    ensures
        opt_bytes(r) == g1_add_of(p@, q@),
        r matches Some(v) ==> v@.len() == 96,
{
    let p1 = G1Affine::deserialize_uncompressed(&p[..]).ok()?;
    let p2 = G1Affine::deserialize_uncompressed(&q[..]).ok()?;
    let sum = (p1.into_group() + p2).into_affine();
    let mut out: Vec<u8> = Vec::new();
    sum.serialize_uncompressed(&mut out).ok()?;
    Some(out)
}

/// Relies on `ark_bls12_381`: G1/G2 uncompressed deserialization (with
/// on-curve and subgroup checks), the multi-Miller loop, the final
/// exponentiation, and the target-field identity test. The outcome is a
/// function of the input bytes alone.
#[verifier::external_body]
pub(crate) fn pairing_check(
    a0: &[u8],
    a1: &[u8],
    a2: &[u8],
    a3: &[u8],
    b0: &[u8],
    b1: &[u8],
    b2: &[u8],
    b3: &[u8],
) -> (r: Option<bool>)
    ensures
        r == pairing_check_of(a0@, a1@, a2@, a3@, b0@, b1@, b2@, b3@),
{
    let p0 = G1Affine::deserialize_uncompressed(a0).ok()?;
    let p1 = G1Affine::deserialize_uncompressed(a1).ok()?;
    let p2 = G1Affine::deserialize_uncompressed(a2).ok()?;
    let p3 = G1Affine::deserialize_uncompressed(a3).ok()?;
    let q0 = G2Affine::deserialize_uncompressed(b0).ok()?;
    let q1 = G2Affine::deserialize_uncompressed(b1).ok()?;
    let q2 = G2Affine::deserialize_uncompressed(b2).ok()?;
    let q3 = G2Affine::deserialize_uncompressed(b3).ok()?;
    let mlo = Bls12_381::multi_miller_loop([p0, p1, p2, p3], [q0, q1, q2, q3]);
    let out = Bls12_381::final_exponentiation(mlo)?;
    Some(out.0.is_one())
}

} // verus!
