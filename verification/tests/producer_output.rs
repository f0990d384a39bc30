use ark_bls12_381::{Fr, G1Affine, G2Affine};
use ark_ec::{AffineRepr, CurveGroup};
use groth16_verifier::Groth16VerifierContract;
use groth16_verifier::producer::{g1_bytes, g2_bytes, parse_u256_be, proof_hex, public_hex, vk_hex};

fn g1_mult(k: u64) -> G1Affine {
    (G1Affine::generator() * Fr::from(k)).into_affine()
}

fn g2_mult(k: u64) -> G2Affine {
    (G2Affine::generator() * Fr::from(k)).into_affine()
}

fn g1_dec(p: &G1Affine) -> Vec<String> {
    vec![format!("{}", p.x), format!("{}", p.y), String::from("1")]
}

fn g2_dec(p: &G2Affine) -> Vec<String> {
    vec![
        format!("{}", p.x.c0),
        format!("{}", p.x.c1),
        format!("{}", p.y.c0),
        format!("{}", p.y.c1),
    ]
}

#[test]
fn parse_u256_be_small_value() {
    let v = parse_u256_be("5").unwrap();
    let mut expected = vec![0u8; 32];
    expected[31] = 5;
    assert_eq!(v, expected);
}

#[test]
fn parse_u256_be_zero_and_leading_zeros() {
    assert_eq!(parse_u256_be("0").unwrap(), vec![0u8; 32]);
    assert_eq!(parse_u256_be("000123").unwrap()[31], 123);
}

#[test]
fn parse_u256_be_boundary() {
    // 2^256 - 1 fits; 2^256 does not
    let max = "115792089237316195423570985008687907853269984665640564039457584007913129639935";
    assert_eq!(parse_u256_be(max).unwrap(), vec![0xffu8; 32]);
    let too_big =
        "115792089237316195423570985008687907853269984665640564039457584007913129639936";
    assert_eq!(parse_u256_be(too_big), None);
}

#[test]
fn parse_u256_be_rejects_malformed() {
    assert_eq!(parse_u256_be(""), None);
    assert_eq!(parse_u256_be("12a"), None);
    assert_eq!(parse_u256_be("-5"), None);
    assert_eq!(parse_u256_be("1 2"), None);
}

#[test]
fn public_hex_exact_output() {
    let h = public_hex(&vec![String::from("5")]).unwrap();
    let mut expected = String::from("00000001");
    expected.push_str(&"00".repeat(31));
    expected.push_str("05");
    assert_eq!(h, expected);
}

#[test]
fn public_hex_empty_list() {
    assert_eq!(public_hex(&Vec::new()).unwrap(), "00000000");
}

#[test]
fn public_hex_rejects_bad_literal() {
    assert_eq!(public_hex(&vec![String::from("5"), String::from("x")]), None);
}

#[test]
fn g1_bytes_matches_curve_serialization() {
    let p = g1_mult(2);
    let dec = g1_dec(&p);
    let bytes = g1_bytes(&dec[0], &dec[1]).unwrap();
    let mut ark = Vec::new();
    ark_serialize::CanonicalSerialize::serialize_uncompressed(&p, &mut ark).unwrap();
    assert_eq!(bytes, ark);
}

#[test]
fn g2_bytes_matches_curve_serialization() {
    let p = g2_mult(3);
    let dec = g2_dec(&p);
    let bytes = g2_bytes(&dec[0], &dec[1], &dec[2], &dec[3]).unwrap();
    let mut ark = Vec::new();
    ark_serialize::CanonicalSerialize::serialize_uncompressed(&p, &mut ark).unwrap();
    assert_eq!(bytes, ark);
}

#[test]
fn vk_hex_rejects_count_mismatch() {
    let alpha = g1_dec(&g1_mult(2));
    let beta = g2_dec(&g2_mult(3));
    let gamma = g2_dec(&g2_mult(1));
    let delta = g2_dec(&g2_mult(1));
    let ic = vec![g1_dec(&g1_mult(1)), g1_dec(&g1_mult(2))];
    assert_eq!(vk_hex(&alpha, &beta, &gamma, &delta, &ic, 2), None);
    assert!(vk_hex(&alpha, &beta, &gamma, &delta, &ic, 1).is_some());
}

// The full offline pipeline: decimal artifacts through the producer, hex
// decoded, stored and verified; the decoded entities carry exactly the
// values the decimal literals denote.
#[test]
fn producer_pipeline_round_trip_verifies() {
    let alpha = g1_dec(&g1_mult(2));
    let beta = g2_dec(&g2_mult(3));
    let gamma = g2_dec(&g2_mult(1));
    let delta = g2_dec(&g2_mult(1));
    let ic = vec![g1_dec(&g1_mult(1)), g1_dec(&g1_mult(2))];
    let vk_h = vk_hex(&alpha, &beta, &gamma, &delta, &ic, 1).unwrap();

    let a = g1_dec(&g1_mult(3));
    let b = g2_dec(&g2_mult(7));
    let c = g1_dec(&g1_mult(4));
    let proof_h = proof_hex(&a, &b, &c).unwrap();

    let public_h = public_hex(&vec![String::from("5")]).unwrap();

    let vk_bytes = hex::decode(&vk_h).unwrap();
    let proof_bytes = hex::decode(&proof_h).unwrap();
    let public_bytes = hex::decode(&public_h).unwrap();

    let vk = groth16_verifier::entities::VerificationKey::from_bytes(&vk_bytes).unwrap();
    assert_eq!(vk.ic.len(), 2);
    assert_eq!(vk.alpha, g1_bytes(&alpha[0], &alpha[1]).unwrap());

    let mut contract = Groth16VerifierContract::new();
    contract.set_vk(vk_bytes).unwrap();
    assert_eq!(contract.verify(&proof_bytes, &public_bytes), Ok(true));
}

