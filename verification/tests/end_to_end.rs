use ark_bls12_381::{Fr, G1Affine, G2Affine};
use ark_ec::{AffineRepr, CurveGroup};
use ark_serialize::CanonicalSerialize;
use groth16_verifier::Groth16VerifierContract;
use groth16_verifier::VerifierError;

// The wire format coincides with the curve library's standard uncompressed
// encoding: big-endian coordinates, x before y.
fn g1_wire(p: &G1Affine) -> Vec<u8> {
    let mut v = Vec::new();
    p.serialize_uncompressed(&mut v).unwrap();
    v
}

fn g2_wire(p: &G2Affine) -> Vec<u8> {
    let mut v = Vec::new();
    p.serialize_uncompressed(&mut v).unwrap();
    v
}

fn g1_mult(k: u64) -> G1Affine {
    (G1Affine::generator() * Fr::from(k)).into_affine()
}

fn g2_mult(k: u64) -> G2Affine {
    (G2Affine::generator() * Fr::from(k)).into_affine()
}

fn fr_bytes(k: u64) -> Vec<u8> {
    let mut v = vec![0u8; 32];
    v[24..].copy_from_slice(&k.to_be_bytes());
    v
}

// A trivial relation with one public input: pairing exponents must satisfy
// a*b == alpha*beta + (ic0 + s*ic1)*gamma + c*delta over the generators.
// With alpha=2, beta=3, gamma=1, delta=1, ic=[1, 2], s=5, c=4:
// 6 + (1 + 5*2) + 4 = 21 = 3*7, so A=3*G1, B=7*G2.
fn honest_vk_bytes() -> Vec<u8> {
    let mut vk = Vec::new();
    vk.extend(g1_wire(&g1_mult(2)));
    vk.extend(g2_wire(&g2_mult(3)));
    vk.extend(g2_wire(&g2_mult(1)));
    vk.extend(g2_wire(&g2_mult(1)));
    vk.extend(2u32.to_be_bytes());
    vk.extend(g1_wire(&g1_mult(1)));
    vk.extend(g1_wire(&g1_mult(2)));
    vk
}

fn honest_proof_bytes() -> Vec<u8> {
    let mut p = Vec::new();
    p.extend(g1_wire(&g1_mult(3)));
    p.extend(g2_wire(&g2_mult(7)));
    p.extend(g1_wire(&g1_mult(4)));
    p
}

fn honest_signal_bytes() -> Vec<u8> {
    let mut s = 1u32.to_be_bytes().to_vec();
    s.extend(fr_bytes(5));
    s
}

#[test]
fn honest_proof_verifies() {
    let mut contract = Groth16VerifierContract::new();
    contract.set_vk(honest_vk_bytes()).unwrap();
    let r = contract.verify(&honest_proof_bytes(), &honest_signal_bytes());
    assert_eq!(r, Ok(true));
}

#[test]
fn wrong_signal_fails_cleanly() {
    let mut contract = Groth16VerifierContract::new();
    contract.set_vk(honest_vk_bytes()).unwrap();
    let mut s = 1u32.to_be_bytes().to_vec();
    s.extend(fr_bytes(6));
    let r = contract.verify(&honest_proof_bytes(), &s);
    assert_eq!(r, Ok(false));
}

#[test]
fn tampered_proof_a_field_is_false_not_error() {
    let mut contract = Groth16VerifierContract::new();
    contract.set_vk(honest_vk_bytes()).unwrap();
    let signals = honest_signal_bytes();
    let mut falses = 0;
    let mut trues = 0;
    let mut errors = 0;
    for pos in [0usize, 5, 17, 48, 60, 95] {
        for bit in [1u8, 0x10, 0x80] {
            let mut proof = honest_proof_bytes();
            proof[pos] ^= bit;
            match contract.verify(&proof, &signals) {
                Ok(false) => falses += 1,
                Ok(true) => trues += 1,
                Err(_) => errors += 1,
            }
        }
    }
    assert_eq!(trues, 0);
    assert_eq!(errors, 0);
    assert_eq!(falses, 18);
}

#[test]
fn verify_without_key_fails() {
    let contract = Groth16VerifierContract::new();
    let r = contract.verify(&honest_proof_bytes(), &honest_signal_bytes());
    assert_eq!(r, Err(VerifierError::VerificationKeyNotSet));
}

#[test]
fn signal_count_mismatch_is_key_shape_error() {
    let mut contract = Groth16VerifierContract::new();
    contract.set_vk(honest_vk_bytes()).unwrap();
    let mut two = 2u32.to_be_bytes().to_vec();
    two.extend(fr_bytes(5));
    two.extend(fr_bytes(6));
    let r = contract.verify(&honest_proof_bytes(), &two);
    assert_eq!(r, Err(VerifierError::MalformedVerifyingKey));
    let zero = 0u32.to_be_bytes().to_vec();
    let r = contract.verify(&honest_proof_bytes(), &zero);
    assert_eq!(r, Err(VerifierError::MalformedVerifyingKey));
}

#[test]
fn set_vk_with_zero_ic_count_fails_and_keeps_old_key() {
    let mut contract = Groth16VerifierContract::new();
    contract.set_vk(honest_vk_bytes()).unwrap();
    let mut bad = Vec::new();
    bad.extend(g1_wire(&g1_mult(2)));
    bad.extend(g2_wire(&g2_mult(3)));
    bad.extend(g2_wire(&g2_mult(1)));
    bad.extend(g2_wire(&g2_mult(1)));
    bad.extend(0u32.to_be_bytes());
    let r = contract.set_vk(bad);
    assert_eq!(r, Err(VerifierError::MalformedVerifyingKey));
    // the previously stored key still verifies the honest proof
    let r = contract.verify(&honest_proof_bytes(), &honest_signal_bytes());
    assert_eq!(r, Ok(true));
}

#[test]
fn malformed_proof_and_signals_report_their_kinds() {
    let mut contract = Groth16VerifierContract::new();
    contract.set_vk(honest_vk_bytes()).unwrap();
    let r = contract.verify(&vec![0u8; 383], &honest_signal_bytes());
    assert_eq!(r, Err(VerifierError::MalformedProof));
    let r = contract.verify(&honest_proof_bytes(), &vec![0u8; 3]);
    assert_eq!(r, Err(VerifierError::MalformedPublicSignals));
}
