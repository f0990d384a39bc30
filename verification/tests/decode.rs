use groth16_verifier::VerifierError;
use groth16_verifier::entities::{Proof, PublicSignals, VerificationKey};

fn vk_header() -> Vec<u8> {
    // alpha (96) + beta, gamma, delta (192 each) of arbitrary bytes
    let mut v = Vec::new();
    v.extend(std::iter::repeat(7u8).take(96));
    v.extend(std::iter::repeat(8u8).take(192));
    v.extend(std::iter::repeat(9u8).take(192));
    v.extend(std::iter::repeat(10u8).take(192));
    v
}

fn vk_bytes_with_ic(count: u32) -> Vec<u8> {
    let mut v = vk_header();
    v.extend(count.to_be_bytes());
    for i in 0..count {
        v.extend(std::iter::repeat(i as u8).take(96));
    }
    v
}

#[test]
fn vk_decode_round_trips_fields() {
    let bytes = vk_bytes_with_ic(2);
    let vk = VerificationKey::from_bytes(&bytes).unwrap();
    assert_eq!(vk.alpha, vec![7u8; 96]);
    assert_eq!(vk.beta, vec![8u8; 192]);
    assert_eq!(vk.gamma, vec![9u8; 192]);
    assert_eq!(vk.delta, vec![10u8; 192]);
    assert_eq!(vk.ic.len(), 2);
    assert_eq!(vk.ic[0], vec![0u8; 96]);
    assert_eq!(vk.ic[1], vec![1u8; 96]);
}

#[test]
fn vk_decode_rejects_empty() {
    let r = VerificationKey::from_bytes(&Vec::new());
    assert_eq!(r.unwrap_err(), VerifierError::MalformedVerifyingKey);
}

#[test]
fn vk_decode_rejects_every_short_prefix_length() {
    let bytes = vk_bytes_with_ic(1);
    for cut in [1, 95, 96, 287, 480, 671, 675, 676, 771] {
        let r = VerificationKey::from_bytes(&bytes[..cut].to_vec());
        assert_eq!(r.unwrap_err(), VerifierError::MalformedVerifyingKey);
    }
}

#[test]
fn vk_decode_rejects_trailing_byte() {
    let mut bytes = vk_bytes_with_ic(2);
    bytes.push(0);
    let r = VerificationKey::from_bytes(&bytes);
    assert_eq!(r.unwrap_err(), VerifierError::MalformedVerifyingKey);
}

#[test]
fn vk_decode_rejects_zero_ic_count() {
    let bytes = vk_bytes_with_ic(0);
    let r = VerificationKey::from_bytes(&bytes);
    assert_eq!(r.unwrap_err(), VerifierError::MalformedVerifyingKey);
}

#[test]
fn vk_decode_rejects_overstated_ic_count() {
    let mut bytes = vk_header();
    bytes.extend(3u32.to_be_bytes());
    bytes.extend(std::iter::repeat(0u8).take(2 * 96));
    let r = VerificationKey::from_bytes(&bytes);
    assert_eq!(r.unwrap_err(), VerifierError::MalformedVerifyingKey);
}

#[test]
fn proof_decode_round_trips_fields() {
    let mut bytes = vec![1u8; 96];
    bytes.extend(vec![2u8; 192]);
    bytes.extend(vec![3u8; 96]);
    let p = Proof::from_bytes(&bytes).unwrap();
    assert_eq!(p.a, vec![1u8; 96]);
    assert_eq!(p.b, vec![2u8; 192]);
    assert_eq!(p.c, vec![3u8; 96]);
}

#[test]
fn proof_decode_rejects_short_buffers() {
    for len in [0, 1, 95, 96, 288, 383] {
        let r = Proof::from_bytes(&vec![0u8; len]);
        assert_eq!(r.unwrap_err(), VerifierError::MalformedProof);
    }
}

#[test]
fn proof_decode_rejects_trailing_byte() {
    let r = Proof::from_bytes(&vec![0u8; 385]);
    assert_eq!(r.unwrap_err(), VerifierError::MalformedProof);
}

#[test]
fn signals_decode_round_trips_values() {
    let mut bytes = 2u32.to_be_bytes().to_vec();
    let mut s0 = vec![0u8; 32];
    s0[31] = 5;
    let mut s1 = vec![0u8; 32];
    s1[0] = 0xff;
    bytes.extend(&s0);
    bytes.extend(&s1);
    let s = PublicSignals::from_bytes(&bytes).unwrap();
    assert_eq!(s.pub_signals.len(), 2);
    assert_eq!(s.pub_signals[0], s0);
    assert_eq!(s.pub_signals[1], s1);
}

#[test]
fn signals_decode_accepts_empty_list() {
    let bytes = 0u32.to_be_bytes().to_vec();
    let s = PublicSignals::from_bytes(&bytes).unwrap();
    assert_eq!(s.pub_signals.len(), 0);
}

#[test]
fn signals_decode_rejects_short_buffers() {
    for len in [0, 1, 3] {
        let r = PublicSignals::from_bytes(&vec![0u8; len]);
        assert_eq!(r.unwrap_err(), VerifierError::MalformedPublicSignals);
    }
}

#[test]
fn signals_decode_rejects_count_mismatch() {
    let mut bytes = 2u32.to_be_bytes().to_vec();
    bytes.extend(vec![0u8; 32]);
    let r = PublicSignals::from_bytes(&bytes);
    assert_eq!(r.unwrap_err(), VerifierError::MalformedPublicSignals);
}

#[test]
fn signals_decode_rejects_trailing_byte() {
    let mut bytes = 1u32.to_be_bytes().to_vec();
    bytes.extend(vec![0u8; 33]);
    let r = PublicSignals::from_bytes(&bytes);
    assert_eq!(r.unwrap_err(), VerifierError::MalformedPublicSignals);
}
