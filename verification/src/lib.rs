use vstd::prelude::*;

pub mod curve;
pub mod entities;
pub mod producer;
pub mod verify;
pub mod wire;

verus! {

/// The error kinds surfaced to callers of the verifier.
#[derive(Copy, Clone, Debug, PartialEq, Eq, Structural)]
pub enum VerifierError {
    MalformedVerifyingKey,
    VerificationKeyNotSet,
    MalformedProof,
    MalformedPublicSignals,
}

/// The verifier with its single stored verification key. The stored value
/// models the one persisted byte buffer: verification re-decodes it on every
/// call, and `set_vk` fully validates a candidate before storing it, so a
/// key that does not decode can never replace the stored one.
pub struct Groth16VerifierContract {
    stored_vk: Option<Vec<u8>>,
}

impl View for Groth16VerifierContract {
    type V = Option<Seq<u8>>;

    closed spec fn view(&self) -> Option<Seq<u8>> {
        match self.stored_vk {
            Some(ref v) => Some(v@),
            None => None,
        }
    }
}

impl Groth16VerifierContract {
    /// A verifier with no key stored yet.
    pub fn new() -> (r: Self)
        ensures
            r@ is None,
    {
        Groth16VerifierContract { stored_vk: None }
    }

    /// Fully decodes `vk_bytes` and stores the raw bytes on success. On
    /// failure the previously stored key, if any, is left unchanged.
    pub fn set_vk(&mut self, vk_bytes: Vec<u8>) -> (r: Result<(), VerifierError>)
        ensures
            match r {
                Ok(_) => entities::spec_parse_vk(vk_bytes@) is Some && final(self)@ == Some(
                    vk_bytes@,
                ),
                Err(e) => entities::spec_parse_vk(vk_bytes@) is None && e
                    == VerifierError::MalformedVerifyingKey && final(self)@ == old(self)@,
            },
    {
        match entities::VerificationKey::from_bytes(&vk_bytes) {
            Ok(_) => {
                self.stored_vk = Some(vk_bytes);
                Ok(())
            },
            Err(e) => Err(e),
        }
    }

    /// Decodes the stored key, the proof and the public signals, and runs the
    /// pairing-based verification algorithm. `Ok(false)` means well-formed
    /// buffers whose proof does not satisfy the relation; errors are reserved
    /// for a missing key and structural malformation.
    pub fn verify(&self, proof_bytes: &Vec<u8>, pub_signals_bytes: &Vec<u8>) -> (r: Result<
        bool,
        VerifierError,
    >)
        ensures
            self@ is None ==> r == Err::<bool, VerifierError>(
                VerifierError::VerificationKeyNotSet,
            ),
            self@ matches Some(kb) ==> match entities::spec_parse_vk(kb) {
                None => r == Err::<bool, VerifierError>(VerifierError::MalformedVerifyingKey),
                Some(v) => match entities::spec_parse_proof(proof_bytes@) {
                    None => r == Err::<bool, VerifierError>(VerifierError::MalformedProof),
                    Some(p) => match entities::spec_parse_signals(pub_signals_bytes@) {
                        None => r == Err::<bool, VerifierError>(
                            VerifierError::MalformedPublicSignals,
                        ),
                        Some(s) => if s.len() + 1 != v.ic.len() {
                            r == Err::<bool, VerifierError>(VerifierError::MalformedVerifyingKey)
                        } else {
                            r == Ok::<bool, VerifierError>(verify::spec_verify_outcome(v, p, s))
                        },
                    },
                },
            },
    {
        let vk_bytes = match &self.stored_vk {
            Some(kb) => kb,
            None => {
                return Err(VerifierError::VerificationKeyNotSet);
            },
        };
        let vk = match entities::VerificationKey::from_bytes(vk_bytes) {
            Ok(vk) => vk,
            Err(e) => {
                return Err(e);
            },
        };
        let proof = match entities::Proof::from_bytes(proof_bytes) {
            Ok(p) => p,
            Err(e) => {
                return Err(e);
            },
        };
        let pub_signals = match entities::PublicSignals::from_bytes(pub_signals_bytes) {
            Ok(s) => s,
            Err(e) => {
                return Err(e);
            },
        };
        verify::verify_proof(&vk, &proof, &pub_signals)
    }
}

} // verus!
