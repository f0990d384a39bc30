use vstd::prelude::*;
use crate::VerifierError;
use crate::entities::{VerificationKey, Proof, PublicSignals, VkView, ProofView};
use crate::curve::{
    g1_neg_of, g1_mul_of, g1_add_of, pairing_check_of, g1_neg, g1_mul, g1_add, pairing_check,
};

verus! {

/// The public-input accumulator after folding in the first `k` signal terms:
/// `ic[0] + sigs[0] * ic[1] + ... + sigs[k-1] * ic[k]`. `None` once any
/// curve operation has rejected its input.
pub open spec fn spec_lincomb(ic: Seq<Seq<u8>>, sigs: Seq<Seq<u8>>, k: int) -> Option<Seq<u8>>
    decreases k,
{
    if k <= 0 {
        Some(ic[0])
    } else {
        match spec_lincomb(ic, sigs, k - 1) {
            None => None,
            Some(acc) => match g1_mul_of(ic[k], sigs[k - 1]) {
                None => None,
                Some(term) => g1_add_of(acc, term),
            },
        }
    }
}

/// The verification outcome for decoded inputs whose signal count matches
/// the key: the four-pairing identity over `(-A, B)`, `(alpha, beta)`,
/// `(vk_x, gamma)`, `(C, delta)`. It is `false` both when the identity does
/// not hold and when any point fails curve-library validation: an undecodable
/// point can never satisfy the relation, and only structural malformation of
/// the buffers is an error.
pub open spec fn spec_verify_outcome(vk: VkView, p: ProofView, sigs: Seq<Seq<u8>>) -> bool {
    match spec_lincomb(vk.ic, sigs, vk.ic.len() - 1) {
        None => false,
        Some(vk_x) => match g1_neg_of(p.a) {
            None => false,
            Some(neg_a) => match pairing_check_of(
                neg_a,
                vk.alpha,
                vk_x,
                p.c,
                p.b,
                vk.beta,
                vk.gamma,
                vk.delta,
            ) {
                None => false,
                Some(b) => b,
            },
        },
    }
}

/// Once the accumulator has failed it stays failed at every later stage.
pub proof fn lemma_lincomb_none(ic: Seq<Seq<u8>>, sigs: Seq<Seq<u8>>, k1: int, k2: int)
    requires
        0 <= k1 <= k2,
        spec_lincomb(ic, sigs, k1) is None,
    ensures
        spec_lincomb(ic, sigs, k2) is None,
    decreases k2,
{
    if k2 > k1 {
        lemma_lincomb_none(ic, sigs, k1, k2 - 1);
    }
}

/// Runs the pairing-based verification algorithm on decoded entities.
/// A signal count that does not match the key is the only error; every other
/// outcome, including invalid point encodings, is a boolean answer.
pub fn verify_proof(vk: &VerificationKey, proof: &Proof, pub_signals: &PublicSignals) -> (r:
    Result<bool, VerifierError>)
    requires
        vk@.wf(),
        proof@.wf(),
    ensures
        pub_signals@.len() + 1 != vk@.ic.len() ==> r == Err::<bool, VerifierError>(
            VerifierError::MalformedVerifyingKey,
        ),
        pub_signals@.len() + 1 == vk@.ic.len() ==> r == Ok::<bool, VerifierError>(
            spec_verify_outcome(vk@, proof@, pub_signals@),
        ),
{
    if pub_signals.pub_signals.len() != vk.ic.len() - 1 {
        return Err(VerifierError::MalformedVerifyingKey);
    }
    let ghost gic = vk@.ic;
    let ghost gsigs = pub_signals@;
    proof {
        assert(vk.ic@[0]@ == gic[0]);
    }
    let mut vk_x: Vec<u8> = vk.ic[0].clone();
    let mut idx: usize = 0;
    while idx < pub_signals.pub_signals.len()
        invariant
            vk@.wf(),
            gic == vk@.ic,
            gsigs == pub_signals@,
            idx <= pub_signals.pub_signals@.len(),
            pub_signals.pub_signals@.len() + 1 == gic.len(),
            spec_lincomb(gic, gsigs, idx as int) == Some(vk_x@),
        decreases pub_signals.pub_signals@.len() - idx,
    {
        proof {
            assert(vk.ic@[idx + 1]@ == gic[idx + 1]);
        }
        let term = match g1_mul(&vk.ic[idx + 1], &pub_signals.pub_signals[idx]) {
            Some(t) => t,
            None => {
                proof {
                    lemma_lincomb_none(gic, gsigs, idx + 1, gic.len() - 1);
                }
                return Ok(false);
            },
        };
        vk_x = match g1_add(&vk_x, &term) {
            Some(v) => v,
            None => {
                proof {
                    lemma_lincomb_none(gic, gsigs, idx + 1, gic.len() - 1);
                }
                return Ok(false);
            },
        };
        idx = idx + 1;
    }
    let neg_a = match g1_neg(&proof.a) {
        Some(v) => v,
        None => {
            return Ok(false);
        },
    };
    match pairing_check(
        neg_a.as_slice(),
        vk.alpha.as_slice(),
        vk_x.as_slice(),
        proof.c.as_slice(),
        proof.b.as_slice(),
        vk.beta.as_slice(),
        vk.gamma.as_slice(),
        vk.delta.as_slice(),
    ) {
        Some(b) => Ok(b),
        None => Ok(false),
    }
}

} // verus!
