//! Deciding whether an equivocation proof shows misbehaviour.
use vstd::prelude::*;
use crate::bytes::bytes_equal;
use crate::crypto::{sr25519_accepts, sr25519_verify, SIGNING_CONTEXT};
use crate::evidence::{EquivocationProof, ProofView, StatementView};

verus! {

/// Whether the statement's signature verifies against `key` over its content.
pub open spec fn signed_by(s: StatementView, key: Seq<u8>) -> bool {
    sr25519_accepts(SIGNING_CONTEXT@, key, s.content, s.signature)
}

/// Whether a proof shows an equivocation: both statements are for the proof's
/// slot, both name the offender as signer, both contents fit a four-byte length
/// (as every signed content does), both signatures verify against the
/// offender's key, and the two contents differ.
pub open spec fn is_equivocation(p: ProofView) -> bool {
    &&& p.first.slot == p.slot
    &&& p.second.slot == p.slot
    &&& p.first.signer == p.offender
    &&& p.second.signer == p.offender
    &&& p.first.content.len() <= u32::MAX
    &&& p.second.content.len() <= u32::MAX
    &&& signed_by(p.first, p.offender)
    &&& signed_by(p.second, p.offender)
    &&& p.first.content != p.second.content
}

/// Checks an equivocation proof; reads nothing but the proof.
pub fn check_equivocation_proof(proof: &EquivocationProof) -> (r: bool)
    ensures
        r == is_equivocation(proof@),
{
    if proof.first.slot != proof.slot || proof.second.slot != proof.slot {
        return false;
    }
    if !bytes_equal(proof.first.signer.as_slice(), proof.offender.as_slice())
        || !bytes_equal(proof.second.signer.as_slice(), proof.offender.as_slice()) {
        return false;
    }
    if proof.first.content.len() > u32::MAX as usize || proof.second.content.len() > u32::MAX as usize {
        return false;
    }
    let context: &[u8] = &SIGNING_CONTEXT;
    if !sr25519_verify(
        context,
        proof.offender.as_slice(),
        proof.first.content.as_slice(),
        proof.first.signature.as_slice(),
    ) {
        return false;
    }
    if !sr25519_verify(
        context,
        proof.offender.as_slice(),
        proof.second.content.as_slice(),
        proof.second.signature.as_slice(),
    ) {
        return false;
    }
    !bytes_equal(proof.first.content.as_slice(), proof.second.content.as_slice())
}

/// Checking is a function of the proof alone: two checks of equal proofs give
/// the same answer, so checking again changes nothing.
pub proof fn lemma_check_idempotent(p: ProofView, q: ProofView)
    requires
        p == q,
    ensures
        is_equivocation(p) == is_equivocation(q),
{
}

} // verus!
