//! Signature checks on authority keys.
use vstd::prelude::*;

verus! {

/// The signing context under which authorities sign statements: the ASCII bytes
/// of "substrate".
pub const SIGNING_CONTEXT: [u8; 9] = [0x73, 0x75, 0x62, 0x73, 0x74, 0x72, 0x61, 0x74, 0x65];

/// Whether `signature` is a valid sr25519 signature by the public key `key` over
/// `message`, under the signing context `context`.
pub uninterp spec fn sr25519_accepts(
    context: Seq<u8>,
    key: Seq<u8>,
    message: Seq<u8>,
    signature: Seq<u8>,
) -> bool;

/// Relies on schnorrkel's `PublicKey::verify_simple`: whether the signature holds
/// for the key and message in the signing context; a key or a signature that
/// `from_bytes` refuses (wrong length, invalid point, unmarked signature) does not verify.
/// The transcript that verification builds asserts that the context and the
/// message each fit a `u32` length, so longer ones are not admitted.
#[verifier::external_body]
pub(crate) fn sr25519_verify(context: &[u8], key: &[u8], message: &[u8], signature: &[u8]) -> (r: bool)
    requires
        context@.len() <= u32::MAX,
        message@.len() <= u32::MAX,
    ensures
        r == sr25519_accepts(context@, key@, message@, signature@),
{
    match (schnorrkel::PublicKey::from_bytes(key), schnorrkel::Signature::from_bytes(signature)) {
        (Ok(k), Ok(s)) => k.verify_simple(context, message, &s).is_ok(),
        _ => false,
    }
}

} // verus!
