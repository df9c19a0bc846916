use vstd::prelude::*;

verus! {

/// The BLAKE3 digest of a byte sequence.
pub uninterp spec fn blake3_of(data: Seq<u8>) -> Seq<u8>;

/// Whether an Ed25519 signature over a message verifies strictly under a
/// 32-byte public key.
pub uninterp spec fn signature_accepted(key: Seq<u8>, msg: Seq<u8>, sig: Seq<u8>) -> bool;

/// Relies on `blake3::hash`: the 32-byte digest of `data`, which depends on
/// the bytes alone.
#[verifier::external_body]
pub(crate) fn blake3_hash(data: &[u8]) -> (r: [u8; 32])
    ensures
        r@ == blake3_of(data@),
{
    blake3::hash(data).into()
}

/// Relies on `ed25519_dalek::VerifyingKey::verify_strict`: whether `sig`
/// is a valid strict Ed25519 signature of `msg` under `key`. A key that
/// `VerifyingKey::from_bytes` refuses verifies nothing.
#[verifier::external_body]
pub(crate) fn ed25519_verify(key: &[u8; 32], msg: &[u8], sig: &[u8; 64]) -> (r: bool)
    ensures
        r == signature_accepted(key@, msg@, sig@),
{
    match ed25519_dalek::VerifyingKey::from_bytes(key) {
        Ok(k) => k.verify_strict(msg, &ed25519_dalek::Signature::from_bytes(sig)).is_ok(),
        Err(_) => false,
    }
}

} // verus!
