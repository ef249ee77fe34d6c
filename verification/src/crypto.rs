//! Byte encodings of numbers and the hash and key functions that blocks and keys use.
use vstd::prelude::*;

verus! {

/// The big-endian value of a byte string.
pub open spec fn be_value(s: Seq<u8>) -> nat
    decreases s.len(),
{
    if s.len() == 0 {
        0
    } else {
        be_value(s.drop_last()) * 256 + s.last() as nat
    }
}

/// The `n` low-order bytes of `x`, most significant first.
pub open spec fn be_bytes(x: nat, n: nat) -> Seq<u8>
    decreases n,
{
    if n == 0 {
        Seq::empty()
    } else {
        be_bytes(x / 256, (n - 1) as nat).push((x % 256) as u8)
    }
}

/// `be_bytes` yields exactly `n` bytes.
pub proof fn lemma_be_bytes_len(x: nat, n: nat)
    ensures
        be_bytes(x, n).len() == n,
    decreases n,
{
    if n > 0 {
        lemma_be_bytes_len(x / 256, (n - 1) as nat);
    }
}

/// The BLAKE2b digest with a 32-byte output of a byte string.
pub uninterp spec fn blake2b_256(data: Seq<u8>) -> Seq<u8>;

/// The BLAKE2b digest with a 64-byte output of a byte string.
pub uninterp spec fn blake2b_512(data: Seq<u8>) -> Seq<u8>;

/// The BLAKE2b digest with a 5-byte output of a byte string.
pub uninterp spec fn blake2b_40(data: Seq<u8>) -> Seq<u8>;

/// The Ed25519 public key that belongs to an expanded secret key (the 64-byte
/// hash of a private key).
pub uninterp spec fn ed25519_public_key(expanded_secret: Seq<u8>) -> Seq<u8>;

/// The BLAKE2b digest with an 8-byte output of a byte string.
pub uninterp spec fn blake2b_64(data: Seq<u8>) -> Seq<u8>;

/// The Ed25519 signature of `message` by the expanded secret key `expanded_secret`, with
/// BLAKE2b-512 as the signing digest.
pub uninterp spec fn ed25519_signature(expanded_secret: Seq<u8>, message: Seq<u8>) -> Seq<u8>;

/// Whether `signature` is a valid Ed25519 signature of `message` under the compressed public
/// key `public_key`, with BLAKE2b-512 as the signing digest.
pub uninterp spec fn ed25519_verifies(public_key: Seq<u8>, message: Seq<u8>, signature: Seq<u8>) -> bool;

/// `blake2::Blake2b<U32>::digest`: the 32-byte BLAKE2b digest of `data`.
#[verifier::external_body]
pub(crate) fn blake2b_256_digest(data: &[u8]) -> (r: [u8; 32])
    ensures
        r@ == blake2b_256(data@),
{
    <blake2::Blake2b<blake2::digest::consts::U32> as blake2::Digest>::digest(data).into()
}

/// `blake2::Blake2b512::digest`: the 64-byte BLAKE2b digest of `data`.
#[verifier::external_body]
pub(crate) fn blake2b_512_digest(data: &[u8]) -> (r: [u8; 64])
    ensures
        r@ == blake2b_512(data@),
{
    <blake2::Blake2b512 as blake2::Digest>::digest(data).into()
}

/// `blake2::Blake2b<U5>::digest`: the 5-byte BLAKE2b digest of `data` (the digest length
/// is part of BLAKE2b's parameters, so this is not a prefix of a longer digest).
#[verifier::external_body]
pub(crate) fn blake2b_40_digest(data: &[u8]) -> (r: [u8; 5])
    ensures
        r@ == blake2b_40(data@),
{
    <blake2::Blake2b<blake2::digest::consts::U5> as blake2::Digest>::digest(data).into()
}

/// `ed25519_dalek::VerifyingKey::from(&ExpandedSecretKey::from_bytes(expanded))`:
/// the compressed public key of an expanded secret key.
#[verifier::external_body]
pub(crate) fn ed25519_public_key_of(expanded: &[u8; 64]) -> (r: [u8; 32])
    ensures
        r@ == ed25519_public_key(expanded@),
{
    ed25519_dalek::VerifyingKey::from(&ed25519_dalek::hazmat::ExpandedSecretKey::from_bytes(
        expanded,
    )).to_bytes()
}

/// `blake2::Blake2b<U8>::digest`: the 8-byte BLAKE2b digest of `data`.
#[verifier::external_body]
pub(crate) fn blake2b_64_digest(data: &[u8]) -> (r: [u8; 8])
    ensures
        r@ == blake2b_64(data@),
{
    <blake2::Blake2b<blake2::digest::consts::U8> as blake2::Digest>::digest(data).into()
}

/// `ed25519_dalek::hazmat::raw_sign::<Blake2b512>` with the key pair of an expanded secret key:
/// the signature of `message`. Ed25519 signing is deterministic, and `raw_verify` with the same
/// digest accepts what `raw_sign` gives under the key pair's public key (the crate's own test
/// `sign_verify_nonspec` signs and verifies with BLAKE2b-512 in this way).
#[verifier::external_body]
pub(crate) fn ed25519_sign(expanded: &[u8; 64], message: &[u8]) -> (r: [u8; 64])
    ensures
        r@ == ed25519_signature(expanded@, message@),
        ed25519_verifies(ed25519_public_key(expanded@), message@, r@),
{
    let esk = ed25519_dalek::hazmat::ExpandedSecretKey::from_bytes(expanded);
    let vk = ed25519_dalek::VerifyingKey::from(&esk);
    ed25519_dalek::hazmat::raw_sign::<blake2::Blake2b512>(&esk, message, &vk).to_bytes()
}

/// `ed25519_dalek::hazmat::raw_verify::<Blake2b512>` under the public key that
/// `VerifyingKey::from_bytes` reads; a key that does not decompress verifies nothing.
#[verifier::external_body]
pub(crate) fn ed25519_verify(public_key: &[u8; 32], message: &[u8], signature: &[u8; 64]) -> (r: bool)
    ensures
        r == ed25519_verifies(public_key@, message@, signature@),
{
    match ed25519_dalek::VerifyingKey::from_bytes(public_key) {
        Ok(vk) => {
            let sig = ed25519_dalek::Signature::from_bytes(signature);
            ed25519_dalek::hazmat::raw_verify::<blake2::Blake2b512>(&vk, message, &sig).is_ok()
        },
        Err(_) => false,
    }
}

} // verus!
