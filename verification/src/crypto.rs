//! The two cryptographic primitives the ledger rests on, behind trusted
//! wrappers: the SHA-256 digest (the `sha2` crate) and the Dilithium-5
//! detached-signature scheme (the `pqcrypto_dilithium` crate). Their
//! results are named by uninterpreted functions; everything the ledger
//! proves holds for every value those functions may take.

use vstd::prelude::*;

verus! {

/// Width of a Dilithium-5 public key in bytes.
pub const DILITHIUM_PUBLIC_KEY_BYTES: usize = 2592;

/// Width of a Dilithium-5 secret key in bytes.
pub const DILITHIUM_SECRET_KEY_BYTES: usize = 4896;

/// Width of a Dilithium-5 detached signature in bytes.
pub const DILITHIUM_SIGNATURE_BYTES: usize = 4627;

/// The SHA-256 digest of a byte string, determined by the input alone.
pub uninterp spec fn sha256_of(bytes: Seq<u8>) -> Seq<u8>;

/// The Dilithium-5 detached signature over a message under a secret key.
/// Signing in the underlying implementation is deterministic, so the
/// result is a function of message and key alone.
pub uninterp spec fn dilithium_sig_of(msg: Seq<u8>, sk: Seq<u8>) -> Seq<u8>;

/// Whether Dilithium-5 verification accepts `sig` as a signature over
/// `msg` under the public key `pk`. Verification is deterministic.
pub uninterp spec fn dilithium_verifies(msg: Seq<u8>, sig: Seq<u8>, pk: Seq<u8>) -> bool;

/// Relies on `sha2::Sha256` via `Digest::digest`: a 32-byte digest that
/// depends on the input bytes alone.
#[verifier::external_body]
pub(crate) fn sha256(bytes: &[u8]) -> (r: Vec<u8>)
    ensures
        r@ == sha256_of(bytes@),
        r@.len() == 32,
{
    <sha2::Sha256 as sha2::Digest>::digest(bytes).to_vec()
}

/// Relies on `pqcrypto_dilithium::dilithium5::keypair`: keys of the fixed
/// widths above, and a detached signature made with the secret key
/// verifies under the matching public key (correctness of the scheme).
/// The pair is drawn fresh, so nothing else is promised of its bytes.
#[verifier::external_body]
pub(crate) fn dilithium_keypair() -> (r: (Vec<u8>, Vec<u8>))
    ensures
        r.0@.len() == DILITHIUM_PUBLIC_KEY_BYTES,
        r.1@.len() == DILITHIUM_SECRET_KEY_BYTES,
        forall|m: Seq<u8>| #[trigger] dilithium_verifies(m, dilithium_sig_of(m, r.1@), r.0@),
{
    let (pk, sk) = pqcrypto_dilithium::dilithium5::keypair();
    let pk_bytes = pqcrypto_traits::sign::PublicKey::as_bytes(&pk).to_vec();
    let sk_bytes = pqcrypto_traits::sign::SecretKey::as_bytes(&sk).to_vec();
    (pk_bytes, sk_bytes)
}

/// Relies on `pqcrypto_dilithium::dilithium5::detached_sign`: a signature
/// of the fixed width above, deterministic in message and key. The key
/// must have the exact secret-key width, or the conversion into the
/// scheme's key type refuses it.
#[verifier::external_body]
pub(crate) fn dilithium_sign(msg: &[u8], sk: &[u8]) -> (r: Vec<u8>)
    requires
        sk@.len() == DILITHIUM_SECRET_KEY_BYTES,
    ensures
        r@ == dilithium_sig_of(msg@, sk@),
        r@.len() == DILITHIUM_SIGNATURE_BYTES,
{
    let key: pqcrypto_dilithium::dilithium5::SecretKey =
        pqcrypto_traits::sign::SecretKey::from_bytes(sk).expect("secret key width");
    let sig = pqcrypto_dilithium::dilithium5::detached_sign(msg, &key);
    pqcrypto_traits::sign::DetachedSignature::as_bytes(&sig).to_vec()
}

/// Relies on `pqcrypto_dilithium::dilithium5::verify_detached_signature`:
/// accepts only under a public key of the exact width; signature bytes
/// longer than the scheme's width are refused by the conversion, shorter
/// ones are passed to verification as they are.
#[verifier::external_body]
pub(crate) fn dilithium_verify(msg: &[u8], sig: &[u8], pk: &[u8]) -> (r: bool)
    ensures
        r == (pk@.len() == DILITHIUM_PUBLIC_KEY_BYTES && sig@.len() <= DILITHIUM_SIGNATURE_BYTES
            && dilithium_verifies(msg@, sig@, pk@)),
{
    let key: pqcrypto_dilithium::dilithium5::PublicKey =
        match pqcrypto_traits::sign::PublicKey::from_bytes(pk) {
            Ok(k) => k,
            Err(_) => return false,
        };
    let signature: pqcrypto_dilithium::dilithium5::DetachedSignature =
        match pqcrypto_traits::sign::DetachedSignature::from_bytes(sig) {
            Ok(s) => s,
            Err(_) => return false,
        };
    pqcrypto_dilithium::dilithium5::verify_detached_signature(&signature, msg, &key).is_ok()
}

} // verus!
