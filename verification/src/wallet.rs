//! The signing identity of an actor: a Dilithium-5 keypair whose public
//! half, hex-encoded, serves as the actor's textual identifier. A wallet
//! signs canonical payloads; anyone can check such a signature from the
//! textual identifier alone.

use vstd::prelude::*;
use vstd::utf8::encode_utf8;
use crate::crypto::{
    dilithium_keypair, dilithium_sig_of, dilithium_sign, dilithium_verifies, dilithium_verify,
    DILITHIUM_PUBLIC_KEY_BYTES, DILITHIUM_SECRET_KEY_BYTES, DILITHIUM_SIGNATURE_BYTES,
};
use crate::hexstr::{
    hex_decode, hex_encode, lemma_hex_decode_encode, lemma_hex_encode_valid, spec_hex_decode,
    spec_hex_encode, valid_hex,
};

verus! {

/// What it means for a hex-encoded signature to check out over a message
/// under a hex-encoded public key: both hex strings decode, the key has
/// the scheme's exact width, the signature is no wider than the scheme's,
/// and Dilithium-5 verification accepts the decoded triple.
pub open spec fn sig_checks(
    message: Seq<char>,
    signature_hex: Seq<char>,
    public_key_hex: Seq<char>,
) -> bool {
    &&& valid_hex(signature_hex)
    &&& valid_hex(public_key_hex)
    &&& spec_hex_decode(public_key_hex).len() == DILITHIUM_PUBLIC_KEY_BYTES
    &&& spec_hex_decode(signature_hex).len() <= DILITHIUM_SIGNATURE_BYTES
    &&& dilithium_verifies(
        encode_utf8(message),
        spec_hex_decode(signature_hex),
        spec_hex_decode(public_key_hex),
    )
}

/// A keypair. The hex-encoded public key is the owner's identifier; the
/// secret key never leaves the wallet.
pub struct Wallet {
    pub public_key: String,
    secret_key_bytes: Vec<u8>,
    pk_bytes: Ghost<Seq<u8>>,
}

impl Wallet {
    /// The wallet's textual identifier: its hex-encoded public key.
    pub closed spec fn spec_public_key(self) -> Seq<char> {
        self.public_key@
    }

    /// The wallet's textual identifier, for callers that need it as a
    /// string.
    pub fn public_key_str(&self) -> (s: &String)
        ensures
            s@ == self.spec_public_key(),
    {
        &self.public_key
    }

    /// A wallet is sound when its identifier encodes the public half of
    /// its keypair and signatures made with the secret half verify under
    /// that public half.
    pub closed spec fn wf(self) -> bool {
        &&& self.secret_key_bytes@.len() == DILITHIUM_SECRET_KEY_BYTES
        &&& self.pk_bytes@.len() == DILITHIUM_PUBLIC_KEY_BYTES
        &&& self.public_key@ == spec_hex_encode(self.pk_bytes@)
        &&& forall|m: Seq<u8>| #[trigger] dilithium_verifies(
            m,
            dilithium_sig_of(m, self.secret_key_bytes@),
            self.pk_bytes@,
        )
    }

    /// Draws a fresh keypair.
    pub fn new() -> (w: Wallet)
        ensures
            w.wf(),
    {
        let (pk, sk) = dilithium_keypair();
        let public_key = hex_encode(pk.as_slice());
        Wallet { public_key, secret_key_bytes: sk, pk_bytes: Ghost(pk@) }
    }

    /// Signs a message; the result checks out under this wallet's own
    /// identifier.
    pub fn sign(&self, message: &str) -> (r: String)
        requires
            self.wf(),
        ensures
            sig_checks(message@, r@, self.spec_public_key()),
    {
        let sig = dilithium_sign(message.as_bytes(), self.secret_key_bytes.as_slice());
        let r = hex_encode(sig.as_slice());
        proof {
            lemma_hex_encode_valid(sig@);
            lemma_hex_decode_encode(sig@);
            lemma_hex_encode_valid(self.pk_bytes@);
            lemma_hex_decode_encode(self.pk_bytes@);
        }
        r
    }

    /// Checks a hex-encoded signature over a message under a hex-encoded
    /// public key. Malformed encodings fail the check; nothing panics.
    pub fn verify(message: &str, signature_hex: &str, public_key_hex: &str) -> (r: bool)
        ensures
            r == sig_checks(message@, signature_hex@, public_key_hex@),
    {
        let pk = match hex_decode(public_key_hex) {
            Some(v) => v,
            None => {
                return false;
            },
        };
        let sig = match hex_decode(signature_hex) {
            Some(v) => v,
            None => {
                return false;
            },
        };
        dilithium_verify(message.as_bytes(), sig.as_slice(), pk.as_slice())
    }
}

} // verus!
