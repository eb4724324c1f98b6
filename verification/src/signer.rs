//! The signer: Ed25519 over a digest.

use crate::digest::Digest;
use crate::key::{pkcs8_accepted, PrivateKeyMaterial};
use vstd::pervasive::unreached;
use vstd::prelude::*;

verus! {

/// Length of an Ed25519 signature in bytes.
pub const SIGNATURE_LEN: usize = 64;

/// The Ed25519 signature over `message` under the key that the PKCS#8
/// `document` holds, as `ring` computes it. The key pair is stood for by the
/// document it is read from. Ed25519 draws no randomness when it signs, so
/// the key and the message fix every byte.
pub uninterp spec fn ed25519_signature(document: Seq<u8>, message: Seq<u8>) -> Seq<u8>;

/// Calls `ring::signature::Ed25519KeyPair::from_pkcs8_maybe_unchecked` on
/// the document, then `Ed25519KeyPair::sign` on the message.
///
/// Trusted: the call succeeds on exactly the documents that `ring` accepts;
/// the signature is a function of the document and the message alone, named
/// [`ed25519_signature`], and is 64 bytes long.
#[verifier::external_body]
fn sign_with_pkcs8(document: &[u8], message: &[u8]) -> (outcome: Result<Vec<u8>, ring::error::KeyRejected>)
    ensures
        outcome is Ok <==> pkcs8_accepted(document@),
        outcome matches Ok(bytes) ==> bytes@ == ed25519_signature(document@, message@)
            && bytes@.len() == SIGNATURE_LEN,
{
    match ring::signature::Ed25519KeyPair::from_pkcs8_maybe_unchecked(document) {
        Ok(pair) => Ok(pair.sign(message).as_ref().to_vec()),
        Err(reason) => Err(reason),
    }
}

/// An Ed25519 signature: exactly 64 bytes.
#[derive(Debug, PartialEq, Eq)]
pub struct Signature {
    bytes: Vec<u8>,
}

impl View for Signature {
    type V = Seq<u8>;

    closed spec fn view(&self) -> Seq<u8> {
        self.bytes@
    }
}

impl Signature {
    #[verifier::type_invariant]
    spec fn well_formed(&self) -> bool {
        self.bytes@.len() == SIGNATURE_LEN
    }

    /// The 64 bytes of the signature.
    pub fn as_bytes(&self) -> (out: &[u8])
        ensures
            out@ == self@,
            out@.len() == SIGNATURE_LEN,
    {
        proof {
            use_type_invariant(self);
        }
        self.bytes.as_slice()
    }
}

/// Signs a digest. With valid key material there is nothing that can fail,
/// and the same key and digest always give the same signature.
pub fn sign(key: &PrivateKeyMaterial, digest: &Digest) -> (signature: Signature)
    ensures
        signature@ == ed25519_signature(key@, digest@),
        signature@.len() == SIGNATURE_LEN,
{
    match sign_with_pkcs8(key.as_bytes(), digest.as_bytes()) {
        Ok(bytes) => Signature { bytes },
        Err(_) => unreached(),
    }
}

} // verus!
