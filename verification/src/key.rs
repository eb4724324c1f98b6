//! The key store: where the key file is, and what its bytes must be.

use crate::error::ServiceError;
use vstd::prelude::*;

verus! {

/// `ring`'s reason for turning a key down. Carried, never read.
#[verifier::external_type_specification]
#[verifier::external_body]
pub struct ExKeyRejected(ring::error::KeyRejected);

/// Whether `ring` takes `document` as an unencrypted Ed25519 private key in
/// PKCS#8, version 1 or 2.
pub uninterp spec fn pkcs8_accepted(document: Seq<u8>) -> bool;

/// Calls `ring::signature::Ed25519KeyPair::from_pkcs8_maybe_unchecked` and
/// drops the key pair.
///
/// Trusted: whether the document is taken depends on its bytes alone, which
/// [`pkcs8_accepted`] names.
#[verifier::external_body]
fn check_pkcs8(document: &[u8]) -> (outcome: Result<(), ring::error::KeyRejected>)
    ensures
        outcome is Ok <==> pkcs8_accepted(document@),
{
    match ring::signature::Ed25519KeyPair::from_pkcs8_maybe_unchecked(document) {
        Ok(_) => Ok(()),
        Err(reason) => Err(reason),
    }
}

/// The bytes of a private key file that hold a valid Ed25519 key.
///
/// The key pair itself is not kept: it is derived from these bytes each time
/// they are used to sign. The type has no `Debug`, so that a key cannot end
/// up in a log by way of a format string.
pub struct PrivateKeyMaterial {
    document: Vec<u8>,
}

impl View for PrivateKeyMaterial {
    type V = Seq<u8>;

    closed spec fn view(&self) -> Seq<u8> {
        self.document@
    }
}

impl PrivateKeyMaterial {
    #[verifier::type_invariant]
    spec fn well_formed(&self) -> bool {
        pkcs8_accepted(self.document@)
    }

    /// Takes the bytes of a key file, if they hold a valid key.
    pub fn from_pkcs8(document: Vec<u8>) -> (outcome: Result<PrivateKeyMaterial, ServiceError>)
        ensures
            loaded(outcome) == load_outcome(Some(document@)),
    {
        match check_pkcs8(document.as_slice()) {
            Ok(()) => Ok(PrivateKeyMaterial { document }),
            Err(_) => Err(ServiceError::KeyFileMalformed),
        }
    }

    /// The PKCS#8 document, which is known to hold a valid key.
    pub fn as_bytes(&self) -> (document: &[u8])
        ensures
            document@ == self@,
            pkcs8_accepted(document@),
    {
        proof {
            use_type_invariant(self);
        }
        self.document.as_slice()
    }
}

/// What a read of the key file returned, as a byte sequence: `None` where
/// the file could not be read.
pub open spec fn read_bytes(contents: Option<Vec<u8>>) -> Option<Seq<u8>> {
    match contents {
        Some(document) => Some(document@),
        None => None,
    }
}

/// What a load gives for what a read of the key file returned: unreadable
/// where there was nothing to read, malformed where `ring` turns the bytes
/// down, and the bytes themselves otherwise.
pub open spec fn load_outcome(contents: Option<Seq<u8>>) -> Result<Seq<u8>, ServiceError> {
    match contents {
        None => Err(ServiceError::KeyFileUnreadable),
        Some(document) => if pkcs8_accepted(document) {
            Ok(document)
        } else {
            Err(ServiceError::KeyFileMalformed)
        },
    }
}

/// The view of the result of a load: the document behind the key material.
pub open spec fn loaded(outcome: Result<PrivateKeyMaterial, ServiceError>) -> Result<
    Seq<u8>,
    ServiceError,
> {
    match outcome {
        Ok(key) => Ok(key@),
        Err(e) => Err(e),
    }
}

/// Owns the path of the private key file. The path is fixed when the store
/// is made; the key is never cached, so every load sees the file as it is
/// on disk at that moment.
#[derive(Debug, Clone, PartialEq, Eq)]
pub struct KeyStore {
    path: String,
}

impl KeyStore {
    /// The configured path.
    pub closed spec fn spec_path(&self) -> Seq<char> {
        self.path@
    }

    /// A store for the key file at `path`.
    pub fn new(path: String) -> (store: KeyStore)
        ensures
            store.spec_path() == path@,
    {
        KeyStore { path }
    }

    /// The path to read the key file from.
    pub fn path(&self) -> (path: &str)
        ensures
            path@ == self.spec_path(),
    {
        self.path.as_str()
    }

    /// Completes a load from what reading the file at `path()` returned,
    /// `None` where the read failed. Nothing is remembered between loads.
    pub fn load(&self, contents: Option<Vec<u8>>) -> (outcome: Result<PrivateKeyMaterial, ServiceError>)
        ensures
            loaded(outcome) == load_outcome(read_bytes(contents)),
    {
        match contents {
            None => Err(ServiceError::KeyFileUnreadable),
            Some(document) => PrivateKeyMaterial::from_pkcs8(document),
        }
    }
}

} // verus!
