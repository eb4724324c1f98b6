//! The signing service: one request in, one response or error out.
//!
//! A request is served in four steps, in this order and with no retry: hash
//! the address, load the key, sign the digest, encode the signature. The
//! outcome depends on nothing but the address and the bytes of the key file
//! at that moment, so requests can be served side by side and in any order.

use crate::digest::{digest, digest_of, fits_hash, sha256};
use crate::encoder::{encode, encoded_text, lemma_reads_back_ignoring_case, same_ignoring_case};
use crate::error::ServiceError;
use crate::key::{load_outcome, pkcs8_accepted, read_bytes, KeyStore};
use crate::radix58::{base58_bytes, base58_text};
use crate::signer::{ed25519_signature, sign};
use vstd::prelude::*;
use vstd::string::*;
use vstd::utf8::*;

verus! {

/// HTTP status of a request that was served.
pub const STATUS_OK: u16 = 200;

/// What the caller sends: an address, taken as it is. Nothing checks that
/// it looks like an e-mail address, and the empty text is as good as any.
#[derive(Debug, Clone, PartialEq, Eq)]
pub struct SignRequest {
    pub email: String,
}

/// What the caller gets back: the signature as upper-case base-58 text.
#[derive(Debug, Clone, PartialEq, Eq)]
pub struct SignResponse {
    pub signature: String,
}

/// The signature text for `email` under the key in `document`.
pub open spec fn signature_text(document: Seq<u8>, email: Seq<char>) -> Seq<char> {
    encoded_text(ed25519_signature(document, digest_of(email)))
}

/// The outcome of a request. `email` is `None` where the body could not be
/// decoded, `key_file` is `None` where the key file could not be read. A
/// request that is malformed fails as such whatever the state of the key.
pub open spec fn response_for(email: Option<Seq<char>>, key_file: Option<Seq<u8>>) -> Result<
    Seq<char>,
    ServiceError,
> {
    match email {
        None => Err(ServiceError::MalformedRequest),
        Some(email) => match load_outcome(key_file) {
            Err(e) => Err(e),
            Ok(document) => Ok(signature_text(document, email)),
        },
    }
}

/// An outcome as plain values: the signature text, or the error.
pub open spec fn outcome_view(outcome: Result<SignResponse, ServiceError>) -> Result<
    Seq<char>,
    ServiceError,
> {
    match outcome {
        Ok(response) => Ok(response.signature@),
        Err(e) => Err(e),
    }
}

/// The HTTP status that stands for an outcome.
pub open spec fn outcome_status(outcome: Result<SignResponse, ServiceError>) -> u16 {
    match outcome {
        Ok(_) => STATUS_OK,
        Err(e) => e.status_of(),
    }
}

/// The decoded address as a sequence, `None` where decoding failed.
pub open spec fn decoded_email(field: Option<String>) -> Option<Seq<char>> {
    match field {
        Some(email) => Some(email@),
        None => None,
    }
}

/// A decoded request as plain values: the address, or the error.
pub open spec fn request_view(request: Result<SignRequest, ServiceError>) -> Result<
    Seq<char>,
    ServiceError,
> {
    match request {
        Ok(request) => Ok(request.email@),
        Err(e) => Err(e),
    }
}

/// What decoding gives: the address where the body held one, and a malformed
/// request otherwise.
pub open spec fn request_for(email: Option<Seq<char>>) -> Result<Seq<char>, ServiceError> {
    match email {
        Some(email) => Ok(email),
        None => Err(ServiceError::MalformedRequest),
    }
}

impl SignRequest {
    /// Takes what decoding the body gave: the `email` string of a JSON
    /// object, or `None` where the body was not JSON or had no such field.
    pub fn from_decoded(field: Option<String>) -> (request: Result<SignRequest, ServiceError>)
        ensures
            request_view(request) == request_for(decoded_email(field)),
    {
        match field {
            Some(email) => Ok(SignRequest { email }),
            None => Err(ServiceError::MalformedRequest),
        }
    }
}

/// Serves one request. `contents` is what reading the file at
/// `store.path()` returned just now, `None` where the read failed.
///
/// The answer is the signature text exactly when the bytes hold a valid
/// key. A failure is not retried here; the caller sends the request again.
pub fn sign_email(
    request: &SignRequest,
    store: &KeyStore,
    contents: Option<Vec<u8>>,
) -> (outcome: Result<SignResponse, ServiceError>)
    requires
        fits_hash(request.email@),
    ensures
        outcome_view(outcome) == response_for(Some(request.email@), read_bytes(contents)),
{
    let digest = digest(request.email.as_str());
    let key = match store.load(contents) {
        Ok(key) => key,
        Err(e) => {
            return Err(e);
        },
    };
    let signature = sign(&key, &digest);
    let text = encode(signature.as_bytes());
    Ok(SignResponse { signature: text })
}

/// The HTTP status to answer with: 200 with a signature, 400 for a
/// malformed request, 500 where the key could not be had.
pub fn status(outcome: &Result<SignResponse, ServiceError>) -> (code: u16)
    ensures
        code == outcome_status(*outcome),
{
    match outcome {
        Ok(_) => STATUS_OK,
        Err(e) => e.status(),
    }
}

/// Determinism. Any two outcomes that the service may give for the same
/// address while the key file holds the same bytes are equal: the same
/// signature text, or the same error.
pub proof fn lemma_same_request_same_outcome(
    email: Seq<char>,
    key_file: Option<Seq<u8>>,
    first: Result<Seq<char>, ServiceError>,
    second: Result<Seq<char>, ServiceError>,
)
    requires
        first == response_for(Some(email), key_file),
        second == response_for(Some(email), key_file),
    ensures
        first == second,
{
}

/// The empty address is served like any other: with a valid key the answer
/// is the signature over the digest of the empty byte string.
pub proof fn lemma_empty_email_is_signed(document: Seq<u8>)
    requires
        pkcs8_accepted(document),
    ensures
        response_for(Some(Seq::<char>::empty()), Some(document)) == Ok::<
            Seq<char>,
            ServiceError,
        >(encoded_text(ed25519_signature(document, sha256(Seq::<u8>::empty())))),
{
    assert(encode_utf8(Seq::<char>::empty()) == Seq::<u8>::empty());
}

/// Round trip. With a valid key the answer is, but for the case of its
/// letters, the base-58 text of the Ed25519 signature over the digest of
/// the address, and that base-58 text stands for the bytes of the signature
/// and for no others.
pub proof fn lemma_response_reads_back(email: Seq<char>, document: Seq<u8>)
    requires
        pkcs8_accepted(document),
    ensures
        response_for(Some(email), Some(document)) is Ok,
        same_ignoring_case(
            response_for(Some(email), Some(document))->Ok_0,
            base58_text(ed25519_signature(document, digest_of(email))),
        ),
        base58_bytes(base58_text(ed25519_signature(document, digest_of(email)))) == Some(
            ed25519_signature(document, digest_of(email)),
        ),
{
    lemma_reads_back_ignoring_case(ed25519_signature(document, digest_of(email)));
}

/// A request is answered with a signature exactly when it could be decoded
/// and the key file holds a valid key. A malformed request is the caller's
/// fault and gets status 400; an unreadable or malformed key file is the
/// server's and gets status 500. Neither is ever answered with a signature.
pub proof fn lemma_outcomes(email: Option<Seq<char>>, key_file: Option<Seq<u8>>)
    ensures
        response_for(email, key_file) is Ok <==> email is Some && key_file is Some
            && pkcs8_accepted(key_file->0),
        email is None ==> response_for(email, key_file) == Err::<Seq<char>, ServiceError>(
            ServiceError::MalformedRequest,
        ),
        email is Some && key_file is None ==> response_for(email, key_file) == Err::<
            Seq<char>,
            ServiceError,
        >(ServiceError::KeyFileUnreadable),
        email is Some && key_file is Some && !pkcs8_accepted(key_file->0) ==> response_for(
            email,
            key_file,
        ) == Err::<Seq<char>, ServiceError>(ServiceError::KeyFileMalformed),
        ServiceError::MalformedRequest.status_of() == 400,
        ServiceError::KeyFileUnreadable.status_of() == 500,
        ServiceError::KeyFileMalformed.status_of() == 500,
{
}

} // verus!
