//! The digest function: SHA-256 over the UTF-8 bytes of a text.

use vstd::prelude::*;
use vstd::string::*;
use vstd::utf8::*;

verus! {

/// Length of a digest in bytes.
pub const DIGEST_LEN: usize = 32;

/// The longest input, in bytes, whose length in bits still fits the 64-bit
/// counter of the hash.
pub const MAX_INPUT_LEN: u64 = 0x1fff_ffff_ffff_ffff;

/// The SHA-256 digest of `data`, as `ring` computes it.
pub uninterp spec fn sha256(data: Seq<u8>) -> Seq<u8>;

/// Calls `ring::digest::digest` with `ring::digest::SHA256`.
///
/// Trusted: the bytes returned are a function of `data` alone, named
/// [`sha256`], and there are 32 of them. `ring` panics on an input whose
/// length in bits overflows 64 bits, which `requires` leaves out.
#[verifier::external_body]
fn sha256_bytes(data: &[u8]) -> (out: Vec<u8>)
    requires
        data@.len() <= MAX_INPUT_LEN,
    ensures
        out@ == sha256(data@),
        out@.len() == DIGEST_LEN,
{
    ring::digest::digest(&ring::digest::SHA256, data).as_ref().to_vec()
}

/// The digest of a text: SHA-256 over its exact UTF-8 encoding, with no
/// trimming, case folding or other normalisation.
pub open spec fn digest_of(text: Seq<char>) -> Seq<u8> {
    sha256(encode_utf8(text))
}

/// Whether a text is short enough to hash: its UTF-8 encoding has at most
/// `MAX_INPUT_LEN` bytes. The first alternative says nothing more, since a
/// character takes at most four bytes; it is there for callers that know
/// the number of characters and not the number of bytes.
pub open spec fn fits_hash(text: Seq<char>) -> bool {
    text.len() * 4 <= MAX_INPUT_LEN || encode_utf8(text).len() <= MAX_INPUT_LEN
}

/// A character takes at most four bytes in UTF-8.
pub proof fn lemma_utf8_len_bound(text: Seq<char>)
    ensures
        encode_utf8(text).len() <= 4 * text.len(),
    decreases text.len(),
{
    if text.len() > 0 {
        lemma_utf8_len_bound(text.drop_first());
    }
}

/// A SHA-256 digest: exactly 32 bytes.
#[derive(Debug, PartialEq, Eq)]
pub struct Digest {
    bytes: Vec<u8>,
}

impl View for Digest {
    type V = Seq<u8>;

    closed spec fn view(&self) -> Seq<u8> {
        self.bytes@
    }
}

impl Digest {
    #[verifier::type_invariant]
    spec fn well_formed(&self) -> bool {
        self.bytes@.len() == DIGEST_LEN
    }

    /// The digest of a byte string.
    pub fn of_bytes(data: &[u8]) -> (d: Digest)
        requires
            data@.len() <= MAX_INPUT_LEN,
        ensures
            d@ == sha256(data@),
            d@.len() == DIGEST_LEN,
    {
        Digest { bytes: sha256_bytes(data) }
    }

    /// The 32 bytes of the digest.
    pub fn as_bytes(&self) -> (out: &[u8])
        ensures
            out@ == self@,
            out@.len() == DIGEST_LEN,
    {
        proof {
            use_type_invariant(self);
        }
        self.bytes.as_slice()
    }
}

/// Hashes a text as it stands. Total: the empty text has a digest like any
/// other.
pub fn digest(text: &str) -> (d: Digest)
    requires
        fits_hash(text@),
    ensures
        d@ == digest_of(text@),
        d@.len() == DIGEST_LEN,
{
    proof {
        lemma_utf8_len_bound(text@);
    }
    Digest::of_bytes(text.as_bytes())
}

} // verus!
