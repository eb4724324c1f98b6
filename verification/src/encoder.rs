//! The encoder: signature bytes to transport text.
//!
//! The bytes are written in base 58 and the letters of the result are then
//! put in upper case. The second step is for display only and loses
//! information: `a` and `A` are different digits.

use crate::radix58::{
    base58_bytes, base58_text, digit_value, lemma_base58_one_to_one, lemma_base58_round_trip,
};
use crate::text::push_char;
use vstd::prelude::*;
use vstd::string::*;

verus! {

/// The upper case of a letter `a` to `z`; any other character is itself.
pub open spec fn upper_char(c: char) -> char {
    if 'a' <= c <= 'z' {
        ((c as u8 - 32) as u8) as char
    } else {
        c
    }
}

/// The lower case of a letter `A` to `Z`; any other character is itself.
pub open spec fn lower_char(c: char) -> char {
    if 'A' <= c <= 'Z' {
        ((c as u8 + 32) as u8) as char
    } else {
        c
    }
}

/// `text` with every letter in upper case.
pub open spec fn uppercase(text: Seq<char>) -> Seq<char> {
    Seq::new(text.len(), |i: int| upper_char(text[i]))
}

/// `text` with every letter in lower case.
pub open spec fn lowercase(text: Seq<char>) -> Seq<char> {
    Seq::new(text.len(), |i: int| lower_char(text[i]))
}

/// The text that the encoder gives for `bytes`.
pub open spec fn encoded_text(bytes: Seq<u8>) -> Seq<char> {
    uppercase(base58_text(bytes))
}

/// Whether two texts differ at most in the case of their letters.
pub open spec fn same_ignoring_case(a: Seq<char>, b: Seq<char>) -> bool {
    uppercase(a) == uppercase(b)
}

/// Whether a text holds one of the letters `A` to `Z`.
pub open spec fn has_upper_case(text: Seq<char>) -> bool {
    exists|i: int| 0 <= i < text.len() && 'A' <= #[trigger] text[i] <= 'Z'
}

/// Whether a text is made of the digits `1` to `9` and the letters `A` to
/// `Z` alone.
pub open spec fn is_upper_alphanumeric(text: Seq<char>) -> bool {
    forall|i: int|
        0 <= i < text.len() ==> ('1' <= #[trigger] text[i] <= '9' || 'A' <= text[i] <= 'Z')
}

/// Calls `base58::ToBase58::to_base58` on a byte slice.
///
/// Trusted: the string returned is the base-58 text of the bytes in the
/// Bitcoin alphabet, a `1` for every leading zero byte and then the digits of
/// the number that the bytes spell. The crate sizes its buffer as 138 % of
/// the input's length, which `requires` keeps within `usize`.
#[verifier::external_body]
fn to_base58(bytes: &[u8]) -> (text: String)
    requires
        bytes@.len() * 138 <= usize::MAX,
    ensures
        text@ == base58_text(bytes@),
{
    ::base58::ToBase58::to_base58(bytes)
}

/// Encodes bytes for transport: base 58, then upper case.
pub fn encode(bytes: &[u8]) -> (text: String)
    requires
        bytes@.len() * 138 <= usize::MAX,
    ensures
        text@ == encoded_text(bytes@),
{
    let plain = to_base58(bytes);
    let digits = plain.as_str();
    proof {
        lemma_base58_round_trip(bytes@);
        assert forall|i: int| 0 <= i < digits@.len() implies '\0' <= #[trigger] digits@[i]
            <= '\u{7f}' by {
            assert(digit_value(digits@[i]) is Some);
        }
    }
    let n = digits.unicode_len();
    let mut text = String::new();
    let mut i: usize = 0;
    while i < n
        invariant
            i <= n,
            n == digits@.len(),
            digits.is_ascii(),
            text@ == uppercase(digits@.subrange(0, i as int)),
        decreases n - i,
    {
        let b = digits.get_ascii(i);
        let u: u8 = if 0x61 <= b && b <= 0x7a {
            b - 32
        } else {
            b
        };
        push_char(&mut text, u as char);
        proof {
            let before = digits@.subrange(0, i as int);
            let after = digits@.subrange(0, i + 1);
            assert(u as char == upper_char(digits@[i as int]));
            assert(uppercase(after) == uppercase(before).push(upper_char(digits@[i as int])));
        }
        i += 1;
    }
    proof {
        assert(digits@.subrange(0, n as int) == digits@);
    }
    text
}

/// The encoder's text needs no escaping: it holds digits and upper-case
/// letters only, as many as the base-58 text of the bytes.
pub proof fn lemma_encoded_text_is_plain(bytes: Seq<u8>)
    ensures
        is_upper_alphanumeric(encoded_text(bytes)),
        encoded_text(bytes).len() == base58_text(bytes).len(),
{
    lemma_base58_round_trip(bytes);
    let plain = base58_text(bytes);
    assert forall|i: int| 0 <= i < plain.len() implies ('1' <= #[trigger] encoded_text(bytes)[i]
        <= '9' || 'A' <= encoded_text(bytes)[i] <= 'Z') by {
        assert(digit_value(plain[i]) is Some);
    }
}

/// Round trip, read without regard to case. The encoder's text differs from
/// the base-58 text of the bytes at most in the case of its letters, and
/// that base-58 text stands for exactly those bytes.
pub proof fn lemma_reads_back_ignoring_case(bytes: Seq<u8>)
    ensures
        same_ignoring_case(encoded_text(bytes), base58_text(bytes)),
        base58_bytes(base58_text(bytes)) == Some(bytes),
{
    lemma_base58_round_trip(bytes);
    let plain = base58_text(bytes);
    assert(uppercase(uppercase(plain)) =~= uppercase(plain));
}

/// Round trip by lower case. Where the base-58 text of the bytes holds no
/// upper-case letter, putting the encoder's text in lower case and reading
/// it as base 58 gives the bytes back.
pub proof fn lemma_lowercase_reads_back(bytes: Seq<u8>)
    requires
        !has_upper_case(base58_text(bytes)),
    ensures
        base58_bytes(lowercase(encoded_text(bytes))) == Some(bytes),
{
    lemma_base58_round_trip(bytes);
    let plain = base58_text(bytes);
    let folded = lowercase(encoded_text(bytes));
    assert forall|i: int| 0 <= i < plain.len() implies folded[i] == plain[i] by {
        assert(!('A' <= plain[i] <= 'Z'));
    }
    assert(folded =~= plain);
}

/// Upper case loses information. Where the base-58 text of the bytes holds
/// an upper-case letter, putting the encoder's text in lower case and
/// reading it as base 58 does not give the bytes back: it gives other bytes,
/// or nothing where `L` has become `l`.
pub proof fn lemma_lowercase_misreads(bytes: Seq<u8>)
    requires
        has_upper_case(base58_text(bytes)),
    ensures
        base58_bytes(lowercase(encoded_text(bytes))) != Some(bytes),
{
    let plain = base58_text(bytes);
    let folded = lowercase(encoded_text(bytes));
    let i = choose|i: int| 0 <= i < plain.len() && 'A' <= #[trigger] plain[i] <= 'Z';
    assert(folded[i] != plain[i]);
    lemma_base58_one_to_one(folded, bytes);
}

} // verus!
