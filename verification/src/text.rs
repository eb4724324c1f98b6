//! Building and reading text one character at a time.

use vstd::prelude::*;

verus! {

/// Calls `String::push`.
///
/// Trusted: the character is appended to the end and nothing else changes.
#[verifier::external_body]
pub(crate) fn push_char(text: &mut String, c: char)
    ensures
        final(text)@ == old(text)@.push(c),
{
    text.push(c)
}

} // verus!
