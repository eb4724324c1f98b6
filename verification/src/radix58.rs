//! Base-58 as mathematics: what text stands for which bytes.
//!
//! A byte string is read as a number, most significant byte first, and
//! written with the 58 digits of the Bitcoin alphabet, one `1` standing in
//! front for every leading zero byte. This module states that reading and its
//! inverse over `Seq`, and proves that the inverse undoes it.

use vstd::prelude::*;

verus! {

/// The 58 digits in order of value: no `0`, `O`, `I` or `l`.
pub open spec fn alphabet() -> Seq<char> {
    "123456789ABCDEFGHJKLMNPQRSTUVWXYZabcdefghijkmnopqrstuvwxyz"@
}

/// The value of a digit, `None` for a character outside the alphabet.
pub open spec fn digit_value(c: char) -> Option<int> {
    if '1' <= c <= '9' {
        Some(c as int - '1' as int)
    } else if 'A' <= c <= 'H' {
        Some(c as int - 'A' as int + 9)
    } else if 'J' <= c <= 'N' {
        Some(c as int - 'J' as int + 17)
    } else if 'P' <= c <= 'Z' {
        Some(c as int - 'P' as int + 22)
    } else if 'a' <= c <= 'k' {
        Some(c as int - 'a' as int + 33)
    } else if 'm' <= c <= 'z' {
        Some(c as int - 'm' as int + 44)
    } else {
        None
    }
}

/// Whether every character of `text` is a digit of the alphabet.
pub open spec fn is_base58(text: Seq<char>) -> bool {
    forall|i: int| 0 <= i < text.len() ==> digit_value(#[trigger] text[i]) is Some
}

/// The number that `bytes` spell, most significant byte first.
pub open spec fn be_value(bytes: Seq<u8>) -> nat
    decreases bytes.len(),
{
    if bytes.len() == 0 {
        0
    } else {
        be_value(bytes.drop_last()) * 256 + bytes.last() as nat
    }
}

/// The shortest byte string that spells `n`: empty for zero.
pub open spec fn be_bytes(n: nat) -> Seq<u8>
    decreases n,
{
    if n == 0 {
        Seq::empty()
    } else {
        be_bytes(n / 256).push((n % 256) as u8)
    }
}

/// The digits of `n` in base 58, most significant first: none for zero.
pub open spec fn digits_of(n: nat) -> Seq<char>
    decreases n,
{
    if n == 0 {
        Seq::empty()
    } else {
        digits_of(n / 58).push(alphabet()[(n % 58) as int])
    }
}

/// The number that the digits of `text` spell in base 58. A character
/// outside the alphabet counts as zero.
pub open spec fn text_value(text: Seq<char>) -> nat
    decreases text.len(),
{
    if text.len() == 0 {
        0
    } else {
        let d = match digit_value(text.last()) {
            Some(d) => d as nat,
            None => 0,
        };
        text_value(text.drop_last()) * 58 + d
    }
}

/// How many zero bytes stand at the front of `bytes`.
pub open spec fn leading_zeros(bytes: Seq<u8>) -> nat
    decreases bytes.len(),
{
    if bytes.len() > 0 && bytes[0] == 0 {
        1 + leading_zeros(bytes.drop_first())
    } else {
        0
    }
}

/// How many `1` digits stand at the front of `text`.
pub open spec fn leading_ones(text: Seq<char>) -> nat
    decreases text.len(),
{
    if text.len() > 0 && text[0] == '1' {
        1 + leading_ones(text.drop_first())
    } else {
        0
    }
}

/// The base-58 text of a byte string.
pub open spec fn base58_text(bytes: Seq<u8>) -> Seq<char> {
    Seq::new(leading_zeros(bytes), |i: int| '1') + digits_of(be_value(bytes))
}

/// The byte string that a base-58 text stands for, `None` where a character
/// is outside the alphabet.
pub open spec fn base58_bytes(text: Seq<char>) -> Option<Seq<u8>> {
    if is_base58(text) {
        Some(Seq::new(leading_ones(text), |i: int| 0u8) + be_bytes(text_value(text)))
    } else {
        None
    }
}

/// The alphabet has 58 digits, and `digit_value` is its inverse.
pub proof fn lemma_alphabet()
    ensures
        alphabet().len() == 58,
        forall|d: int| 0 <= d < 58 ==> digit_value(#[trigger] alphabet()[d]) == Some(d),
        forall|c: char|
            #![trigger digit_value(c)]
            digit_value(c) matches Some(d) ==> 0 <= d < 58 && alphabet()[d] == c,
{
    reveal_strlit("123456789ABCDEFGHJKLMNPQRSTUVWXYZabcdefghijkmnopqrstuvwxyz");
}

/// Every digit that `digits_of` writes is in the alphabet, a number above
/// zero has a first digit other than `1`, the digit of value zero, and the
/// digits spell the number.
proof fn lemma_digits_of(n: nat)
    ensures
        is_base58(digits_of(n)),
        n > 0 ==> digits_of(n).len() > 0 && digits_of(n)[0] != '1',
        text_value(digits_of(n)) == n,
    decreases n,
{
    lemma_alphabet();
    if n > 0 {
        let q = n / 58;
        let r = (n % 58) as int;
        let c = alphabet()[r];
        lemma_digits_of(q);
        assert(digit_value(c) == Some(r));
        assert(digits_of(n) == digits_of(q).push(c));
        assert(digits_of(n).drop_last() == digits_of(q));
        assert(digits_of(n).last() == c);
        assert(q * 58 + r == n) by (nonlinear_arith)
            requires
                q == n / 58,
                r == n % 58,
        ;
        if q == 0 {
            assert(digit_value('1') == Some(0int));
        }
    }
}

/// A text of digits that does not begin with `1` spells a number above
/// zero, and is how `digits_of` writes that number.
proof fn lemma_digits_of_value(text: Seq<char>)
    requires
        is_base58(text),
        text.len() == 0 || text[0] != '1',
    ensures
        text.len() > 0 ==> text_value(text) > 0,
        digits_of(text_value(text)) == text,
    decreases text.len(),
{
    lemma_alphabet();
    if text.len() > 0 {
        let front = text.drop_last();
        let c = text.last();
        let d = digit_value(c)->0 as nat;
        let v = text_value(front);
        let n = text_value(text);
        assert(digit_value(c) is Some);
        assert(n == v * 58 + d);
        assert forall|i: int| 0 <= i < front.len() implies digit_value(
            #[trigger] front[i],
        ) is Some by {
            assert(front[i] == text[i]);
        }
        if front.len() > 0 {
            assert(front[0] == text[0]);
        } else {
            assert(c == text[0]);
        }
        lemma_digits_of_value(front);
        assert(n / 58 == v && n % 58 == d) by (nonlinear_arith)
            requires
                n == v * 58 + d,
                d < 58,
        ;
        assert(n > 0);
        assert(digits_of(n) == digits_of(v).push(alphabet()[d as int]));
        assert(text == front.push(c));
    }
}

/// The bytes that `be_bytes` writes spell the number, and a number above
/// zero has a first byte other than zero.
proof fn lemma_be_bytes(n: nat)
    ensures
        n > 0 ==> be_bytes(n).len() > 0 && be_bytes(n)[0] != 0,
        be_value(be_bytes(n)) == n,
    decreases n,
{
    if n > 0 {
        let q = n / 256;
        let r = n % 256;
        lemma_be_bytes(q);
        assert(be_bytes(n) == be_bytes(q).push(r as u8));
        assert(be_bytes(n).drop_last() == be_bytes(q));
        assert(be_bytes(n).last() == r as u8);
        assert(q * 256 + r == n) by (nonlinear_arith)
            requires
                q == n / 256,
                r == n % 256,
        ;
    }
}

/// A byte string that begins with a byte other than zero spells a number
/// above zero, and is how `be_bytes` writes that number.
proof fn lemma_be_bytes_of_value(bytes: Seq<u8>)
    requires
        bytes.len() == 0 || bytes[0] != 0,
    ensures
        bytes.len() > 0 ==> be_value(bytes) > 0,
        be_bytes(be_value(bytes)) == bytes,
    decreases bytes.len(),
{
    if bytes.len() > 0 {
        let front = bytes.drop_last();
        let x = bytes.last() as nat;
        let v = be_value(front);
        let n = be_value(bytes);
        assert(n == v * 256 + x);
        if front.len() > 0 {
            assert(front[0] == bytes[0]);
        }
        lemma_be_bytes_of_value(front);
        assert(n / 256 == v && n % 256 == x) by (nonlinear_arith)
            requires
                n == v * 256 + x,
                x < 256,
        ;
        assert(n > 0);
        assert(be_bytes(n) == be_bytes(v).push(x as u8));
        assert(bytes == front.push(bytes.last()));
    }
}

/// `1` digits in front of a text add nothing to its value, and are counted
/// as leading where the text itself does not begin with one.
proof fn lemma_ones_in_front(k: nat, text: Seq<char>)
    ensures
        text_value(Seq::new(k, |i: int| '1') + text) == text_value(text),
        is_base58(Seq::new(k, |i: int| '1') + text) == is_base58(text),
        text.len() == 0 || text[0] != '1' ==> leading_ones(Seq::new(k, |i: int| '1') + text)
            == k,
    decreases k, text.len(),
{
    let ones = Seq::new(k, |i: int| '1');
    let whole = ones + text;
    assert(digit_value('1') == Some(0int));
    if text.len() > 0 {
        lemma_ones_in_front(k, text.drop_last());
        assert(whole.drop_last() == ones + text.drop_last());
        assert(whole.last() == text.last());
    } else if k > 0 {
        let fewer = Seq::new((k - 1) as nat, |i: int| '1');
        lemma_ones_in_front((k - 1) as nat, text);
        assert(whole.drop_last() == fewer + text);
        assert(whole.last() == '1');
    } else {
        assert(whole == text);
    }
    if is_base58(text) {
        assert forall|i: int| 0 <= i < whole.len() implies digit_value(
            #[trigger] whole[i],
        ) is Some by {
            if i >= k {
                assert(whole[i] == text[i - k]);
            }
        }
    }
    if is_base58(whole) {
        assert forall|i: int| 0 <= i < text.len() implies digit_value(
            #[trigger] text[i],
        ) is Some by {
            assert(whole[i + k] == text[i]);
        }
    }
    if text.len() == 0 || text[0] != '1' {
        if k > 0 {
            let fewer = Seq::new((k - 1) as nat, |i: int| '1');
            lemma_ones_in_front((k - 1) as nat, text);
            assert(whole.drop_first() == fewer + text);
            assert(whole[0] == '1');
        } else {
            assert(whole == text);
        }
    }
}

/// Zero bytes in front of a byte string add nothing to its value, and are
/// counted as leading where the byte string itself does not begin with one.
proof fn lemma_zeros_in_front(k: nat, bytes: Seq<u8>)
    ensures
        be_value(Seq::new(k, |i: int| 0u8) + bytes) == be_value(bytes),
        bytes.len() == 0 || bytes[0] != 0 ==> leading_zeros(Seq::new(k, |i: int| 0u8) + bytes)
            == k,
    decreases k, bytes.len(),
{
    let zeros = Seq::new(k, |i: int| 0u8);
    let whole = zeros + bytes;
    if bytes.len() > 0 {
        lemma_zeros_in_front(k, bytes.drop_last());
        assert(whole.drop_last() == zeros + bytes.drop_last());
        assert(whole.last() == bytes.last());
    } else if k > 0 {
        let fewer = Seq::new((k - 1) as nat, |i: int| 0u8);
        lemma_zeros_in_front((k - 1) as nat, bytes);
        assert(whole.drop_last() == fewer + bytes);
        assert(whole.last() == 0);
    } else {
        assert(whole == bytes);
    }
    if bytes.len() == 0 || bytes[0] != 0 {
        if k > 0 {
            let fewer = Seq::new((k - 1) as nat, |i: int| 0u8);
            lemma_zeros_in_front((k - 1) as nat, bytes);
            assert(whole.drop_first() == fewer + bytes);
            assert(whole[0] == 0);
        } else {
            assert(whole == bytes);
        }
    }
}

/// A byte string is its leading zeros followed by a rest that is empty or
/// begins with a byte other than zero.
proof fn lemma_split_zeros(bytes: Seq<u8>)
    ensures
        leading_zeros(bytes) <= bytes.len(),
        bytes == Seq::new(leading_zeros(bytes), |i: int| 0u8) + bytes.skip(
            leading_zeros(bytes) as int,
        ),
        leading_zeros(bytes) == bytes.len() || bytes[leading_zeros(bytes) as int] != 0,
    decreases bytes.len(),
{
    let z = leading_zeros(bytes);
    if bytes.len() > 0 && bytes[0] == 0 {
        let tail = bytes.drop_first();
        let rest = tail.skip(z - 1);
        lemma_split_zeros(tail);
        assert(bytes.skip(z as int) == rest);
        assert(tail == Seq::new((z - 1) as nat, |i: int| 0u8) + rest);
        assert(bytes == Seq::new(z, |i: int| 0u8) + rest) by {
            let built = Seq::new(z, |i: int| 0u8) + rest;
            assert(built.len() == bytes.len());
            assert forall|i: int| 0 <= i < bytes.len() implies bytes[i] == built[i] by {
                if i > 0 {
                    assert(bytes[i] == tail[i - 1]);
                }
            }
        }
    } else {
        assert(bytes.skip(0) == bytes);
        assert(bytes == Seq::new(0, |i: int| 0u8) + bytes);
    }
}

/// A text is its leading `1` digits followed by a rest that is empty or
/// begins with another character.
proof fn lemma_split_ones(text: Seq<char>)
    ensures
        leading_ones(text) <= text.len(),
        text == Seq::new(leading_ones(text), |i: int| '1') + text.skip(leading_ones(text) as int),
        leading_ones(text) == text.len() || text[leading_ones(text) as int] != '1',
    decreases text.len(),
{
    let k = leading_ones(text);
    if text.len() > 0 && text[0] == '1' {
        let tail = text.drop_first();
        let rest = tail.skip(k - 1);
        lemma_split_ones(tail);
        assert(text.skip(k as int) == rest);
        assert(tail == Seq::new((k - 1) as nat, |i: int| '1') + rest);
        assert(text == Seq::new(k, |i: int| '1') + rest) by {
            let built = Seq::new(k, |i: int| '1') + rest;
            assert(built.len() == text.len());
            assert forall|i: int| 0 <= i < text.len() implies text[i] == built[i] by {
                if i > 0 {
                    assert(text[i] == tail[i - 1]);
                }
            }
        }
    } else {
        assert(text.skip(0) == text);
        assert(text == Seq::new(0, |i: int| '1') + text);
    }
}

/// Base-58 loses nothing: the text of a byte string is made of digits of
/// the alphabet and stands for that byte string.
pub proof fn lemma_base58_round_trip(bytes: Seq<u8>)
    ensures
        is_base58(base58_text(bytes)),
        base58_bytes(base58_text(bytes)) == Some(bytes),
{
    let z = leading_zeros(bytes);
    let rest = bytes.skip(z as int);
    let n = be_value(bytes);
    lemma_split_zeros(bytes);
    lemma_zeros_in_front(z, rest);
    lemma_be_bytes_of_value(rest);
    lemma_digits_of(n);
    lemma_ones_in_front(z, digits_of(n));
}

/// Base-58 adds nothing: a text of digits of the alphabet is the text of
/// the byte string that it stands for.
pub proof fn lemma_base58_text_round_trip(text: Seq<char>)
    requires
        is_base58(text),
    ensures
        base58_bytes(text) is Some,
        base58_text(base58_bytes(text)->0) == text,
{
    let k = leading_ones(text);
    let rest = text.skip(k as int);
    let n = text_value(text);
    lemma_split_ones(text);
    lemma_ones_in_front(k, rest);
    lemma_digits_of_value(rest);
    lemma_be_bytes(n);
    lemma_zeros_in_front(k, be_bytes(n));
}

/// Byte strings and texts of digits stand one to one: a text stands for
/// `bytes` exactly when it is the base-58 text of `bytes`.
pub proof fn lemma_base58_one_to_one(text: Seq<char>, bytes: Seq<u8>)
    ensures
        base58_bytes(text) == Some(bytes) <==> text == base58_text(bytes),
{
    lemma_base58_round_trip(bytes);
    if is_base58(text) {
        lemma_base58_text_round_trip(text);
    }
}

/// Different byte strings have different base-58 texts.
pub proof fn lemma_base58_distinct(a: Seq<u8>, b: Seq<u8>)
    requires
        a != b,
    ensures
        base58_text(a) != base58_text(b),
{
    lemma_base58_round_trip(a);
    lemma_base58_round_trip(b);
}

} // verus!
