//! What a prefix must look like, and the bytes that it puts at the head of a
//! payload.

use crate::alphabet::{
    is_alphabet_symbol, is_letter_symbol, is_symbol, symbol, symbol_value, to_upper, uppercase,
    value_symbol,
};
use crate::base32::{base32_decode, decodable, decoded, decoded_byte, decoded_len, text_bit};
use crate::error::GenerateError;
use crate::layout::DATA_LENGTH;
use vstd::prelude::*;
use vstd::slice::slice_subrange;
use vstd::string::is_ascii_spec_bytes;

verus! {

/// How many symbols are decoded at most: the fewest that hold a payload's
/// bytes and end on a byte's boundary.
pub const WINDOW: usize = 24;

/// Whether `c` may stand in a prefix: a letter of either case, or a digit from
/// `2` to `7`.
pub open spec fn is_prefix_char(c: char) -> bool {
    ('a' <= c <= 'z') || ('A' <= c <= 'Z') || ('2' <= c <= '7')
}

/// Whether `c` is a letter of either case.
pub open spec fn is_letter(c: char) -> bool {
    ('a' <= c <= 'z') || ('A' <= c <= 'Z')
}

/// The verdict on a prefix: a character that may not stand in one is reported
/// wherever it stands, and only then a leading digit.
pub open spec fn verdict(prefix: Seq<char>) -> Result<(), GenerateError> {
    if exists|i: int| 0 <= i < prefix.len() && !is_prefix_char(#[trigger] prefix[i]) {
        Err(GenerateError::InvalidCharacter)
    } else if prefix.len() > 0 && !is_letter(prefix[0]) {
        Err(GenerateError::InvalidFirstCharacter)
    } else {
        Ok(())
    }
}

/// The bytes of `text` with their lowercase letters made uppercase.
pub open spec fn folded(text: Seq<u8>) -> Seq<u8> {
    Seq::new(text.len(), |i: int| to_upper(text[i]))
}

/// The symbols that the characters of a prefix stand for.
pub open spec fn prefix_symbols(prefix: Seq<char>) -> Seq<u8> {
    Seq::new(prefix.len(), |i: int| to_upper(prefix[i] as u8))
}

/// How many zero symbols follow `len` symbols so that whole bytes hold all
/// their bits: none where the bits fill whole bytes already, else as many as
/// the bits missing to the next byte take.
pub open spec fn padding_len(len: nat) -> nat {
    let over = 5 * len % 8;
    if over == 0 {
        0
    } else {
        ((8 - over + 4) / 5) as nat
    }
}

/// `symbols` followed by its padding of zero symbols.
pub open spec fn padded(symbols: Seq<u8>) -> Seq<u8> {
    symbols + Seq::new(padding_len(symbols.len()), |i: int| value_symbol(0))
}

/// The bytes that a prefix decodes to, once padded.
pub open spec fn prefix_bytes(prefix: Seq<char>) -> Seq<u8> {
    decoded(padded(prefix_symbols(prefix)))
}

/// As many of `bytes`, from the first on, as a payload has room for.
pub open spec fn head(bytes: Seq<u8>) -> Seq<u8> {
    if bytes.len() <= DATA_LENGTH {
        bytes
    } else {
        bytes.take(DATA_LENGTH as int)
    }
}

/// The bytes that a prefix puts at the head of a payload: those it decodes to,
/// as far as the payload has room.
pub open spec fn leading_bytes(prefix: Seq<char>) -> Seq<u8> {
    head(prefix_bytes(prefix))
}

/// A number that is `a` eights and `b` more, with `b` below eight, has the
/// quotient `a` and the remainder `b`.
proof fn lemma_eights(x: int, a: int, b: int)
    requires
        x == 8 * a + b,
        0 <= b < 8,
    ensures
        x / 8 == a,
        x % 8 == b,
{
}

/// With its padding, a run of symbols has a length that decodes, holds every
/// bit of the symbols in whole bytes, and leaves bits over only where padding
/// was added.
pub proof fn lemma_padding_len(len: nat)
    ensures
        padding_len(len) <= 2,
        5 * (len + padding_len(len)) % 8 < 5,
        5 * len <= 8 * decoded_len(len + padding_len(len)),
        5 * (len + padding_len(len)) % 8 != 0 ==> padding_len(len) > 0,
{
    let q = len as int / 8;
    let r = len as int % 8;
    let bits = 5 * (len as int);
    if r == 0 {
        lemma_eights(bits, 5 * q, 0);
        assert(padding_len(len) == 0);
    } else if r == 1 {
        lemma_eights(bits, 5 * q, 5);
        assert(padding_len(len) == 1);
        lemma_eights(bits + 5, 5 * q + 1, 2);
    } else if r == 2 {
        lemma_eights(bits, 5 * q + 1, 2);
        assert(padding_len(len) == 2);
        lemma_eights(bits + 10, 5 * q + 2, 4);
    } else if r == 3 {
        lemma_eights(bits, 5 * q + 1, 7);
        assert(padding_len(len) == 1);
        lemma_eights(bits + 5, 5 * q + 2, 4);
    } else if r == 4 {
        lemma_eights(bits, 5 * q + 2, 4);
        assert(padding_len(len) == 1);
        lemma_eights(bits + 5, 5 * q + 3, 1);
    } else if r == 5 {
        lemma_eights(bits, 5 * q + 3, 1);
        assert(padding_len(len) == 2);
        lemma_eights(bits + 10, 5 * q + 4, 3);
    } else if r == 6 {
        lemma_eights(bits, 5 * q + 3, 6);
        assert(padding_len(len) == 1);
        lemma_eights(bits + 5, 5 * q + 4, 3);
    } else {
        lemma_eights(bits, 5 * q + 4, 3);
        assert(padding_len(len) == 1);
        lemma_eights(bits + 5, 5 * q + 5, 0);
    }
}

/// Padded symbols decode, and to bytes that hold every bit of the symbols.
pub proof fn lemma_padded_decodable(symbols: Seq<u8>)
    requires
        forall|i: int| 0 <= i < symbols.len() ==> is_symbol(#[trigger] symbols[i]),
    ensures
        decodable(padded(symbols)),
        5 * symbols.len() <= 8 * decoded_len(padded(symbols).len()),
{
    let text = padded(symbols);
    let n = symbols.len();
    let m = text.len();
    lemma_padding_len(n);
    assert(m == n + padding_len(n));
    assert forall|i: int| 0 <= i < m implies is_symbol(#[trigger] text[i]) by {
        if i < n {
            assert(text[i] == symbols[i]);
        } else {
            assert(text[i] == value_symbol(0));
        }
    }
    assert forall|t: int| 8 * decoded_len(m) <= t < 5 * m implies !#[trigger] text_bit(text, t) by {
        assert(5 * m % 8 != 0);
        assert(t / 5 == m - 1);
        assert(text[m - 1] == value_symbol(0));
        assert(symbol_value(value_symbol(0)) == 0);
    }
}

/// Folds `text` to uppercase and pads it with the symbol of value zero.
pub fn fold_and_pad(text: &[u8]) -> (symbols: Vec<u8>)
    ensures
        symbols@ == padded(folded(text@)),
{
    let len = text.len();
    let mut symbols: Vec<u8> = Vec::new();
    let mut i: usize = 0;
    while i < len
        invariant
            len == text@.len(),
            i <= len,
            symbols@ == folded(text@).take(i as int),
        decreases len - i,
    {
        symbols.push(uppercase(text[i]));
        i += 1;
        assert(symbols@ =~= folded(text@).take(i as int));
    }
    assert(folded(text@).take(len as int) =~= folded(text@));
    let over: usize = (len % 8) * 5 % 8;
    assert(over == 5 * len % 8);
    if over != 0 {
        let missing: usize = 8 - over;
        let count: usize = (missing + 4) / 5;
        let zero = symbol(0);
        let mut k: usize = 0;
        while k < count
            invariant
                k <= count,
                count == padding_len(text@.len()),
                zero == value_symbol(0),
                symbols@ == folded(text@) + Seq::new(k as nat, |i: int| value_symbol(0)),
            decreases count - k,
        {
            symbols.push(zero);
            k += 1;
            assert(symbols@ =~= folded(text@) + Seq::new(k as nat, |i: int| value_symbol(0)));
        }
    } else {
        assert(symbols@ =~= padded(folded(text@)));
    }
    symbols
}

/// Tells whether every byte of `text` is a symbol of the alphabet.
pub fn all_symbols(text: &[u8]) -> (all: bool)
    ensures
        all == forall|i: int| 0 <= i < text@.len() ==> is_symbol(#[trigger] text@[i]),
{
    let len = text.len();
    let mut i: usize = 0;
    while i < len
        invariant
            len == text@.len(),
            i <= len,
            forall|j: int| 0 <= j < i ==> is_symbol(#[trigger] text@[j]),
        decreases len - i,
    {
        if !is_alphabet_symbol(text[i]) {
            return false;
        }
        i += 1;
    }
    true
}

/// The first bytes of what `text` decodes to, as many as a payload has room
/// for. Of long text only the symbols that hold those bytes are decoded.
pub fn decode_head(text: &[u8]) -> (bytes: Vec<u8>)
    requires
        decodable(text@),
    ensures
        bytes@ == head(decoded(text@)),
{
    let window = if text.len() > WINDOW {
        slice_subrange(text, 0, WINDOW)
    } else {
        text
    };
    proof {
        assert forall|j: int| 0 <= j < DATA_LENGTH && j < decoded_len(window@.len()) implies
            decoded_byte(window@, j) == decoded_byte(text@, j) by {
            assert forall|t: int| 8 * j <= t < 8 * j + 8 implies text_bit(window@, t) == text_bit(
                text@,
                t,
            ) by {
                assert(window@[t / 5] == text@[t / 5]);
            }
        }
        assert(head(decoded(window@)) =~= head(decoded(text@)));
    }
    let mut bytes = base32_decode(window).unwrap();
    bytes.truncate(DATA_LENGTH);
    bytes
}

/// Judges a prefix and gives the bytes that it puts at the head of a payload.
///
/// A character that may not stand in a prefix is reported first, wherever it
/// stands; a leading digit is reported only when every character may stand.
pub fn decode_prefix(prefix: &str) -> (outcome: Result<Vec<u8>, GenerateError>)
    ensures
        match verdict(prefix@) {
            Ok(()) => outcome matches Ok(bytes) && bytes@ == leading_bytes(prefix@),
            Err(error) => outcome == Err::<Vec<u8>, GenerateError>(error),
        },
{
    if !prefix.is_ascii() {
        return Err(GenerateError::InvalidCharacter);
    }
    let text = prefix.as_bytes();
    proof {
        is_ascii_spec_bytes(prefix);
        assert(folded(text@) =~= prefix_symbols(prefix@));
    }
    let symbols = fold_and_pad(text);
    if !all_symbols(symbols.as_slice()) {
        proof {
            let i = choose|i: int| 0 <= i < symbols@.len() && !is_symbol(#[trigger] symbols@[i]);
            assert(i < prefix@.len());
            assert(!is_prefix_char(prefix@[i]));
        }
        return Err(GenerateError::InvalidCharacter);
    }
    proof {
        assert forall|i: int| 0 <= i < prefix@.len() implies is_prefix_char(
            #[trigger] prefix@[i],
        ) by {
            assert(is_symbol(symbols@[i]));
        }
    }
    if symbols.len() > 0 && !is_letter_symbol(symbols[0]) {
        return Err(GenerateError::InvalidFirstCharacter);
    }
    proof {
        assert(forall|i: int|
            0 <= i < prefix@.len() ==> #[trigger] prefix_symbols(prefix@)[i] == symbols@[i]);
        lemma_padded_decodable(prefix_symbols(prefix@));
    }
    Ok(decode_head(symbols.as_slice()))
}

} // verus!
