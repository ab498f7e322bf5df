//! Base 32 without padding characters, read as two spellings of one bit stream.
//!
//! Bytes spell a stream of bits eight at a time and symbols spell one five at a
//! time, both most significant bit first. Encoding reads the bits of the bytes
//! off in symbols, filling the last symbol with clear bits; decoding reads the
//! bits of the symbols off in bytes and insists that the bits left over are
//! clear.

use crate::alphabet::{is_symbol, lemma_value_symbol_round_trip, symbol_value, value_symbol};
use crate::bits::{bit, lemma_bits_of_pack5, lemma_bits_of_pack8, pack5, pack8};
use vstd::prelude::*;

verus! {

/// Bit `t` of the stream that `data` spells, clear past its end.
pub open spec fn data_bit(data: Seq<u8>, t: int) -> bool {
    0 <= t < 8 * data.len() && bit(data[t / 8] as int, 7 - t % 8)
}

/// Bit `t` of the stream that the symbols of `text` spell, clear past its end.
pub open spec fn text_bit(text: Seq<u8>, t: int) -> bool {
    0 <= t < 5 * text.len() && bit(symbol_value(text[t / 5]), 4 - t % 5)
}

/// The number of symbols that encode `len` bytes.
pub open spec fn encoded_len(len: nat) -> nat {
    ((8 * len + 4) / 5) as nat
}

/// The value of symbol `k` of the encoding of `data`.
pub open spec fn encoded_value(data: Seq<u8>, k: int) -> int {
    pack5(
        data_bit(data, 5 * k),
        data_bit(data, 5 * k + 1),
        data_bit(data, 5 * k + 2),
        data_bit(data, 5 * k + 3),
        data_bit(data, 5 * k + 4),
    )
}

/// The symbols that encode `data`.
pub open spec fn encoded(data: Seq<u8>) -> Seq<u8> {
    Seq::new(encoded_len(data.len()), |k: int| value_symbol(encoded_value(data, k)))
}

/// The number of whole bytes that `len` symbols hold.
pub open spec fn decoded_len(len: nat) -> nat {
    (5 * len / 8) as nat
}

/// Byte `j` of what `text` decodes to.
pub open spec fn decoded_byte(text: Seq<u8>, j: int) -> u8 {
    pack8(
        text_bit(text, 8 * j),
        text_bit(text, 8 * j + 1),
        text_bit(text, 8 * j + 2),
        text_bit(text, 8 * j + 3),
        text_bit(text, 8 * j + 4),
        text_bit(text, 8 * j + 5),
        text_bit(text, 8 * j + 6),
        text_bit(text, 8 * j + 7),
    ) as u8
}

/// The bytes that `text` decodes to.
pub open spec fn decoded(text: Seq<u8>) -> Seq<u8> {
    Seq::new(decoded_len(text.len()), |j: int| decoded_byte(text, j))
}

/// Whether `text` is the encoding of some bytes: its length leaves fewer than
/// five bits over, each of its bytes is a symbol, and the bits left over are
/// clear.
pub open spec fn decodable(text: Seq<u8>) -> bool {
    &&& 5 * text.len() % 8 < 5
    &&& forall|i: int| 0 <= i < text.len() ==> is_symbol(#[trigger] text[i])
    &&& forall|t: int|
        8 * decoded_len(text.len()) <= t < 5 * text.len() ==> !#[trigger] text_bit(text, t)
}

/// The characters that the bytes of `text` are in ASCII.
pub open spec fn as_chars(text: Seq<u8>) -> Seq<char> {
    Seq::new(text.len(), |i: int| text[i] as char)
}

/// The error type of `data_encoding`'s decoder, carried through unread.
#[verifier::external_type_specification]
#[verifier::external_body]
pub struct ExDecodeError(data_encoding::DecodeError);

/// Calls `data_encoding::BASE32_NOPAD.encode`.
///
/// Trusted: the string holds one symbol for every five bits of `data`, most
/// significant bit first, the last symbol filled up with clear bits, each
/// symbol taken from `A`-`Z`, `2`-`7` by its value. The length bound keeps the
/// call clear of the assertion in the encoder's length computation.
#[verifier::external_body]
pub(crate) fn base32_encode(data: &[u8]) -> (text: String)
    requires
        data@.len() <= usize::MAX / 512,
    ensures
        text@ == as_chars(encoded(data@)),
{
    data_encoding::BASE32_NOPAD.encode(data)
}

/// Calls `data_encoding::BASE32_NOPAD.decode`.
///
/// Trusted: decoding succeeds exactly on text of a length that leaves fewer
/// than five bits over, made of symbols only, with the bits left over clear;
/// the bytes are then the bits of the symbols, eight at a time. The length
/// bound keeps the call clear of the assertion in the decoder's length
/// computation.
#[verifier::external_body]
pub(crate) fn base32_decode(text: &[u8]) -> (outcome: Result<Vec<u8>, data_encoding::DecodeError>)
    requires
        text@.len() <= usize::MAX / 8,
    ensures
        outcome is Ok <==> decodable(text@),
        outcome matches Ok(data) ==> data@ == decoded(text@),
{
    data_encoding::BASE32_NOPAD.decode(text)
}

/// Bit `i` of symbol `k` is bit `5 * k + i` of the stream.
pub proof fn lemma_text_bit_at(text: Seq<u8>, k: int, i: int)
    requires
        0 <= k < text.len(),
        0 <= i < 5,
    ensures
        text_bit(text, 5 * k + i) == bit(symbol_value(text[k]), 4 - i),
{
    let t = 5 * k + i;
    assert(t / 5 == k && t % 5 == i) by {
        assert(t == 5 * k + i);
    }
}

/// Bit `i` of byte `j` is bit `8 * j + i` of the stream.
pub proof fn lemma_data_bit_at(data: Seq<u8>, j: int, i: int)
    requires
        0 <= j < data.len(),
        0 <= i < 8,
    ensures
        data_bit(data, 8 * j + i) == bit(data[j] as int, 7 - i),
{
    let t = 8 * j + i;
    assert(t / 8 == j && t % 8 == i) by {
        assert(t == 8 * j + i);
    }
}

/// The bytes that text decodes to spell the same bits as the text.
pub proof fn lemma_decoded_bits(text: Seq<u8>, t: int)
    requires
        0 <= t < 8 * decoded_len(text.len()),
    ensures
        data_bit(decoded(text), t) == text_bit(text, t),
{
    let j = t / 8;
    lemma_bits_of_pack8(
        text_bit(text, 8 * j),
        text_bit(text, 8 * j + 1),
        text_bit(text, 8 * j + 2),
        text_bit(text, 8 * j + 3),
        text_bit(text, 8 * j + 4),
        text_bit(text, 8 * j + 5),
        text_bit(text, 8 * j + 6),
        text_bit(text, 8 * j + 7),
    );
    assert(decoded(text)[j] == decoded_byte(text, j));
}

/// The symbols that encode bytes spell the same bits as the bytes, and clear
/// bits after them.
pub proof fn lemma_encoded_bits(data: Seq<u8>, t: int)
    requires
        0 <= t < 5 * encoded_len(data.len()),
    ensures
        text_bit(encoded(data), t) == data_bit(data, t),
{
    let k = t / 5;
    lemma_bits_of_pack5(
        data_bit(data, 5 * k),
        data_bit(data, 5 * k + 1),
        data_bit(data, 5 * k + 2),
        data_bit(data, 5 * k + 3),
        data_bit(data, 5 * k + 4),
    );
    lemma_value_symbol_round_trip(encoded_value(data, k));
    assert(encoded(data)[k] == value_symbol(encoded_value(data, k)));
}

} // verus!
