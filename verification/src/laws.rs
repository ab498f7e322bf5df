//! What holds of every identifier.

use crate::alphabet::{
    is_symbol, lemma_symbol_value_round_trip, lemma_value_symbol_round_trip, lowercased,
    symbol_value, to_lower, value_symbol,
};
use crate::base32::{
    data_bit, decoded, encoded, encoded_len, encoded_value, lemma_data_bit_at,
    lemma_decoded_bits, lemma_encoded_bits, lemma_text_bit_at, text_bit,
};
use crate::bits::{
    bit, lemma_bits_of_pack5, lemma_pack5_of_bits, lemma_pack8_of_bits, pack5, pack8,
};
use crate::checksum::{checksum_of, sha256, truncated};
use crate::error::GenerateError;
use crate::identifier::{generated, identifier, payload_of, rendered};
use crate::layout::{DATA_LENGTH, IDENTIFIER_LENGTH, PREFIX_CAPACITY, TOTAL_LENGTH};
use crate::prefix::{
    is_prefix_char, leading_bytes, lemma_padded_decodable, padded, prefix_symbols, verdict,
};
use vstd::prelude::*;

verus! {

/// Whether `c` may stand in an identifier: a lowercase letter, or a digit from
/// `2` to `7`.
pub open spec fn is_identifier_char(c: char) -> bool {
    ('a' <= c <= 'z') || ('2' <= c <= '7')
}

/// Whether `text` has the shape of an identifier: thirty-two characters, each
/// a lowercase letter or a digit from `2` to `7`.
pub open spec fn is_identifier(text: Seq<char>) -> bool {
    &&& text.len() == IDENTIFIER_LENGTH
    &&& forall|k: int| 0 <= k < text.len() ==> is_identifier_char(#[trigger] text[k])
}

/// Twenty bytes render as thirty-two characters, each a lowercase letter or a
/// digit from `2` to `7`.
pub proof fn lemma_rendered_shape(bytes: Seq<u8>)
    requires
        bytes.len() == TOTAL_LENGTH,
    ensures
        is_identifier(rendered(bytes)),
{
    let text = rendered(bytes);
    assert(text.len() == IDENTIFIER_LENGTH);
    assert forall|k: int| 0 <= k < text.len() implies is_identifier_char(#[trigger] text[k]) by {
        lemma_bits_of_pack5(
            data_bit(bytes, 5 * k),
            data_bit(bytes, 5 * k + 1),
            data_bit(bytes, 5 * k + 2),
            data_bit(bytes, 5 * k + 3),
            data_bit(bytes, 5 * k + 4),
        );
        let symbol = value_symbol(encoded_value(bytes, k));
        assert(encoded(bytes)[k] == symbol);
        assert(text[k] == to_lower(symbol as char));
    }
}

/// Every identifier is thirty-two characters long, and each of its characters
/// is a lowercase letter or a digit from `2` to `7`.
pub proof fn lemma_identifier_shape(prefix: Seq<char>, entropy: Seq<u8>)
    ensures
        is_identifier(identifier(prefix, entropy)),
{
    let payload = payload_of(leading_bytes(prefix), entropy);
    lemma_rendered_shape(payload + truncated(sha256(payload)));
}

/// The characters of a prefix that passes stand for symbols of the alphabet,
/// and each symbol in lowercase is its character in lowercase.
pub proof fn lemma_prefix_symbols(prefix: Seq<char>)
    requires
        verdict(prefix) is Ok,
    ensures
        forall|i: int|
            0 <= i < prefix.len() ==> is_symbol(#[trigger] prefix_symbols(prefix)[i]),
        forall|i: int|
            0 <= i < prefix.len() ==> to_lower(#[trigger] prefix_symbols(prefix)[i] as char)
                == to_lower(prefix[i]),
{
    assert forall|i: int| 0 <= i < prefix.len() implies is_symbol(
        #[trigger] prefix_symbols(prefix)[i],
    ) && to_lower(prefix_symbols(prefix)[i] as char) == to_lower(prefix[i]) by {
        assert(is_prefix_char(prefix[i]));
    }
}

/// The bytes of an identifier spell the bits of its prefix, as far as the
/// payload reaches.
pub proof fn lemma_payload_bits(prefix: Seq<char>, entropy: Seq<u8>, t: int)
    requires
        verdict(prefix) is Ok,
        0 <= t < 5 * prefix.len(),
        t < 8 * DATA_LENGTH,
    ensures
        ({
            let payload = payload_of(leading_bytes(prefix), entropy);
            data_bit(payload + checksum_of(payload), t) == text_bit(prefix_symbols(prefix), t)
        }),
{
    let symbols = prefix_symbols(prefix);
    let text = padded(symbols);
    let all = decoded(text);
    let payload = payload_of(leading_bytes(prefix), entropy);
    let bytes = payload + checksum_of(payload);
    lemma_prefix_symbols(prefix);
    lemma_padded_decodable(symbols);
    let j = t / 8;
    assert(0 <= j < DATA_LENGTH);
    assert(j < all.len());
    assert(j < leading_bytes(prefix).len());
    assert(leading_bytes(prefix)[j] == all[j]);
    assert(payload[j] == all[j]);
    assert(bytes[j] == all[j]);
    assert(data_bit(bytes, t) == data_bit(all, t));
    lemma_decoded_bits(text, t);
    let k = t / 5;
    assert(0 <= k < symbols.len());
    assert(text[k] == symbols[k]);
}

/// Symbol `k` of what an identifier's bytes encode to is symbol `k` of its
/// prefix, for each of the first nineteen symbols of the prefix.
pub proof fn lemma_identifier_symbol(prefix: Seq<char>, entropy: Seq<u8>, k: int)
    requires
        verdict(prefix) is Ok,
        0 <= k < prefix.len(),
        k < PREFIX_CAPACITY,
    ensures
        ({
            let payload = payload_of(leading_bytes(prefix), entropy);
            encoded(payload + checksum_of(payload))[k] == prefix_symbols(prefix)[k]
        }),
{
    let symbols = prefix_symbols(prefix);
    let payload = payload_of(leading_bytes(prefix), entropy);
    let bytes = payload + checksum_of(payload);
    let value = symbol_value(symbols[k]);
    assert(data_bit(bytes, 5 * k) == bit(value, 4)) by {
        lemma_payload_bits(prefix, entropy, 5 * k);
        lemma_text_bit_at(symbols, k, 0);
    }
    assert(data_bit(bytes, 5 * k + 1) == bit(value, 3)) by {
        lemma_payload_bits(prefix, entropy, 5 * k + 1);
        lemma_text_bit_at(symbols, k, 1);
    }
    assert(data_bit(bytes, 5 * k + 2) == bit(value, 2)) by {
        lemma_payload_bits(prefix, entropy, 5 * k + 2);
        lemma_text_bit_at(symbols, k, 2);
    }
    assert(data_bit(bytes, 5 * k + 3) == bit(value, 1)) by {
        lemma_payload_bits(prefix, entropy, 5 * k + 3);
        lemma_text_bit_at(symbols, k, 3);
    }
    assert(data_bit(bytes, 5 * k + 4) == bit(value, 0)) by {
        lemma_payload_bits(prefix, entropy, 5 * k + 4);
        lemma_text_bit_at(symbols, k, 4);
    }
    assert(encoded_value(bytes, k) == value) by {
        lemma_prefix_symbols(prefix);
        lemma_symbol_value_round_trip(symbols[k]);
        lemma_pack5_of_bits(value);
    }
    assert(value_symbol(value) == symbols[k]) by {
        lemma_prefix_symbols(prefix);
        lemma_symbol_value_round_trip(symbols[k]);
    }
}

/// Character `k` of an identifier is character `k` of its prefix in
/// lowercase, for each of the first nineteen characters of the prefix.
pub proof fn lemma_identifier_char(prefix: Seq<char>, entropy: Seq<u8>, k: int)
    requires
        verdict(prefix) is Ok,
        0 <= k < prefix.len(),
        k < PREFIX_CAPACITY,
    ensures
        identifier(prefix, entropy)[k] == to_lower(prefix[k]),
{
    lemma_prefix_symbols(prefix);
    lemma_identifier_symbol(prefix, entropy, k);
}

/// An identifier starts with its prefix in lowercase, where the prefix has at
/// most twenty characters.
///
/// Of a prefix of twenty characters the payload holds all but the last four
/// bits, and the checksum's first four bits stand in their place: such a
/// prefix is kept whole exactly where those four bits agree.
pub proof fn lemma_prefix_preserved(prefix: Seq<char>, entropy: Seq<u8>)
    requires
        verdict(prefix) is Ok,
        prefix.len() <= PREFIX_CAPACITY + 1,
        prefix.len() == PREFIX_CAPACITY + 1 ==> symbol_value(
            prefix_symbols(prefix)[PREFIX_CAPACITY as int],
        ) % 16 == checksum_of(payload_of(leading_bytes(prefix), entropy))[0] / 16,
    ensures
        identifier(prefix, entropy).take(prefix.len() as int) == lowercased(prefix),
{
    let id = identifier(prefix, entropy);
    let kept = id.take(prefix.len() as int);
    assert(id.len() == IDENTIFIER_LENGTH) by {
        lemma_identifier_shape(prefix, entropy);
    }
    assert(kept.len() == prefix.len());
    assert forall|k: int| 0 <= k < prefix.len() implies kept[k] == lowercased(prefix)[k] by {
        assert(kept[k] == id[k]);
        if k < PREFIX_CAPACITY {
            lemma_identifier_char(prefix, entropy, k);
        } else {
            assert(k == PREFIX_CAPACITY);
            lemma_twentieth_char(prefix, entropy);
        }
    }
    assert(kept =~= lowercased(prefix));
}

/// An identifier starts with the first nineteen characters of its prefix in
/// lowercase, however long the prefix is.
pub proof fn lemma_long_prefix_truncated(prefix: Seq<char>, entropy: Seq<u8>)
    requires
        verdict(prefix) is Ok,
        prefix.len() >= PREFIX_CAPACITY,
    ensures
        identifier(prefix, entropy).take(PREFIX_CAPACITY as int) == lowercased(prefix).take(
            PREFIX_CAPACITY as int,
        ),
{
    let id = identifier(prefix, entropy);
    let kept = id.take(PREFIX_CAPACITY as int);
    let wanted = lowercased(prefix).take(PREFIX_CAPACITY as int);
    assert(id.len() == IDENTIFIER_LENGTH) by {
        lemma_identifier_shape(prefix, entropy);
    }
    assert(kept.len() == wanted.len());
    assert forall|k: int| 0 <= k < PREFIX_CAPACITY implies kept[k] == wanted[k] by {
        assert(kept[k] == id[k]);
        assert(wanted[k] == to_lower(prefix[k]));
        lemma_identifier_char(prefix, entropy, k);
    }
    assert(kept =~= wanted);
}

/// The number that the first bit of a five-bit value spells together with
/// the first four bits of a byte.
proof fn lemma_mixed_value(value: int, byte: int)
    requires
        0 <= value < 32,
        0 <= byte < 256,
    ensures
        pack5(bit(value, 4), bit(byte, 7), bit(byte, 6), bit(byte, 5), bit(byte, 4)) == 16 * (value
            / 16) + byte / 16,
        0 <= 16 * (value / 16) + byte / 16 < 32,
{
    assert(byte / 32 == byte / 16 / 2);
    assert(byte / 64 == byte / 32 / 2);
    assert(byte / 128 == byte / 64 / 2);
}

/// The twentieth symbol of what an identifier's bytes encode to, where the
/// prefix has twenty symbols or more: its first bit is the first bit of the
/// prefix's twentieth symbol, its other four are the first four of the
/// checksum.
pub proof fn lemma_twentieth_symbol(prefix: Seq<char>, entropy: Seq<u8>)
    requires
        verdict(prefix) is Ok,
        prefix.len() > PREFIX_CAPACITY,
    ensures
        ({
            let value = symbol_value(prefix_symbols(prefix)[PREFIX_CAPACITY as int]);
            let payload = payload_of(leading_bytes(prefix), entropy);
            let sum = checksum_of(payload);
            &&& 0 <= 16 * (value / 16) + sum[0] / 16 < 32
            &&& encoded(payload + sum)[PREFIX_CAPACITY as int] == value_symbol(
                16 * (value / 16) + sum[0] / 16,
            )
        }),
{
    let k = PREFIX_CAPACITY as int;
    let first = DATA_LENGTH as int;
    let symbols = prefix_symbols(prefix);
    let payload = payload_of(leading_bytes(prefix), entropy);
    let sum = checksum_of(payload);
    let bytes = payload + sum;
    let value = symbol_value(symbols[k]);
    assert(5 * k + 1 == 8 * first);
    assert(0 <= value < 32) by {
        lemma_prefix_symbols(prefix);
        lemma_symbol_value_round_trip(symbols[k]);
    }
    assert(data_bit(bytes, 5 * k) == bit(value, 4)) by {
        lemma_payload_bits(prefix, entropy, 5 * k);
        lemma_text_bit_at(symbols, k, 0);
    }
    assert(bytes[first] == sum[0]);
    assert(data_bit(bytes, 5 * k + 1) == bit(sum[0] as int, 7)) by {
        lemma_data_bit_at(bytes, first, 0);
    }
    assert(data_bit(bytes, 5 * k + 2) == bit(sum[0] as int, 6)) by {
        lemma_data_bit_at(bytes, first, 1);
    }
    assert(data_bit(bytes, 5 * k + 3) == bit(sum[0] as int, 5)) by {
        lemma_data_bit_at(bytes, first, 2);
    }
    assert(data_bit(bytes, 5 * k + 4) == bit(sum[0] as int, 4)) by {
        lemma_data_bit_at(bytes, first, 3);
    }
    assert(encoded_value(bytes, k) == pack5(
        bit(value, 4),
        bit(sum[0] as int, 7),
        bit(sum[0] as int, 6),
        bit(sum[0] as int, 5),
        bit(sum[0] as int, 4),
    ));
    lemma_mixed_value(value, sum[0] as int);
}

/// The twentieth character of an identifier whose prefix has twenty or more
/// is the prefix's twentieth character in lowercase exactly where the last
/// four bits of the prefix's twentieth symbol are the first four of the
/// checksum.
pub proof fn lemma_twentieth_char(prefix: Seq<char>, entropy: Seq<u8>)
    requires
        verdict(prefix) is Ok,
        prefix.len() > PREFIX_CAPACITY,
    ensures
        ({
            let value = symbol_value(prefix_symbols(prefix)[PREFIX_CAPACITY as int]);
            let sum = checksum_of(payload_of(leading_bytes(prefix), entropy));
            let last = identifier(prefix, entropy)[PREFIX_CAPACITY as int];
            last == to_lower(prefix[PREFIX_CAPACITY as int]) <==> value % 16 == sum[0] / 16
        }),
{
    let k = PREFIX_CAPACITY as int;
    let symbols = prefix_symbols(prefix);
    let payload = payload_of(leading_bytes(prefix), entropy);
    let sum = checksum_of(payload);
    let value = symbol_value(symbols[k]);
    let mixed = 16 * (value / 16) + sum[0] / 16;
    let symbol = encoded(payload + sum)[k];
    lemma_twentieth_symbol(prefix, entropy);
    lemma_prefix_symbols(prefix);
    lemma_symbol_value_round_trip(symbols[k]);
    lemma_value_symbol_round_trip(mixed);
    assert(identifier(prefix, entropy)[k] == to_lower(symbol as char));
    assert(to_lower(prefix[k]) == to_lower(symbols[k] as char));
    if to_lower(symbol as char) == to_lower(symbols[k] as char) {
        lemma_lowercase_tells_symbols_apart(symbol, symbols[k]);
        assert(mixed == value);
    }
    if value % 16 == sum[0] / 16 {
        assert(mixed == value);
        assert(symbol == symbols[k]);
    }
}

/// Whether a prefix passes, and the error where it does not, is the same
/// whatever the random bytes are.
pub proof fn lemma_verdict_ignores_entropy(prefix: Seq<char>, first: Seq<u8>, second: Seq<u8>)
    ensures
        match generated(prefix, first) {
            Ok(_) => generated(prefix, second) is Ok,
            Err(error) => generated(prefix, second) == Err::<Seq<char>, GenerateError>(error),
        },
{
}

/// A byte is the number that its eight bits of the stream spell.
proof fn lemma_byte_of_bits(data: Seq<u8>, j: int)
    requires
        0 <= j < data.len(),
    ensures
        data[j] as int == pack8(
            data_bit(data, 8 * j),
            data_bit(data, 8 * j + 1),
            data_bit(data, 8 * j + 2),
            data_bit(data, 8 * j + 3),
            data_bit(data, 8 * j + 4),
            data_bit(data, 8 * j + 5),
            data_bit(data, 8 * j + 6),
            data_bit(data, 8 * j + 7),
        ),
{
    lemma_data_bit_at(data, j, 0);
    lemma_data_bit_at(data, j, 1);
    lemma_data_bit_at(data, j, 2);
    lemma_data_bit_at(data, j, 3);
    lemma_data_bit_at(data, j, 4);
    lemma_data_bit_at(data, j, 5);
    lemma_data_bit_at(data, j, 6);
    lemma_data_bit_at(data, j, 7);
    lemma_pack8_of_bits(data[j] as int);
}

/// Two symbols that are alike in lowercase are alike.
proof fn lemma_lowercase_tells_symbols_apart(one: u8, other: u8)
    requires
        is_symbol(one),
        is_symbol(other),
        to_lower(one as char) == to_lower(other as char),
    ensures
        one == other,
{
}

/// Bytes that render alike spell the same bits.
proof fn lemma_rendered_bits(first: Seq<u8>, second: Seq<u8>, t: int)
    requires
        first.len() == second.len(),
        rendered(first) == rendered(second),
        0 <= t < 8 * first.len(),
    ensures
        data_bit(first, t) == data_bit(second, t),
{
    let k = t / 5;
    assert(0 <= k < encoded_len(first.len()));
    let one = encoded(first)[k];
    let other = encoded(second)[k];
    assert(one == other) by {
        lemma_bits_of_pack5(
            data_bit(first, 5 * k),
            data_bit(first, 5 * k + 1),
            data_bit(first, 5 * k + 2),
            data_bit(first, 5 * k + 3),
            data_bit(first, 5 * k + 4),
        );
        lemma_bits_of_pack5(
            data_bit(second, 5 * k),
            data_bit(second, 5 * k + 1),
            data_bit(second, 5 * k + 2),
            data_bit(second, 5 * k + 3),
            data_bit(second, 5 * k + 4),
        );
        lemma_value_symbol_round_trip(encoded_value(first, k));
        lemma_value_symbol_round_trip(encoded_value(second, k));
        assert(rendered(first)[k] == to_lower(one as char));
        assert(rendered(second)[k] == to_lower(other as char));
        lemma_lowercase_tells_symbols_apart(one, other);
    }
    lemma_encoded_bits(first, t);
    lemma_encoded_bits(second, t);
}

/// Bytes that render alike are alike.
pub proof fn lemma_rendered_injective(first: Seq<u8>, second: Seq<u8>)
    requires
        first.len() == second.len(),
        rendered(first) == rendered(second),
    ensures
        first == second,
{
    assert forall|j: int| 0 <= j < first.len() implies first[j] == second[j] by {
        lemma_rendered_bits(first, second, 8 * j);
        lemma_rendered_bits(first, second, 8 * j + 1);
        lemma_rendered_bits(first, second, 8 * j + 2);
        lemma_rendered_bits(first, second, 8 * j + 3);
        lemma_rendered_bits(first, second, 8 * j + 4);
        lemma_rendered_bits(first, second, 8 * j + 5);
        lemma_rendered_bits(first, second, 8 * j + 6);
        lemma_rendered_bits(first, second, 8 * j + 7);
        lemma_byte_of_bits(first, j);
        lemma_byte_of_bits(second, j);
    }
    assert(first =~= second);
}

/// A random byte that the prefix leaves in the payload shows in the
/// identifier: random bytes that differ in such a byte give identifiers that
/// differ.
pub proof fn lemma_entropy_shows(prefix: Seq<char>, first: Seq<u8>, second: Seq<u8>, j: int)
    requires
        first.len() == DATA_LENGTH,
        second.len() == DATA_LENGTH,
        leading_bytes(prefix).len() <= j < DATA_LENGTH,
        first[j] != second[j],
    ensures
        identifier(prefix, first) != identifier(prefix, second),
{
    let leading = leading_bytes(prefix);
    let one = payload_of(leading, first);
    let other = payload_of(leading, second);
    assert(one[j] != other[j]);
    let left = one + truncated(sha256(one));
    let right = other + truncated(sha256(other));
    assert(left[j] != right[j]);
    if rendered(left) == rendered(right) {
        lemma_rendered_injective(left, right);
    }
}

} // verus!
