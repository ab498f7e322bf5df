//! The thirty-two symbols of base 32, their five-bit values, and ASCII case.

use vstd::prelude::*;

verus! {

/// The letter `A` in ASCII, the symbol of value zero.
pub const UPPER_A: u8 = 0x41;

/// The letter `Z` in ASCII, the last of the twenty-six letters.
pub const UPPER_Z: u8 = 0x5a;

/// The digit `2` in ASCII, the symbol of value twenty-six.
pub const DIGIT_2: u8 = 0x32;

/// The digit `7` in ASCII, the last symbol.
pub const DIGIT_7: u8 = 0x37;

/// The letter `a` in ASCII.
pub const LOWER_A: u8 = 0x61;

/// The letter `z` in ASCII.
pub const LOWER_Z: u8 = 0x7a;

/// How far a lowercase letter lies above its uppercase letter in ASCII.
pub const CASE_GAP: u8 = 0x20;

/// Whether `symbol` belongs to the alphabet: `A` to `Z`, then `2` to `7`.
pub open spec fn is_symbol(symbol: u8) -> bool {
    (UPPER_A <= symbol <= UPPER_Z) || (DIGIT_2 <= symbol <= DIGIT_7)
}

/// The five-bit value of a symbol: `A` to `Z` count from 0, `2` to `7` from 26.
pub open spec fn symbol_value(symbol: u8) -> int {
    if symbol >= UPPER_A {
        symbol - UPPER_A
    } else {
        symbol - DIGIT_2 + 26
    }
}

/// The symbol that stands for `value`.
pub open spec fn value_symbol(value: int) -> u8 {
    if value < 26 {
        (UPPER_A + value) as u8
    } else {
        (DIGIT_2 + value - 26) as u8
    }
}

/// A byte with its ASCII lowercase letter, if it is one, made uppercase.
pub open spec fn to_upper(byte: u8) -> u8 {
    if LOWER_A <= byte <= LOWER_Z {
        (byte - CASE_GAP) as u8
    } else {
        byte
    }
}

/// A character with its ASCII uppercase letter, if it is one, made lowercase.
pub open spec fn to_lower(c: char) -> char {
    if 'A' <= c <= 'Z' {
        ((c as u8) + CASE_GAP) as char
    } else {
        c
    }
}

/// The characters of `text`, each made lowercase.
pub open spec fn lowercased(text: Seq<char>) -> Seq<char> {
    Seq::new(text.len(), |i: int| to_lower(text[i]))
}

/// Calls `str::to_ascii_lowercase`.
///
/// Trusted: the copy holds the characters of `text` in their order, the ASCII
/// letters `A` to `Z` replaced by `a` to `z` and every other character as it
/// was.
#[verifier::external_body]
pub(crate) fn ascii_lowercase(text: &str) -> (lower: String)
    ensures
        lower@ == lowercased(text@),
{
    text.to_ascii_lowercase()
}

/// The alphabet's symbol for `value`.
pub fn symbol(value: u8) -> (symbol: u8)
    requires
        value < 32,
    ensures
        symbol == value_symbol(value as int),
        is_symbol(symbol),
        symbol_value(symbol) == value,
{
    if value < 26 {
        UPPER_A + value
    } else {
        DIGIT_2 + (value - 26)
    }
}

/// Tells whether `byte` is a symbol of the alphabet.
pub fn is_alphabet_symbol(byte: u8) -> (found: bool)
    ensures
        found == is_symbol(byte),
{
    (UPPER_A <= byte && byte <= UPPER_Z) || (DIGIT_2 <= byte && byte <= DIGIT_7)
}

/// Tells whether `byte` is one of the alphabet's letters, `A` to `Z`.
pub fn is_letter_symbol(byte: u8) -> (found: bool)
    ensures
        found == (UPPER_A <= byte <= UPPER_Z),
{
    UPPER_A <= byte && byte <= UPPER_Z
}

/// Folds an ASCII lowercase letter to uppercase and leaves every other byte alone.
pub fn uppercase(byte: u8) -> (folded: u8)
    ensures
        folded == to_upper(byte),
{
    if LOWER_A <= byte && byte <= LOWER_Z {
        byte - CASE_GAP
    } else {
        byte
    }
}

/// Symbols and values correspond one to one.
pub proof fn lemma_symbol_value_round_trip(symbol: u8)
    requires
        is_symbol(symbol),
    ensures
        0 <= symbol_value(symbol) < 32,
        value_symbol(symbol_value(symbol)) == symbol,
{
}

/// Every value below thirty-two has a symbol, and that symbol has the value.
pub proof fn lemma_value_symbol_round_trip(value: int)
    requires
        0 <= value < 32,
    ensures
        is_symbol(value_symbol(value)),
        symbol_value(value_symbol(value)) == value,
{
}

} // verus!
