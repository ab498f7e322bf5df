//! Single bits of small numbers.

use vstd::prelude::*;

verus! {

/// Whether the bit of weight two to the `k` is set in `x`, for `k` from 0 to 7.
pub open spec fn bit(x: int, k: int) -> bool {
    if k == 0 {
        x % 2 == 1
    } else if k == 1 {
        x / 2 % 2 == 1
    } else if k == 2 {
        x / 4 % 2 == 1
    } else if k == 3 {
        x / 8 % 2 == 1
    } else if k == 4 {
        x / 16 % 2 == 1
    } else if k == 5 {
        x / 32 % 2 == 1
    } else if k == 6 {
        x / 64 % 2 == 1
    } else {
        x / 128 % 2 == 1
    }
}

/// One for a set bit, zero for a clear one.
pub open spec fn unit(b: bool) -> int {
    if b {
        1
    } else {
        0
    }
}

/// The number that five bits spell, most significant first.
pub open spec fn pack5(b0: bool, b1: bool, b2: bool, b3: bool, b4: bool) -> int {
    16 * unit(b0) + 8 * unit(b1) + 4 * unit(b2) + 2 * unit(b3) + unit(b4)
}

/// The number that eight bits spell, most significant first.
pub open spec fn pack8(
    b0: bool,
    b1: bool,
    b2: bool,
    b3: bool,
    b4: bool,
    b5: bool,
    b6: bool,
    b7: bool,
) -> int {
    128 * unit(b0) + 64 * unit(b1) + 32 * unit(b2) + 16 * unit(b3) + 8 * unit(b4) + 4 * unit(b5)
        + 2 * unit(b6) + unit(b7)
}

/// Five bits packed into a number can be read back one by one.
pub proof fn lemma_bits_of_pack5(b0: bool, b1: bool, b2: bool, b3: bool, b4: bool)
    ensures
        0 <= pack5(b0, b1, b2, b3, b4) < 32,
        bit(pack5(b0, b1, b2, b3, b4), 4) == b0,
        bit(pack5(b0, b1, b2, b3, b4), 3) == b1,
        bit(pack5(b0, b1, b2, b3, b4), 2) == b2,
        bit(pack5(b0, b1, b2, b3, b4), 1) == b3,
        bit(pack5(b0, b1, b2, b3, b4), 0) == b4,
{
}

/// Eight bits packed into a number can be read back one by one.
pub proof fn lemma_bits_of_pack8(
    b0: bool,
    b1: bool,
    b2: bool,
    b3: bool,
    b4: bool,
    b5: bool,
    b6: bool,
    b7: bool,
)
    ensures
        0 <= pack8(b0, b1, b2, b3, b4, b5, b6, b7) < 256,
        bit(pack8(b0, b1, b2, b3, b4, b5, b6, b7), 7) == b0,
        bit(pack8(b0, b1, b2, b3, b4, b5, b6, b7), 6) == b1,
        bit(pack8(b0, b1, b2, b3, b4, b5, b6, b7), 5) == b2,
        bit(pack8(b0, b1, b2, b3, b4, b5, b6, b7), 4) == b3,
        bit(pack8(b0, b1, b2, b3, b4, b5, b6, b7), 3) == b4,
        bit(pack8(b0, b1, b2, b3, b4, b5, b6, b7), 2) == b5,
        bit(pack8(b0, b1, b2, b3, b4, b5, b6, b7), 1) == b6,
        bit(pack8(b0, b1, b2, b3, b4, b5, b6, b7), 0) == b7,
{
}

/// A number below thirty-two is the number that its low five bits spell.
pub proof fn lemma_pack5_of_bits(x: int)
    requires
        0 <= x < 32,
    ensures
        pack5(bit(x, 4), bit(x, 3), bit(x, 2), bit(x, 1), bit(x, 0)) == x,
{
}

/// A byte is the number that its eight bits spell.
pub proof fn lemma_pack8_of_bits(x: int)
    requires
        0 <= x < 256,
    ensures
        pack8(
            bit(x, 7),
            bit(x, 6),
            bit(x, 5),
            bit(x, 4),
            bit(x, 3),
            bit(x, 2),
            bit(x, 1),
            bit(x, 0),
        ) == x,
{
    assert(x / 4 == x / 2 / 2);
    assert(x / 8 == x / 4 / 2);
    assert(x / 16 == x / 8 / 2);
    assert(x / 32 == x / 16 / 2);
    assert(x / 64 == x / 32 / 2);
    assert(x / 128 == x / 64 / 2);
}

} // verus!
