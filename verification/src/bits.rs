//! Sets of digits as bit masks: bit `d` of a 16-bit mask stands for digit `d`.

use vstd::prelude::*;

verus! {

/// The mask with the bits of all nine digits set and no other.
pub const ALL_DIGITS: u16 = 0x3FE;

/// Bit `d` is set in mask `m`.
pub open spec fn has_bit(m: u16, d: int) -> bool {
    0 <= d < 16 && (m >> (d as u16)) & 1 == 1
}

/// The empty mask has no bit set.
pub proof fn lemma_no_bit_in_zero(d: int)
    ensures
        !has_bit(0, d),
{
    if 0 <= d < 16 {
        let s = d as u16;
        assert((0u16 >> s) & 1 == 0) by (bit_vector);
    }
}

/// Setting bit `n` adds `n` to the mask and changes no other bit.
pub proof fn lemma_set_bit(m: u16, n: u16, d: int)
    requires
        n < 16,
    ensures
        has_bit(m | (1u16 << n), d) == (d == n || has_bit(m, d)),
{
    if 0 <= d < 16 {
        let s = d as u16;
        assert((((m | (1u16 << n)) >> s) & 1 == 1) == (s == n || (m >> s) & 1 == 1))
            by (bit_vector)
            requires
                n < 16,
                s < 16,
        ;
    }
}

/// A mask equals `ALL_DIGITS` exactly when its set bits are those of the
/// digits 1 to 9.
pub proof fn lemma_all_digits(m: u16)
    ensures
        (m == ALL_DIGITS) <==> (forall|d: int| 0 <= d < 16 ==> has_bit(m, d) == (1 <= d <= 9)),
{
    assert((m == 0x3FEu16) <==> ((m >> 0u16) & 1 != 1 && (m >> 1u16) & 1 == 1 && (m >> 2u16) & 1
        == 1 && (m >> 3u16) & 1 == 1 && (m >> 4u16) & 1 == 1 && (m >> 5u16) & 1 == 1 && (m >> 6u16)
        & 1 == 1 && (m >> 7u16) & 1 == 1 && (m >> 8u16) & 1 == 1 && (m >> 9u16) & 1 == 1 && (m
        >> 10u16) & 1 != 1 && (m >> 11u16) & 1 != 1 && (m >> 12u16) & 1 != 1 && (m >> 13u16) & 1
        != 1 && (m >> 14u16) & 1 != 1 && (m >> 15u16) & 1 != 1)) by (bit_vector);
    if forall|d: int| 0 <= d < 16 ==> has_bit(m, d) == (1 <= d <= 9) {
        assert(!has_bit(m, 0) && has_bit(m, 1) && has_bit(m, 2) && has_bit(m, 3) && has_bit(m, 4)
            && has_bit(m, 5) && has_bit(m, 6) && has_bit(m, 7) && has_bit(m, 8) && has_bit(m, 9)
            && !has_bit(m, 10) && !has_bit(m, 11) && !has_bit(m, 12) && !has_bit(m, 13)
            && !has_bit(m, 14) && !has_bit(m, 15));
    }
}

} // verus!
