//! Pattern positions as bits of a 32-bit word, counted from the most significant bit.
use vstd::prelude::*;

verus! {

/// The word whose only set bit stands for position `j`; zero past the word's width.
pub open spec fn pos_bit(j: nat) -> u32 {
    if j < 32 {
        0x8000_0000u32 >> (j as u32)
    } else {
        0
    }
}

/// Position `j` is set in `x`.
pub open spec fn has_bit(x: u32, j: nat) -> bool {
    j < 32 && (x & pos_bit(j)) != 0
}

/// Every position set in `a` is set in `b`.
pub open spec fn subset(a: u32, b: u32) -> bool {
    a & !b == 0
}

/// Or-ing in the bit of position `k` sets exactly that position.
pub proof fn lemma_or_pos_bit(v: u32, k: nat, j: nat)
    requires
        j < 32,
    ensures
        has_bit(v | pos_bit(k), j) <==> (has_bit(v, j) || j == k),
{
    let jj = j as u32;
    if k < 32 {
        let kk = k as u32;
        assert(((v | (0x8000_0000u32 >> kk)) & (0x8000_0000u32 >> jj)) != 0 <==> ((v & (
        0x8000_0000u32 >> jj)) != 0 || jj == kk)) by (bit_vector)
            requires
                jj < 32,
                kk < 32,
        ;
    } else {
        assert(v | 0u32 == v) by (bit_vector);
    }
}

/// Moving the bit of position `k` one step toward the low end gives the bit of `k + 1`.
pub proof fn lemma_shift_pos_bit(k: nat)
    ensures
        pos_bit(k) >> 1u32 == pos_bit(k + 1),
{
    if k < 31 {
        let kk = k as u32;
        assert((0x8000_0000u32 >> kk) >> 1u32 == 0x8000_0000u32 >> ((kk + 1) as u32))
            by (bit_vector)
            requires
                kk < 31,
        ;
    } else if k == 31 {
        assert((0x8000_0000u32 >> 31u32) >> 1u32 == 0u32) by (bit_vector);
    } else {
        assert(0u32 >> 1u32 == 0u32) by (bit_vector);
    }
}

/// The bits of two positions overlap exactly when the positions are one and in range.
pub proof fn lemma_pos_bits_overlap(a: nat, b: nat)
    ensures
        (pos_bit(a) & pos_bit(b)) != 0 <==> (a == b && a < 32),
{
    if a < 32 && b < 32 {
        let aa = a as u32;
        let bb = b as u32;
        assert(((0x8000_0000u32 >> aa) & (0x8000_0000u32 >> bb)) != 0 <==> aa == bb)
            by (bit_vector)
            requires
                aa < 32,
                bb < 32,
        ;
    } else {
        let x = pos_bit(a);
        let y = pos_bit(b);
        assert(x & 0u32 == 0u32) by (bit_vector);
        assert(0u32 & y == 0u32) by (bit_vector);
    }
}

/// Keeping a word's bit of position `k` and moving it on by one.
pub proof fn lemma_advance_pos_bit(m: u32, k: nat)
    ensures
        (pos_bit(k) & m) >> 1u32 == (if has_bit(m, k) {
            pos_bit(k + 1)
        } else {
            0u32
        }),
{
    lemma_shift_pos_bit(k);
    let p = pos_bit(k);
    if k < 32 {
        assert((p & m) == (m & p)) by (bit_vector);
        if (m & p) != 0 {
            assert(p == 0x8000_0000u32 >> (k as u32));
            let kk = k as u32;
            assert((m & (0x8000_0000u32 >> kk)) != 0 ==> (m & (0x8000_0000u32 >> kk)) == (
            0x8000_0000u32 >> kk)) by (bit_vector)
                requires
                    kk < 32,
            ;
        } else {
            assert(0u32 >> 1u32 == 0u32) by (bit_vector);
        }
    } else {
        assert((0u32 & m) >> 1u32 == 0u32) by (bit_vector);
    }
}

} // verus!
