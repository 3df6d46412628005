//! Bit-level helpers over 13-bit rank masks.
//!
//! A rank mask holds one bit per card rank, bit 0 for the deuce up to bit 12
//! for the ace.  These functions give the quantities the classifier needs:
//! the number of set bits, the highest set bit, the mask of the `k` highest
//! set bits, and the top rank of the highest run of five consecutive ranks
//! (with the wheel, ace played low, mapping to a five-high straight).

use vstd::prelude::*;

verus! {

/// True when bit `i` of `m` is set.
pub open spec fn bit16(m: u16, i: u16) -> bool {
    (m >> i) & 1 == 1
}

/// Number of set bits of `m` among bits `0..=i`.
pub open spec fn count_upto(m: u16, i: int) -> int
    decreases i + 1,
{
    if i < 0 {
        0
    } else {
        (if bit16(m, i as u16) {
            1int
        } else {
            0int
        }) + count_upto(m, i - 1)
    }
}

/// Number of set bits of a 13-bit rank mask.
pub open spec fn pc13(m: u16) -> int {
    count_upto(m, 12)
}

/// Index of the highest set bit of `m` among bits `0..=i`, or 0 if none is set.
pub open spec fn msb_upto(m: u16, i: int) -> int
    decreases i + 1,
{
    if i < 0 {
        0
    } else if bit16(m, i as u16) {
        i
    } else {
        msb_upto(m, i - 1)
    }
}

/// Index of the highest set bit of a 13-bit rank mask, or 0 for the empty mask.
pub open spec fn msb13(m: u16) -> int {
    msb_upto(m, 12)
}

/// The single bit at rank `r`.
pub open spec fn rank_bit(r: int) -> u16 {
    1u16 << (r as u16)
}

/// Mask holding only the highest set bit of `m`, or 0 for the empty mask.
pub open spec fn msb1_of(m: u16) -> u16 {
    if m == 0 {
        0
    } else {
        rank_bit(msb13(m))
    }
}

/// Mask of the `k` highest set bits of `m` (all of them when fewer are set).
pub open spec fn top_bits(m: u16, k: int) -> u16
    decreases k,
{
    if k <= 0 || m == 0 {
        0
    } else {
        msb1_of(m) | top_bits(m & !msb1_of(m), k - 1)
    }
}

/// The five consecutive ranks ending at rank `hi`, as a mask.
pub open spec fn straight_mask(hi: int) -> u16 {
    0x1Fu16 << ((hi - 4) as u16)
}

/// Mask of the wheel, the straight A-2-3-4-5 with the ace played low.
pub open spec fn wheel_mask() -> u16 {
    0x100Fu16
}

/// Top rank of the highest straight of `m` whose top rank is at most `hi`;
/// 3 (the five) for a wheel, 0 when `m` holds no straight.
pub open spec fn straight_upto(m: u16, hi: int) -> int
    decreases hi + 1,
{
    if hi < 4 {
        if m & wheel_mask() == wheel_mask() {
            3
        } else {
            0
        }
    } else if m & straight_mask(hi) == straight_mask(hi) {
        hi
    } else {
        straight_upto(m, hi - 1)
    }
}

/// Top rank of the highest straight of a 13-bit rank mask, or 0 if none.
pub open spec fn straight13(m: u16) -> int {
    straight_upto(m, 12)
}

/// Bits of a disjunction are the bits of either side.
proof fn lemma_bit_or(a: u16, b: u16, i: u16)
    by (bit_vector)
    ensures
        bit16(a | b, i) == (bit16(a, i) || bit16(b, i)),
{
}

/// Counting set bits is subadditive over disjunction.
pub proof fn lemma_count_or_le(a: u16, b: u16, i: int)
    ensures
        count_upto(a | b, i) <= count_upto(a, i) + count_upto(b, i),
    decreases i + 1,
{
    if i >= 0 {
        lemma_bit_or(a, b, i as u16);
        lemma_count_or_le(a, b, i - 1);
        lemma_count_nonneg(a, i - 1);
        lemma_count_nonneg(b, i - 1);
    }
}

/// A bit count lies between 0 and the number of counted positions.
pub proof fn lemma_count_nonneg(m: u16, i: int)
    ensures
        0 <= count_upto(m, i),
        count_upto(m, i) <= if i < 0 {
            0int
        } else {
            i + 1
        },
    decreases i + 1,
{
    if i >= 0 {
        lemma_count_nonneg(m, i - 1);
        assert(count_upto(m, i) == (if bit16(m, i as u16) {
            1int
        } else {
            0int
        }) + count_upto(m, i - 1));
    }
}

/// The highest set bit lies in the scanned range.
pub proof fn lemma_msb_bounds(m: u16, i: int)
    ensures
        0 <= msb_upto(m, i),
        msb_upto(m, i) <= if i < 0 {
            0int
        } else {
            i
        },
    decreases i + 1,
{
    if i >= 0 {
        lemma_msb_bounds(m, i - 1);
    }
}

/// Number of set bits of a 13-bit rank mask.
pub fn popcount13(m: u16) -> (r: usize)
    ensures
        r == pc13(m),
{
    let mut r: usize = 0;
    let mut i: u16 = 0;
    while i < 13
        invariant
            i <= 13,
            r <= i,
            r == count_upto(m, i - 1),
        decreases 13 - i,
    {
        if m & (1u16 << i) != 0 {
            r = r + 1;
        }
        proof {
            assert((m & (1u16 << i) != 0) == bit16(m, i)) by (bit_vector);
            assert(count_upto(m, i as int) == (if bit16(m, i) {
                1int
            } else {
                0int
            }) + count_upto(m, i - 1));
            lemma_count_nonneg(m, i as int);
        }
        i = i + 1;
    }
    r
}

/// Index of the highest set bit of a 13-bit rank mask, or 0 for the empty mask.
pub fn msb_rank13(m: u16) -> (r: usize)
    ensures
        r == msb13(m),
{
    let mut i: u16 = 13;
    while i > 0
        invariant
            i <= 13,
            msb13(m) == msb_upto(m, i - 1),
        decreases i,
    {
        i = i - 1;
        proof {
            assert((m & (1u16 << i) != 0) == bit16(m, i)) by (bit_vector);
        }
        if m & (1u16 << i) != 0 {
            return i as usize;
        }
    }
    0
}

/// Mask holding only the highest set bit of a 13-bit rank mask.
pub fn msb1_mask(m: u16) -> (r: u16)
    ensures
        r == msb1_of(m),
{
    if m == 0 {
        0
    } else {
        let r = msb_rank13(m);
        proof {
            lemma_msb_bounds(m, 12);
        }
        1u16 << (r as u16)
    }
}

/// Mask of the `k` highest set bits of a 13-bit rank mask.
pub fn top_mask(m: u16, k: usize) -> (r: u16)
    ensures
        r == top_bits(m, k as int),
{
    let mut acc: u16 = 0;
    let mut cur: u16 = m;
    let mut j: usize = k;
    proof {
        let t = top_bits(m, k as int);
        assert(0u16 | t == t) by (bit_vector);
    }
    while j > 0 && cur != 0
        invariant
            top_bits(m, k as int) == acc | top_bits(cur, j as int),
        decreases j,
    {
        let b = msb1_mask(cur);
        proof {
            let t = top_bits(cur & !msb1_of(cur), j as int - 1);
            assert(top_bits(cur, j as int) == msb1_of(cur) | t);
            let b1 = msb1_of(cur);
            assert(acc | (b1 | t) == (acc | b1) | t) by (bit_vector);
        }
        acc = acc | b;
        cur = cur & !b;
        j = j - 1;
    }
    proof {
        assert(top_bits(cur, j as int) == 0);
        assert(acc | 0u16 == acc) by (bit_vector);
    }
    acc
}

/// Top rank of the highest straight of a 13-bit rank mask, 3 for a wheel,
/// 0 when the mask holds no five consecutive ranks.
pub fn straight_high(m: u16) -> (r: usize)
    ensures
        r == straight13(m),
{
    let mut hi: u16 = 13;
    while hi > 4
        invariant
            4 <= hi <= 13,
            straight13(m) == straight_upto(m, hi - 1),
        decreases hi,
    {
        hi = hi - 1;
        let sm = 0x1Fu16 << (hi - 4);
        if m & sm == sm {
            return hi as usize;
        }
    }
    if m & 0x100F == 0x100F {
        3
    } else {
        0
    }
}

} // verus!
