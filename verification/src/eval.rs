//! Hand classification: from a 52-bit card mask to an ordinal strength code.
//!
//! A card mask holds four contiguous 13-bit rank fields, one per suit.  The
//! classifier extracts the four per-suit rank masks, determines the hand
//! category with bitwise operations, and packs category, major rank, minor
//! rank and kicker mask into one code whose plain integer ordering matches
//! hand strength.

use vstd::prelude::*;

use crate::bits::lemma_count_nonneg;
use crate::bits::lemma_count_or_le;
use crate::bits::lemma_msb_bounds;
use crate::bits::msb13;
use crate::bits::msb1_mask;
use crate::bits::msb1_of;
use crate::bits::msb_rank13;
use crate::bits::pc13;
use crate::bits::popcount13;
use crate::bits::rank_bit;
use crate::bits::straight13;
use crate::bits::straight_high;
use crate::bits::straight_upto;
use crate::bits::top_bits;
use crate::bits::top_mask;

verus! {

/// A packed ordinal evaluation code; plain `<` on codes orders hands by strength.
pub type Code = usize;

/// Sentinel for an absent major or minor rank.
pub const NULL: usize = 13;

/// Rank index of the ace, the highest rank.
pub const ACE: usize = 12;

pub const HIGHCARD: usize = 0;

pub const PAIR: usize = 1;

pub const TWO_PAIR: usize = 2;

pub const TRIPS: usize = 3;

pub const STRAIGHT: usize = 4;

pub const FLUSH: usize = 5;

pub const FULLHOUSE: usize = 6;

pub const QUADS: usize = 7;

pub const STRAIGHT_FLUSH: usize = 8;

pub const ROYAL_FLUSH: usize = 9;

pub const OFFSET_TYPE: usize = 21;

pub const OFFSET_MAJOR: usize = 17;

pub const OFFSET_MINOR: usize = 13;

pub const OFFSET_KICKER: usize = 0;

pub const OFFSET_CLUBS: u64 = 0;

pub const OFFSET_DIAMONDS: u64 = 13;

pub const OFFSET_HEARTS: u64 = 26;

pub const OFFSET_SPADES: u64 = 39;

/// One suit's 13-bit rank field of a card mask.
pub open spec fn suit_ranks(mask: u64, off: u64) -> u16 {
    ((mask >> off) & 0x1FFF) as u16
}

/// Number of cards a mask holds: the set bits of its four suit fields.
pub open spec fn card_count(mask: u64) -> int {
    pc13(suit_ranks(mask, OFFSET_CLUBS)) + pc13(suit_ranks(mask, OFFSET_DIAMONDS)) + pc13(
        suit_ranks(mask, OFFSET_HEARTS),
    ) + pc13(suit_ranks(mask, OFFSET_SPADES))
}

/// The packed code: category, major rank, minor rank and kicker mask in
/// non-overlapping bit fields, from most to least significant.
pub open spec fn spec_code(cat: int, major: int, minor: int, kickers: int) -> int {
    cat * 0x200000 + major * 0x20000 + minor * 0x2000 + kickers
}

/// The suit with five or more cards, if any; 0 otherwise.  At most one suit
/// of a hand of at most seven cards can hold five.
pub open spec fn flush_suit(c: u16, d: u16, h: u16, s: u16) -> u16 {
    if pc13(c) >= 5 {
        c
    } else if pc13(d) >= 5 {
        d
    } else if pc13(h) >= 5 {
        h
    } else if pc13(s) >= 5 {
        s
    } else {
        0
    }
}

/// Ranks present in two or four suits: pairs signal.  A rank held by exactly
/// two suits drops out of the four-way exclusive or but stays in the union;
/// a rank held by three suits survives both and cancels.
pub open spec fn dupes_mask(c: u16, d: u16, h: u16, s: u16) -> u16 {
    (c | d | h | s) ^ (c ^ d ^ h ^ s)
}

/// Ranks present in at least three suits: triples signal.
pub open spec fn trips_mask(c: u16, d: u16, h: u16, s: u16) -> u16 {
    ((c & d) | (h & s)) & ((c & h) | (d & s))
}

/// Ranks present in all four suits.
pub open spec fn quads_mask(c: u16, d: u16, h: u16, s: u16) -> u16 {
    c & d & h & s
}

/// Classification by rank multiplicity, for hands with no straight or flush.
/// The discriminator `card count - distinct ranks` separates no duplication,
/// one pair, two duplicated slots, and heavier duplication.
pub open spec fn spec_multiplicity(c: u16, d: u16, h: u16, s: u16) -> int {
    let ranks = c | d | h | s;
    let nc = pc13(c) + pc13(d) + pc13(h) + pc13(s);
    let nr = pc13(ranks);
    let dupes = dupes_mask(c, d, h, s);
    let trips = trips_mask(c, d, h, s);
    let quads = quads_mask(c, d, h, s);
    if nc - nr == 0 {
        // no duplicated rank: high card
        spec_code(HIGHCARD as int, NULL as int, NULL as int, top_bits(ranks, 5) as int)
    } else if nc - nr == 1 {
        // exactly one duplicated rank: pair
        let major = msb13(dupes);
        spec_code(
            PAIR as int,
            major,
            NULL as int,
            top_bits((ranks ^ rank_bit(major)) as u16, 3) as int,
        )
    } else if nc - nr == 2 {
        if dupes != 0 {
            // two distinct duplicated ranks: two pair
            let major = msb13(dupes);
            let minor = msb13(dupes ^ msb1_of(dupes));
            spec_code(TWO_PAIR as int, major, minor, msb1_of(ranks ^ dupes) as int)
        } else {
            // one triplicated rank: three of a kind
            let major = msb13(trips);
            let k1 = msb1_of(ranks ^ trips);
            let k2 = msb1_of((ranks ^ trips) ^ k1);
            spec_code(TRIPS as int, major, NULL as int, (k1 | k2) as int)
        }
    } else {
        if quads != 0 {
            let major = msb13(quads);
            spec_code(QUADS as int, major, NULL as int, msb1_of(ranks ^ quads) as int)
        } else if pc13(dupes) != nc - nr {
            // a triple coexists with a pair or a second triple: full house
            let major = msb13(trips);
            if dupes != 0 {
                spec_code(FULLHOUSE as int, major, msb13(dupes), 0)
            } else {
                spec_code(FULLHOUSE as int, major, msb13(trips ^ rank_bit(major)), 0)
            }
        } else {
            // three ranks each duplicated, none tripled: two pair of the two
            // highest, the next remaining rank as kicker
            let major = msb13(dupes);
            let minor = msb13(dupes ^ rank_bit(major));
            spec_code(
                TWO_PAIR as int,
                major,
                minor,
                msb1_of((ranks ^ rank_bit(major)) ^ rank_bit(minor)) as int,
            )
        }
    }
}

/// The full decision table of the classifier, over the four suit fields of
/// the card mask: flush-family categories first, then straights, then
/// classification by rank multiplicity.
pub open spec fn spec_evaluate(mask: u64) -> int {
    let c = suit_ranks(mask, OFFSET_CLUBS);
    let d = suit_ranks(mask, OFFSET_DIAMONDS);
    let h = suit_ranks(mask, OFFSET_HEARTS);
    let s = suit_ranks(mask, OFFSET_SPADES);
    let ranks = c | d | h | s;
    let nr = pc13(ranks);
    let fsuit = flush_suit(c, d, h, s);
    if nr >= 5 && fsuit != 0 {
        let sh = straight13(fsuit);
        if sh == ACE as int {
            spec_code(ROYAL_FLUSH as int, NULL as int, NULL as int, 0)
        } else if sh != 0 {
            spec_code(STRAIGHT_FLUSH as int, sh, NULL as int, 0)
        } else {
            spec_code(FLUSH as int, NULL as int, NULL as int, top_bits(fsuit, 5) as int)
        }
    } else if nr >= 5 && straight13(ranks) != 0 {
        spec_code(STRAIGHT as int, straight13(ranks), NULL as int, 0)
    } else {
        spec_multiplicity(c, d, h, s)
    }
}

/// All bitwise combinations of 13-bit masks stay within 13 bits.
pub(crate) proof fn lemma_ops13(a: u16, b: u16)
    by (bit_vector)
    requires
        a & !0x1FFFu16 == 0,
        b & !0x1FFFu16 == 0,
    ensures
        (a | b) & !0x1FFFu16 == 0,
        (a ^ b) & !0x1FFFu16 == 0,
        (a & b) & !0x1FFFu16 == 0,
        a <= 0x1FFF,
{
}

/// A 13-bit mask is at most 0x1FFF.
pub(crate) proof fn lemma_le13(a: u16)
    by (bit_vector)
    requires
        a & !0x1FFFu16 == 0,
    ensures
        a <= 0x1FFF,
{
}

/// A single rank bit is a 13-bit mask.
pub(crate) proof fn lemma_rank_bit13(r: u16)
    by (bit_vector)
    requires
        r <= 12,
    ensures
        (1u16 << r) & !0x1FFFu16 == 0,
{
}

/// The highest set bit of a 13-bit mask is one of its bits.
pub(crate) proof fn lemma_msb1_subset(m: u16)
    by (bit_vector)
    requires
        m & !0x1FFFu16 == 0,
    ensures
        msb1_of(m) & !m == 0,
        msb1_of(m) & !0x1FFFu16 == 0,
        m != 0 ==> msb1_of(m) != 0,
{
}

/// The mask of the `k` highest bits of `m` is a subset of `m`.
pub(crate) proof fn lemma_top_bits_subset(m: u16, k: int)
    requires
        m & !0x1FFFu16 == 0,
    ensures
        top_bits(m, k) & !m == 0,
        top_bits(m, k) & !0x1FFFu16 == 0,
    decreases k,
{
    if k <= 0 || m == 0 {
        assert(0u16 & !m == 0 && 0u16 & !0x1FFFu16 == 0) by (bit_vector);
    } else {
        lemma_msb1_subset(m);
        let b = msb1_of(m);
        assert((m & !b) & !0x1FFFu16 == 0 && (m & !b) & !m == 0) by (bit_vector)
            requires
                m & !0x1FFFu16 == 0,
        ;
        lemma_top_bits_subset(m & !b, k - 1);
        let t = top_bits(m & !b, k - 1);
        assert((b | t) & !m == 0 && (b | t) & !0x1FFFu16 == 0) by (bit_vector)
            requires
                b & !m == 0,
                b & !0x1FFFu16 == 0,
                t & !(m & !b) == 0,
                (m & !b) & !m == 0,
                (m & !b) & !0x1FFFu16 == 0,
        ;
    }
}

/// A straight's top rank lies between 0 and 12.
pub(crate) proof fn lemma_straight_bounds(m: u16, i: int)
    ensures
        0 <= straight_upto(m, i),
        straight_upto(m, i) <= if i < 4 {
            3int
        } else {
            i
        },
    decreases i + 1,
{
    if i >= 4 {
        lemma_straight_bounds(m, i - 1);
    }
}

/// A suit field is a 13-bit mask.
pub(crate) proof fn lemma_suit_ranks13(mask: u64, off: u64)
    by (bit_vector)
    requires
        off < 64,
    ensures
        ((mask >> off) & 0x1FFF) as u16 & !0x1FFFu16 == 0,
{
}

/// One suit's 13-bit rank field of a card mask.
fn get_ranks(bitmask: u64, offset_suit: u64) -> (r: u16)
    requires
        offset_suit < 64,
    ensures
        r == suit_ranks(bitmask, offset_suit),
        r & !0x1FFFu16 == 0,
{
    proof {
        lemma_suit_ranks13(bitmask, offset_suit);
    }
    #[verifier::truncate]
    (((bitmask >> offset_suit) & 0x1FFF) as u16)
}

/// Packs category, major, minor and kickers into one ordinal code.
fn encode(value: usize, major: usize, minor: usize, kicker: usize) -> (r: Code)
    requires
        value <= 9,
        major <= 13,
        minor <= 13,
        kicker <= 0x1FFF,
    ensures
        r == spec_code(value as int, major as int, minor as int, kicker as int),
{
    let r = (value << OFFSET_TYPE) ^ (major << OFFSET_MAJOR) ^ (minor << OFFSET_MINOR) ^ (kicker
        << OFFSET_KICKER);
    proof {
        assert((value << 21usize) ^ (major << 17usize) ^ (minor << 13usize) ^ (kicker << 0usize)
            == value * 0x200000 + major * 0x20000 + minor * 0x2000 + kicker) by (bit_vector)
            requires
                value <= 9usize,
                major <= 13usize,
                minor <= 13usize,
                kicker <= 0x1FFFusize,
        ;
    }
    r
}

/// Classifies a hand of at most seven cards and returns its ordinal code.
///
/// The result is exactly the decision table `spec_evaluate`; two codes
/// compare under plain `<` as the hands compare in strength.
pub fn evaluate(bitmask: u64) -> (r: Code)
    requires
        card_count(bitmask) <= 7,
    ensures
        r == spec_evaluate(bitmask),
{
    let clubs = get_ranks(bitmask, OFFSET_CLUBS);
    let diamonds = get_ranks(bitmask, OFFSET_DIAMONDS);
    let hearts = get_ranks(bitmask, OFFSET_HEARTS);
    let spades = get_ranks(bitmask, OFFSET_SPADES);

    let ranks = clubs | diamonds | hearts | spades;
    proof {
        lemma_ops13(clubs, diamonds);
        lemma_ops13(clubs | diamonds, hearts);
        lemma_ops13((clubs | diamonds) | hearts, spades);
        lemma_count_or_le(clubs, diamonds, 12);
        lemma_count_or_le(clubs | diamonds, hearts, 12);
        lemma_count_or_le((clubs | diamonds) | hearts, spades, 12);
        lemma_count_nonneg(clubs, 12);
        lemma_count_nonneg(diamonds, 12);
        lemma_count_nonneg(hearts, 12);
        lemma_count_nonneg(spades, 12);
    }
    let num_ranks = popcount13(ranks);
    let n_cards = popcount13(clubs) + popcount13(diamonds) + popcount13(hearts) + popcount13(
        spades,
    );

    if num_ranks >= 5 {
        let suit = if popcount13(clubs) >= 5 {
            clubs
        } else if popcount13(diamonds) >= 5 {
            diamonds
        } else if popcount13(hearts) >= 5 {
            hearts
        } else if popcount13(spades) >= 5 {
            spades
        } else {
            0
        };

        if suit != 0 {
            proof {
                lemma_straight_bounds(suit, 12);
                lemma_top_bits_subset(suit, 5);
                lemma_le13(top_bits(suit, 5));
            }
            let major = straight_high(suit);

            if major != 0 {
                if major == ACE {
                    // Royal Flush
                    return encode(ROYAL_FLUSH, NULL, NULL, 0);
                } else {
                    // Straight Flush
                    return encode(STRAIGHT_FLUSH, major, NULL, 0);
                }
            } else {
                // Flush
                return encode(FLUSH, NULL, NULL, top_mask(suit, 5) as usize);
            }
        } else {
            proof {
                lemma_straight_bounds(ranks, 12);
            }
            let major = straight_high(ranks);

            if major != 0 {
                // Straight
                return encode(STRAIGHT, major, NULL, 0);
            }
        }
    }

    // classify by the number of duplicated rank slots
    proof {
        lemma_msb_bounds(dupes_mask(clubs, diamonds, hearts, spades), 12);
        lemma_msb_bounds(trips_mask(clubs, diamonds, hearts, spades), 12);
        lemma_msb_bounds(quads_mask(clubs, diamonds, hearts, spades), 12);
    }
    match n_cards - num_ranks {
        0 => {
            proof {
                lemma_top_bits_subset(ranks, 5);
                lemma_le13(top_bits(ranks, 5));
            }
            // Highcard
            encode(HIGHCARD, NULL, NULL, top_mask(ranks, 5) as usize)
        },
        1 => {
            let pair_mask = ranks ^ (clubs ^ diamonds ^ hearts ^ spades);
            let major = msb_rank13(pair_mask);
            proof {
                lemma_ops13(clubs, diamonds);
                lemma_ops13(clubs ^ diamonds, hearts);
                lemma_ops13((clubs ^ diamonds) ^ hearts, spades);
                lemma_ops13(ranks, ((clubs ^ diamonds) ^ hearts) ^ spades);
                lemma_rank_bit13(major as u16);
                lemma_ops13(ranks, 1u16 << (major as u16));
                lemma_top_bits_subset(ranks ^ (1u16 << (major as u16)), 3);
                lemma_le13(top_bits(ranks ^ (1u16 << (major as u16)), 3));
            }
            let kickers = top_mask(ranks ^ (1u16 << (major as u16)), 3);

            // Pair
            encode(PAIR, major, NULL, kickers as usize)
        },
        2 => {
            let two_pair_mask = ranks ^ (clubs ^ diamonds ^ hearts ^ spades);
            proof {
                lemma_ops13(clubs, diamonds);
                lemma_ops13(clubs ^ diamonds, hearts);
                lemma_ops13((clubs ^ diamonds) ^ hearts, spades);
                lemma_ops13(ranks, ((clubs ^ diamonds) ^ hearts) ^ spades);
            }
            if two_pair_mask != 0 {
                let major = msb_rank13(two_pair_mask);
                let minor = msb_rank13(two_pair_mask ^ msb1_mask(two_pair_mask));
                proof {
                    lemma_msb_bounds(two_pair_mask ^ msb1_of(two_pair_mask), 12);
                    lemma_msb1_subset(two_pair_mask);
                    lemma_ops13(two_pair_mask, msb1_of(two_pair_mask));
                    lemma_ops13(ranks, two_pair_mask);
                    lemma_msb1_subset(ranks ^ two_pair_mask);
                    lemma_le13(msb1_of(ranks ^ two_pair_mask));
                }
                let kicker = msb1_mask(ranks ^ two_pair_mask);

                // Two-Pair
                encode(TWO_PAIR, major, minor, kicker as usize)
            } else {
                let tmask = ((clubs & diamonds) | (hearts & spades)) & ((clubs & hearts) | (
                diamonds & spades));
                let major = msb_rank13(tmask);
                proof {
                    lemma_ops13(clubs, diamonds);
                    lemma_ops13(hearts, spades);
                    lemma_ops13(clubs & diamonds, hearts & spades);
                    lemma_ops13(clubs, hearts);
                    lemma_ops13(diamonds, spades);
                    lemma_ops13(clubs & hearts, diamonds & spades);
                    lemma_ops13(
                        (clubs & diamonds) | (hearts & spades),
                        (clubs & hearts) | (diamonds & spades),
                    );
                    lemma_ops13(ranks, tmask);
                    lemma_msb1_subset(ranks ^ tmask);
                    lemma_ops13(ranks ^ tmask, msb1_of(ranks ^ tmask));
                    lemma_msb1_subset((ranks ^ tmask) ^ msb1_of(ranks ^ tmask));
                }
                let kicker1 = msb1_mask(ranks ^ tmask);
                let kicker2 = msb1_mask((ranks ^ tmask) ^ kicker1);
                proof {
                    lemma_ops13(kicker1, kicker2);
                    lemma_le13(kicker1 | kicker2);
                }

                // Three-of-a-kind
                encode(TRIPS, major, NULL, (kicker1 | kicker2) as usize)
            }
        },
        n => {
            let qmask = clubs & diamonds & hearts & spades;
            proof {
                lemma_ops13(clubs, diamonds);
                lemma_ops13(clubs & diamonds, hearts);
                lemma_ops13((clubs & diamonds) & hearts, spades);
            }

            if qmask != 0 {
                let major = msb_rank13(qmask);
                proof {
                    lemma_ops13(ranks, qmask);
                    lemma_msb1_subset(ranks ^ qmask);
                    lemma_le13(msb1_of(ranks ^ qmask));
                }
                let kicker = msb1_mask(ranks ^ qmask);

                // Four-of-a-kind
                encode(QUADS, major, NULL, kicker as usize)
            } else {
                let two_pair_mask = ranks ^ (clubs ^ diamonds ^ hearts ^ spades);
                proof {
                    lemma_ops13(clubs, diamonds);
                    lemma_ops13(clubs ^ diamonds, hearts);
                    lemma_ops13((clubs ^ diamonds) ^ hearts, spades);
                    lemma_ops13(ranks, ((clubs ^ diamonds) ^ hearts) ^ spades);
                }

                if popcount13(two_pair_mask) != n {
                    let tmask = ((clubs & diamonds) | (hearts & spades)) & ((clubs & hearts) | (
                    diamonds & spades));
                    let major = msb_rank13(tmask);
                    proof {
                        lemma_ops13(clubs, diamonds);
                        lemma_ops13(hearts, spades);
                        lemma_ops13(clubs & diamonds, hearts & spades);
                        lemma_ops13(clubs, hearts);
                        lemma_ops13(diamonds, spades);
                        lemma_ops13(clubs & hearts, diamonds & spades);
                        lemma_ops13(
                            (clubs & diamonds) | (hearts & spades),
                            (clubs & hearts) | (diamonds & spades),
                        );
                        lemma_rank_bit13(major as u16);
                        lemma_ops13(tmask, 1u16 << (major as u16));
                        lemma_msb_bounds(tmask ^ (1u16 << (major as u16)), 12);
                    }

                    if two_pair_mask != 0 {
                        let minor = msb_rank13(two_pair_mask);

                        // Fullhouse (with 1 triple and 1 pair)
                        encode(FULLHOUSE, major, minor, 0)
                    } else {
                        let minor = msb_rank13(tmask ^ (1u16 << (major as u16)));

                        // Fullhouse (with 2 triples)
                        encode(FULLHOUSE, major, minor, 0)
                    }
                } else {
                    let major = msb_rank13(two_pair_mask);
                    proof {
                        lemma_rank_bit13(major as u16);
                        lemma_ops13(two_pair_mask, 1u16 << (major as u16));
                        lemma_msb_bounds(two_pair_mask ^ (1u16 << (major as u16)), 12);
                        lemma_ops13(ranks, 1u16 << (major as u16));
                    }
                    let minor = msb_rank13(two_pair_mask ^ (1u16 << (major as u16)));
                    proof {
                        lemma_rank_bit13(minor as u16);
                        lemma_ops13(ranks ^ (1u16 << (major as u16)), 1u16 << (minor as u16));
                        lemma_msb1_subset((ranks ^ (1u16 << (major as u16))) ^ (1u16 << (minor
                            as u16)));
                        lemma_le13(msb1_of((ranks ^ (1u16 << (major as u16))) ^ (1u16 << (minor
                            as u16))));
                    }
                    let kicker = msb1_mask((ranks ^ (1u16 << (major as u16))) ^ (1u16 << (minor
                        as u16)));

                    // Two Pair (with 3 pairs)
                    encode(TWO_PAIR, major, minor, kicker as usize)
                }
            }
        },
    }
}

} // verus!
