//! Crate-wide laws of the evaluator, stated and proved once.
//!
//! Every code the classifier produces decodes into fields consistent with
//! its category, and two codes compare under plain integer ordering exactly
//! as their fields compare lexicographically: category first, then major
//! rank, then minor rank, then kickers.

use vstd::prelude::*;

use crate::bits::bit16;
use crate::bits::count_upto;
use crate::bits::lemma_count_nonneg;
use crate::bits::lemma_count_or_le;
use crate::bits::lemma_msb_bounds;
use crate::bits::msb13;
use crate::bits::msb1_of;
use crate::bits::pc13;
use crate::bits::rank_bit;
use crate::bits::straight13;
use crate::bits::top_bits;
use crate::decode::code_category;
use crate::decode::code_kickers;
use crate::decode::code_major;
use crate::decode::code_minor;
use crate::eval::card_count;
use crate::eval::dupes_mask;
use crate::eval::flush_suit;
use crate::eval::lemma_le13;
use crate::eval::lemma_msb1_subset;
use crate::eval::lemma_ops13;
use crate::eval::lemma_rank_bit13;
use crate::eval::lemma_straight_bounds;
use crate::eval::lemma_suit_ranks13;
use crate::eval::lemma_top_bits_subset;
use crate::eval::quads_mask;
use crate::eval::spec_code;
use crate::eval::spec_evaluate;
use crate::eval::suit_ranks;
use crate::eval::trips_mask;
use crate::eval::FLUSH;
use crate::eval::FULLHOUSE;
use crate::eval::HIGHCARD;
use crate::eval::NULL;
use crate::eval::OFFSET_CLUBS;
use crate::eval::OFFSET_DIAMONDS;
use crate::eval::OFFSET_HEARTS;
use crate::eval::OFFSET_SPADES;
use crate::eval::PAIR;
use crate::eval::QUADS;
use crate::eval::ROYAL_FLUSH;
use crate::eval::STRAIGHT;
use crate::eval::STRAIGHT_FLUSH;
use crate::eval::TRIPS;
use crate::eval::TWO_PAIR;

verus! {

/// The decoded fields of a code fit their category: high card, flush and
/// royal flush carry no major or minor rank; pair, trips, straight, quads
/// and straight flush carry a major rank only; two pair and full house
/// carry both.
pub open spec fn fields_consistent(code: int) -> bool {
    let cat = code_category(code);
    let maj = code_major(code);
    let min = code_minor(code);
    let kick = code_kickers(code);
    &&& 0 <= cat <= 9
    &&& 0 <= kick < 0x2000
    &&& ((cat == HIGHCARD || cat == FLUSH || cat == ROYAL_FLUSH) ==> (maj == NULL && min == NULL))
    &&& ((cat == PAIR || cat == TRIPS || cat == STRAIGHT || cat == QUADS || cat == STRAIGHT_FLUSH)
        ==> (0 <= maj <= 12 && min == NULL))
    &&& ((cat == TWO_PAIR || cat == FULLHOUSE) ==> (0 <= maj <= 12 && 0 <= min <= 12))
}

/// Projecting the fields back out of a packed code.
proof fn lemma_code_fields(cat: int, maj: int, min: int, kick: int)
    requires
        0 <= cat <= 15,
        0 <= maj <= 15,
        0 <= min <= 15,
        0 <= kick < 0x2000,
    ensures
        code_category(spec_code(cat, maj, min, kick)) == cat,
        code_major(spec_code(cat, maj, min, kick)) == maj,
        code_minor(spec_code(cat, maj, min, kick)) == min,
        code_kickers(spec_code(cat, maj, min, kick)) == kick,
        0 <= spec_code(cat, maj, min, kick) < 0x2000000,
{
    let c = (cat * 0x200000 + maj * 0x20000 + min * 0x2000 + kick) as usize;
    let catu = cat as usize;
    let maju = maj as usize;
    let minu = min as usize;
    let kicku = kick as usize;
    assert(c / 0x200000usize == catu && (c / 0x20000usize) % 16 == maju && (c / 0x2000usize) % 16
        == minu && c % 0x2000usize == kicku) by (bit_vector)
        requires
            c == catu * 0x200000 + maju * 0x20000 + minu * 0x2000 + kicku,
            catu <= 15usize,
            maju <= 15usize,
            minu <= 15usize,
            kicku < 0x2000usize,
    ;
}

/// Every code of a hand of at most seven cards decodes to a well-formed
/// field tuple: the round trip through `decode` yields a category in range
/// and major/minor ranks consistent with it.
pub proof fn lemma_decode_round_trip(mask: u64)
    requires
        card_count(mask) <= 7,
    ensures
        0 <= spec_evaluate(mask) < 0x2000000,
        fields_consistent(spec_evaluate(mask)),
{
    let c = suit_ranks(mask, OFFSET_CLUBS);
    let d = suit_ranks(mask, OFFSET_DIAMONDS);
    let h = suit_ranks(mask, OFFSET_HEARTS);
    let s = suit_ranks(mask, OFFSET_SPADES);
    lemma_suit_ranks13(mask, OFFSET_CLUBS);
    lemma_suit_ranks13(mask, OFFSET_DIAMONDS);
    lemma_suit_ranks13(mask, OFFSET_HEARTS);
    lemma_suit_ranks13(mask, OFFSET_SPADES);
    let ranks = c | d | h | s;
    lemma_ops13(c, d);
    lemma_ops13(c | d, h);
    lemma_ops13((c | d) | h, s);
    lemma_count_nonneg(c, 12);
    lemma_count_nonneg(d, 12);
    lemma_count_nonneg(h, 12);
    lemma_count_nonneg(s, 12);
    lemma_count_or_le(c, d, 12);
    lemma_count_or_le(c | d, h, 12);
    lemma_count_or_le((c | d) | h, s, 12);
    let nc = pc13(c) + pc13(d) + pc13(h) + pc13(s);
    let nr = pc13(ranks);
    let fsuit = flush_suit(c, d, h, s);
    let dupes = dupes_mask(c, d, h, s);
    let trips = trips_mask(c, d, h, s);
    let quads = quads_mask(c, d, h, s);
    lemma_ops13(c, d);
    lemma_ops13(c ^ d, h);
    lemma_ops13((c ^ d) ^ h, s);
    lemma_ops13(ranks, ((c ^ d) ^ h) ^ s);
    lemma_ops13(h, s);
    lemma_ops13(c & d, h & s);
    lemma_ops13(c, h);
    lemma_ops13(d, s);
    lemma_ops13(c & h, d & s);
    lemma_ops13((c & d) | (h & s), (c & h) | (d & s));
    lemma_ops13(c & d, h);
    lemma_ops13((c & d) & h, s);
    lemma_msb_bounds(dupes, 12);
    lemma_msb_bounds(trips, 12);
    lemma_msb_bounds(quads, 12);
    if nr >= 5 && fsuit != 0 {
        lemma_straight_bounds(fsuit, 12);
        lemma_top_bits_subset(fsuit, 5);
        lemma_le13(top_bits(fsuit, 5));
        lemma_code_fields(ROYAL_FLUSH as int, NULL as int, NULL as int, 0);
        lemma_code_fields(STRAIGHT_FLUSH as int, straight13(fsuit), NULL as int, 0);
        lemma_code_fields(FLUSH as int, NULL as int, NULL as int, top_bits(fsuit, 5) as int);
    } else if nr >= 5 && straight13(ranks) != 0 {
        lemma_straight_bounds(ranks, 12);
        lemma_code_fields(STRAIGHT as int, straight13(ranks), NULL as int, 0);
    } else if nc - nr == 0 {
        lemma_top_bits_subset(ranks, 5);
        lemma_le13(top_bits(ranks, 5));
        lemma_code_fields(HIGHCARD as int, NULL as int, NULL as int, top_bits(ranks, 5) as int);
    } else if nc - nr == 1 {
        let major = msb13(dupes);
        lemma_rank_bit13(major as u16);
        lemma_ops13(ranks, rank_bit(major));
        lemma_top_bits_subset(ranks ^ rank_bit(major), 3);
        lemma_le13(top_bits(ranks ^ rank_bit(major), 3));
        lemma_code_fields(
            PAIR as int,
            major,
            NULL as int,
            top_bits(ranks ^ rank_bit(major), 3) as int,
        );
    } else if nc - nr == 2 {
        if dupes != 0 {
            let major = msb13(dupes);
            lemma_msb1_subset(dupes);
            lemma_ops13(dupes, msb1_of(dupes));
            lemma_msb_bounds(dupes ^ msb1_of(dupes), 12);
            lemma_ops13(ranks, dupes);
            lemma_msb1_subset(ranks ^ dupes);
            lemma_le13(msb1_of(ranks ^ dupes));
            lemma_code_fields(
                TWO_PAIR as int,
                major,
                msb13(dupes ^ msb1_of(dupes)),
                msb1_of(ranks ^ dupes) as int,
            );
        } else {
            lemma_ops13(ranks, trips);
            lemma_msb1_subset(ranks ^ trips);
            lemma_ops13(ranks ^ trips, msb1_of(ranks ^ trips));
            lemma_msb1_subset((ranks ^ trips) ^ msb1_of(ranks ^ trips));
            lemma_ops13(msb1_of(ranks ^ trips), msb1_of((ranks ^ trips) ^ msb1_of(ranks ^ trips)));
            lemma_le13(
                msb1_of(ranks ^ trips) | msb1_of((ranks ^ trips) ^ msb1_of(ranks ^ trips)),
            );
            lemma_code_fields(
                TRIPS as int,
                msb13(trips),
                NULL as int,
                (msb1_of(ranks ^ trips) | msb1_of((ranks ^ trips) ^ msb1_of(ranks ^ trips))) as int,
            );
        }
    } else {
        if quads != 0 {
            lemma_ops13(ranks, quads);
            lemma_msb1_subset(ranks ^ quads);
            lemma_le13(msb1_of(ranks ^ quads));
            lemma_code_fields(QUADS as int, msb13(quads), NULL as int, msb1_of(ranks ^ quads) as int);
        } else if pc13(dupes) != nc - nr {
            let major = msb13(trips);
            lemma_rank_bit13(major as u16);
            lemma_ops13(trips, rank_bit(major));
            lemma_msb_bounds(trips ^ rank_bit(major), 12);
            lemma_code_fields(FULLHOUSE as int, major, msb13(dupes), 0);
            lemma_code_fields(FULLHOUSE as int, major, msb13(trips ^ rank_bit(major)), 0);
        } else {
            let major = msb13(dupes);
            lemma_rank_bit13(major as u16);
            lemma_ops13(dupes, rank_bit(major));
            lemma_msb_bounds(dupes ^ rank_bit(major), 12);
            let minor = msb13(dupes ^ rank_bit(major));
            lemma_rank_bit13(minor as u16);
            lemma_ops13(ranks, rank_bit(major));
            lemma_ops13(ranks ^ rank_bit(major), rank_bit(minor));
            lemma_msb1_subset((ranks ^ rank_bit(major)) ^ rank_bit(minor));
            lemma_le13(msb1_of((ranks ^ rank_bit(major)) ^ rank_bit(minor)));
            lemma_code_fields(
                TWO_PAIR as int,
                major,
                minor,
                msb1_of((ranks ^ rank_bit(major)) ^ rank_bit(minor)) as int,
            );
        }
    }
}

/// Codes compare as their fields compare: a higher category always wins;
/// within a category a higher major rank wins; then a higher minor rank;
/// then the higher kicker mask.  Equal fields give equal codes, an exact
/// tie.
pub proof fn lemma_code_ordering(code1: int, code2: int)
    requires
        0 <= code1 < 0x2000000,
        0 <= code2 < 0x2000000,
        code_category(code1) > code_category(code2) || (code_category(code1) == code_category(
            code2,
        ) && code_major(code1) > code_major(code2)) || (code_category(code1) == code_category(code2)
            && code_major(code1) == code_major(code2) && code_minor(code1) > code_minor(code2)) || (
        code_category(code1) == code_category(code2) && code_major(code1) == code_major(code2)
            && code_minor(code1) == code_minor(code2) && code_kickers(code1) > code_kickers(code2)),
    ensures
        code1 > code2,
{
    let c1 = code1 as usize;
    let c2 = code2 as usize;
    assert(c1 > c2) by (bit_vector)
        requires
            c1 < 0x2000000usize,
            c2 < 0x2000000usize,
            c1 / 0x200000usize > c2 / 0x200000usize || (c1 / 0x200000usize == c2 / 0x200000usize
                && (c1 / 0x20000usize) % 16 > (c2 / 0x20000usize) % 16) || (c1 / 0x200000usize == c2
                / 0x200000usize && (c1 / 0x20000usize) % 16 == (c2 / 0x20000usize) % 16 && (c1
                / 0x2000usize) % 16 > (c2 / 0x2000usize) % 16) || (c1 / 0x200000usize == c2
                / 0x200000usize && (c1 / 0x20000usize) % 16 == (c2 / 0x20000usize) % 16 && (c1
                / 0x2000usize) % 16 == (c2 / 0x2000usize) % 16 && c1 % 0x2000usize > c2
                % 0x2000usize),
    ;
}

/// A hand of a stronger category always evaluates above a hand of a weaker
/// category: the category field dominates the packed code.
pub proof fn lemma_category_dominates(m1: u64, m2: u64)
    requires
        card_count(m1) <= 7,
        card_count(m2) <= 7,
        code_category(spec_evaluate(m1)) > code_category(spec_evaluate(m2)),
    ensures
        spec_evaluate(m1) > spec_evaluate(m2),
{
    lemma_decode_round_trip(m1);
    lemma_decode_round_trip(m2);
    lemma_code_ordering(spec_evaluate(m1), spec_evaluate(m2));
}

/// Hands order exactly as their decoded fields order lexicographically:
/// with equal categories the higher major rank wins, then the higher minor
/// rank, then the higher kicker mask.
pub proof fn lemma_fields_order_hands(m1: u64, m2: u64)
    requires
        card_count(m1) <= 7,
        card_count(m2) <= 7,
        code_category(spec_evaluate(m1)) > code_category(spec_evaluate(m2)) || (code_category(
            spec_evaluate(m1),
        ) == code_category(spec_evaluate(m2)) && code_major(spec_evaluate(m1)) > code_major(
            spec_evaluate(m2),
        )) || (code_category(spec_evaluate(m1)) == code_category(spec_evaluate(m2)) && code_major(
            spec_evaluate(m1),
        ) == code_major(spec_evaluate(m2)) && code_minor(spec_evaluate(m1)) > code_minor(
            spec_evaluate(m2),
        )) || (code_category(spec_evaluate(m1)) == code_category(spec_evaluate(m2)) && code_major(
            spec_evaluate(m1),
        ) == code_major(spec_evaluate(m2)) && code_minor(spec_evaluate(m1)) == code_minor(
            spec_evaluate(m2),
        ) && code_kickers(spec_evaluate(m1)) > code_kickers(spec_evaluate(m2))),
    ensures
        spec_evaluate(m1) > spec_evaluate(m2),
{
    lemma_decode_round_trip(m1);
    lemma_decode_round_trip(m2);
    lemma_code_ordering(spec_evaluate(m1), spec_evaluate(m2));
}

/// The combined rank mask of a card mask: ranks present in any suit.
pub open spec fn ranks_of(mask: u64) -> u16 {
    suit_ranks(mask, OFFSET_CLUBS) | suit_ranks(mask, OFFSET_DIAMONDS) | suit_ranks(
        mask,
        OFFSET_HEARTS,
    ) | suit_ranks(mask, OFFSET_SPADES)
}

/// The duplication signal of a card mask: ranks of even multiplicity at
/// least two.
pub open spec fn dupes_of(mask: u64) -> u16 {
    dupes_mask(
        suit_ranks(mask, OFFSET_CLUBS),
        suit_ranks(mask, OFFSET_DIAMONDS),
        suit_ranks(mask, OFFSET_HEARTS),
        suit_ranks(mask, OFFSET_SPADES),
    )
}

/// The triples signal of a card mask: ranks present in at least three suits.
pub open spec fn trips_of(mask: u64) -> u16 {
    trips_mask(
        suit_ranks(mask, OFFSET_CLUBS),
        suit_ranks(mask, OFFSET_DIAMONDS),
        suit_ranks(mask, OFFSET_HEARTS),
        suit_ranks(mask, OFFSET_SPADES),
    )
}

/// The quads signal of a card mask: ranks present in all four suits.
pub open spec fn quads_of(mask: u64) -> u16 {
    quads_mask(
        suit_ranks(mask, OFFSET_CLUBS),
        suit_ranks(mask, OFFSET_DIAMONDS),
        suit_ranks(mask, OFFSET_HEARTS),
        suit_ranks(mask, OFFSET_SPADES),
    )
}

/// Ranks present in at least two suits.
pub open spec fn ge2_mask(c: u16, d: u16, h: u16, s: u16) -> u16 {
    (c & d) | (c & h) | (c & s) | (d & h) | (d & s) | (h & s)
}

/// Ranks present in at least three suits, as a plain disjunction.
pub open spec fn ge3_mask(c: u16, d: u16, h: u16, s: u16) -> u16 {
    (c & d & h) | (c & d & s) | (c & h & s) | (d & h & s)
}

/// The and-or triples signal equals the plain at-least-three-suits mask.
proof fn lemma_ge3_form(c: u16, d: u16, h: u16, s: u16)
    by (bit_vector)
    ensures
        trips_mask(c, d, h, s) == ge3_mask(c, d, h, s),
{
}

/// The duplication signal holds the ranks of even multiplicity at least
/// two: pairs and quads, but not triples.
proof fn lemma_dupes_form(c: u16, d: u16, h: u16, s: u16)
    by (bit_vector)
    ensures
        dupes_mask(c, d, h, s) == ge2_mask(c, d, h, s) & !(ge3_mask(c, d, h, s) & !(c & d & h & s)),
        ge3_mask(c, d, h, s) & !ge2_mask(c, d, h, s) == 0,
        (c & d & h & s) & !ge3_mask(c, d, h, s) == 0,
        ge2_mask(c, d, h, s) & !(c | d | h | s) == 0,
{
}

/// A single bit field is zero or one.
proof fn lemma_bit01(x: u16, i: u16)
    by (bit_vector)
    ensures
        (x >> i) & 1 <= 1,
        ((x >> i) & 1 == 1) == bit16(x, i),
{
}

/// Per rank, the four suit bits sum to the union bit plus the three
/// multiplicity-threshold bits.
proof fn lemma_census_bit(c: u16, d: u16, h: u16, s: u16, i: u16)
    by (bit_vector)
    ensures
        ((c >> i) & 1) + ((d >> i) & 1) + ((h >> i) & 1) + ((s >> i) & 1) == (((c | d | h | s) >> i)
            & 1) + ((ge2_mask(c, d, h, s) >> i) & 1) + ((ge3_mask(c, d, h, s) >> i) & 1) + (((c & d
            & h & s) >> i) & 1),
{
}

/// Counting cards suit by suit equals counting distinct ranks plus the
/// ranks at each multiplicity threshold.
proof fn lemma_census(c: u16, d: u16, h: u16, s: u16, i: int)
    ensures
        count_upto(c, i) + count_upto(d, i) + count_upto(h, i) + count_upto(s, i) == count_upto(
            c | d | h | s,
            i,
        ) + count_upto(ge2_mask(c, d, h, s), i) + count_upto(ge3_mask(c, d, h, s), i) + count_upto(
            c & d & h & s,
            i,
        ),
    decreases i + 1,
{
    if i >= 0 {
        lemma_census(c, d, h, s, i - 1);
        lemma_census_bit(c, d, h, s, i as u16);
        lemma_bit01(c, i as u16);
        lemma_bit01(d, i as u16);
        lemma_bit01(h, i as u16);
        lemma_bit01(s, i as u16);
        lemma_bit01(c | d | h | s, i as u16);
        lemma_bit01(ge2_mask(c, d, h, s), i as u16);
        lemma_bit01(ge3_mask(c, d, h, s), i as u16);
        lemma_bit01(c & d & h & s, i as u16);
    }
}

/// One bit of a subset is a bit of the superset.
proof fn lemma_bit_subset(a: u16, b: u16, i: u16)
    by (bit_vector)
    requires
        a & !b == 0,
    ensures
        ((b >> i) & 1) == ((a >> i) & 1) + (((b & !a) >> i) & 1),
{
}

/// A superset's count splits into the subset's count and the rest's.
proof fn lemma_count_split(a: u16, b: u16, i: int)
    requires
        a & !b == 0,
    ensures
        count_upto(b, i) == count_upto(a, i) + count_upto(b & !a, i),
    decreases i + 1,
{
    if i >= 0 {
        lemma_count_split(a, b, i - 1);
        lemma_bit_subset(a, b, i as u16);
        lemma_bit01(a, i as u16);
        lemma_bit01(b, i as u16);
        lemma_bit01(b & !a, i as u16);
    }
}

/// A 13-bit mask with no bits to count is the empty mask.
proof fn lemma_count_zero_mask(m: u16)
    by (bit_vector)
    requires
        m & !0x1FFFu16 == 0,
        count_upto(m, 12) == 0,
    ensures
        m == 0,
{
}

/// The highest set bit alone counts one.
proof fn lemma_count_msb1(m: u16)
    by (bit_vector)
    requires
        m != 0,
        m & !0x1FFFu16 == 0,
    ensures
        count_upto(msb1_of(m), 12) == 1,
        m ^ msb1_of(m) == m & !msb1_of(m),
{
}

/// Clearing the highest set bit leaves only lower bits: the new highest
/// bit lies strictly below the old one.
proof fn lemma_msb_remove_top(m: u16)
    by (bit_vector)
    requires
        m & !0x1FFFu16 == 0,
        m != 0,
        m ^ msb1_of(m) != 0,
    ensures
        msb13((m ^ msb1_of(m)) as u16) < msb13(m),
{
}

/// Full-house disambiguation: when a hand holds two distinct triplicated
/// ranks and no quads (possible with six or seven cards), it is a full
/// house whose major rank is the higher triple and whose minor rank is the
/// lower triple, never the reverse, with no kicker.
pub proof fn lemma_full_house_two_triples(mask: u64)
    requires
        card_count(mask) <= 7,
        quads_of(mask) == 0,
        pc13(trips_of(mask)) == 2,
    ensures
        code_category(spec_evaluate(mask)) == FULLHOUSE,
        code_major(spec_evaluate(mask)) == msb13(trips_of(mask)),
        code_minor(spec_evaluate(mask)) == msb13(trips_of(mask) ^ msb1_of(trips_of(mask))),
        code_major(spec_evaluate(mask)) > code_minor(spec_evaluate(mask)),
        code_kickers(spec_evaluate(mask)) == 0,
{
    let c = suit_ranks(mask, OFFSET_CLUBS);
    let d = suit_ranks(mask, OFFSET_DIAMONDS);
    let h = suit_ranks(mask, OFFSET_HEARTS);
    let s = suit_ranks(mask, OFFSET_SPADES);
    lemma_suit_ranks13(mask, OFFSET_CLUBS);
    lemma_suit_ranks13(mask, OFFSET_DIAMONDS);
    lemma_suit_ranks13(mask, OFFSET_HEARTS);
    lemma_suit_ranks13(mask, OFFSET_SPADES);
    let ranks = c | d | h | s;
    let ge2 = ge2_mask(c, d, h, s);
    let ge3 = ge3_mask(c, d, h, s);
    let trips = trips_mask(c, d, h, s);
    let dupes = dupes_mask(c, d, h, s);
    lemma_ops13(c, d);
    lemma_ops13((c | d), h);
    lemma_ops13((c | d) | h, s);
    assert(ge2_mask(c, d, h, s) & !0x1FFFu16 == 0 && ge3_mask(c, d, h, s) & !0x1FFFu16 == 0
        && trips_mask(c, d, h, s) & !0x1FFFu16 == 0 && (c & d & h & s) & !0x1FFFu16 == 0)
        by (bit_vector)
        requires
            c & !0x1FFFu16 == 0,
            d & !0x1FFFu16 == 0,
            h & !0x1FFFu16 == 0,
            s & !0x1FFFu16 == 0,
    ;
    lemma_ge3_form(c, d, h, s);
    lemma_dupes_form(c, d, h, s);
    lemma_census(c, d, h, s, 12);
    // the quads signal is empty, so its count is zero
    assert(count_upto(c & d & h & s, 12) == 0) by {
        lemma_count_of_empty(c & d & h & s);
    }
    // triples are duplicated ranks, duplicated ranks are ranks
    assert(ge3 & !ge2 == 0);
    assert(ge2 & !ranks == 0);
    lemma_count_split(ge3, ge2, 12);
    lemma_count_split(ge2, ranks, 12);
    lemma_count_nonneg(ge2 & !ge3, 12);
    lemma_count_nonneg(ranks & !ge2, 12);
    let nr = pc13(ranks);
    // two triples among at most seven cards, no quads: the hand has six or
    // seven cards, and every duplicated rank is one of the two triples
    assert(pc13(ge3) == 2);
    assert(2 <= pc13(ge2) <= nr);
    assert(pc13(ge2) == 2);
    assert(nr <= 3);
    assert(count_upto(ge2 & !ge3, 12) == 0);
    assert((ge2 & !ge3) & !0x1FFFu16 == 0) by (bit_vector)
        requires
            ge2 & !0x1FFFu16 == 0,
    ;
    assert(ge2 & !ge3 == 0) by {
        lemma_count_zero_mask(ge2 & !ge3);
    }
    assert(dupes == 0) by (bit_vector)
        requires
            dupes == ge2 & !(ge3 & !(c & d & h & s)),
            c & d & h & s == 0,
            ge2 & !ge3 == 0,
    ;
    assert(pc13(dupes_mask(c, d, h, s)) == 0) by {
        lemma_count_of_empty(dupes_mask(c, d, h, s));
    }
    // the classifier therefore takes the two-triples full-house arm
    let major = msb13(trips);
    let rest = (trips ^ rank_bit(major)) as u16;
    assert(trips != 0) by {
        lemma_count_of_empty(0u16);
    }
    lemma_msb1_subset(trips);
    assert(rest == trips ^ msb1_of(trips));
    lemma_count_msb1(trips);
    lemma_count_split(msb1_of(trips), trips, 12);
    assert(pc13(rest) == 1);
    assert(rest != 0) by {
        lemma_ops13(trips, msb1_of(trips));
        lemma_count_of_empty(0u16);
    }
    lemma_msb_remove_top(trips);
    lemma_msb_bounds(trips, 12);
    lemma_msb_bounds(rest, 12);
    lemma_code_fields(FULLHOUSE as int, major, msb13(rest), 0);
}

/// Three-pair selection: when a hand holds exactly three duplicated ranks,
/// none of them tripled or quadrupled (possible with six or seven cards),
/// it is a two pair of the two highest duplicated ranks, and the single
/// kicker is the highest remaining rank, whether that is the third pair or
/// a singleton.
pub proof fn lemma_three_pairs_take_two(mask: u64)
    requires
        card_count(mask) <= 7,
        trips_of(mask) == 0,
        pc13(dupes_of(mask)) == 3,
    ensures
        code_category(spec_evaluate(mask)) == TWO_PAIR,
        code_major(spec_evaluate(mask)) == msb13(dupes_of(mask)),
        code_minor(spec_evaluate(mask)) == msb13(dupes_of(mask) ^ msb1_of(dupes_of(mask))),
        code_major(spec_evaluate(mask)) > code_minor(spec_evaluate(mask)),
        code_kickers(spec_evaluate(mask)) == msb1_of(
            (ranks_of(mask) ^ msb1_of(dupes_of(mask))) ^ msb1_of(
                dupes_of(mask) ^ msb1_of(dupes_of(mask)),
            ),
        ) as int,
{
    let c = suit_ranks(mask, OFFSET_CLUBS);
    let d = suit_ranks(mask, OFFSET_DIAMONDS);
    let h = suit_ranks(mask, OFFSET_HEARTS);
    let s = suit_ranks(mask, OFFSET_SPADES);
    lemma_suit_ranks13(mask, OFFSET_CLUBS);
    lemma_suit_ranks13(mask, OFFSET_DIAMONDS);
    lemma_suit_ranks13(mask, OFFSET_HEARTS);
    lemma_suit_ranks13(mask, OFFSET_SPADES);
    let ranks = c | d | h | s;
    let ge2 = ge2_mask(c, d, h, s);
    let ge3 = ge3_mask(c, d, h, s);
    let dupes = dupes_mask(c, d, h, s);
    lemma_ops13(c, d);
    lemma_ops13((c | d), h);
    lemma_ops13((c | d) | h, s);
    assert(ge2_mask(c, d, h, s) & !0x1FFFu16 == 0 && ge3_mask(c, d, h, s) & !0x1FFFu16 == 0
        && trips_mask(c, d, h, s) & !0x1FFFu16 == 0 && (c & d & h & s) & !0x1FFFu16 == 0)
        by (bit_vector)
        requires
            c & !0x1FFFu16 == 0,
            d & !0x1FFFu16 == 0,
            h & !0x1FFFu16 == 0,
            s & !0x1FFFu16 == 0,
    ;
    lemma_ge3_form(c, d, h, s);
    lemma_dupes_form(c, d, h, s);
    lemma_census(c, d, h, s, 12);
    // no triples, so no quads either, and the duplication signal is exactly
    // the at-least-two-suits mask
    assert(c & d & h & s == 0) by (bit_vector)
        requires
            (c & d & h & s) & !ge3_mask(c, d, h, s) == 0,
            ge3_mask(c, d, h, s) == 0,
    ;
    assert(dupes == ge2) by (bit_vector)
        requires
            dupes == ge2 & !(ge3 & !(c & d & h & s)),
            ge3 == 0,
    ;
    lemma_count_of_empty(ge3);
    lemma_count_of_empty(c & d & h & s);
    // three pairs among at most seven cards: six or seven cards, at most
    // one singleton, no straight or flush possible
    assert(ge2 & !ranks == 0);
    lemma_count_split(ge2, ranks, 12);
    lemma_count_nonneg(ranks & !ge2, 12);
    let nr = pc13(ranks);
    assert(3 <= nr <= 4);
    // the classifier therefore takes the three-pair two-pair arm
    let major = msb13(dupes);
    let rest = (dupes ^ rank_bit(major)) as u16;
    assert(dupes != 0) by {
        lemma_count_of_empty(0u16);
    }
    lemma_msb1_subset(dupes);
    assert(rest == dupes ^ msb1_of(dupes));
    lemma_count_msb1(dupes);
    lemma_count_split(msb1_of(dupes), dupes, 12);
    assert(pc13(rest) == 2);
    assert(rest != 0) by {
        lemma_ops13(dupes, msb1_of(dupes));
        lemma_count_of_empty(0u16);
    }
    lemma_msb_remove_top(dupes);
    lemma_msb_bounds(dupes, 12);
    lemma_msb_bounds(rest, 12);
    let minor = msb13(rest);
    lemma_rank_bit13(major as u16);
    lemma_rank_bit13(minor as u16);
    lemma_ops13(ranks, rank_bit(major));
    lemma_ops13(ranks ^ rank_bit(major), rank_bit(minor));
    lemma_msb1_subset((ranks ^ rank_bit(major)) ^ rank_bit(minor));
    lemma_le13(msb1_of((ranks ^ rank_bit(major)) ^ rank_bit(minor)));
    lemma_code_fields(
        TWO_PAIR as int,
        major,
        minor,
        msb1_of((ranks ^ rank_bit(major)) ^ rank_bit(minor)) as int,
    );
}

/// The empty 13-bit mask counts zero.
proof fn lemma_count_of_empty(m: u16)
    requires
        m == 0,
    ensures
        count_upto(m, 12) == 0,
{
    assert(count_upto(0u16, 12) == 0) by (bit_vector);
}

} // verus!
