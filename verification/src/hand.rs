//! Card notation: parsing two-character card tokens into the 52-bit card
//! mask the classifier consumes.
//!
//! A hand string is a run of tokens such as `Ad` or `Th`: a rank character
//! from `2`-`9`, `T`, `J`, `Q`, `K`, `A` followed by a suit character from
//! `c`, `d`, `h`, `s`.  Malformed tokens, duplicate cards and hands of more
//! than seven cards are rejected.

use vstd::prelude::*;
use vstd::string::StringSliceAdditionalSpecFns;

use crate::bits::bit16;
use crate::bits::count_upto;
use crate::eval::card_count;
use crate::eval::suit_ranks;
use crate::eval::OFFSET_CLUBS;
use crate::eval::OFFSET_DIAMONDS;
use crate::eval::OFFSET_HEARTS;
use crate::eval::OFFSET_SPADES;

verus! {

/// Rank index of a rank character, or 13 for any other byte.
pub open spec fn rank_of_byte(b: u8) -> u8 {
    if ('2' as u8) <= b && b <= ('9' as u8) {
        (b - ('2' as u8)) as u8
    } else if b == ('T' as u8) {
        8
    } else if b == ('J' as u8) {
        9
    } else if b == ('Q' as u8) {
        10
    } else if b == ('K' as u8) {
        11
    } else if b == ('A' as u8) {
        12
    } else {
        13
    }
}

/// Suit index of a suit character, or 4 for any other byte.
pub open spec fn suit_of_byte(b: u8) -> u8 {
    if b == ('c' as u8) {
        0
    } else if b == ('d' as u8) {
        1
    } else if b == ('h' as u8) {
        2
    } else if b == ('s' as u8) {
        3
    } else {
        4
    }
}

/// The card mask bit of rank `r` in suit `s`.
pub open spec fn card_bit(r: u8, s: u8) -> u64 {
    1u64 << ((s as u64) * 13 + (r as u64))
}

/// Parses card tokens from position `i` on, accumulating bits into `acc`:
/// `None` on a malformed token, a duplicate card, or a trailing odd byte.
pub open spec fn parse_cards(bytes: Seq<u8>, i: int, acc: u64) -> Option<u64>
    decreases bytes.len() - i,
{
    if i + 2 > bytes.len() {
        if i == bytes.len() {
            Some(acc)
        } else {
            None
        }
    } else {
        let r = rank_of_byte(bytes[i]);
        let s = suit_of_byte(bytes[i + 1]);
        if r >= 13 || s >= 4 {
            None
        } else if acc & card_bit(r, s) != 0 {
            None
        } else {
            parse_cards(bytes, i + 2, acc | card_bit(r, s))
        }
    }
}

/// The card mask a hand string denotes, or `None` when the string is
/// malformed, holds a duplicate card, or holds more than seven cards.
pub open spec fn spec_parse(bytes: Seq<u8>) -> Option<u64> {
    if bytes.len() > 14 {
        None
    } else {
        parse_cards(bytes, 0, 0)
    }
}

/// Rank index of a rank character, or 13 for any other byte.
fn rank_of(b: u8) -> (r: u8)
    ensures
        r == rank_of_byte(b),
{
    if ('2' as u8) <= b && b <= ('9' as u8) {
        b - ('2' as u8)
    } else if b == ('T' as u8) {
        8
    } else if b == ('J' as u8) {
        9
    } else if b == ('Q' as u8) {
        10
    } else if b == ('K' as u8) {
        11
    } else if b == ('A' as u8) {
        12
    } else {
        13
    }
}

/// Suit index of a suit character, or 4 for any other byte.
fn suit_of(b: u8) -> (r: u8)
    ensures
        r == suit_of_byte(b),
{
    if b == ('c' as u8) {
        0
    } else if b == ('d' as u8) {
        1
    } else if b == ('h' as u8) {
        2
    } else if b == ('s' as u8) {
        3
    } else {
        4
    }
}

/// Converts a hand string into its card mask; the external-collaborator
/// contract of the evaluation core.  Rejects malformed tokens, duplicate
/// cards and hands of more than seven cards.
pub fn parse_hand(s: &str) -> (r: Option<u64>)
    ensures
        r == spec_parse(s.spec_bytes()),
{
    let b = s.as_bytes();
    let n = b.len();
    if n > 14 {
        return None;
    }
    let mut acc: u64 = 0;
    let mut i: usize = 0;
    while i + 2 <= n
        invariant
            b@ == s.spec_bytes(),
            n == b@.len(),
            n <= 14,
            i <= n,
            spec_parse(s.spec_bytes()) == parse_cards(b@, i as int, acc),
        decreases n - i,
    {
        let rb = rank_of(b[i]);
        let sb = suit_of(b[i + 1]);
        if rb >= 13 || sb >= 4 {
            return None;
        }
        let bit = 1u64 << ((sb as u64) * 13 + (rb as u64));
        if acc & bit != 0 {
            return None;
        }
        acc = acc | bit;
        i = i + 2;
    }
    if i == n {
        Some(acc)
    } else {
        None
    }
}

/// Setting a fresh bit of one 13-bit field raises its count by one.
proof fn lemma_count_set_bit(f: u16, r: u16)
    by (bit_vector)
    requires
        r < 13,
        !bit16(f, r),
    ensures
        count_upto(f | (1u16 << r), 12) == count_upto(f, 12) + 1,
{
}

/// Adding a fresh card bit raises the card count of a mask by one.
proof fn lemma_card_count_add_bit(acc: u64, r: u8, s: u8)
    requires
        r < 13,
        s < 4,
        acc & card_bit(r, s) == 0,
    ensures
        card_count(acc | card_bit(r, s)) == card_count(acc) + 1,
{
    lemma_suit_field_add(acc, r, s, 0);
    lemma_suit_field_add(acc, r, s, 13);
    lemma_suit_field_add(acc, r, s, 26);
    lemma_suit_field_add(acc, r, s, 39);
    lemma_count_set_bit(suit_ranks(acc, ((s as u64) * 13) as u64), r as u16);
}

/// Adding a card bit changes only the suit field it belongs to, where it
/// sets the fresh rank bit.
proof fn lemma_suit_field_add(acc: u64, r: u8, s: u8, off: u64)
    by (bit_vector)
    requires
        r < 13u8,
        s < 4u8,
        acc & (1u64 << ((s as u64) * 13 + (r as u64))) == 0,
        off == 0 || off == 13 || off == 26 || off == 39,
    ensures
        off == (s as u64) * 13 ==> suit_ranks(acc | card_bit(r, s), off) == (suit_ranks(acc, off)
            | (1u16 << (r as u16))),
        off == (s as u64) * 13 ==> !bit16(suit_ranks(acc, off), r as u16),
        off != (s as u64) * 13 ==> suit_ranks(acc | card_bit(r, s), off) == suit_ranks(acc, off),
{
}

/// A mask the parser accepts holds at most one card per remaining token
/// pair beyond those already in `acc`.
proof fn lemma_parse_cards_wf(bytes: Seq<u8>, i: int, acc: u64, m: u64)
    requires
        0 <= i <= bytes.len(),
        parse_cards(bytes, i, acc) == Some(m),
    ensures
        card_count(m) <= card_count(acc) + (bytes.len() - i) / 2,
    decreases bytes.len() - i,
{
    if i + 2 > bytes.len() {
    } else {
        let r = rank_of_byte(bytes[i]);
        let s = suit_of_byte(bytes[i + 1]);
        lemma_card_count_add_bit(acc, r, s);
        lemma_parse_cards_wf(bytes, i + 2, acc | card_bit(r, s), m);
    }
}

/// Every mask the parser accepts is a well-formed hand for the classifier:
/// it holds at most seven cards.
pub proof fn lemma_parse_wf(bytes: Seq<u8>, m: u64)
    requires
        spec_parse(bytes) == Some(m),
    ensures
        card_count(m) <= 7,
{
    assert(card_count(0u64) == 0) by {
        assert(suit_ranks(0u64, OFFSET_CLUBS) == 0u16 && suit_ranks(0u64, OFFSET_DIAMONDS) == 0u16
            && suit_ranks(0u64, OFFSET_HEARTS) == 0u16 && suit_ranks(0u64, OFFSET_SPADES) == 0u16)
            by (bit_vector);
        lemma_count_zero16(0u16);
    }
    lemma_parse_cards_wf(bytes, 0, 0, m);
}

/// The empty mask has no set bits to count.
proof fn lemma_count_zero16(m: u16)
    by (bit_vector)
    requires
        m == 0,
    ensures
        count_upto(m, 12) == 0,
{
}

} // verus!
