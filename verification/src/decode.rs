//! Unpacking an ordinal code into its category, major rank, minor rank and
//! kicker fields, and rendering those fields as a human-readable label.

use vstd::prelude::*;
use vstd::string::StringExecFns;

use crate::bits::bit16;
use crate::eval::Code;
use crate::eval::NULL;

verus! {

/// Field of a code: the hand category, 0 through 9.
pub open spec fn code_category(code: int) -> int {
    code / 0x200000
}

/// Field of a code: the major rank, or `NULL` when not applicable.
pub open spec fn code_major(code: int) -> int {
    (code / 0x20000) % 16
}

/// Field of a code: the minor rank, or `NULL` when not applicable.
pub open spec fn code_minor(code: int) -> int {
    (code / 0x2000) % 16
}

/// Field of a code: the kicker rank mask.
pub open spec fn code_kickers(code: int) -> int {
    code % 0x2000
}

/// Name of a hand category.
pub open spec fn type_label(t: int) -> Seq<char> {
    if t == 0 {
        "HighCard"@
    } else if t == 1 {
        "Pair"@
    } else if t == 2 {
        "TwoPair"@
    } else if t == 3 {
        "Trips"@
    } else if t == 4 {
        "Straight"@
    } else if t == 5 {
        "Flush"@
    } else if t == 6 {
        "FullHouse"@
    } else if t == 7 {
        "Quads"@
    } else if t == 8 {
        "StraightFlush"@
    } else if t == 9 {
        "RoyalFlush"@
    } else {
        Seq::empty()
    }
}

/// Label of a rank, deuce through ace.
pub open spec fn rank_label(r: int) -> Seq<char> {
    if r == 0 {
        "2"@
    } else if r == 1 {
        "3"@
    } else if r == 2 {
        "4"@
    } else if r == 3 {
        "5"@
    } else if r == 4 {
        "6"@
    } else if r == 5 {
        "7"@
    } else if r == 6 {
        "8"@
    } else if r == 7 {
        "9"@
    } else if r == 8 {
        "T"@
    } else if r == 9 {
        "J"@
    } else if r == 10 {
        "Q"@
    } else if r == 11 {
        "K"@
    } else {
        "A"@
    }
}

/// Labels of the kicker ranks set in `k` among bits `from` down to 0,
/// highest rank first.
pub open spec fn kickers_text(k: u16, from: int) -> Seq<char>
    decreases from + 1,
{
    if from < 0 {
        Seq::empty()
    } else {
        (if bit16(k, from as u16) {
            rank_label(from)
        } else {
            Seq::empty()
        }) + kickers_text(k, from - 1)
    }
}

/// The full label of an evaluation: category name, then major, minor and
/// kickers where present, single-space separated.
pub open spec fn spec_render(t: int, maj: int, min: int, k: u16) -> Seq<char> {
    type_label(t) + (if maj != NULL {
        " "@ + rank_label(maj)
    } else {
        Seq::empty()
    }) + (if min != NULL {
        " "@ + rank_label(min)
    } else {
        Seq::empty()
    }) + (if k != 0 {
        " "@ + kickers_text(k, 12)
    } else {
        Seq::empty()
    })
}

/// The unpacked fields of an ordinal evaluation code.
pub struct Evaluation {
    /// Hand category, 0 (high card) through 9 (royal flush).
    pub hand_type: usize,
    /// Major rank, or `NULL`.
    pub major_rank: usize,
    /// Minor rank, or `NULL`.
    pub minor_rank: usize,
    /// Kicker rank mask, 13 bits.
    pub kickers: usize,
}

impl Evaluation {
    /// The fields of a code produced by the classifier are in these ranges.
    pub open spec fn well_formed(&self) -> bool {
        self.hand_type <= 9 && self.major_rank <= 13 && self.minor_rank <= 13 && self.kickers
            <= 0x1FFF
    }

    /// Unpacks a code into its four fields by fixed shifts and masks; the
    /// inverse of the packing the classifier performs.
    pub fn decode(code: Code) -> (r: Self)
        ensures
            r.hand_type == (code >> 21) & 0xF,
            r.major_rank == (code >> 17) & 0xF,
            r.minor_rank == (code >> 13) & 0xF,
            r.kickers == code & 0x1FFF,
            code < 0x2000000 ==> r.hand_type == code_category(code as int) && r.major_rank
                == code_major(code as int) && r.minor_rank == code_minor(code as int) && r.kickers
                == code_kickers(code as int),
    {
        proof {
            assert(code < 0x2000000usize ==> ((code >> 21) & 0xF == code / 0x200000) && ((code
                >> 17) & 0xF == (code / 0x20000) % 16) && ((code >> 13) & 0xF == (code / 0x2000)
                % 16) && (code & 0x1FFF == code % 0x2000)) by (bit_vector);
        }
        Evaluation {
            hand_type: (code >> 21) & 0xF,
            major_rank: (code >> 17) & 0xF,
            minor_rank: (code >> 13) & 0xF,
            kickers: code & 0x1FFF,
        }
    }

    /// Name of this evaluation's hand category.
    pub fn get_comb(&self) -> (r: &'static str)
        requires
            self.hand_type <= 9,
        ensures
            r@ == type_label(self.hand_type as int),
    {
        match self.hand_type {
            0 => "HighCard",
            1 => "Pair",
            2 => "TwoPair",
            3 => "Trips",
            4 => "Straight",
            5 => "Flush",
            6 => "FullHouse",
            7 => "Quads",
            8 => "StraightFlush",
            _ => "RoyalFlush",
        }
    }

    /// Label of the major rank, or the empty string when there is none.
    pub fn get_major(&self) -> (r: &'static str)
        requires
            self.major_rank <= 13,
        ensures
            self.major_rank != NULL ==> r@ == rank_label(self.major_rank as int),
            self.major_rank == NULL ==> r@ == Seq::<char>::empty(),
    {
        if self.major_rank != NULL {
            rank_str(self.major_rank)
        } else {
            proof {
                reveal_strlit("");
            }
            ""
        }
    }

    /// Label of the minor rank, or the empty string when there is none.
    pub fn get_minor(&self) -> (r: &'static str)
        requires
            self.minor_rank <= 13,
        ensures
            self.minor_rank != NULL ==> r@ == rank_label(self.minor_rank as int),
            self.minor_rank == NULL ==> r@ == Seq::<char>::empty(),
    {
        if self.minor_rank != NULL {
            rank_str(self.minor_rank)
        } else {
            proof {
                reveal_strlit("");
            }
            ""
        }
    }

    /// Labels of the kicker ranks, highest first, with no separator.
    pub fn get_kickers(&self) -> (r: String)
        requires
            self.kickers <= 0x1FFF,
        ensures
            r@ == kickers_text(self.kickers as u16, 12),
    {
        let k = self.kickers as u16;
        let mut s = String::new();
        let mut i: u16 = 13;
        while i > 0
            invariant
                i <= 13,
                self.kickers <= 0x1FFF,
                k == self.kickers as u16,
                s@ + kickers_text(k, i - 1) == kickers_text(k, 12),
            decreases i,
        {
            i = i - 1;
            proof {
                assert((k & (1u16 << i) != 0) == bit16(k, i)) by (bit_vector);
            }
            if k & (1u16 << i) != 0 {
                s.append(rank_str(i as usize));
            }
            proof {
                let piece = if bit16(k, i) {
                    rank_label(i as int)
                } else {
                    Seq::<char>::empty()
                };
                assert(kickers_text(k, i as int) == piece + kickers_text(k, i - 1));
                assert(s@ + kickers_text(k, i - 1) =~= kickers_text(k, 12));
            }
        }
        s
    }

    /// The full human-readable label: category, then major rank, minor rank
    /// and kickers where present, single-space separated.
    pub fn render(&self) -> (r: String)
        requires
            self.well_formed(),
        ensures
            r@ == spec_render(
                self.hand_type as int,
                self.major_rank as int,
                self.minor_rank as int,
                self.kickers as u16,
            ),
    {
        let mut out = String::new();
        out.append(self.get_comb());
        if self.major_rank != NULL {
            out.append(" ");
            out.append(self.get_major());
        }
        if self.minor_rank != NULL {
            out.append(" ");
            out.append(self.get_minor());
        }
        if self.kickers != 0 {
            out.append(" ");
            let ks = self.get_kickers();
            out.append(ks.as_str());
        }
        proof {
            assert(self.kickers as u16 != 0 <==> self.kickers != 0);
            assert(out@ =~= spec_render(
                self.hand_type as int,
                self.major_rank as int,
                self.minor_rank as int,
                self.kickers as u16,
            ));
        }
        out
    }
}

/// Label of a rank index, deuce through ace.
pub fn rank_str(r: usize) -> (s: &'static str)
    requires
        r <= 12,
    ensures
        s@ == rank_label(r as int),
{
    match r {
        0 => "2",
        1 => "3",
        2 => "4",
        3 => "5",
        4 => "6",
        5 => "7",
        6 => "8",
        7 => "9",
        8 => "T",
        9 => "J",
        10 => "Q",
        11 => "K",
        _ => "A",
    }
}

} // verus!
