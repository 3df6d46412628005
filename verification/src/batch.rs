//! Batch evaluation and ranking: evaluating many hands and grouping them
//! into tiers of equal strength, strongest tier first.

use vstd::prelude::*;
use vstd::seq_lib::group_to_multiset_ensures;
use vstd::seq_lib::to_multiset_insert;
use vstd::string::StringSliceAdditionalSpecFns;

use crate::eval::evaluate;
use crate::eval::spec_evaluate;
use crate::eval::Code;
use crate::hand::lemma_parse_wf;
use crate::hand::parse_hand;
use crate::hand::spec_parse;

verus! {

/// The bytes of a hand string, as the parser sees them.
pub open spec fn hand_bytes(s: Seq<char>) -> Seq<u8> {
    vstd::utf8::encode_utf8(s)
}

/// The card mask a hand string denotes, if it is well formed.
pub open spec fn hand_mask(s: Seq<char>) -> Option<u64> {
    spec_parse(hand_bytes(s))
}

/// A hand string the batch interface accepts: well-formed card tokens, no
/// duplicate card, at most seven cards.
pub open spec fn valid_hand(s: Seq<char>) -> bool {
    hand_mask(s) is Some
}

/// The ordinal code of a valid hand string.
pub open spec fn hand_code(s: Seq<char>) -> int {
    spec_evaluate(hand_mask(s).unwrap())
}

/// The identifiers of a pairing, in order.
pub open spec fn ids_of(ps: Seq<(String, usize)>) -> Seq<Seq<char>> {
    ps.map_values(|p: (String, usize)| p.0@)
}

/// A pairing holds no identifier twice.
pub open spec fn distinct_ids(ps: Seq<(String, usize)>) -> bool {
    forall|a: int, b: int| 0 <= a < b < ps.len() ==> ps[a].0@ != ps[b].0@
}

/// Some pair of the pairing carries this identifier.
pub open spec fn has_id(ps: Seq<(String, usize)>, id: Seq<char>) -> bool {
    exists|k: int| 0 <= k < ps.len() && ps[k].0@ == id
}

/// The index of the pair carrying this identifier.
pub open spec fn id_index(ps: Seq<(String, usize)>, id: Seq<char>) -> int {
    choose|k: int| 0 <= k < ps.len() && ps[k].0@ == id
}

/// The code paired with this identifier.
pub open spec fn code_of(ps: Seq<(String, usize)>, id: Seq<char>) -> usize {
    ps[id_index(ps, id)].1
}

/// Codes descend along the pairing.
pub open spec fn sorted_desc(ps: Seq<(String, usize)>) -> bool {
    forall|a: int, b: int| 0 <= a < b < ps.len() ==> ps[a].1 >= ps[b].1
}

/// The identifiers of a tier, in order.
pub open spec fn group_ids(g: Vec<String>) -> Seq<Seq<char>> {
    g@.map_values(|x: String| x@)
}

/// All identifiers of a tier list, tier by tier.
pub open spec fn flat_ids(r: Seq<Vec<String>>) -> Seq<Seq<char>>
    decreases r.len(),
{
    if r.len() == 0 {
        Seq::empty()
    } else {
        flat_ids(r.drop_last()) + group_ids(r.last())
    }
}

/// In a pairing of distinct identifiers, looking a pair's identifier up
/// yields that pair's code.
proof fn lemma_code_of_index(ps: Seq<(String, usize)>, k: int)
    requires
        distinct_ids(ps),
        0 <= k < ps.len(),
    ensures
        has_id(ps, ps[k].0@),
        code_of(ps, ps[k].0@) == ps[k].1,
{
    assert(has_id(ps, ps[k].0@));
    let k2 = id_index(ps, ps[k].0@);
    if k2 != k {
        assert(ps[k2].0@ == ps[k].0@);
        assert(false);
    }
}

/// A pair of a permutation of a distinct pairing looks up to its own code.
proof fn lemma_code_of_perm(ps: Seq<(String, usize)>, qs: Seq<(String, usize)>, k: int)
    requires
        distinct_ids(ps),
        qs.to_multiset() == ps.to_multiset(),
        0 <= k < qs.len(),
    ensures
        has_id(ps, qs[k].0@),
        code_of(ps, qs[k].0@) == qs[k].1,
{
    let p = qs[k];
    vstd::seq_lib::to_multiset_contains(qs, p);
    vstd::seq_lib::to_multiset_contains(ps, p);
    assert(qs.contains(p));
    assert(qs.to_multiset().count(p) > 0);
    assert(ps.contains(p));
    let j = choose|j: int| 0 <= j < ps.len() && ps[j] == p;
    lemma_code_of_index(ps, j);
}

/// Evaluates each hand of a non-empty collection of valid hand strings,
/// pairing every hand with its ordinal code.  The collection is a mapping
/// from hand to code, so the hands must be pairwise distinct; the result
/// then has distinct identifiers and can be ranked.
pub fn evaluate_hands(hands: &Vec<String>) -> (r: Vec<(String, Code)>)
    requires
        hands@.len() > 0,
        forall|i: int| 0 <= i < hands@.len() ==> valid_hand(hands@[i]@),
        forall|i: int, j: int| 0 <= i < j < hands@.len() ==> hands@[i]@ != hands@[j]@,
    ensures
        r@.len() == hands@.len(),
        forall|i: int|
            0 <= i < r@.len() ==> r@[i].0@ == hands@[i]@ && r@[i].1 == hand_code(hands@[i]@),
        distinct_ids(r@),
{
    let mut r: Vec<(String, Code)> = Vec::new();
    let mut i: usize = 0;
    while i < hands.len()
        invariant
            i <= hands@.len(),
            forall|k: int| 0 <= k < hands@.len() ==> valid_hand(#[trigger] hands@[k]@),
            r@.len() == i,
            forall|k: int|
                0 <= k < i ==> r@[k].0@ == hands@[k]@ && r@[k].1 == hand_code(hands@[k]@),
        decreases hands@.len() - i,
    {
        let h = &hands[i];
        let mask = match parse_hand(h.as_str()) {
            Some(m) => m,
            None => {
                proof {
                    assert(false);
                }
                0
            },
        };
        proof {
            lemma_parse_wf(hand_bytes(hands@[i as int]@), mask);
        }
        let code = evaluate(mask);
        r.push((h.clone(), code));
        i = i + 1;
    }
    proof {
        assert forall|a: int, b: int| 0 <= a < b < r@.len() implies r@[a].0@ != r@[b].0@ by {
            assert(r@[a].0@ == hands@[a]@ && r@[b].0@ == hands@[b]@);
        }
    }
    r
}

/// Sorts a pairing by code, strongest first, keeping the pairs themselves.
fn sort_pairs(v: &mut Vec<(String, Code)>)
    ensures
        final(v)@.len() == old(v)@.len(),
        sorted_desc(final(v)@),
        final(v)@.to_multiset() == old(v)@.to_multiset(),
        ids_of(final(v)@).to_multiset() == ids_of(old(v)@).to_multiset(),
{
    broadcast use group_to_multiset_ensures;
    broadcast use to_multiset_insert;

    let n = v.len();
    let mut i: usize = 1;
    while i < n
        invariant
            1 <= i,
            n == v@.len(),
            n == old(v)@.len(),
            forall|a: int, b: int| 0 <= a < b < i ==> v@[a].1 >= v@[b].1,
            v@.to_multiset() == old(v)@.to_multiset(),
            ids_of(v@).to_multiset() == ids_of(old(v)@).to_multiset(),
        decreases n - i,
    {
        let code = v[i].1;
        let mut j: usize = i;
        while j > 0 && v[j - 1].1 < code
            invariant
                j <= i,
                i < v@.len(),
                code == v@[i as int].1,
                forall|k: int| j <= k < i ==> v@[k].1 < code,
            decreases j,
        {
            j = j - 1;
        }
        let ghost pre = v@;
        let x = v.remove(i);
        let ghost mid = v@;
        v.insert(j, x);
        proof {
            assert(mid == pre.remove(i as int));
            vstd::seq_lib::to_multiset_remove(pre, i as int);
            assert(v@ == mid.insert(j as int, x));
            vstd::seq_lib::to_multiset_insert(mid, j as int, x);
            assert(v@.to_multiset() =~= pre.to_multiset()) by {
                vstd::seq_lib::to_multiset_contains(pre, x);
                assert(pre.contains(x));
            }
            assert(ids_of(mid) =~= ids_of(pre).remove(i as int));
            assert(ids_of(v@) =~= ids_of(mid).insert(j as int, x.0@));
            vstd::seq_lib::to_multiset_remove(ids_of(pre), i as int);
            vstd::seq_lib::to_multiset_insert(ids_of(mid), j as int, x.0@);
            assert(ids_of(v@).to_multiset() =~= ids_of(pre).to_multiset()) by {
                assert(ids_of(pre)[i as int] == x.0@);
                vstd::seq_lib::to_multiset_contains(ids_of(pre), x.0@);
                assert(ids_of(pre).contains(x.0@));
            }
            assert forall|a: int, b: int| 0 <= a < b < i + 1 implies v@[a].1 >= v@[b].1 by {
                assert(forall|k: int| 0 <= k < j ==> v@[k] == pre[k]);
                assert(v@[j as int] == x);
                assert(forall|k: int| j < k <= i ==> v@[k] == pre[k - 1]);
                if j > 0 {
                    assert(pre[j - 1].1 >= code);
                }
            }
        }
        i = i + 1;
    }
}

/// Groups evaluated hands into tiers of equal strength, strongest tier
/// first: every member of a tier carries the same code as the tier's first
/// member, earlier tiers carry strictly greater codes, and the tiers
/// together hold exactly the identifiers that came in.  Order inside a
/// tier is unspecified.
pub fn rank_hands(evals: Vec<(String, Code)>) -> (r: Vec<Vec<String>>)
    requires
        evals@.len() > 0,
        distinct_ids(evals@),
    ensures
        r@.len() >= 1,
        forall|i: int| 0 <= i < r@.len() ==> #[trigger] r@[i]@.len() >= 1,
        flat_ids(r@).to_multiset() == ids_of(evals@).to_multiset(),
        forall|i: int, j: int|
            0 <= i < r@.len() && 0 <= j < r@[i]@.len() ==> has_id(evals@, #[trigger] r@[i]@[j]@)
                && code_of(evals@, r@[i]@[j]@) == code_of(evals@, r@[i]@[0]@),
        forall|i1: int, i2: int|
            0 <= i1 < i2 < r@.len() ==> code_of(evals@, #[trigger] r@[i1]@[0]@) > code_of(
                evals@,
                #[trigger] r@[i2]@[0]@,
            ),
{
    let ghost input_pairs = evals@;
    let mut sorted = evals;
    sort_pairs(&mut sorted);
    let mut outer: Vec<Vec<String>> = Vec::new();
    let ghost mut codes: Seq<usize> = Seq::empty();
    let mut t: usize = 0;
    let mut prev: usize = 0;
    while t < sorted.len()
        invariant
            sorted@.len() == input_pairs.len(),
            input_pairs.len() > 0,
            distinct_ids(input_pairs),
            sorted_desc(sorted@),
            sorted@.to_multiset() == input_pairs.to_multiset(),
            ids_of(sorted@).to_multiset() == ids_of(input_pairs).to_multiset(),
            t <= sorted@.len(),
            outer@.len() == codes.len(),
            t == 0 ==> outer@.len() == 0,
            t > 0 ==> outer@.len() >= 1 && codes.last() == prev && prev == sorted@[t - 1].1,
            forall|i: int| 0 <= i < outer@.len() ==> #[trigger] outer@[i]@.len() >= 1,
            forall|i: int, j: int|
                0 <= i < outer@.len() && 0 <= j < outer@[i]@.len() ==> has_id(
                    input_pairs,
                    #[trigger] outer@[i]@[j]@,
                ) && code_of(input_pairs, outer@[i]@[j]@) == codes[i],
            forall|i1: int, i2: int| 0 <= i1 < i2 < codes.len() ==> codes[i1] > codes[i2],
            flat_ids(outer@) == ids_of(sorted@.take(t as int)),
        decreases sorted@.len() - t,
    {
        let id = sorted[t].0.clone();
        let code = sorted[t].1;
        proof {
            lemma_code_of_perm(input_pairs, sorted@, t as int);
            assert(ids_of(sorted@.take(t + 1)) =~= ids_of(sorted@.take(t as int)) + seq![
                sorted@[t as int].0@,
            ]);
        }
        if t == 0 || code != prev {
            let ghost old_outer = outer@;
            let mut g: Vec<String> = Vec::new();
            g.push(id);
            outer.push(g);
            proof {
                let ghost old_codes = codes;
                codes = codes.push(code);
                assert(outer@.drop_last() =~= old_outer);
                assert(outer@.last()@ =~= seq![sorted@[t as int].0]);
                assert(group_ids(outer@.last()) =~= seq![sorted@[t as int].0@]);
                assert(flat_ids(outer@) =~= ids_of(sorted@.take(t + 1)));
                if t > 0 {
                    assert(sorted@[t - 1].1 >= sorted@[t as int].1);
                    assert(old_codes.last() > code);
                    assert forall|i1: int| 0 <= i1 < old_codes.len() implies old_codes[i1]
                        > code by {
                        if i1 < old_codes.len() - 1 {
                            assert(old_codes[i1] > old_codes[old_codes.len() - 1]);
                        }
                    }
                }
                assert(forall|i: int, j: int|
                    0 <= i < old_outer.len() && 0 <= j < old_outer[i]@.len() ==> outer@[i]@[j]
                        == old_outer[i]@[j]);
            }
        } else {
            let ghost old_outer = outer@;
            let mut g = match outer.pop() {
                Some(g) => g,
                None => {
                    proof {
                        assert(false);
                    }
                    Vec::new()
                },
            };
            let ghost old_g = g@;
            g.push(id);
            outer.push(g);
            proof {
                let rest = old_outer.drop_last();
                assert(outer@.drop_last() =~= rest);
                assert(old_outer =~= rest.push(old_outer.last()));
                assert(group_ids(outer@.last()) =~= group_ids(old_outer.last()) + seq![
                    sorted@[t as int].0@,
                ]);
                assert(flat_ids(old_outer) == flat_ids(rest) + group_ids(old_outer.last()));
                assert(flat_ids(outer@) =~= flat_ids(old_outer) + seq![sorted@[t as int].0@]);
                assert(flat_ids(outer@) =~= ids_of(sorted@.take(t + 1)));
                assert(forall|i: int, j: int|
                    0 <= i < old_outer.len() - 1 && 0 <= j < old_outer[i]@.len() ==> outer@[i]@[j]
                        == old_outer[i]@[j]);
                assert(forall|j: int|
                    0 <= j < old_outer.last()@.len() ==> outer@.last()@[j]
                        == old_outer.last()@[j]);
                assert(outer@.last()@.last() == sorted@[t as int].0);
            }
        }
        prev = code;
        t = t + 1;
    }
    proof {
        assert(sorted@.take(sorted@.len() as int) =~= sorted@);
        assert forall|i: int, j: int|
            0 <= i < outer@.len() && 0 <= j < outer@[i]@.len() implies has_id(
            input_pairs,
            #[trigger] outer@[i]@[j]@,
        ) && code_of(input_pairs, outer@[i]@[j]@) == code_of(input_pairs, outer@[i]@[0]@) by {
            assert(code_of(input_pairs, outer@[i]@[j]@) == codes[i]);
            assert(code_of(input_pairs, outer@[i]@[0]@) == codes[i]);
        }
    }
    outer
}

} // verus!
