use poker_eval::batch::evaluate_hands;
use poker_eval::batch::rank_hands;
use poker_eval::decode::Evaluation;
use poker_eval::eval::evaluate;
use poker_eval::hand::parse_hand;

fn eval_str(hand: &str) -> usize {
    evaluate(parse_hand(hand).unwrap())
}

fn label(hand: &str) -> String {
    Evaluation::decode(eval_str(hand)).render()
}

#[test]
fn test_ace_low_straight() {
    let hand = parse_hand("Ad3s2dKhJs5h4d").unwrap();
    assert_eq!("Straight 5", Evaluation::decode(evaluate(hand)).render());
}

#[test]
fn test_two_pair_with_triples() {
    let hand = parse_hand("AdAsKdKhJsJh4d").unwrap();
    assert_eq!("TwoPair A K J", Evaluation::decode(evaluate(hand)).render());
}

#[test]
fn test_category_ordering() {
    // one canonical seven-card hand per category, strongest first
    let hands = [
        "AhKhQhJhTh3c2d", // royal flush
        "9hKhQhJhTh3c2d", // straight flush, king high
        "AhAdAcAs9c5d2h", // four of a kind
        "AhAdAcKsKd5c2h", // full house
        "AhKh9h5h3h7c2d", // flush
        "2d3s4d5h6c9sKh", // straight, six high
        "AhAdAc9c7d5s2h", // three of a kind
        "AhAdKcKs9c5d2h", // two pair
        "AhAd9c7d5s4h2c", // pair
        "Kd9h7s5c4d3h2s", // high card
    ];
    for i in 0..hands.len() {
        for j in (i + 1)..hands.len() {
            assert!(
                eval_str(hands[i]) > eval_str(hands[j]),
                "{} should beat {}",
                hands[i],
                hands[j]
            );
        }
    }
}

#[test]
fn test_category_labels() {
    assert_eq!("RoyalFlush", label("AhKhQhJhTh3c2d"));
    assert_eq!("StraightFlush K", label("9hKhQhJhTh3c2d"));
    assert_eq!("Quads A 9", label("AhAdAcAs9c5d2h"));
    assert_eq!("FullHouse A K", label("AhAdAcKsKd5c2h"));
    assert_eq!("Flush AK953", label("AhKh9h5h3h7c2d"));
    assert_eq!("Straight 6", label("2d3s4d5h6c9sKh"));
    assert_eq!("Trips A 97", label("AhAdAc9c7d5s2h"));
    assert_eq!("TwoPair A K 9", label("AhAdKcKs9c5d2h"));
    assert_eq!("Pair A 975", label("AhAd9c7d5s4h2c"));
    assert_eq!("HighCard K9754", label("Kd9h7s5c4d3h2s"));
}

#[test]
fn test_wheel_below_six_high_straight() {
    let wheel = eval_str("Ad3s2dKhJs5h4d");
    let six_high = eval_str("2d3s4d5h6c9sKh");
    assert!(wheel < six_high);
}

#[test]
fn test_full_house_two_triples() {
    // two triples: the higher plays as the triple, the lower as the pair
    assert_eq!("FullHouse A 2", label("AhAdAc2s2d2h9c"));
    assert_eq!("FullHouse K 2", label("KhKdKc2s2d2h9c"));
}

#[test]
fn test_decode_fields_consistent() {
    let royal = Evaluation::decode(eval_str("AhKhQhJhTh3c2d"));
    assert_eq!("RoyalFlush", royal.get_comb());
    assert_eq!("", royal.get_major());
    assert_eq!("", royal.get_minor());
    assert_eq!("", royal.get_kickers());

    let pair = Evaluation::decode(eval_str("AhAd9c7d5s4h2c"));
    assert_eq!("Pair", pair.get_comb());
    assert_eq!("A", pair.get_major());
    assert_eq!("", pair.get_minor());
    assert_eq!("975", pair.get_kickers());

    let two_pair = Evaluation::decode(eval_str("AhAdKcKs9c5d2h"));
    assert_eq!("TwoPair", two_pair.get_comb());
    assert_eq!("A", two_pair.get_major());
    assert_eq!("K", two_pair.get_minor());
    assert_eq!("9", two_pair.get_kickers());
}

#[test]
fn test_parse_rejects_bad_input() {
    assert!(parse_hand("Xx").is_none()); // malformed token
    assert!(parse_hand("Ad3").is_none()); // trailing odd byte
    assert!(parse_hand("AdAd2c3c4c5c6c").is_none()); // duplicate card
    assert!(parse_hand("2c3c4c5c6c7c8c9c").is_none()); // more than seven cards
    assert!(parse_hand("Ad3s2dKhJs5h4d").is_some());
}

#[test]
fn test_evaluate_hands_pairs_codes() {
    let hands = vec![
        String::from("Ad3s2dKhJs5h4d"),
        String::from("AdAsKdKhJsJh4d"),
    ];
    let evals = evaluate_hands(&hands);
    assert_eq!(2, evals.len());
    assert_eq!("Ad3s2dKhJs5h4d", evals[0].0);
    assert_eq!(eval_str("Ad3s2dKhJs5h4d"), evals[0].1);
    assert_eq!("AdAsKdKhJsJh4d", evals[1].0);
    assert_eq!(eval_str("AdAsKdKhJsJh4d"), evals[1].1);
}

#[test]
fn test_rank_hands_groups_ties() {
    // A: high card king; B and C: the same pair of twos
    let a = String::from("Kd9h7s5c4d3h2s");
    let b = String::from("2d2h9c7d5s4h3c");
    let c = String::from("2s2c9d7h5c4d3s");
    assert_eq!(eval_str(&b), eval_str(&c));
    let hands = vec![a.clone(), b.clone(), c.clone()];
    let tiers = rank_hands(evaluate_hands(&hands));
    assert_eq!(2, tiers.len());
    assert_eq!(2, tiers[0].len());
    assert!(tiers[0].contains(&b));
    assert!(tiers[0].contains(&c));
    assert_eq!(vec![a], tiers[1]);
}

#[test]
fn test_three_pairs_take_two_highest() {
    // with three pairs only the two highest count; the next rank kicks
    let low_seventh = eval_str("AdAsKdKhJsJh2d");
    let high_seventh = eval_str("AdAsKdKhJsJh4d");
    assert_eq!(low_seventh, high_seventh); // the seventh card is below the kicker
    let queens = eval_str("AdAsKdKhQsQh4d");
    assert!(queens > high_seventh); // a higher third pair gives a higher kicker
}

#[test]
fn test_five_card_hands() {
    assert_eq!("RoyalFlush", label("AhKhQhJhTh"));
    assert_eq!("Quads A 9", label("AhAdAcAs9c"));
    assert_eq!("FullHouse A K", label("AhAdAcKsKd"));
    assert_eq!("Straight 6", label("2d3s4d5h6c"));
    assert_eq!("Straight 5", label("Ad2d3s4h5c")); // five-card wheel
    assert_eq!("Trips A KQ", label("AhAdAcKsQs"));
    assert_eq!("TwoPair A K 9", label("AhAdKcKs9c"));
    assert_eq!("Pair A 975", label("AhAd9c7d5s"));
    assert_eq!("HighCard K9752", label("Kd9h7s5c2s"));
    // a five-card straight beats a five-card three of a kind
    assert!(eval_str("2d3s4d5h6c") > eval_str("AhAdAcKsQs"));
    // the five-card wheel beats any non-straight, non-flush hand
    assert!(eval_str("Ad2d3s4h5c") > eval_str("AhAdAcKsQs"));
    assert!(eval_str("Ad2d3s4h5c") > eval_str("AhAdKcKs9c"));
}

#[test]
fn test_six_card_hands() {
    assert_eq!("Pair A 975", label("AhAd9c7d5s4h"));
    assert_eq!("TwoPair A K J", label("AdAsKdKhJsJh")); // three pairs, no seventh card
    assert_eq!("FullHouse A K", label("AhAdAcKsKd2c"));
    assert_eq!("FullHouse A 2", label("AhAdAc2s2d2h")); // two triples in six cards
}
