use std::str::FromStr;
use poker_trainer::poker::cards::Card;
use poker_trainer::poker::drill::Drill;
use poker_trainer::poker::drill_result::DrillResult;
use poker_trainer::poker::gto_range::{expand_hand_to_combos, Action, Position};
use rand::thread_rng;
use poker_trainer::poker::range::{parse_hand_code, HandType};
use poker_trainer::poker::user_stats::UserStats;
use poker_trainer::poker::util::{combinations, hand_label};

fn c(rank: u8, suit: char) -> Card {
    Card { rank, suit }
}

#[test]
fn suited_combos() {
    assert_eq!(
        expand_hand_to_combos("AKs"),
        vec![
            [c(14, 'h'), c(13, 'h')],
            [c(14, 'd'), c(13, 'd')],
            [c(14, 'c'), c(13, 'c')],
            [c(14, 's'), c(13, 's')],
        ]
    );
}

#[test]
fn pair_and_offsuit_combos() {
    let pairs = expand_hand_to_combos("QQ");
    assert_eq!(pairs.len(), 6);
    assert_eq!(pairs[0], [c(12, 'h'), c(12, 'd')]);
    assert_eq!(pairs[5], [c(12, 'c'), c(12, 's')]);
    let off = expand_hand_to_combos("T9o");
    assert_eq!(off.len(), 12);
    assert_eq!(off[0], [c(10, 'h'), c(9, 'd')]);
    assert_eq!(off[3], [c(10, 'd'), c(9, 'h')]);
    assert!(off.iter().all(|h| h[0].suit != h[1].suit));
    assert_eq!(expand_hand_to_combos("AK").len(), 16);
    assert_eq!(expand_hand_to_combos("A").len(), 0);
    assert_eq!(expand_hand_to_combos("AKx").len(), 16);
}

#[test]
fn hand_codes() {
    assert_eq!(parse_hand_code("AKs"), (14, 13, HandType::Suited));
    assert_eq!(parse_hand_code("T9o"), (10, 9, HandType::Offsuit));
    assert_eq!(parse_hand_code("QQ"), (12, 12, HandType::Pair));
}

#[test]
fn grid_labels() {
    assert_eq!(hand_label(0, 1), "AKs");
    assert_eq!(hand_label(1, 0), "KAo");
    assert_eq!(hand_label(0, 0), "AA");
    assert_eq!(hand_label(12, 12), "22");
    assert_eq!(hand_label(4, 5), "T9s");
}

#[test]
fn combinations_is_empty() {
    assert!(combinations(&[1, 2, 3], 2).is_empty());
}

#[test]
fn position_and_action_names() {
    assert_eq!(Position::from_str("utg"), Ok(Position::UTG));
    assert_eq!(Position::from_str("Btn"), Ok(Position::BTN));
    assert_eq!(Position::from_str("bb"), Ok(Position::BB));
    assert_eq!(Position::from_str("Defend"), Err(()));
    assert_eq!(Position::from_str("xx"), Err(()));
    assert_eq!(Action::from_str("open"), Ok(Action::Open));
    assert_eq!(Action::from_str("3bet"), Ok(Action::ThreeBet));
    assert_eq!(Action::from_str("FourBet"), Ok(Action::FourBet));
    assert_eq!(Action::from_str("defend"), Err(()));
    assert_eq!(Position::from_upper("Defend"), Ok(Position::Defend));
}

#[test]
fn stats_record_and_get() {
    let mut s = UserStats::new();
    assert_eq!(s.get(Position::BTN, Action::Open), (0, 0));
    s.record(Position::BTN, Action::Open, true);
    s.record(Position::BTN, Action::Open, false);
    s.record(Position::SB, Action::Call, true);
    assert_eq!(s.get(Position::BTN, Action::Open), (1, 2));
    assert_eq!(s.get(Position::SB, Action::Call), (1, 1));
    assert_eq!(s.get(Position::BB, Action::Open), (0, 0));
    assert_eq!(s.totals(), (2, 3));
}

#[test]
fn grading_records_the_answer() {
    let mut s = UserStats::new();
    let hand = vec![c(14, 'h'), c(13, 'h')];
    let r = DrillResult::record_answer(&mut s, Position::CO, Action::ThreeBet, Action::ThreeBet, hand.clone());
    assert!(r.correct);
    assert_eq!(r.hand, hand);
    let w = DrillResult::record_answer(&mut s, Position::CO, Action::ThreeBet, Action::Call, hand);
    assert!(!w.correct);
    assert_eq!(s.get(Position::CO, Action::ThreeBet), (1, 2));
}

#[test]
fn drills_from_hand_codes() {
    let d = Drill::with_combo(Position::UTG, Action::Open, "AKs", 2);
    assert_eq!(d.hand, vec![c(14, 'c'), c(13, 'c')]);
    let e = Drill::with_combo(Position::UTG, Action::Open, "A", 0);
    assert!(e.hand.is_empty());
    let mut rng = thread_rng();
    let f = Drill::for_hand_code(&mut rng, Position::MP, Action::Call, "JJ");
    assert_eq!(f.position, Position::MP);
    assert_eq!(f.hand.len(), 2);
    assert_eq!(f.hand[0].rank, 11);
    assert_ne!(f.hand[0].suit, f.hand[1].suit);
}

#[test]
fn grid_labels_expand_to_their_combos() {
    for r in 0..13 {
        for col in 0..13 {
            let n = expand_hand_to_combos(&hand_label(r, col)).len();
            let expected = if r == col { 6 } else if r < col { 4 } else { 12 };
            assert_eq!(n, expected);
        }
    }
}
