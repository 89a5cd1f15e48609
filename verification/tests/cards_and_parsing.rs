use poker_trainer::poker::cards::{self, Card};
use poker_trainer::poker::parse::{parse_board, parse_card, parse_hand, parse_range_token, parse_simple_range_hands};

fn c(rank: u8, suit: char) -> Card {
    Card { rank, suit }
}

#[test]
fn parse_card_reads_rank_and_suit() {
    assert_eq!(parse_card("Ah"), Some(c(14, 'h')));
    assert_eq!(parse_card("Kd"), Some(c(13, 'd')));
    assert_eq!(parse_card("Qc"), Some(c(12, 'c')));
    assert_eq!(parse_card("Js"), Some(c(11, 's')));
    assert_eq!(parse_card("Th"), Some(c(10, 'h')));
    assert_eq!(parse_card("9c"), Some(c(9, 'c')));
    assert_eq!(parse_card("0s"), Some(c(0, 's')));
    assert_eq!(cards::parse_card("2d"), Some(c(2, 'd')));
}

#[test]
fn parse_card_rejects_other_codes() {
    assert_eq!(parse_card("Xh"), None);
    assert_eq!(parse_card("A"), None);
    assert_eq!(parse_card("Ahh"), None);
    assert_eq!(parse_card(""), None);
    assert_eq!(parse_card("ah"), None);
}

#[test]
fn parse_hand_reads_chunks() {
    assert_eq!(parse_hand("AhKd"), vec![c(14, 'h'), c(13, 'd')]);
    assert_eq!(parse_hand("AhXd9c"), vec![c(14, 'h'), c(9, 'c')]);
    assert_eq!(parse_hand("AhK"), vec![c(14, 'h')]);
    assert_eq!(parse_hand(""), Vec::<Card>::new());
    assert_eq!(cards::parse_hand("2c3c"), vec![c(2, 'c'), c(3, 'c')]);
}

#[test]
fn parse_hand_skips_chunks_that_are_no_text() {
    // "€" is three bytes; its chunks are not UTF-8 on their own.
    assert_eq!(parse_hand("Ah€"), vec![c(14, 'h')]);
}

#[test]
fn parse_board_is_parse_hand() {
    assert_eq!(parse_board("2c7dTh"), vec![c(2, 'c'), c(7, 'd'), c(10, 'h')]);
}

#[test]
fn range_token_plus() {
    assert_eq!(
        parse_range_token("QQ+"),
        vec![[c(12, 'h'), c(12, 'd')], [c(13, 'h'), c(13, 'd')], [c(14, 'h'), c(14, 'd')]]
    );
    assert_eq!(parse_range_token("A+x"), Vec::<[Card; 2]>::new());
    assert_eq!(parse_range_token("22+"), Vec::<[Card; 2]>::new());
}

#[test]
fn range_token_two_ranks() {
    assert_eq!(parse_range_token("AK"), vec![[c(14, 's'), c(13, 'h')]]);
    assert_eq!(parse_range_token("XK"), Vec::<[Card; 2]>::new());
    assert_eq!(parse_range_token("AKQ"), Vec::<[Card; 2]>::new());
}

#[test]
fn simple_range_splits_and_trims() {
    assert_eq!(
        parse_simple_range_hands("QQ+, AK"),
        vec![
            [c(12, 'h'), c(12, 'd')],
            [c(13, 'h'), c(13, 'd')],
            [c(14, 'h'), c(14, 'd')],
            [c(14, 's'), c(13, 'h')],
        ]
    );
    assert_eq!(
        parse_simple_range_hands("  AA+ ,\t72 ,,"),
        vec![[c(14, 'h'), c(14, 'd')], [c(7, 's'), c(2, 'h')]]
    );
    assert_eq!(parse_simple_range_hands(""), Vec::<[Card; 2]>::new());
    assert_eq!(parse_simple_range_hands("\u{3000}KQ\u{a0}"), vec![[c(13, 's'), c(12, 'h')]]);
}

#[test]
fn hand_text_reads_piecewise() {
    let whole = parse_hand("AhXd9cKs");
    let mut parts = parse_hand("AhXd");
    parts.extend(parse_hand("9cKs"));
    assert_eq!(whole, parts);
}

#[test]
fn readability_checks() {
    assert!(cards::hand_text_is_readable("AhKd"));
    assert!(!cards::hand_text_is_readable("Ahé"));
    assert!(cards::hand_text_is_readable("Aé"));
    assert!(cards::card_code_is_splittable("Ah"));
    assert!(!cards::card_code_is_splittable("é"));
    assert!(poker_trainer::poker::parse::simple_range_is_readable("QQ+, AK"));
    assert!(!poker_trainer::poker::parse::simple_range_is_readable("é+"));
}
