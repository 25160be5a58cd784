use pairs_rs::cards::{Card, CardConvertionError, Deck, Rank, Suit, SuitColor};

fn deck_cards(d: &Deck) -> Vec<Card> {
    let mut v = Vec::new();
    for i in 0..d.len() {
        v.push(d.get(i));
    }
    v
}

#[test]
fn card_round_trip_all_valid_indices() {
    for su in 0u8..4 {
        for rk in 0u8..13 {
            let card = Card::try_from([su, rk]).unwrap();
            assert_eq!(card.suit.index(), su);
            assert_eq!(card.rank.index(), rk);
        }
    }
}

#[test]
fn card_decode_rejects_out_of_range_indices() {
    assert!(matches!(
        Card::try_from([4, 0]),
        Err(CardConvertionError::InvalidSuitIndex)
    ));
    assert!(matches!(
        Card::try_from([255, 5]),
        Err(CardConvertionError::InvalidSuitIndex)
    ));
    assert!(matches!(
        Card::try_from([0, 13]),
        Err(CardConvertionError::InvalidRankIndex)
    ));
    assert!(matches!(
        Card::try_from([3, 200]),
        Err(CardConvertionError::InvalidRankIndex)
    ));
    assert!(matches!(
        Rank::try_from(13),
        Err(CardConvertionError::InvalidRankIndex)
    ));
    assert!(matches!(
        Suit::try_from(4),
        Err(CardConvertionError::InvalidSuitIndex)
    ));
}

#[test]
fn suit_colors() {
    assert_eq!(Suit::Diamonds.color(), SuitColor::Red);
    assert_eq!(Suit::Hearts.color(), SuitColor::Red);
    assert_eq!(Suit::Clubs.color(), SuitColor::Black);
    assert_eq!(Suit::Spades.color(), SuitColor::Black);
    assert_eq!(Card::new(Suit::Hearts, Rank::Ace).color(), SuitColor::Red);
}

#[test]
fn card_labels() {
    assert_eq!(Card::new(Suit::Hearts, Rank::Ace).label(), " A\u{2661}");
    assert_eq!(Card::new(Suit::Spades, Rank::Ten).label(), "10\u{2664}");
    assert_eq!(Card::new(Suit::Clubs, Rank::Queen).label(), " Q\u{2667}");
    assert_eq!(Card::new(Suit::Diamonds, Rank::Two).label(), " 2\u{2662}");
    assert_eq!(Rank::King.label(), "K");
    assert_eq!(Suit::Diamonds.glyph(), "\u{2662}");
}

#[test]
fn natural_deck_is_canonical() {
    let d = Deck::new();
    assert_eq!(d.len(), 52);
    for su in 0u8..4 {
        for rk in 0u8..13 {
            let c = d.get((su as usize) * 13 + rk as usize);
            assert_eq!(c.suit.index(), su);
            assert_eq!(c.rank.index(), rk);
        }
    }
}

fn assert_all_52_distinct(cards: &[Card]) {
    assert_eq!(cards.len(), 52);
    let mut sorted = cards.to_vec();
    sorted.sort();
    for w in sorted.windows(2) {
        assert_ne!(w[0], w[1]);
    }
}

#[test]
fn paired_deck_has_26_rank_windows_covering_each_rank_twice() {
    let d = Deck::paired();
    let cards = deck_cards(&d);
    assert_all_52_distinct(&cards);
    let mut rank_window_counts = [0usize; 13];
    for i in 0..26 {
        let a = cards[2 * i];
        let b = cards[2 * i + 1];
        assert_eq!(a.rank, b.rank, "window {} does not share a rank", i);
        rank_window_counts[a.rank.index() as usize] += 1;
    }
    for (rk, count) in rank_window_counts.iter().enumerate() {
        assert_eq!(*count, 2, "rank index {} not covered exactly twice", rk);
    }
}

#[test]
fn shuffled_deck_is_a_permutation() {
    let d = Deck::shuffled();
    let cards = deck_cards(&d);
    assert_all_52_distinct(&cards);
}

#[test]
fn paired_shuffled_keeps_pair_adjacency_across_runs() {
    let mut runs: Vec<Vec<Card>> = Vec::new();
    for _ in 0..5 {
        let d = Deck::paired_shuffled();
        let cards = deck_cards(&d);
        assert_all_52_distinct(&cards);
        for i in 0..26 {
            assert_eq!(cards[2 * i].rank, cards[2 * i + 1].rank);
        }
        runs.push(cards);
    }
    // the window arrangement varies from run to run
    let any_differ = runs.iter().any(|r| r != &runs[0]);
    assert!(any_differ, "five shuffles all produced one arrangement");
}
