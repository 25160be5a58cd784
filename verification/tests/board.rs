use pairs_rs::board::{generate_board, Board, InvalidBoardSizeError, Player};
use pairs_rs::cards::{Card, Deck};

fn board_cards(b: &Board) -> Vec<Card> {
    let mut v = Vec::new();
    for r in 0..b.rows() {
        for c in 0..b.cols() {
            if let Some(p) = b.slot(r, c) {
                v.push(p.card);
            }
        }
    }
    v
}

#[test]
fn board_rejects_sizes_outside_range() {
    assert!(matches!(generate_board(0), Err(InvalidBoardSizeError)));
    assert!(matches!(generate_board(27), Err(InvalidBoardSizeError)));
    assert!(generate_board(255).is_err());
    assert!(generate_board(26).is_ok());
    let deck = Deck::paired_shuffled();
    assert!(Board::new(&deck, 0).is_err());
    assert!(Board::new(&deck, 27).is_err());
    assert!(Board::new(&deck, 26).is_ok());
    assert!(Board::new(&deck, 1).is_ok());
}

#[test]
fn board_of_18_pairs_is_a_6_by_6_grid_of_36_face_down_slots() {
    let b = generate_board(18).unwrap();
    assert_eq!(b.rows(), 6);
    assert_eq!(b.cols(), 6);
    let mut slots = 0;
    for r in 0..b.rows() {
        for c in 0..b.cols() {
            let p = b.slot(r, c).expect("every cell is occupied");
            assert!(p.flipped, "freshly dealt cards lie face down");
            slots += 1;
        }
    }
    assert_eq!(slots, 36);
}

#[test]
fn board_dimensions_are_squarest_for_all_sizes() {
    for s in 1u8..=26 {
        let b = generate_board(s).unwrap();
        let area = 2 * s as usize;
        assert_eq!(b.rows() * b.cols(), area);
        assert!(b.cols() <= b.rows());
        for x in 1..=area {
            if area % x == 0 {
                let y = area / x;
                if x <= y {
                    assert!(b.rows() - b.cols() <= y - x);
                }
            }
        }
    }
}

#[test]
fn board_cards_are_distinct_and_rank_paired() {
    let b = generate_board(10).unwrap();
    let cards = board_cards(&b);
    assert_eq!(cards.len(), 20);
    let mut sorted = cards.clone();
    sorted.sort();
    for w in sorted.windows(2) {
        assert_ne!(w[0], w[1]);
    }
    let mut rank_counts = [0usize; 13];
    for c in &cards {
        rank_counts[c.rank.index() as usize] += 1;
    }
    for count in rank_counts {
        assert!(count % 2 == 0, "each present rank forms whole pairs");
    }
}

#[test]
fn flipping_the_same_coordinate_twice_restores_the_state() {
    let mut b = generate_board(5).unwrap();
    let before = b.slot(0, 0).unwrap().flipped;
    b.flip(0, 0);
    assert_eq!(b.slot(0, 0).unwrap().flipped, !before);
    b.flip(0, 0);
    assert_eq!(b.slot(0, 0).unwrap().flipped, before);
    // the rest of the board is untouched
    for r in 0..b.rows() {
        for c in 0..b.cols() {
            assert!(b.slot(r, c).unwrap().flipped);
        }
    }
}

#[test]
fn render_shows_face_down_and_face_up_slots() {
    let mut b = generate_board(1).unwrap();
    // one pair: a 2 x 1 grid
    assert_eq!(b.rows(), 2);
    assert_eq!(b.cols(), 1);
    let lines = b.render_lines();
    assert_eq!(lines, vec!["---".to_string(), "---".to_string()]);
    b.flip(0, 0);
    let card = b.slot(0, 0).unwrap().card;
    let lines = b.render_lines();
    assert_eq!(lines[0], card.label());
    assert_eq!(lines[1], "---");
}

#[test]
fn new_player_has_no_collected_pairs() {
    let p = Player::new("Dana".to_string());
    assert_eq!(p.name, "Dana");
    assert!(p.paired_cards.is_empty());
}
