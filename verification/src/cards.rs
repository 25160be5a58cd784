//! The card and deck model: ranks, suits, index conversions, display
//! labels, and the four canonical deck arrangements.

use crate::shuffle::shuffle_vec;
use vstd::arithmetic::div_mod::{lemma_fundamental_div_mod, lemma_fundamental_div_mod_converse};
use vstd::prelude::*;
use vstd::string::StringExecFns;

verus! {

/// Failure of decoding a card from its two-byte (suit, rank) index form.
#[derive(Clone, Copy, Debug, PartialEq, Eq, Structural)]
pub enum CardConvertionError {
    InvalidSuitIndex,
    InvalidRankIndex,
}

/// The thirteen ranks, Ace low through King high.
#[derive(Clone, Copy, Debug, PartialEq, Eq, Structural, PartialOrd, Ord)]
pub enum Rank {
    Ace,
    Two,
    Three,
    Four,
    Five,
    Six,
    Seven,
    Eight,
    Nine,
    Ten,
    Jack,
    Queen,
    King,
}

/// The four suits, in index order.
#[derive(Clone, Copy, Debug, PartialEq, Eq, Structural, PartialOrd, Ord)]
pub enum Suit {
    Clubs,
    Diamonds,
    Hearts,
    Spades,
}

/// The two suit colors.
#[derive(Clone, Copy, Debug, PartialEq, Eq, Structural, PartialOrd, Ord)]
pub enum SuitColor {
    Red,
    Black,
}

/// The index of a rank, in `[0, 13)`.
pub open spec fn rank_index(r: Rank) -> int {
    match r {
        Rank::Ace => 0,
        Rank::Two => 1,
        Rank::Three => 2,
        Rank::Four => 3,
        Rank::Five => 4,
        Rank::Six => 5,
        Rank::Seven => 6,
        Rank::Eight => 7,
        Rank::Nine => 8,
        Rank::Ten => 9,
        Rank::Jack => 10,
        Rank::Queen => 11,
        Rank::King => 12,
    }
}

/// The rank with a given index in `[0, 13)`.
pub open spec fn rank_from_index(i: int) -> Rank {
    if i == 0 {
        Rank::Ace
    } else if i == 1 {
        Rank::Two
    } else if i == 2 {
        Rank::Three
    } else if i == 3 {
        Rank::Four
    } else if i == 4 {
        Rank::Five
    } else if i == 5 {
        Rank::Six
    } else if i == 6 {
        Rank::Seven
    } else if i == 7 {
        Rank::Eight
    } else if i == 8 {
        Rank::Nine
    } else if i == 9 {
        Rank::Ten
    } else if i == 10 {
        Rank::Jack
    } else if i == 11 {
        Rank::Queen
    } else {
        Rank::King
    }
}

/// The index of a suit, in `[0, 4)`.
pub open spec fn suit_index(s: Suit) -> int {
    match s {
        Suit::Clubs => 0,
        Suit::Diamonds => 1,
        Suit::Hearts => 2,
        Suit::Spades => 3,
    }
}

/// The suit with a given index in `[0, 4)`.
pub open spec fn suit_from_index(i: int) -> Suit {
    if i == 0 {
        Suit::Clubs
    } else if i == 1 {
        Suit::Diamonds
    } else if i == 2 {
        Suit::Hearts
    } else {
        Suit::Spades
    }
}

/// The color a suit maps to: Diamonds and Hearts are red, Clubs and
/// Spades are black.
pub open spec fn spec_suit_color(s: Suit) -> SuitColor {
    match s {
        Suit::Clubs => SuitColor::Black,
        Suit::Spades => SuitColor::Black,
        Suit::Diamonds => SuitColor::Red,
        Suit::Hearts => SuitColor::Red,
    }
}

impl Rank {
    /// Decodes a rank from its index; indices `>= 13` are rejected.
    pub fn try_from(value: u8) -> (r: Result<Rank, CardConvertionError>)
        ensures
            r == if value < 13 {
                Result::<Rank, CardConvertionError>::Ok(rank_from_index(value as int))
            } else {
                Result::<Rank, CardConvertionError>::Err(CardConvertionError::InvalidRankIndex)
            },
    {
        if value >= 13 {
            return Err(CardConvertionError::InvalidRankIndex);
        }
        Ok(
            match value {
                0 => Rank::Ace,
                1 => Rank::Two,
                2 => Rank::Three,
                3 => Rank::Four,
                4 => Rank::Five,
                5 => Rank::Six,
                6 => Rank::Seven,
                7 => Rank::Eight,
                8 => Rank::Nine,
                9 => Rank::Ten,
                10 => Rank::Jack,
                11 => Rank::Queen,
                _ => Rank::King,
            },
        )
    }

    /// Re-encodes a rank as its index.
    pub fn index(&self) -> (r: u8)
        ensures
            r as int == rank_index(*self),
    {
        match self {
            Rank::Ace => 0,
            Rank::Two => 1,
            Rank::Three => 2,
            Rank::Four => 3,
            Rank::Five => 4,
            Rank::Six => 5,
            Rank::Seven => 6,
            Rank::Eight => 7,
            Rank::Nine => 8,
            Rank::Ten => 9,
            Rank::Jack => 10,
            Rank::Queen => 11,
            Rank::King => 12,
        }
    }

    /// The display glyph of a rank: `"A"`, `"2"` .. `"10"`, `"J"`, `"Q"`, `"K"`.
    pub fn label(&self) -> (r: &'static str)
        ensures
            r@ == spec_rank_label(*self),
    {
        match self {
            Rank::Ace => "A",
            Rank::Two => "2",
            Rank::Three => "3",
            Rank::Four => "4",
            Rank::Five => "5",
            Rank::Six => "6",
            Rank::Seven => "7",
            Rank::Eight => "8",
            Rank::Nine => "9",
            Rank::Ten => "10",
            Rank::Jack => "J",
            Rank::Queen => "Q",
            Rank::King => "K",
        }
    }
}

/// The display glyph of a rank, as a character sequence.
pub open spec fn spec_rank_label(r: Rank) -> Seq<char> {
    match r {
        Rank::Ace => "A"@,
        Rank::Two => "2"@,
        Rank::Three => "3"@,
        Rank::Four => "4"@,
        Rank::Five => "5"@,
        Rank::Six => "6"@,
        Rank::Seven => "7"@,
        Rank::Eight => "8"@,
        Rank::Nine => "9"@,
        Rank::Ten => "10"@,
        Rank::Jack => "J"@,
        Rank::Queen => "Q"@,
        Rank::King => "K"@,
    }
}

impl Suit {
    /// Decodes a suit from its index; indices `>= 4` are rejected.
    pub fn try_from(value: u8) -> (r: Result<Suit, CardConvertionError>)
        ensures
            r == if value < 4 {
                Result::<Suit, CardConvertionError>::Ok(suit_from_index(value as int))
            } else {
                Result::<Suit, CardConvertionError>::Err(CardConvertionError::InvalidSuitIndex)
            },
    {
        if value >= 4 {
            return Err(CardConvertionError::InvalidSuitIndex);
        }
        Ok(
            match value {
                0 => Suit::Clubs,
                1 => Suit::Diamonds,
                2 => Suit::Hearts,
                _ => Suit::Spades,
            },
        )
    }

    /// Re-encodes a suit as its index.
    pub fn index(&self) -> (r: u8)
        ensures
            r as int == suit_index(*self),
    {
        match self {
            Suit::Clubs => 0,
            Suit::Diamonds => 1,
            Suit::Hearts => 2,
            Suit::Spades => 3,
        }
    }

    /// The color of the suit.
    pub fn color(&self) -> (r: SuitColor)
        ensures
            r == spec_suit_color(*self),
    {
        match self {
            Suit::Clubs | Suit::Spades => SuitColor::Black,
            _ => SuitColor::Red,
        }
    }

    /// The display glyph of a suit.
    pub fn glyph(&self) -> (r: &'static str)
        ensures
            r@ == spec_suit_glyph(*self),
    {
        match self {
            Suit::Clubs => "\u{2667}",
            Suit::Diamonds => "\u{2662}",
            Suit::Hearts => "\u{2661}",
            Suit::Spades => "\u{2664}",
        }
    }
}

/// The display glyph of a suit, as a character sequence.
pub open spec fn spec_suit_glyph(s: Suit) -> Seq<char> {
    match s {
        Suit::Clubs => "\u{2667}"@,
        Suit::Diamonds => "\u{2662}"@,
        Suit::Hearts => "\u{2661}"@,
        Suit::Spades => "\u{2664}"@,
    }
}

/// A playing card: an immutable (suit, rank) pair.
#[derive(Clone, Copy, Debug, PartialEq, Eq, Structural, PartialOrd, Ord)]
pub struct Card {
    pub suit: Suit,
    pub rank: Rank,
}

impl Card {
    /// Builds the card with the given suit and rank.
    pub fn new(suit: Suit, rank: Rank) -> (r: Card)
        ensures
            r == (Card { suit, rank }),
    {
        Card { suit, rank }
    }

    /// The color of the card, keyed to its suit.
    pub fn color(&self) -> (r: SuitColor)
        ensures
            r == spec_suit_color(self.suit),
    {
        self.suit.color()
    }

    /// Decodes a card from a `[suit_index, rank_index]` pair.  An
    /// out-of-range suit index is reported first, then an out-of-range
    /// rank index.
    pub fn try_from(value: [u8; 2]) -> (r: Result<Card, CardConvertionError>)
        ensures
            r == if value[0] >= 4 {
                Result::<Card, CardConvertionError>::Err(CardConvertionError::InvalidSuitIndex)
            } else if value[1] >= 13 {
                Result::<Card, CardConvertionError>::Err(CardConvertionError::InvalidRankIndex)
            } else {
                Result::<Card, CardConvertionError>::Ok(
                    Card {
                        suit: suit_from_index(value[0] as int),
                        rank: rank_from_index(value[1] as int),
                    },
                )
            },
    {
        let suit = value[0];
        let rank = value[1];
        let suit = match Suit::try_from(suit) {
            Ok(s) => s,
            Err(e) => {
                return Err(e);
            },
        };
        let rank = match Rank::try_from(rank) {
            Ok(rk) => rk,
            Err(e) => {
                return Err(e);
            },
        };
        Ok(Card::new(suit, rank))
    }

    /// The display string of a card: the rank glyph right-aligned in a
    /// field of two characters, followed by the suit glyph.
    pub fn label(&self) -> (r: String)
        ensures
            r@ == spec_card_label(*self),
    {
        let mut s: String = if self.rank == Rank::Ten {
            String::new()
        } else {
            " ".to_owned()
        };
        s.append(self.rank.label());
        s.append(self.suit.glyph());
        s
    }
}

/// The display string of a card, as a character sequence: the rank glyph
/// padded on the left to width two, then the suit glyph.
pub open spec fn spec_card_label(c: Card) -> Seq<char> {
    let pad: Seq<char> = if c.rank == Rank::Ten {
        Seq::empty()
    } else {
        " "@
    };
    pad + spec_rank_label(c.rank) + spec_suit_glyph(c.suit)
}

/// The canonical 52-card sequence: suits in index order as the outer
/// loop, ranks in index order within each suit.
pub open spec fn canonical_deck() -> Seq<Card> {
    Seq::new(
        52,
        |i: int| Card { suit: suit_from_index(i / 13), rank: rank_from_index(i % 13) },
    )
}

/// The suit standing at offset `i` of a rank group in the paired
/// arrangement: the red suits in canonical order, then the black ones.
pub open spec fn paired_slot_suit(i: int) -> Suit {
    if i == 0 {
        Suit::Diamonds
    } else if i == 1 {
        Suit::Hearts
    } else if i == 2 {
        Suit::Clubs
    } else {
        Suit::Spades
    }
}

/// The offset of a suit within its rank group of the paired arrangement.
pub open spec fn paired_slot_of_suit(s: Suit) -> int {
    match s {
        Suit::Diamonds => 0,
        Suit::Hearts => 1,
        Suit::Clubs => 2,
        Suit::Spades => 3,
    }
}

/// The paired arrangement: the canonical cards sorted stably by color and
/// then by rank, which groups the four cards of each rank together with
/// the red suits first.
pub open spec fn paired_deck() -> Seq<Card> {
    Seq::new(
        52,
        |i: int| Card { suit: paired_slot_suit(i % 4), rank: rank_from_index(i / 4) },
    )
}

/// A well-formed deck: 52 cards, no card repeated, every (suit, rank)
/// combination present.
pub open spec fn wf_deck(s: Seq<Card>) -> bool {
    &&& s.len() == 52
    &&& s.no_duplicates()
    &&& forall|c: Card| s.contains(c)
}

/// Every adjacent two-card window (at even offsets) holds two cards of
/// one rank.
pub open spec fn pair_adjacent(s: Seq<Card>) -> bool {
    forall|i: int| 0 <= i < s.len() / 2 ==> (#[trigger] s[2 * i]).rank == s[2 * i + 1].rank
}

/// The two cards form, in order, one of the 26 windows of the paired
/// arrangement.
pub open spec fn is_paired_window(a: Card, b: Card) -> bool {
    exists|j: int|
        0 <= j < 26 && a == #[trigger] paired_deck()[2 * j] && b == paired_deck()[2 * j + 1]
}

/// Every adjacent two-card window of `s` is a window of the paired
/// arrangement, with its internal order kept.
pub open spec fn windows_from_paired(s: Seq<Card>) -> bool {
    forall|i: int| 0 <= i < s.len() / 2 ==> #[trigger] is_paired_window(s[2 * i], s[2 * i + 1])
}

/// Some window of the paired arrangement holds the rank `r`.
pub open spec fn rank_in_some_window(r: Rank) -> bool {
    exists|i: int| 0 <= i < 26 && (#[trigger] paired_deck()[2 * i]).rank == r
}

/// The canonical deck is well formed.
pub proof fn lemma_canonical_wf()
    ensures
        wf_deck(canonical_deck()),
{
    let s = canonical_deck();
    assert forall|i: int, j: int|
        0 <= i < s.len() && 0 <= j < s.len() && i != j implies s[i] != s[j] by {
        lemma_fundamental_div_mod(i, 13);
        lemma_fundamental_div_mod(j, 13);
        if s[i] == s[j] {
            assert(i / 13 == j / 13);
            assert(i % 13 == j % 13);
            assert(false);
        }
    }
    assert forall|c: Card| s.contains(c) by {
        let i = 13 * suit_index(c.suit) + rank_index(c.rank);
        lemma_fundamental_div_mod_converse(i, 13, suit_index(c.suit), rank_index(c.rank));
        assert(s[i] == c);
    }
}

/// The paired deck is well formed.
pub proof fn lemma_paired_wf()
    ensures
        wf_deck(paired_deck()),
{
    let s = paired_deck();
    assert forall|i: int, j: int|
        0 <= i < s.len() && 0 <= j < s.len() && i != j implies s[i] != s[j] by {
        lemma_fundamental_div_mod(i, 4);
        lemma_fundamental_div_mod(j, 4);
        if s[i] == s[j] {
            assert(i % 4 == j % 4);
            assert(i / 4 == j / 4);
            assert(false);
        }
    }
    assert forall|c: Card| s.contains(c) by {
        let i = 4 * rank_index(c.rank) + paired_slot_of_suit(c.suit);
        lemma_fundamental_div_mod_converse(i, 4, rank_index(c.rank), paired_slot_of_suit(c.suit));
        assert(s[i] == c);
    }
}

/// The paired arrangement consists of 26 adjacent two-card windows, each
/// holding two cards of one rank; window `i` holds the rank with index
/// `i / 2`, so every rank is covered by exactly two windows.
pub proof fn lemma_paired_pairs()
    ensures
        paired_deck().len() == 52,
        pair_adjacent(paired_deck()),
        forall|i: int|
            0 <= i < 26 ==> (#[trigger] paired_deck()[2 * i]).rank == rank_from_index(i / 2),
        forall|r: Rank| #[trigger] rank_in_some_window(r),
        forall|i: int, j: int|
            0 <= i < j < 26 && (#[trigger] paired_deck()[2 * i]).rank == (
            #[trigger] paired_deck()[2 * j]).rank ==> j == i + 1,
{
    let s = paired_deck();
    assert forall|i: int| 0 <= i < 26 implies (#[trigger] s[2 * i]).rank == rank_from_index(i / 2)
        && s[2 * i + 1].rank == rank_from_index(i / 2) by {
        lemma_fundamental_div_mod(i, 2);
        lemma_fundamental_div_mod_converse(2 * i, 4, i / 2, 2 * (i % 2));
        lemma_fundamental_div_mod_converse(2 * i + 1, 4, i / 2, 2 * (i % 2) + 1);
    }
    assert forall|r: Rank| #[trigger] rank_in_some_window(r) by {
        let i = 2 * rank_index(r);
        assert(0 <= i < 26 && s[2 * i].rank == rank_from_index(i / 2));
        lemma_fundamental_div_mod_converse(i, 2, rank_index(r), 0);
        assert(s[2 * i].rank == r);
    }
    assert forall|i: int, j: int|
        0 <= i < j < 26 && (#[trigger] paired_deck()[2 * i]).rank == (
        #[trigger] paired_deck()[2 * j]).rank implies j == i + 1 by {
        lemma_fundamental_div_mod(i, 2);
        lemma_fundamental_div_mod(j, 2);
        assert(rank_from_index(i / 2) == rank_from_index(j / 2));
        assert(i / 2 == j / 2);
    }
}

/// A deck: an ordered collection of the 52 cards, each present exactly
/// once, in one of the four canonical arrangements.
pub struct Deck {
    cards: Vec<Card>,
}

impl View for Deck {
    type V = Seq<Card>;

    closed spec fn view(&self) -> Seq<Card> {
        self.cards@
    }
}

impl Deck {
    /// The number of cards held; always 52 for a constructed deck.
    pub fn len(&self) -> (r: usize)
        ensures
            r == self@.len(),
    {
        self.cards.len()
    }

    /// The card standing at position `i`.
    pub fn get(&self, i: usize) -> (c: Card)
        requires
            i < self@.len(),
        ensures
            c == self@[i as int],
    {
        self.cards[i]
    }

    /// The deck in canonical order.
    pub fn new() -> (r: Deck)
        ensures
            r@ == canonical_deck(),
            wf_deck(r@),
    {
        proof {
            lemma_canonical_wf();
        }
        Deck { cards: Deck::all_cards() }
    }

    /// The deck in paired order: equal ranks adjacent.
    pub fn paired() -> (r: Deck)
        ensures
            r@ == paired_deck(),
            wf_deck(r@),
    {
        proof {
            lemma_paired_wf();
        }
        Deck { cards: Deck::all_cards_paired() }
    }

    /// The deck under a uniform random permutation of the single cards;
    /// the pairing structure is destroyed.
    pub fn shuffled() -> (r: Deck)
        ensures
            wf_deck(r@),
    {
        Deck { cards: Deck::all_cards_shuffled() }
    }

    /// The deck in paired order with the 26 two-card windows uniformly
    /// permuted as whole windows: every adjacent window still holds one
    /// rank, and keeps the internal order the paired step produced.
    pub fn paired_shuffled() -> (r: Deck)
        ensures
            wf_deck(r@),
            pair_adjacent(r@),
            windows_from_paired(r@),
    {
        Deck { cards: Deck::all_cards_paired_shuffled() }
    }

    /// The canonical 52-card sequence.
    fn all_cards() -> (r: Vec<Card>)
        ensures
            r@ == canonical_deck(),
    {
        let mut cards: Vec<Card> = Vec::new();
        let mut su: u8 = 0;
        while su < 4
            invariant
                su <= 4,
                cards@.len() == 13 * su,
                forall|k: int| 0 <= k < cards@.len() ==> cards@[k] == canonical_deck()[k],
            decreases 4 - su,
        {
            let mut rk: u8 = 0;
            while rk < 13
                invariant
                    su < 4,
                    rk <= 13,
                    cards@.len() == 13 * su + rk,
                    forall|k: int| 0 <= k < cards@.len() ==> cards@[k] == canonical_deck()[k],
                decreases 13 - rk,
            {
                cards.push(Card { suit: suit_of(su), rank: rank_of(rk) });
                proof {
                    lemma_fundamental_div_mod_converse(13 * su + rk, 13, su as int, rk as int);
                }
                rk = rk + 1;
            }
            su = su + 1;
        }
        proof {
            assert(cards@ =~= canonical_deck());
        }
        cards
    }

    /// The paired 52-card sequence: for each rank in index order, its
    /// four cards with the red suits first.
    fn all_cards_paired() -> (r: Vec<Card>)
        ensures
            r@ == paired_deck(),
    {
        let mut cards: Vec<Card> = Vec::new();
        let mut rk: u8 = 0;
        while rk < 13
            invariant
                rk <= 13,
                cards@.len() == 4 * rk,
                forall|k: int| 0 <= k < cards@.len() ==> cards@[k] == paired_deck()[k],
            decreases 13 - rk,
        {
            let mut j: u8 = 0;
            while j < 4
                invariant
                    rk < 13,
                    j <= 4,
                    cards@.len() == 4 * rk + j,
                    forall|k: int| 0 <= k < cards@.len() ==> cards@[k] == paired_deck()[k],
                decreases 4 - j,
            {
                let suit = if j == 0 {
                    Suit::Diamonds
                } else if j == 1 {
                    Suit::Hearts
                } else if j == 2 {
                    Suit::Clubs
                } else {
                    Suit::Spades
                };
                cards.push(Card { suit, rank: rank_of(rk) });
                proof {
                    lemma_fundamental_div_mod_converse(4 * rk + j, 4, rk as int, j as int);
                }
                j = j + 1;
            }
            rk = rk + 1;
        }
        proof {
            assert(cards@ =~= paired_deck());
        }
        cards
    }

    /// The canonical sequence under one uniform random permutation.
    fn all_cards_shuffled() -> (r: Vec<Card>)
        ensures
            wf_deck(r@),
    {
        let mut cards = Deck::all_cards();
        shuffle_vec(&mut cards);
        proof {
            lemma_canonical_wf();
            lemma_wf_from_multiset(canonical_deck(), cards@);
        }
        cards
    }

    /// The paired sequence, split into its 26 windows, with the sequence
    /// of windows uniformly permuted and flattened back.
    fn all_cards_paired_shuffled() -> (r: Vec<Card>)
        ensures
            wf_deck(r@),
            pair_adjacent(r@),
            windows_from_paired(r@),
    {
        let cards = Deck::all_cards_paired();
        let mut chunked: Vec<(Card, Card)> = Vec::new();
        let mut i: usize = 0;
        while i < 26
            invariant
                cards@ == paired_deck(),
                chunked@.len() == i,
                i <= 26,
                forall|k: int|
                    0 <= k < i ==> #[trigger] chunked@[k] == (
                    paired_deck()[2 * k],
                    paired_deck()[2 * k + 1],
                ),
            decreases 26 - i,
        {
            chunked.push((cards[2 * i], cards[2 * i + 1]));
            i = i + 1;
        }
        proof {
            assert(chunked@ =~= deck_chunks(paired_deck()));
        }
        shuffle_vec(&mut chunked);
        let ghost cs = chunked@;
        let mut out: Vec<Card> = Vec::new();
        let mut i: usize = 0;
        while i < 26
            invariant
                chunked@ == cs,
                cs.len() == 26,
                cs.to_multiset() == deck_chunks(paired_deck()).to_multiset(),
                out@.len() == 2 * i,
                i <= 26,
                forall|k: int|
                    0 <= k < i ==> out@[2 * k] == (#[trigger] cs[k]).0 && out@[2 * k + 1]
                        == cs[k].1,
            decreases 26 - i,
        {
            let (a, b) = chunked[i];
            out.push(a);
            out.push(b);
            i = i + 1;
        }
        proof {
            lemma_shuffled_windows_ok(cs, out@);
        }
        out
    }
}

/// The sequence of adjacent two-card windows of a card sequence.
pub open spec fn deck_chunks(s: Seq<Card>) -> Seq<(Card, Card)> {
    Seq::new(s.len() / 2, |i: int| (s[2 * i], s[2 * i + 1]))
}

/// A deck with the same card multiset as a well-formed one is itself
/// well formed.
proof fn lemma_wf_from_multiset(s1: Seq<Card>, s2: Seq<Card>)
    requires
        wf_deck(s1),
        s2.to_multiset() == s1.to_multiset(),
    ensures
        wf_deck(s2),
{
    broadcast use vstd::seq_lib::group_to_multiset_ensures;

    s1.lemma_multiset_has_no_duplicates();
    assert(s1.to_multiset().len() == s1.len());
    assert(s2.to_multiset().len() == s2.len());
    assert forall|x: Card| s2.to_multiset().contains(x) implies s2.to_multiset().count(x)
        == 1 by {
        assert(s1.to_multiset().count(x) > 0);
    }
    s2.lemma_multiset_has_no_duplicates_conv();
    assert forall|c: Card| s2.contains(c) by {
        assert(s1.contains(c));
        assert(s1.to_multiset().count(c) > 0);
    }
}

/// Flattening any permutation of the paired windows yields a well-formed,
/// pair-adjacent deck whose windows all come from the paired arrangement.
proof fn lemma_shuffled_windows_ok(cs: Seq<(Card, Card)>, out: Seq<Card>)
    requires
        cs.len() == 26,
        cs.to_multiset() == deck_chunks(paired_deck()).to_multiset(),
        out.len() == 52,
        forall|k: int|
            0 <= k < 26 ==> out[2 * k] == (#[trigger] cs[k]).0 && out[2 * k + 1] == cs[k].1,
    ensures
        wf_deck(out),
        pair_adjacent(out),
        windows_from_paired(out),
{
    broadcast use vstd::seq_lib::group_to_multiset_ensures;

    lemma_paired_wf();
    lemma_paired_pairs();
    let pd = paired_deck();
    let pc = deck_chunks(pd);
    assert(pc.len() == 26);
    assert forall|i: int, j: int|
        0 <= i < pc.len() && 0 <= j < pc.len() && i != j implies pc[i] != pc[j] by {
        assert(pd[2 * i] != pd[2 * j]);
    }
    pc.lemma_multiset_has_no_duplicates();
    assert forall|x: (Card, Card)| cs.to_multiset().contains(x) implies cs.to_multiset().count(x)
        == 1 by {
        assert(pc.to_multiset().count(x) > 0);
    }
    cs.lemma_multiset_has_no_duplicates_conv();
    // every window of the output is some window of the paired arrangement
    assert forall|i: int| 0 <= i < out.len() / 2 implies #[trigger] is_paired_window(
        out[2 * i],
        out[2 * i + 1],
    ) by {
        assert(cs.contains(cs[i]));
        assert(pc.to_multiset().count(cs[i]) > 0);
        assert(pc.contains(cs[i]));
        let j = choose|j: int| 0 <= j < pc.len() && pc[j] == cs[i];
        assert(out[2 * i] == pd[2 * j] && out[2 * i + 1] == pd[2 * j + 1]);
    }
    // hence adjacent windows share a rank
    assert forall|i: int| 0 <= i < out.len() / 2 implies (#[trigger] out[2 * i]).rank == out[2 * i
        + 1].rank by {
        assert(is_paired_window(out[2 * i], out[2 * i + 1]));
        let j = choose|j: int|
            0 <= j < 26 && out[2 * i] == #[trigger] pd[2 * j] && out[2 * i + 1] == pd[2 * j + 1];
        assert(pd[2 * j].rank == pd[2 * j + 1].rank);
    }
    // no card occurs twice
    assert forall|p: int, q: int|
        0 <= p < out.len() && 0 <= q < out.len() && p != q implies out[p] != out[q] by {
        lemma_fundamental_div_mod(p, 2);
        lemma_fundamental_div_mod(q, 2);
        let i = p / 2;
        let j = q / 2;
        assert(is_paired_window(out[2 * i], out[2 * i + 1]));
        assert(is_paired_window(out[2 * j], out[2 * j + 1]));
        let wi = choose|w: int|
            0 <= w < 26 && out[2 * i] == #[trigger] pd[2 * w] && out[2 * i + 1] == pd[2 * w + 1];
        let wj = choose|w: int|
            0 <= w < 26 && out[2 * j] == #[trigger] pd[2 * w] && out[2 * j + 1] == pd[2 * w + 1];
        if i == j {
            assert(pd[2 * wi] != pd[2 * wi + 1]);
        } else {
            assert(cs[i].0 == out[2 * i] && cs[i].1 == out[2 * i + 1]);
            assert(cs[j].0 == out[2 * j] && cs[j].1 == out[2 * j + 1]);
            assert(cs[i] != cs[j]);
            if wi == wj {
                assert(cs[i] == (pd[2 * wi], pd[2 * wi + 1]));
                assert(cs[i] == cs[j]);
                assert(false);
            }
            assert(pd[2 * wi] != pd[2 * wj] && pd[2 * wi] != pd[2 * wj + 1]);
            assert(pd[2 * wi + 1] != pd[2 * wj] && pd[2 * wi + 1] != pd[2 * wj + 1]);
        }
    }
    // every card occurs
    assert forall|c: Card| out.contains(c) by {
        assert(pd.contains(c));
        let p = choose|p: int| 0 <= p < pd.len() && pd[p] == c;
        lemma_fundamental_div_mod(p, 2);
        let w = p / 2;
        assert(pc[w] == (pd[2 * w], pd[2 * w + 1]));
        assert(pc.contains(pc[w]));
        assert(cs.to_multiset().count(pc[w]) > 0);
        assert(cs.contains(pc[w]));
        let i = choose|i: int| 0 <= i < cs.len() && cs[i] == pc[w];
        assert(out[2 * i] == pd[2 * w] && out[2 * i + 1] == pd[2 * w + 1]);
        if p == 2 * w {
            assert(out[2 * i] == c);
        } else {
            assert(out[2 * i + 1] == c);
        }
    }
}

/// The suit with index `i`, as executable code.
fn suit_of(i: u8) -> (r: Suit)
    requires
        i < 4,
    ensures
        r == suit_from_index(i as int),
{
    match i {
        0 => Suit::Clubs,
        1 => Suit::Diamonds,
        2 => Suit::Hearts,
        _ => Suit::Spades,
    }
}

/// The rank with index `i`, as executable code.
fn rank_of(i: u8) -> (r: Rank)
    requires
        i < 13,
    ensures
        r == rank_from_index(i as int),
{
    match i {
        0 => Rank::Ace,
        1 => Rank::Two,
        2 => Rank::Three,
        3 => Rank::Four,
        4 => Rank::Five,
        5 => Rank::Six,
        6 => Rank::Seven,
        7 => Rank::Eight,
        8 => Rank::Nine,
        9 => Rank::Ten,
        10 => Rank::Jack,
        11 => Rank::Queen,
        _ => Rank::King,
    }
}

/// Round trip: decoding from any in-range index yields a card whose
/// re-encoded indices are the original ones, and every suit and rank is
/// reached by decoding its own index.
pub proof fn lemma_card_round_trip(su: u8, rk: u8)
    requires
        su < 4,
        rk < 13,
    ensures
        suit_index(suit_from_index(su as int)) == su as int,
        rank_index(rank_from_index(rk as int)) == rk as int,
        forall|s: Suit| suit_from_index(suit_index(s)) == s,
        forall|r: Rank| rank_from_index(rank_index(r)) == r,
{
}

} // verus!
