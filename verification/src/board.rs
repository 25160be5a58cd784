//! The board: a rectangular grid of face-down card slots dealt from a
//! pair-preserving shuffled deck.

use crate::cards::{
    pair_adjacent, spec_card_label, wf_deck, windows_from_paired, Card, Deck,
};
use crate::shuffle::shuffle_vec;
use crate::utils::squarest_rect_with_even_area;
use vstd::arithmetic::div_mod::lemma_fundamental_div_mod_converse;
use vstd::prelude::*;
use vstd::string::StringExecFns;

verus! {

/// A board slot's occupant: a card together with its face-down state.
/// `flipped` is true while the card lies face down.
#[derive(Clone, Copy, Debug, PartialEq, Eq, Structural)]
pub struct CardProxy {
    pub card: Card,
    pub flipped: bool,
}

impl CardProxy {
    /// Wraps a card face down.
    pub fn new(card: Card) -> (r: CardProxy)
        ensures
            r == (CardProxy { card, flipped: true }),
    {
        CardProxy { card, flipped: true }
    }
}

/// The requested pair count lies outside `[1, 26]`.
#[derive(Clone, Copy, Debug, PartialEq, Eq, Structural)]
pub struct InvalidBoardSizeError;

/// A rectangular grid of optional card slots.  `None` marks an empty
/// cell; the layout solver always produces an exact even area, so every
/// cell of a freshly built board is occupied.
pub struct Board {
    grid: Vec<Vec<Option<CardProxy>>>,
}

impl View for Board {
    type V = Seq<Seq<Option<CardProxy>>>;

    closed spec fn view(&self) -> Seq<Seq<Option<CardProxy>>> {
        self.grid@.map_values(|row: Vec<Option<CardProxy>>| row@)
    }
}

/// A slot after being flipped.
pub open spec fn flip_slot(s: Option<CardProxy>) -> Option<CardProxy> {
    match s {
        Some(p) => Some(CardProxy { card: p.card, flipped: !p.flipped }),
        None => None,
    }
}

/// The grid with the slot at `(x, y)` flipped.
pub open spec fn flip_grid(
    g: Seq<Seq<Option<CardProxy>>>,
    x: int,
    y: int,
) -> Seq<Seq<Option<CardProxy>>> {
    g.update(x, g[x].update(y, flip_slot(g[x][y])))
}

/// Flip is its own inverse: flipping one coordinate twice restores the
/// original grid.
pub proof fn lemma_flip_involution(g: Seq<Seq<Option<CardProxy>>>, x: int, y: int)
    requires
        0 <= x < g.len(),
        0 <= y < g[x].len(),
    ensures
        flip_grid(flip_grid(g, x, y), x, y) == g,
{
    let g1 = flip_grid(g, x, y);
    let g2 = flip_grid(g1, x, y);
    assert(flip_slot(flip_slot(g[x][y])) == g[x][y]);
    assert(g2[x] =~= g[x]);
    assert(g2 =~~= g);
}

/// A freshly dealt board over a source deck: a non-empty uniform grid,
/// as square as the area `2 * size` allows with the short side as the
/// width, every cell occupied by a face-down card, and the cells holding
/// exactly the first `2 * size` cards of the deck.
pub open spec fn board_ok(g: Seq<Seq<Option<CardProxy>>>, deck: Seq<Card>, size: int) -> bool {
    &&& g.len() >= 1
    &&& forall|r: int| 0 <= r < g.len() ==> (#[trigger] g[r]).len() == g[0].len()
    &&& g.len() * g[0].len() == 2 * size
    &&& g[0].len() <= g.len()
    &&& forall|a: u32, b: u32|
        #[trigger] (a * b) == 2 * size && a <= b ==> g.len() - g[0].len() <= b - a
    &&& forall|r: int, c: int|
        0 <= r < g.len() && 0 <= c < g[r].len() ==> ((#[trigger] g[r][c]) matches Some(p)
            && p.flipped)
    &&& g.flatten().to_multiset() == deck.take(2 * size).map_values(
        |c: Card| Some(CardProxy { card: c, flipped: true }),
    ).to_multiset()
}

/// A board dealt from some pair-preserving shuffled full deck.
pub open spec fn dealt_board(g: Seq<Seq<Option<CardProxy>>>, size: int) -> bool {
    exists|d: Seq<Card>|
        wf_deck(d) && pair_adjacent(d) && windows_from_paired(d) && #[trigger] board_ok(
            g,
            d,
            size,
        )
}

impl Board {
    /// Deals a new board: validates the pair count, draws the first
    /// `2 * size` cards of the deck face down, scrambles their placement
    /// with one more uniform shuffle, and arranges them in the most
    /// square grid of that area.
    pub fn new(deck: &Deck, size: u8) -> (r: Result<Board, InvalidBoardSizeError>)
        requires
            wf_deck(deck@),
        ensures
            r is Err <==> (size == 0 || size > 26),
            r matches Ok(b) ==> board_ok(b@, deck@, size as int),
    {
        if size > 26 || size == 0 {
            return Err(InvalidBoardSizeError);
        }
        let dims = squarest_rect_with_even_area(size as u32);
        let width = dims[0] as usize;
        let total: usize = 2 * size as usize;
        let ghost slot_of = |c: Card| Some(CardProxy { card: c, flipped: true });

        let mut taken: Vec<Option<CardProxy>> = Vec::new();
        let mut i: usize = 0;
        while i < total
            invariant
                total <= 52 <= deck@.len(),
                i <= total,
                taken@.len() == i,
                forall|k: int| 0 <= k < i ==> taken@[k] == slot_of(deck@[k]),
                slot_of == (|c: Card| Some(CardProxy { card: c, flipped: true })),
            decreases total - i,
        {
            taken.push(Some(CardProxy::new(deck.get(i))));
            i = i + 1;
        }
        proof {
            assert(taken@ =~= deck@.take(total as int).map_values(slot_of));
        }
        let ghost dealt = taken@;
        shuffle_vec(&mut taken);
        proof {
            lemma_all_some_flipped(dealt, taken@);
        }

        let mut grid: Vec<Vec<Option<CardProxy>>> = Vec::new();
        let mut done: usize = 0;
        proof {
            assert(width >= 1);
            assert(total as int == dims[1] as int * width as int + 0) by (nonlinear_arith)
                requires
                    dims[0] * dims[1] == 2 * size,
                    width == dims[0],
                    total == 2 * size,
            ;
            lemma_fundamental_div_mod_converse(
                total as int,
                width as int,
                dims[1] as int,
                0,
            );
        }
        while done < total
            invariant
                taken@.len() == total,
                width >= 1,
                total as int == width * (total as int / width as int),
                done <= total,
                done as int % width as int == 0,
                grid@.len() == done as int / width as int,
                forall|r: int| 0 <= r < grid@.len() ==> (#[trigger] grid@[r])@.len() == width,
                forall|r: int, c: int|
                    0 <= r < grid@.len() && 0 <= c < width ==> (#[trigger] grid@[r]@[c])
                        == taken@[r * width + c],
                forall|k: int|
                    0 <= k < taken@.len() ==> ((#[trigger] taken@[k]) matches Some(p) && p.flipped),
            decreases total - done,
        {
            let mut row: Vec<Option<CardProxy>> = Vec::new();
            let ghost r0 = grid@.len() as int;
            let start = done;
            let mut j: usize = 0;
            proof {
                vstd::arithmetic::div_mod::lemma_fundamental_div_mod(
                    start as int,
                    width as int,
                );
                assert(r0 * width as int == start as int) by (nonlinear_arith)
                    requires
                        r0 == start as int / width as int,
                        start as int % width as int == 0,
                        width >= 1,
                        start as int == width * (start as int / width as int) + start as int
                            % width as int,
                ;
                assert(start + width <= total) by (nonlinear_arith)
                    requires
                        start as int == r0 * width as int,
                        total as int == width * (total as int / width as int),
                        start < total,
                        width >= 1,
                        r0 >= 0,
                ;
            }
            while j < width
                invariant
                    j <= width,
                    start + width <= total,
                    taken@.len() == total,
                    row@.len() == j,
                    forall|c: int| 0 <= c < j ==> (#[trigger] row@[c]) == taken@[start + c],
                decreases width - j,
            {
                row.push(taken[start + j]);
                j = j + 1;
            }
            grid.push(row);
            done = start + width;
            proof {
                assert(done as int == (r0 + 1) * width as int + 0) by (nonlinear_arith)
                    requires
                        start as int == r0 * width as int,
                        done == start + width,
                ;
                lemma_fundamental_div_mod_converse(
                    done as int,
                    width as int,
                    r0 + 1,
                    0,
                );
                assert(forall|r: int, c: int|
                    0 <= r < grid@.len() && 0 <= c < width ==> (#[trigger] grid@[r]@[c])
                        == taken@[r * width + c]);
            }
        }
        let b = Board { grid };
        proof {
            lemma_board_new_ok(b@, grid@, taken@, deck@, dealt, size as int, width as int, dims);
        }
        Ok(b)
    }

    /// The number of grid rows.
    pub fn rows(&self) -> (r: usize)
        ensures
            r == self@.len(),
    {
        self.grid.len()
    }

    /// The width of a grid row.
    pub fn cols(&self) -> (r: usize)
        requires
            self@.len() > 0,
        ensures
            r == self@[0].len(),
    {
        self.grid[0].len()
    }

    /// The slot at a coordinate.
    pub fn slot(&self, x: usize, y: usize) -> (r: Option<CardProxy>)
        requires
            x < self@.len(),
            y < self@[x as int].len(),
        ensures
            r == self@[x as int][y as int],
    {
        self.grid[x][y]
    }

    /// Toggles the face-down state of the slot at `(x, y)`.  The
    /// coordinate must address an occupied slot: an out-of-range or empty
    /// coordinate is a caller error, never produced by the clamped
    /// cursor.
    pub fn flip(&mut self, x: u8, y: u8)
        requires
            (x as int) < old(self)@.len(),
            (y as int) < old(self)@[x as int].len(),
            old(self)@[x as int][y as int] is Some,
        ensures
            final(self)@ == flip_grid(old(self)@, x as int, y as int),
    {
        let xi = x as usize;
        let yi = y as usize;
        let slot: &mut Option<CardProxy> = &mut self.grid[xi][yi];
        match slot {
            Some(p) => {
                p.flipped = !p.flipped;
            },
            None => {},
        }
        proof {
            assert(self@ =~~= flip_grid(old(self)@, x as int, y as int));
        }
    }

    /// The text image of the board, one string per row: a face-down slot
    /// shows `---`, a face-up slot its card's display string, an empty
    /// cell blank padding, with one space between cells.
    pub fn render_lines(&self) -> (r: Vec<String>)
        ensures
            r@.len() == self@.len(),
            forall|i: int| 0 <= i < r@.len() ==> (#[trigger] r@[i])@ == spec_row_text(self@[i]),
    {
        let mut lines: Vec<String> = Vec::new();
        let mut i: usize = 0;
        while i < self.grid.len()
            invariant
                self.grid@.len() == self@.len(),
                i <= self@.len(),
                lines@.len() == i,
                forall|k: int|
                    0 <= k < i ==> (#[trigger] lines@[k])@ == spec_row_text(self@[k]),
            decreases self@.len() - i,
        {
            let row = &self.grid[i];
            let mut line = String::new();
            let mut j: usize = 0;
            while j < row.len()
                invariant
                    row@ == self@[i as int],
                    i < self@.len(),
                    j <= row@.len(),
                    line@ == spec_row_text(row@.take(j as int)),
                decreases row@.len() - j,
            {
                if j > 0 {
                    line.append(" ");
                }
                match row[j] {
                    None => {
                        line.append("   ");
                    },
                    Some(p) => {
                        if p.flipped {
                            line.append("---");
                        } else {
                            let label = p.card.label();
                            line.append(label.as_str());
                        }
                    },
                }
                proof {
                    assert(row@.take(j + 1).drop_last() =~= row@.take(j as int));
                    assert(row@.take(j + 1).last() == row@[j as int]);
                }
                j = j + 1;
            }
            proof {
                assert(row@.take(row@.len() as int) =~= row@);
            }
            lines.push(line);
            i = i + 1;
        }
        lines
    }
}

/// The text of one slot: `---` face down, the card's display string face
/// up, blank padding for an empty cell.
pub open spec fn spec_slot_text(s: Option<CardProxy>) -> Seq<char> {
    match s {
        None => "   "@,
        Some(p) => if p.flipped {
            "---"@
        } else {
            spec_card_label(p.card)
        },
    }
}

/// The text of one row: the slot texts joined with single spaces.
pub open spec fn spec_row_text(row: Seq<Option<CardProxy>>) -> Seq<char>
    decreases row.len(),
{
    if row.len() == 0 {
        Seq::empty()
    } else if row.len() == 1 {
        spec_slot_text(row.last())
    } else {
        spec_row_text(row.drop_last()) + " "@ + spec_slot_text(row.last())
    }
}

/// Multiset equality preserves "every slot is an occupied, face-down
/// card".
proof fn lemma_all_some_flipped(s1: Seq<Option<CardProxy>>, s2: Seq<Option<CardProxy>>)
    requires
        forall|k: int| 0 <= k < s1.len() ==> ((#[trigger] s1[k]) matches Some(p) && p.flipped),
        s2.to_multiset() == s1.to_multiset(),
    ensures
        forall|k: int| 0 <= k < s2.len() ==> ((#[trigger] s2[k]) matches Some(p) && p.flipped),
{
    broadcast use vstd::seq_lib::group_to_multiset_ensures;

    assert forall|k: int| 0 <= k < s2.len() implies ((#[trigger] s2[k]) matches Some(p)
        && p.flipped) by {
        assert(s2.contains(s2[k]));
        assert(s1.to_multiset().count(s2[k]) > 0);
        assert(s1.contains(s2[k]));
        let w = choose|w: int| 0 <= w < s1.len() && s1[w] == s2[k];
        assert(s1[w] matches Some(p) && p.flipped);
    }
}

/// Ties the loop facts of `Board::new` together into `board_ok`.
proof fn lemma_board_new_ok(
    v: Seq<Seq<Option<CardProxy>>>,
    grid: Seq<Vec<Option<CardProxy>>>,
    taken: Seq<Option<CardProxy>>,
    deck: Seq<Card>,
    dealt: Seq<Option<CardProxy>>,
    size: int,
    width: int,
    dims: [u32; 2],
)
    requires
        v == grid.map_values(|row: Vec<Option<CardProxy>>| row@),
        taken.len() == 2 * size,
        width == dims[0],
        1 <= size <= 26,
        dims[0] * dims[1] == 2 * size,
        1 <= dims[0] <= dims[1],
        forall|a: u32, b: u32|
            #[trigger] (a * b) == 2 * size && a <= b ==> dims[1] - dims[0] <= b - a,
        grid.len() == dims[1],
        forall|r: int| 0 <= r < grid.len() ==> (#[trigger] grid[r])@.len() == width,
        forall|r: int, c: int|
            0 <= r < grid.len() && 0 <= c < width ==> (#[trigger] grid[r]@[c]) == taken[r * width
                + c],
        forall|k: int|
            0 <= k < taken.len() ==> ((#[trigger] taken[k]) matches Some(p) && p.flipped),
        taken.to_multiset() == dealt.to_multiset(),
        dealt == deck.take(2 * size).map_values(
            |c: Card| Some(CardProxy { card: c, flipped: true }),
        ),
    ensures
        board_ok(v, deck, size),
{
    assert(v.len() == grid.len());
    assert forall|r: int| 0 <= r < v.len() implies (#[trigger] v[r]).len() == v[0].len() by {
        assert(v[r] == grid[r]@);
        assert(v[0] == grid[0]@);
    }
    assert(v[0].len() == width);
    assert(v.len() * v[0].len() == 2 * size);
    assert forall|r: int, c: int|
        0 <= r < v.len() && 0 <= c < v[r].len() implies ((#[trigger] v[r][c]) matches Some(p)
        && p.flipped) by {
        assert(v[r][c] == grid[r]@[c]);
        assert(grid[r]@[c] == taken[r * width + c]);
        assert(0 <= r * width + c < taken.len()) by (nonlinear_arith)
            requires
                0 <= r < grid.len(),
                0 <= c < width,
                taken.len() == grid.len() * width,
        ;
    }
    lemma_flatten_is_taken(v, taken, width);
    assert(v.flatten().to_multiset() == deck.take(2 * size).map_values(
        |c: Card| Some(CardProxy { card: c, flipped: true }),
    ).to_multiset());
}

/// A uniform grid whose cells copy `taken` row by row flattens back to
/// `taken`.
proof fn lemma_flatten_is_taken(
    v: Seq<Seq<Option<CardProxy>>>,
    taken: Seq<Option<CardProxy>>,
    width: int,
)
    requires
        width >= 1,
        taken.len() == v.len() * width,
        forall|r: int| 0 <= r < v.len() ==> (#[trigger] v[r]).len() == width,
        forall|r: int, c: int|
            0 <= r < v.len() && 0 <= c < width ==> (#[trigger] v[r][c]) == taken[r * width + c],
    ensures
        v.flatten() == taken,
    decreases v.len(),
{
    if v.len() == 0 {
        assert(v.flatten() =~= taken);
    } else {
        let last = v.last();
        let front = v.drop_last();
        assert(width <= taken.len()) by (nonlinear_arith)
            requires
                taken.len() == v.len() * width,
                v.len() >= 1,
                width >= 1,
        ;
        let head = taken.take(taken.len() - width);
        assert(head.len() == taken.len() - width);
        assert(head.len() == front.len() * width) by (nonlinear_arith)
            requires
                taken.len() == v.len() * width,
                head.len() == taken.len() - width,
                front.len() == v.len() - 1,
                v.len() >= 1,
        ;
        assert forall|r: int, c: int|
            0 <= r < front.len() && 0 <= c < width implies (#[trigger] front[r][c]) == head[r
            * width + c] by {
            assert(front[r] == v[r]);
            assert(0 <= r * width + c < head.len()) by (nonlinear_arith)
                requires
                    0 <= r < front.len(),
                    0 <= c < width,
                    head.len() == front.len() * width,
            ;
            assert(v[r][c] == taken[r * width + c]);
        }
        lemma_flatten_is_taken(front, head, width);
        vstd::seq_lib::lemma_flatten_concat(front, seq![last]);
        assert(front + seq![last] =~= v);
        seq![last].lemma_flatten_one_element();
        assert(seq![last].flatten() == last);
        assert forall|c: int| 0 <= c < width implies last[c] == taken[head.len() + c] by {
            assert(v[v.len() - 1][c] == taken[(v.len() - 1) * width + c]);
            assert((v.len() - 1) * width + c == head.len() + c) by (nonlinear_arith)
                requires
                    head.len() == taken.len() - width,
                    taken.len() == v.len() * width,
            ;
        }
        assert(v.flatten() =~= taken);
    }
}

/// Deals a board of `size` pairs from a freshly built pair-preserving
/// shuffled deck.
pub fn generate_board(size: u8) -> (r: Result<Board, InvalidBoardSizeError>)
    ensures
        r is Err <==> (size == 0 || size > 26),
        r matches Ok(b) ==> dealt_board(b@, size as int),
{
    if size > 26 || size == 0 {
        return Err(InvalidBoardSizeError);
    }
    let deck = Deck::paired_shuffled();
    let b = match Board::new(&deck, size) {
        Ok(b) => b,
        Err(e) => {
            proof {
                assert(false);
            }
            return Err(e);
        },
    };
    proof {
        assert(board_ok(b@, deck@, size as int));
        assert(dealt_board(b@, size as int));
    }
    Ok(b)
}

/// A player: a name and the pairs collected so far.
pub struct Player {
    pub name: String,
    pub paired_cards: Vec<Card>,
}

impl Player {
    /// A player with no collected pairs yet.
    pub fn new(name: String) -> (r: Player)
        ensures
            r.name@ == name@,
            r.paired_cards@ == Seq::<Card>::empty(),
    {
        Player { name, paired_cards: Vec::new() }
    }
}

} // verus!
