use vstd::prelude::*;
use crate::card::Card;
use crate::card_stack::{levels_valid, of_level, CardStack};
use crate::color::Color;
use crate::gem::Gem;
use crate::grid::{grid_clone, grid_get, grid_new, grid_rows, grid_set, Grid};
use crate::level::Level;
use crate::noble_tile::{kept_tiles, NobleTile};
use crate::token_stack::{Token, TokenStack, MAX_NUMBER_OF_TOKEN};

verus! {

/// The number of rows of face-up cards, one per tier.
pub const ROWS: usize = 3;

/// The number of face-up cards in a row.
pub const COLUMNS: usize = 4;

/// A bank must hold at least this many tokens of a color before a player may
/// take two of them at once.
pub const LIMIT_OF_GETTING_SAME_TOKEN: u8 = 4;

/// The row whose cards are of the given tier: the highest tier lies on top.
pub open spec fn row_of(level: Level) -> int {
    match level {
        Level::Three => 0,
        Level::Two => 1,
        Level::One => 2,
    }
}

/// The tier of the cards in a row.
pub open spec fn level_of_row(row: int) -> Level {
    if row == 0 {
        Level::Three
    } else if row == 1 {
        Level::Two
    } else {
        Level::One
    }
}

/// What the cards in a row of cells cost together in one gem color.
pub open spec fn row_cost(row: Seq<Option<Card>>, color: Color) -> nat
    decreases row.len(),
{
    if row.len() == 0 {
        0
    } else {
        row_cost(row.drop_last(), color) + match row.last() {
            Some(card) => card.cost(color) as nat,
            None => 0,
        }
    }
}

/// What the cards in all rows cost together in one gem color.
pub open spec fn grid_cost(grid: Seq<Seq<Option<Card>>>, color: Color) -> nat
    decreases grid.len(),
{
    if grid.len() == 0 {
        0
    } else {
        grid_cost(grid.drop_last(), color) + row_cost(grid.last(), color)
    }
}

/// A card costs at most 255 of a color, so a row costs at most 255 for each
/// of its cells.
pub proof fn lemma_row_cost_bound(row: Seq<Option<Card>>, color: Color)
    ensures
        row_cost(row, color) <= 255 * row.len(),
    decreases row.len(),
{
    if row.len() > 0 {
        lemma_row_cost_bound(row.drop_last(), color);
    }
}

/// The face-up cards of a board of the fixed shape cost at most 255 for each
/// of the twelve cells.
pub proof fn lemma_required_cost_bound(board: BoardView, color: Color)
    requires
        board.shaped(),
    ensures
        board.required_cost(color) <= 255 * ROWS * COLUMNS,
{
    let g = board.grid;
    let g2 = g.drop_last();
    let g1 = g2.drop_last();
    let g0 = g1.drop_last();
    assert(g0.len() == 0);
    assert(g.last() == g[2] && g2.last() == g[1] && g1.last() == g[0]);
    lemma_row_cost_bound(g[0], color);
    lemma_row_cost_bound(g[1], color);
    lemma_row_cost_bound(g[2], color);
    assert(grid_cost(g0, color) == 0);
    assert(grid_cost(g1, color) == row_cost(g[0], color));
    assert(grid_cost(g2, color) == grid_cost(g1, color) + row_cost(g[1], color));
    assert(grid_cost(g, color) == grid_cost(g2, color) + row_cost(g[2], color));
}

/// The row that is dealt from a pile: the top card first, then the one
/// below it, and so on; cells stay empty where the pile runs out.
pub open spec fn dealt_row(pile: Seq<Card>) -> Seq<Option<Card>> {
    Seq::new(
        COLUMNS as nat,
        |y: int|
            if y < pile.len() {
                Some(pile[pile.len() - 1 - y])
            } else {
                None
            },
    )
}

/// What is left of a pile once a row has been dealt from it.
pub open spec fn after_deal(pile: Seq<Card>) -> Seq<Card> {
    pile.take(
        if pile.len() >= COLUMNS {
            pile.len() - COLUMNS
        } else {
            0
        },
    )
}

/// What a board is, as plain values.
pub struct BoardView {
    /// The face-up cards: `ROWS` rows of `COLUMNS` cells.
    pub grid: Seq<Seq<Option<Card>>>,
    /// The draw piles by row: `piles[r]` refills row `r`; its top is its last
    /// card.
    pub piles: Seq<Seq<Card>>,
    /// The bank of tokens.
    pub bank: TokenStack,
    /// The nobles that have not visited anyone yet.
    pub nobles: Seq<NobleTile>,
}

impl BoardView {
    /// The grid has its fixed shape and there is a pile for every row.
    pub open spec fn shaped(self) -> bool {
        &&& self.grid.len() == ROWS
        &&& self.piles.len() == ROWS
        &&& forall|r: int| 0 <= r < ROWS ==> (#[trigger] self.grid[r]).len() == COLUMNS
    }

    /// The board has its shape, and a cell is empty only where the pile of
    /// its row is used up.
    pub open spec fn wf(self) -> bool {
        &&& self.shaped()
        &&& forall|r: int, c: int|
            0 <= r < ROWS && 0 <= c < COLUMNS && (#[trigger] self.grid[r][c]).is_none()
                ==> self.piles[r].len() == 0
    }

    /// The board with the top card of a tier's pile drawn, or the board
    /// itself where that pile is used up.
    pub open spec fn drawn(self, level: Level) -> BoardView {
        let pile = self.piles[row_of(level)];
        if pile.len() > 0 {
            BoardView { piles: self.piles.update(row_of(level), pile.drop_last()), ..self }
        } else {
            self
        }
    }

    /// Row `r` and its pile are what is left when the row is dealt from the
    /// given cards in some order.
    pub open spec fn dealt_from(self, r: int, cards: Seq<Card>) -> bool {
        exists|pile: Seq<Card>|
            pile.to_multiset() == cards.to_multiset() && self.grid[r] == #[trigger] dealt_row(pile)
                && self.piles[r] == after_deal(pile)
    }

    /// What the face-up cards cost together in one gem color.
    pub open spec fn required_cost(self, color: Color) -> nat {
        grid_cost(self.grid, color)
    }

    /// The card at row `x` and column `y`, if the cell exists and is not
    /// empty.
    pub open spec fn cell(self, x: int, y: int) -> Option<Card> {
        if 0 <= x < self.grid.len() && 0 <= y < self.grid[x].len() {
            self.grid[x][y]
        } else {
            None
        }
    }

    /// The board with the top card of row `x`'s pile moved to the cell at
    /// row `x` and column `y`, or with that cell emptied where the pile is
    /// used up.
    pub open spec fn refilled(self, x: int, y: int) -> BoardView {
        let pile = self.piles[x];
        let drawn = if pile.len() > 0 {
            Some(pile.last())
        } else {
            None
        };
        let rest = if pile.len() > 0 {
            pile.drop_last()
        } else {
            pile
        };
        BoardView {
            grid: self.grid.update(x, self.grid[x].update(y, drawn)),
            piles: self.piles.update(x, rest),
            ..self
        }
    }
}

/// The playing surface shared by all players: the face-up cards, the draw
/// piles, the bank of tokens and the nobles.
pub struct Board {
    board: Grid,
    card_stack: CardStack,
    token_stack: TokenStack,
    noble_tile: Vec<NobleTile>,
}

impl View for Board {
    type V = BoardView;

    closed spec fn view(&self) -> BoardView {
        BoardView {
            grid: grid_rows(self.board),
            piles: seq![
                self.card_stack.pile(Level::Three),
                self.card_stack.pile(Level::Two),
                self.card_stack.pile(Level::One),
            ],
            bank: self.token_stack,
            nobles: self.noble_tile@,
        }
    }
}

impl Board {
    /// Sets up a board: the cards go to the three piles by tier and are
    /// shuffled, each row is dealt from its pile, the bank gets
    /// `MAX_NUMBER_OF_TOKEN` tokens of every color, and the nobles are
    /// shuffled and cut down to those that stay in play.
    pub fn new(cards: Vec<Card>, nobles: Vec<NobleTile>) -> (board: Board)
        requires
            levels_valid(cards@),
        ensures
            board@.wf(),
            forall|c: Color| board@.bank.count(c) == MAX_NUMBER_OF_TOKEN,
            exists|order: Seq<NobleTile>|
                order.to_multiset() == nobles@.to_multiset() && board@.nobles
                    == #[trigger] order.take(kept_tiles(nobles@.len()) as int),
            board@.dealt_from(0, of_level(cards@, 3)),
            board@.dealt_from(1, of_level(cards@, 2)),
            board@.dealt_from(2, of_level(cards@, 1)),
    {
        let mut board = Board {
            board: grid_new(ROWS, COLUMNS),
            card_stack: CardStack::new(cards),
            token_stack: TokenStack::new().fill(),
            noble_tile: NobleTile::create_stack(nobles),
        };
        let ghost start = board@;
        assert(start.piles[0].to_multiset() == of_level(cards@, 3).to_multiset()) by {
            assert(Level::Three.number_spec() == 3);
        }
        assert(start.piles[1].to_multiset() == of_level(cards@, 2).to_multiset()) by {
            assert(Level::Two.number_spec() == 2);
        }
        assert(start.piles[2].to_multiset() == of_level(cards@, 1).to_multiset()) by {
            assert(Level::One.number_spec() == 1);
        }
        board.fill_row(0);
        board.fill_row(1);
        board.fill_row(2);
        assert(board@.grid[0] == dealt_row(start.piles[0]));
        assert(board@.grid[1] == dealt_row(start.piles[1]));
        assert(board@.grid[2] == dealt_row(start.piles[2]));
        board
    }

    /// Deals the four cells of row `x` from the pile of that row.
    fn fill_row(&mut self, x: u8)
        requires
            old(self)@.shaped(),
            x < ROWS,
        ensures
            final(self)@.shaped(),
            final(self)@.grid[x as int] == dealt_row(old(self)@.piles[x as int]),
            final(self)@.piles[x as int] == after_deal(old(self)@.piles[x as int]),
            forall|r: int|
                0 <= r < ROWS && r != x ==> final(self)@.grid[r] == old(self)@.grid[r]
                    && final(self)@.piles[r] == old(self)@.piles[r],
            final(self)@.bank == old(self)@.bank,
            final(self)@.nobles == old(self)@.nobles,
    {
        self.refill(x, 0);
        self.refill(x, 1);
        self.refill(x, 2);
        self.refill(x, 3);
        assert(self@.grid[x as int] =~= dealt_row(old(self)@.piles[x as int]));
        assert(self@.piles[x as int] =~= after_deal(old(self)@.piles[x as int]));
    }

    /// The card at row `x` and column `y`, if there is one.
    pub fn peek_card(&self, x: u8, y: u8) -> (card: Option<&Card>)
        ensures
            card == match self@.cell(x as int, y as int) {
                Some(c) => Some(&c),
                None => None,
            },
    {
        match grid_get(&self.board, x as usize, y as usize) {
            Some(cell) => cell.as_ref(),
            None => None,
        }
    }

    /// Draws the top card of row `x`'s pile into the cell at row `x` and
    /// column `y`; the cell becomes empty where the pile is used up.
    fn refill(&mut self, x: u8, y: u8)
        requires
            old(self)@.shaped(),
            x < ROWS,
            y < COLUMNS,
        ensures
            final(self)@ == old(self)@.refilled(x as int, y as int),
            final(self)@.shaped(),
            old(self)@.wf() ==> final(self)@.wf(),
    {
        let card = if x == 0 {
            self.card_stack.get(Level::Three)
        } else if x == 1 {
            self.card_stack.get(Level::Two)
        } else {
            self.card_stack.get(Level::One)
        };
        grid_set(&mut self.board, x as usize, y as usize, card);
        assert(self@.piles =~= old(self)@.refilled(x as int, y as int).piles);
    }

    /// Takes the card at row `x` and column `y` off the board, if there is
    /// one, and refills the cell from the pile of that row.
    pub fn get_card(&mut self, x: u8, y: u8) -> (card: Option<Card>)
        requires
            old(self)@.wf(),
        ensures
            final(self)@.wf(),
            card == old(self)@.cell(x as int, y as int),
            card.is_some() ==> final(self)@ == old(self)@.refilled(x as int, y as int),
            card.is_none() ==> final(self)@ == old(self)@,
    {
        match grid_get(&self.board, x as usize, y as usize) {
            Some(Some(card)) => {
                let card = *card;
                self.refill(x, y);
                Some(card)
            },
            _ => None,
        }
    }

    /// Takes the card at row `x` and column `y` off the board and refills the
    /// cell from the pile of that row.
    pub fn uget_card(&mut self, x: u8, y: u8) -> (card: Card)
        requires
            old(self)@.wf(),
            old(self)@.cell(x as int, y as int).is_some(),
        ensures
            final(self)@.wf(),
            Some(card) == old(self)@.cell(x as int, y as int),
            final(self)@ == old(self)@.refilled(x as int, y as int),
    {
        let card = self.get_card(x, y);
        card.unwrap()
    }

    /// Draws the top card of a tier's pile, if the pile has one.
    pub fn get_stack_card(&mut self, level: Level) -> (card: Option<Card>)
        requires
            old(self)@.wf(),
        ensures
            final(self)@.wf(),
            final(self)@ == old(self)@.drawn(level),
            card == if old(self)@.piles[row_of(level)].len() > 0 {
                Some(old(self)@.piles[row_of(level)].last())
            } else {
                None
            },
    {
        let card = self.card_stack.get(level);
        assert(self@.piles =~= old(self)@.drawn(level).piles);
        card
    }

    /// How many cards are left in a tier's pile.
    pub fn get_number_of_stack_cards(&self, level: Level) -> (n: usize)
        ensures
            n == self@.piles[row_of(level)].len(),
    {
        self.card_stack.len(level)
    }

    /// Takes one token of `color` out of the bank, if it holds one.
    pub fn get_token(&mut self, color: Color) -> (token: Option<Token>)
        ensures
            old(self)@.bank.count(color) == 0 ==> token.is_none() && final(self)@ == old(self)@,
            old(self)@.bank.count(color) > 0 ==> token == Some(Token { color })
                && final(self)@.bank.count(color) == old(self)@.bank.count(color) - 1,
            forall|c: Color| c != color ==> final(self)@.bank.count(c) == old(self)@.bank.count(c),
            final(self)@ == (BoardView { bank: old(self)@.bank.with_removed(color), ..old(self)@ }),
    {
        self.token_stack.remove(color)
    }

    /// Takes one token of `color` out of a bank that holds one.
    pub fn uget_token(&mut self, color: Color) -> (token: Token)
        requires
            old(self)@.bank.count(color) > 0,
        ensures
            token == (Token { color }),
            final(self)@.bank.count(color) == old(self)@.bank.count(color) - 1,
            forall|c: Color| c != color ==> final(self)@.bank.count(c) == old(self)@.bank.count(c),
            final(self)@ == (BoardView { bank: old(self)@.bank.with_removed(color), ..old(self)@ }),
    {
        let token = self.token_stack.remove(color);
        token.unwrap()
    }

    /// Whether a player may take two tokens of `color` at once: the bank
    /// must hold at least `LIMIT_OF_GETTING_SAME_TOKEN` of them.
    pub fn can_get_token(&self, color: Color) -> (allowed: bool)
        ensures
            allowed == (self@.bank.count(color) >= LIMIT_OF_GETTING_SAME_TOKEN),
    {
        self.get_number_of_tokens(color) >= LIMIT_OF_GETTING_SAME_TOKEN
    }

    fn get_number_of_tokens(&self, color: Color) -> (n: u8)
        ensures
            n == self@.bank.count(color),
    {
        self.token_stack.len(color)
    }

    /// The nobles that are still on the board.
    pub fn peek_noble_tile(&self) -> (nobles: &Vec<NobleTile>)
        ensures
            nobles@ == self@.nobles,
    {
        &self.noble_tile
    }

    /// The nobles that are still on the board, to award and remove them.
    pub fn get_noble_tile(&mut self) -> (nobles: &mut Vec<NobleTile>)
        ensures
            nobles@ == old(self)@.nobles,
            final(self)@ == (BoardView { nobles: final(nobles)@, ..old(self)@ }),
    {
        &mut self.noble_tile
    }

    /// What the face-up cards cost together, per gem color.
    pub fn get_required_cost(&self) -> (required: Gem)
        requires
            self@.shaped(),
        ensures
            forall|c: Color| c.is_gem() ==> #[trigger] required.amount(c) == self@.required_cost(c),
    {
        let mut required = Gem::new();
        let ghost grid = self@.grid;
        let mut x: u8 = 0;
        while x < 3
            invariant
                x <= ROWS,
                grid == self@.grid,
                self@.shaped(),
                forall|c: Color|
                    c.is_gem() ==> #[trigger] required.amount(c) == grid_cost(
                        grid.take(x as int),
                        c,
                    ),
                forall|c: Color| c.is_gem() ==> #[trigger] required.amount(c) <= 255 * COLUMNS * x,
            decreases ROWS - x,
        {
            let ghost before = required;
            let mut y: u8 = 0;
            while y < 4
                invariant
                    x < ROWS,
                    y <= COLUMNS,
                    grid == self@.grid,
                    self@.shaped(),
                    forall|c: Color|
                        c.is_gem() ==> #[trigger] before.amount(c) <= 255 * COLUMNS * x,
                    forall|c: Color|
                        c.is_gem() ==> #[trigger] required.amount(c) == before.amount(c)
                            + row_cost(grid[x as int].take(y as int), c),
                    forall|c: Color|
                        c.is_gem() ==> #[trigger] required.amount(c) <= before.amount(c) + 255 * y,
                decreases COLUMNS - y,
            {
                proof {
                    let row = grid[x as int];
                    assert(row.take(y + 1).drop_last() =~= row.take(y as int));
                    assert(row.take(y + 1).last() == row[y as int]);
                    assert(self@.cell(x as int, y as int) == row[y as int]);
                    assert(required.amount(Color::Black) <= 255 * COLUMNS * x + 255 * y);
                    assert(required.amount(Color::White) <= 255 * COLUMNS * x + 255 * y);
                    assert(required.amount(Color::Red) <= 255 * COLUMNS * x + 255 * y);
                    assert(required.amount(Color::Blue) <= 255 * COLUMNS * x + 255 * y);
                    assert(required.amount(Color::Green) <= 255 * COLUMNS * x + 255 * y);
                }
                match self.peek_card(x, y) {
                    Some(card) => {
                        required.add(Color::Black, card.get_cost(Color::Black));
                        required.add(Color::White, card.get_cost(Color::White));
                        required.add(Color::Red, card.get_cost(Color::Red));
                        required.add(Color::Blue, card.get_cost(Color::Blue));
                        required.add(Color::Green, card.get_cost(Color::Green));
                    },
                    None => {},
                }
                y += 1;
            }
            proof {
                assert(grid[x as int].take(y as int) =~= grid[x as int]);
                assert(grid.take(x + 1).drop_last() =~= grid.take(x as int));
                assert(grid.take(x + 1).last() == grid[x as int]);
            }
            x += 1;
        }
        assert(grid.take(x as int) =~= grid);
        required
    }

    /// The bank.
    pub fn peek_token_stack(&self) -> (bank: &TokenStack)
        ensures
            *bank == self@.bank,
    {
        &self.token_stack
    }

    /// The bank, to take tokens from and to pay tokens into.
    pub fn get_token_stack(&mut self) -> (bank: &mut TokenStack)
        ensures
            *bank == old(self)@.bank,
            final(self)@ == (BoardView { bank: *final(bank), ..old(self)@ }),
    {
        &mut self.token_stack
    }
}

impl Clone for Board {
    /// A board of its own with the same cards, tokens and nobles.
    fn clone(&self) -> (copy: Board)
        ensures
            copy@ == self@,
    {
        Board {
            board: grid_clone(&self.board),
            card_stack: self.card_stack.clone(),
            token_stack: self.token_stack,
            noble_tile: self.noble_tile.clone(),
        }
    }
}

} // verus!
