use vstd::prelude::*;
use crate::board::{Board, BoardView};
use crate::card::Card;
use crate::color::Color;
use crate::level::Level;
use crate::noble_tile::NobleTile;
use crate::rules::{
    first_gain,
    gold_grant,
    lemma_visiting_prefix,
    outcome_of,
    points_of,
    purchase_points,
    purchased,
    resolved,
    second_gain,
    stacks_fit,
    staying,
    taken,
    third_gain,
    token_gain,
    tokens_fit,
    visiting,
    visits,
    when_same,
    within_limits,
};
use crate::token_stack::{CountMismatch, TokenStack};
use crate::user::{bonus_of, User, UserView, MAX_NUMBER_OF_HELD_TOKENS};

verus! {

/// How many different moves there are.
pub const NUMBER_OF_COMMANDS: u8 = 45;

/// A move of a player.
#[derive(Clone, Copy, PartialEq, Eq, Structural, Debug)]
pub enum GameCommand {
    /// Reserve the face-up card at row `x` and column `y`.
    ReserveDevelopmentCard { x: u8, y: u8 },
    /// Buy the face-up card at row `x` and column `y`.
    BuyDevelopmentCard { x: u8, y: u8 },
    /// Take two tokens of one color.
    SelectTwoSameTokens(Color),
    /// Take one token of each of three colors.
    SelectThreeTokens(Color, Color, Color),
    /// Reserve the top card of a tier's pile.
    ReserveStackCard(Level),
    /// Buy the reserved card at the given place in the hand.
    BuyReservedCard(u8),
}

/// The gem colors in their fixed order.
pub open spec fn gem_at(i: int) -> Color {
    if i == 0 {
        Color::Black
    } else if i == 1 {
        Color::White
    } else if i == 2 {
        Color::Red
    } else if i == 3 {
        Color::Blue
    } else {
        Color::Green
    }
}

/// The ten ways to pick three of the five gem colors, in the order of the
/// move numbers.
pub open spec fn color_sets() -> Seq<(Color, Color, Color)> {
    seq![
        (Color::Black, Color::White, Color::Red),
        (Color::Black, Color::White, Color::Blue),
        (Color::Black, Color::White, Color::Green),
        (Color::Black, Color::Red, Color::Blue),
        (Color::Black, Color::Red, Color::Green),
        (Color::Black, Color::Blue, Color::Green),
        (Color::White, Color::Red, Color::Blue),
        (Color::White, Color::Red, Color::Green),
        (Color::White, Color::Blue, Color::Green),
        (Color::Red, Color::Blue, Color::Green),
    ]
}

/// The move with a given number: 0 to 11 reserve a face-up card, row by row;
/// 12 to 23 buy one; 24 to 28 take two tokens of a gem color; 29 to 38 take
/// three different gems; 39 to 41 reserve from the pile of tier one, two or
/// three; 42 to 44 buy the first, second or third reserved card.
pub open spec fn command_of(input: int) -> GameCommand {
    if input < 12 {
        GameCommand::ReserveDevelopmentCard { x: (input / 4) as u8, y: (input % 4) as u8 }
    } else if input < 24 {
        GameCommand::BuyDevelopmentCard { x: ((input - 12) / 4) as u8, y: ((input - 12) % 4) as u8 }
    } else if input < 29 {
        GameCommand::SelectTwoSameTokens(gem_at(input - 24))
    } else if input < 39 {
        let set = color_sets()[input - 29];
        GameCommand::SelectThreeTokens(set.0, set.1, set.2)
    } else if input == 39 {
        GameCommand::ReserveStackCard(Level::One)
    } else if input == 40 {
        GameCommand::ReserveStackCard(Level::Two)
    } else if input == 41 {
        GameCommand::ReserveStackCard(Level::Three)
    } else {
        GameCommand::BuyReservedCard((input - 42) as u8)
    }
}

/// The move is one of those that have a number.
pub open spec fn numbered(command: GameCommand) -> bool {
    exists|i: int| 0 <= i < NUMBER_OF_COMMANDS && command == #[trigger] command_of(i)
}

fn gem(i: u8) -> (color: Color)
    requires
        i < 5,
    ensures
        color == gem_at(i as int),
{
    if i == 0 {
        Color::Black
    } else if i == 1 {
        Color::White
    } else if i == 2 {
        Color::Red
    } else if i == 3 {
        Color::Blue
    } else {
        Color::Green
    }
}

/// The move with the given number.
pub fn to_command(input: u8) -> (command: GameCommand)
    requires
        input < NUMBER_OF_COMMANDS,
    ensures
        command == command_of(input as int),
{
    if input < 12 {
        GameCommand::ReserveDevelopmentCard { x: input / 4, y: input % 4 }
    } else if input < 24 {
        GameCommand::BuyDevelopmentCard { x: (input - 12) / 4, y: (input - 12) % 4 }
    } else if input < 29 {
        GameCommand::SelectTwoSameTokens(gem(input - 24))
    } else if input < 39 {
        // The sets are listed with the first color rising slowest.
        let k: u8 = input - 29;
        let (a, b, c): (u8, u8, u8) = if k < 3 {
            (0, 1, k + 2)
        } else if k < 5 {
            (0, 2, k)
        } else if k == 5 {
            (0, 3, 4)
        } else if k < 8 {
            (1, 2, k - 3)
        } else if k == 8 {
            (1, 3, 4)
        } else {
            (2, 3, 4)
        };
        GameCommand::SelectThreeTokens(gem(a), gem(b), gem(c))
    } else if input == 39 {
        GameCommand::ReserveStackCard(Level::One)
    } else if input == 40 {
        GameCommand::ReserveStackCard(Level::Two)
    } else if input == 41 {
        GameCommand::ReserveStackCard(Level::Three)
    } else {
        GameCommand::BuyReservedCard(input - 42)
    }
}

/// Different numbers stand for different moves.
pub proof fn lemma_commands_distinct(i: int, j: int)
    requires
        0 <= i < NUMBER_OF_COMMANDS,
        0 <= j < NUMBER_OF_COMMANDS,
        command_of(i) == command_of(j),
    ensures
        i == j,
{
    if 29 <= i < 39 && 29 <= j < 39 {
        assert(color_sets()[i - 29] == color_sets()[j - 29]);
    }
}

/// Why a move is not allowed. The player and the board stay as they were.
#[derive(Clone, Copy, PartialEq, Eq, Structural, Debug)]
pub enum IllegalMove {
    /// There is no card at the place the move names.
    EmptyTarget,
    /// The hand holds as many reserved cards as it may.
    HandFull,
    /// Bonuses, tokens and gold together do not cover the price.
    InsufficientFunds,
    /// The bank holds too few tokens of the color to give two at once.
    BankScarcity,
    /// The player holds as many tokens as a player may before taking more.
    HoldingCapExceeded,
    /// The bank has none of the three colors asked for.
    NothingTaken,
}

/// Why a move did not go through.
#[derive(Clone, Copy, PartialEq, Eq, Structural, Debug)]
pub enum MoveError {
    /// The move is against the rules; another one may be tried.
    IllegalMove(IllegalMove),
    /// No legal move was found within the allowed number of tries.
    ExhaustedRetries,
    /// Tokens were to be removed that are not there: the books are wrong.
    AccountingInvariantViolation(CountMismatch),
}

/// What a move that went through has done.
#[derive(Clone, Copy, PartialEq, Eq, Structural, Debug)]
pub enum Outcome {
    /// A card was reserved and a gold token came with it.
    Reserved,
    /// A card was reserved; the bank had no gold token to give.
    ReservedWithoutGold,
    /// A card was bought.
    Purchased,
    /// A card was bought and at least one noble came to visit.
    PurchasedWithVisit,
    /// At least one token was taken.
    TokensTaken,
}

/// Lets every noble visit whose demands the player's bonuses meet: the
/// player gets its points, and it leaves the board for good. Tells whether
/// any noble came.
pub fn visit(user: &mut User, board: &mut Board) -> (visited: bool)
    requires
        old(user)@.vp + points_of(visiting(old(board)@.nobles, old(user)@.acquired)) <= u8::MAX,
    ensures
        final(user)@ == (UserView {
            vp: (old(user)@.vp + points_of(
                visiting(old(board)@.nobles, old(user)@.acquired),
            )) as u8,
            ..old(user)@
        }),
        final(board)@ == (BoardView {
            nobles: staying(old(board)@.nobles, old(user)@.acquired),
            ..old(board)@
        }),
        visited == (visiting(old(board)@.nobles, old(user)@.acquired).len() > 0),
{
    let jewelries = user.get_jewelries();
    let ghost acquired = user@.acquired;
    let ghost nobles = board@.nobles;
    let tiles: Vec<NobleTile> = board.get_noble_tile().clone();
    assert(tiles@ =~= nobles);
    let mut kept: Vec<NobleTile> = Vec::new();
    let mut visited = false;
    let mut i: usize = 0;
    while i < tiles.len()
        invariant
            i <= tiles.len(),
            tiles@ == nobles,
            acquired == old(user)@.acquired,
            forall|c: Color| c.is_gem() ==> #[trigger] jewelries.amount(c) == bonus_of(acquired, c),
            old(user)@.vp + points_of(visiting(nobles, acquired)) <= u8::MAX,
            kept@ == staying(nobles.take(i as int), acquired),
            user@ == (UserView {
                vp: (old(user)@.vp + points_of(visiting(nobles.take(i as int), acquired))) as u8,
                ..old(user)@
            }),
            visited == (visiting(nobles.take(i as int), acquired).len() > 0),
        decreases tiles.len() - i,
    {
        let tile = tiles[i];
        proof {
            assert(nobles.take(i + 1).drop_last() =~= nobles.take(i as int));
            assert(nobles.take(i + 1).last() == tile);
            lemma_visiting_prefix(nobles, i as int, acquired);
            lemma_visiting_prefix(nobles, i + 1, acquired);
            let before = visiting(nobles.take(i as int), acquired);
            assert(before.push(tile).drop_last() =~= before);
            assert(points_of(before.push(tile)) == points_of(before) + tile.point);
            assert(tile.welcomes(jewelries) == visits(tile, acquired)) by {
                if tile.welcomes(jewelries) {
                    assert forall|c: Color| tile.bonus(c) <= bonus_of(acquired, c) by {
                        assert(tile.bonus(c) <= jewelries.amount(c));
                    }
                }
                if visits(tile, acquired) {
                    assert forall|c: Color| tile.bonus(c) <= jewelries.amount(c) by {
                        assert(tile.bonus(c) <= bonus_of(acquired, c));
                    }
                }
            }
        }
        if tile.can_visit(&jewelries) {
            user.add_vp(tile.get_point());
            visited = true;
        } else {
            kept.push(tile);
        }
        i += 1;
    }
    assert(nobles.take(i as int) =~= nobles);
    let pool = board.get_noble_tile();
    *pool = kept;
    visited
}

/// Hands the player a gold token from the bank, if the bank has one, as
/// comes with a reservation.
fn grant_gold(user: &mut User, board: &mut Board) -> (outcome: Outcome)
    requires
        tokens_fit(old(user)@, old(board)@),
    ensures
        outcome == if old(board)@.bank.count(Color::Gold) > 0 {
            Outcome::Reserved
        } else {
            Outcome::ReservedWithoutGold
        },
        final(user)@ == (UserView { tokens: final(user)@.tokens, ..old(user)@ }),
        final(board)@ == (BoardView { bank: final(board)@.bank, ..old(board)@ }),
        forall|c: Color|
            #![trigger final(user)@.tokens.count(c)]
            #![trigger final(board)@.bank.count(c)]
            final(user)@.tokens.count(c) == old(user)@.tokens.count(c) + gold_grant(
                old(board)@.bank,
                c,
            ) && final(board)@.bank.count(c) == old(board)@.bank.count(c) - gold_grant(
                old(board)@.bank,
                c,
            ),
{
    let got = take_one(Color::Gold, user, board);
    proof {
        assert forall|c: Color|
            #![trigger user@.tokens.count(c)]
            #![trigger board@.bank.count(c)]
            user@.tokens.count(c) == old(user)@.tokens.count(c) + gold_grant(old(board)@.bank, c)
                && board@.bank.count(c) == old(board)@.bank.count(c) - gold_grant(
                old(board)@.bank,
                c,
            ) by {
            lemma_handed(old(user)@.tokens, old(board)@.bank, Color::Gold, c);
        }
    }
    if got {
        Outcome::Reserved
    } else {
        Outcome::ReservedWithoutGold
    }
}

/// Moves the face-up card at row `x` and column `y` into the player's hand
/// and refills the place. A gold token comes with it if the bank has one.
/// Fails where the hand is full or the place is empty.
pub fn reserve_development_card(x: u8, y: u8, user: &mut User, board: &mut Board) -> (result:
    Result<Outcome, MoveError>)
    requires
        old(user)@.wf(),
        old(board)@.wf(),
        tokens_fit(old(user)@, old(board)@),
    ensures
        final(user)@.wf(),
        final(board)@.wf(),
        result == outcome_of(
            old(user)@,
            old(board)@,
            GameCommand::ReserveDevelopmentCard { x, y },
        ),
        resolved(
            old(user)@,
            old(board)@,
            GameCommand::ReserveDevelopmentCard { x, y },
            final(user)@,
            final(board)@,
        ),
{
    if user.is_over_capacity_of_hand() {
        Err(MoveError::IllegalMove(IllegalMove::HandFull))
    } else {
        match board.get_card(x, y) {
            Some(card) => {
                user.add_to_hands(card);
                Ok(grant_gold(user, board))
            },
            None => Err(MoveError::IllegalMove(IllegalMove::EmptyTarget)),
        }
    }
}

/// Moves the top card of a tier's pile into the player's hand. A gold token
/// comes with it if the bank has one. Fails where the hand is full or the
/// pile is used up.
pub fn reserve_stack_card(level: Level, user: &mut User, board: &mut Board) -> (result: Result<
    Outcome,
    MoveError,
>)
    requires
        old(user)@.wf(),
        old(board)@.wf(),
        tokens_fit(old(user)@, old(board)@),
    ensures
        final(user)@.wf(),
        final(board)@.wf(),
        result == outcome_of(old(user)@, old(board)@, GameCommand::ReserveStackCard(level)),
        resolved(
            old(user)@,
            old(board)@,
            GameCommand::ReserveStackCard(level),
            final(user)@,
            final(board)@,
        ),
{
    if user.is_over_capacity_of_hand() {
        Err(MoveError::IllegalMove(IllegalMove::HandFull))
    } else {
        match board.get_stack_card(level) {
            Some(card) => {
                user.add_to_hands(card);
                Ok(grant_gold(user, board))
            },
            None => Err(MoveError::IllegalMove(IllegalMove::EmptyTarget)),
        }
    }
}

/// Pays for a card that has been found affordable, adds it to the player's
/// acquired cards and lets the nobles visit.
fn settle(card: Card, user: &mut User, board: &mut Board) -> (result: Result<Outcome, MoveError>)
    requires
        old(user)@.can_afford(card),
        tokens_fit(old(user)@, old(board)@),
        old(user)@.vp + purchase_points(old(user)@, old(board)@.nobles, card) <= u8::MAX,
    ensures
        result == Ok::<Outcome, MoveError>(
            if visiting(old(board)@.nobles, old(user)@.acquired.push(card)).len() > 0 {
                Outcome::PurchasedWithVisit
            } else {
                Outcome::Purchased
            },
        ),
        purchased(old(user)@, old(board)@, card, final(user)@, final(board)@),
{
    match user.pay(&card, board.get_token_stack()) {
        Ok(()) => {},
        Err(mismatch) => {
            return Err(MoveError::AccountingInvariantViolation(mismatch));
        },
    }
    user.obtain(card);
    let is_visited = visit(user, board);
    if is_visited {
        Ok(Outcome::PurchasedWithVisit)
    } else {
        Ok(Outcome::Purchased)
    }
}

/// Buys the face-up card at row `x` and column `y`: the player pays, gets
/// the card and its points, the place is refilled, and the nobles visit.
/// Fails where the place is empty or the player cannot pay.
pub fn buy_development_card(x: u8, y: u8, user: &mut User, board: &mut Board) -> (result: Result<
    Outcome,
    MoveError,
>)
    requires
        old(user)@.wf(),
        old(board)@.wf(),
        within_limits(old(user)@, old(board)@, GameCommand::BuyDevelopmentCard { x, y }),
    ensures
        final(user)@.wf(),
        final(board)@.wf(),
        result == outcome_of(old(user)@, old(board)@, GameCommand::BuyDevelopmentCard { x, y }),
        resolved(
            old(user)@,
            old(board)@,
            GameCommand::BuyDevelopmentCard { x, y },
            final(user)@,
            final(board)@,
        ),
{
    let is_available = match board.peek_card(x, y) {
        Some(card) => card.is_available(user),
        None => {
            return Err(MoveError::IllegalMove(IllegalMove::EmptyTarget));
        },
    };
    if is_available {
        let card = board.uget_card(x, y);
        settle(card, user, board)
    } else {
        Err(MoveError::IllegalMove(IllegalMove::InsufficientFunds))
    }
}

/// Buys the reserved card at place `order` of the hand: the player pays,
/// the card goes from the hand to the acquired cards and brings its points,
/// and the nobles visit. Fails where the hand has no such card or the
/// player cannot pay.
pub fn buy_reserved_card(order: u8, user: &mut User, board: &mut Board) -> (result: Result<
    Outcome,
    MoveError,
>)
    requires
        old(user)@.wf(),
        old(board)@.wf(),
        within_limits(old(user)@, old(board)@, GameCommand::BuyReservedCard(order)),
    ensures
        final(user)@.wf(),
        final(board)@.wf(),
        result == outcome_of(old(user)@, old(board)@, GameCommand::BuyReservedCard(order)),
        resolved(
            old(user)@,
            old(board)@,
            GameCommand::BuyReservedCard(order),
            final(user)@,
            final(board)@,
        ),
{
    let is_available = match user.peek_card_in_hands(order) {
        Some(card) => card.is_available(user),
        None => {
            return Err(MoveError::IllegalMove(IllegalMove::EmptyTarget));
        },
    };
    if is_available {
        let card = user.uget_card_in_hands(order);
        user.remove_card_in_hands(order);
        settle(card, user, board)
    } else {
        Err(MoveError::IllegalMove(IllegalMove::InsufficientFunds))
    }
}

/// The tokens of a player after the bank has handed over one token of
/// `color`, if it has one.
spec fn handed(tokens: TokenStack, bank: TokenStack, color: Color) -> TokenStack {
    if bank.count(color) > 0 {
        tokens.with_added(color)
    } else {
        tokens
    }
}

/// When one token goes from the bank to a player, the count of each color
/// changes by one for the color that went and not at all for the others,
/// and the totals follow.
proof fn lemma_handed(tokens: TokenStack, bank: TokenStack, color: Color, c: Color)
    requires
        stacks_fit(tokens, bank),
    ensures
        handed(tokens, bank, color).count(c) == tokens.count(c) + when_same(
            c,
            color,
            first_gain(bank, color),
        ),
        bank.with_removed(color).count(c) == bank.count(c) - when_same(
            c,
            color,
            first_gain(bank, color),
        ),
        handed(tokens, bank, color).total() == tokens.total() + first_gain(bank, color),
        stacks_fit(handed(tokens, bank, color), bank.with_removed(color)),
{
    tokens.lemma_with_added(color, c);
    bank.lemma_with_removed(color, c);
    assert(bank.count(color) + tokens.count(color) <= u8::MAX);
    assert forall|k: Color|
        #![trigger bank.with_removed(color).count(k)]
        #![trigger handed(tokens, bank, color).count(k)]
        bank.with_removed(color).count(k) + handed(tokens, bank, color).count(k) <= u8::MAX by {
        tokens.lemma_with_added(color, k);
        bank.lemma_with_removed(color, k);
        assert(bank.count(k) + tokens.count(k) <= u8::MAX);
    }
}

/// Hands the player a token of `color` from the bank, if the bank has one.
fn take_one(color: Color, user: &mut User, board: &mut Board) -> (got: bool)
    requires
        tokens_fit(old(user)@, old(board)@),
    ensures
        got == (old(board)@.bank.count(color) > 0),
        tokens_fit(final(user)@, final(board)@),
        final(user)@ == (UserView {
            tokens: handed(old(user)@.tokens, old(board)@.bank, color),
            ..old(user)@
        }),
        final(board)@ == (BoardView { bank: old(board)@.bank.with_removed(color), ..old(board)@ }),
{
    proof {
        lemma_handed(old(user)@.tokens, old(board)@.bank, color, color);
    }
    match board.get_token(color) {
        Some(token) => {
            user.add_token(token);
            true
        },
        None => false,
    }
}

/// Takes two tokens of one color, or one where the first already fills the
/// player's holding. Fails where the holding is full beforehand or the bank
/// holds fewer than `LIMIT_OF_GETTING_SAME_TOKEN` tokens of the color.
pub fn select_two_same_tokens(color: Color, user: &mut User, board: &mut Board) -> (result: Result<
    Outcome,
    MoveError,
>)
    requires
        tokens_fit(old(user)@, old(board)@),
    ensures
        result == outcome_of(old(user)@, old(board)@, GameCommand::SelectTwoSameTokens(color)),
        resolved(
            old(user)@,
            old(board)@,
            GameCommand::SelectTwoSameTokens(color),
            final(user)@,
            final(board)@,
        ),
        result.is_ok() ==> final(user)@.tokens.total() <= MAX_NUMBER_OF_HELD_TOKENS,
{
    if !user.can_get_token() {
        return Err(MoveError::IllegalMove(IllegalMove::HoldingCapExceeded));
    }
    if board.can_get_token(color) {
        let ghost t0 = user@.tokens;
        let ghost b0 = board@.bank;
        take_one(color, user, board);
        let ghost t1 = user@.tokens;
        let ghost b1 = board@.bank;
        proof {
            lemma_handed(t0, b0, color, color);
        }
        if !user.can_get_token() {
            proof {
                assert forall|c: Color|
                    #![trigger user@.tokens.count(c)]
                    #![trigger board@.bank.count(c)]
                    user@.tokens.count(c) == t0.count(c) + token_gain(
                        old(user)@,
                        old(board)@,
                        GameCommand::SelectTwoSameTokens(color),
                        c,
                    ) && board@.bank.count(c) == b0.count(c) - token_gain(
                        old(user)@,
                        old(board)@,
                        GameCommand::SelectTwoSameTokens(color),
                        c,
                    ) by {
                    lemma_handed(t0, b0, color, c);
                }
            }
            return Ok(Outcome::TokensTaken);
        }
        take_one(color, user, board);
        proof {
            lemma_handed(t1, b1, color, color);
            assert forall|c: Color|
                #![trigger user@.tokens.count(c)]
                #![trigger board@.bank.count(c)]
                user@.tokens.count(c) == t0.count(c) + token_gain(
                    old(user)@,
                    old(board)@,
                    GameCommand::SelectTwoSameTokens(color),
                    c,
                ) && board@.bank.count(c) == b0.count(c) - token_gain(
                    old(user)@,
                    old(board)@,
                    GameCommand::SelectTwoSameTokens(color),
                    c,
                ) by {
                lemma_handed(t0, b0, color, c);
                lemma_handed(t1, b1, color, c);
            }
        }
        Ok(Outcome::TokensTaken)
    } else {
        Err(MoveError::IllegalMove(IllegalMove::BankScarcity))
    }
}

/// Three steps of handing over one token each, for the colors `c1`, `c2`
/// and `c3` in turn: what they do to the count of one color and to the
/// totals.
proof fn lemma_three_handed(
    t0: TokenStack,
    b0: TokenStack,
    c1: Color,
    c2: Color,
    c3: Color,
    c: Color,
)
    requires
        stacks_fit(t0, b0),
    ensures
        ({
            let t1 = handed(t0, b0, c1);
            let b1 = b0.with_removed(c1);
            let t2 = handed(t1, b1, c2);
            let b2 = b1.with_removed(c2);
            let t3 = handed(t2, b2, c3);
            let b3 = b2.with_removed(c3);
            let g1 = first_gain(b0, c1);
            let g2 = first_gain(b1, c2);
            let g3 = first_gain(b2, c3);
            let at1 = when_same(c, c1, g1);
            let at2 = when_same(c, c2, g2);
            let at3 = when_same(c, c3, g3);
            &&& stacks_fit(t1, b1)
            &&& stacks_fit(t2, b2)
            &&& stacks_fit(t3, b3)
            &&& t1.total() == t0.total() + g1
            &&& t2.total() == t0.total() + g1 + g2
            &&& t3.total() == t0.total() + g1 + g2 + g3
            &&& t1.count(c) == t0.count(c) + at1
            &&& b1.count(c) == b0.count(c) - at1
            &&& t2.count(c) == t0.count(c) + at1 + at2
            &&& b2.count(c) == b0.count(c) - at1 - at2
            &&& t3.count(c) == t0.count(c) + at1 + at2 + at3
            &&& b3.count(c) == b0.count(c) - at1 - at2 - at3
        }),
{
    let t1 = handed(t0, b0, c1);
    let b1 = b0.with_removed(c1);
    let t2 = handed(t1, b1, c2);
    let b2 = b1.with_removed(c2);
    lemma_handed(t0, b0, c1, c);
    lemma_handed(t1, b1, c2, c);
    lemma_handed(t2, b2, c3, c);
}

/// The holding is full once the first of three colors has been tried: the
/// state is what taking three says.
proof fn lemma_taken_after_one(user: UserView, board: BoardView, c1: Color, c2: Color, c3: Color)
    requires
        tokens_fit(user, board),
        user.tokens.total() < MAX_NUMBER_OF_HELD_TOKENS,
        handed(user.tokens, board.bank, c1).total() >= MAX_NUMBER_OF_HELD_TOKENS,
    ensures
        first_gain(board.bank, c1) == 1,
        handed(user.tokens, board.bank, c1).total() == MAX_NUMBER_OF_HELD_TOKENS,
        taken(
            user,
            board,
            GameCommand::SelectThreeTokens(c1, c2, c3),
            (UserView { tokens: handed(user.tokens, board.bank, c1), ..user }),
            (BoardView { bank: board.bank.with_removed(c1), ..board }),
        ),
{
    let t0 = user.tokens;
    let b0 = board.bank;
    let t1 = handed(t0, b0, c1);
    let b1 = b0.with_removed(c1);
    let command = GameCommand::SelectThreeTokens(c1, c2, c3);
    lemma_three_handed(t0, b0, c1, c2, c3, c1);
    assert forall|c: Color|
        t1.count(c) == t0.count(c) + token_gain(user, board, command, c) && b1.count(c)
            == b0.count(c) - token_gain(user, board, command, c) by {
        lemma_three_handed(t0, b0, c1, c2, c3, c);
    }
}

/// The holding is full once the second of three colors has been tried:
/// the state is what taking three says.
proof fn lemma_taken_after_two(user: UserView, board: BoardView, c1: Color, c2: Color, c3: Color)
    requires
        tokens_fit(user, board),
        handed(user.tokens, board.bank, c1).total() < MAX_NUMBER_OF_HELD_TOKENS,
        handed(
            handed(user.tokens, board.bank, c1),
            board.bank.with_removed(c1),
            c2,
        ).total() >= MAX_NUMBER_OF_HELD_TOKENS,
    ensures
        second_gain(user, board.bank, c1, c2) == 1,
        handed(
            handed(user.tokens, board.bank, c1),
            board.bank.with_removed(c1),
            c2,
        ).total() == MAX_NUMBER_OF_HELD_TOKENS,
        taken(
            user,
            board,
            GameCommand::SelectThreeTokens(c1, c2, c3),
            (UserView {
                tokens: handed(
                    handed(user.tokens, board.bank, c1),
                    board.bank.with_removed(c1),
                    c2,
                ),
                ..user
            }),
            (BoardView { bank: board.bank.with_removed(c1).with_removed(c2), ..board }),
        ),
{
    let t0 = user.tokens;
    let b0 = board.bank;
    let t1 = handed(t0, b0, c1);
    let b1 = b0.with_removed(c1);
    let t2 = handed(t1, b1, c2);
    let b2 = b1.with_removed(c2);
    let command = GameCommand::SelectThreeTokens(c1, c2, c3);
    lemma_three_handed(t0, b0, c1, c2, c3, c1);
    assert forall|c: Color|
        t2.count(c) == t0.count(c) + token_gain(user, board, command, c) && b2.count(c)
            == b0.count(c) - token_gain(user, board, command, c) by {
        lemma_three_handed(t0, b0, c1, c2, c3, c);
    }
}

/// All three colors have been tried: the state is what taking three says.
proof fn lemma_taken_after_three(user: UserView, board: BoardView, c1: Color, c2: Color, c3: Color)
    requires
        tokens_fit(user, board),
        handed(user.tokens, board.bank, c1).total() < MAX_NUMBER_OF_HELD_TOKENS,
        handed(
            handed(user.tokens, board.bank, c1),
            board.bank.with_removed(c1),
            c2,
        ).total() < MAX_NUMBER_OF_HELD_TOKENS,
    ensures
        ({
            let t1 = handed(user.tokens, board.bank, c1);
            let b1 = board.bank.with_removed(c1);
            let t2 = handed(t1, b1, c2);
            let b2 = b1.with_removed(c2);
            let t3 = handed(t2, b2, c3);
            let b3 = b2.with_removed(c3);
            let gains = first_gain(board.bank, c1) + second_gain(user, board.bank, c1, c2)
                + third_gain(user, board.bank, c1, c2, c3);
            &&& taken(
                user,
                board,
                GameCommand::SelectThreeTokens(c1, c2, c3),
                (UserView { tokens: t3, ..user }),
                (BoardView { bank: b3, ..board }),
            )
            &&& gains == first_gain(board.bank, c1) + first_gain(b1, c2) + first_gain(b2, c3)
            &&& t3.total() == user.tokens.total() + gains
            &&& t3.total() <= MAX_NUMBER_OF_HELD_TOKENS
        }),
{
    let t0 = user.tokens;
    let b0 = board.bank;
    let t1 = handed(t0, b0, c1);
    let b1 = b0.with_removed(c1);
    let t2 = handed(t1, b1, c2);
    let b2 = b1.with_removed(c2);
    let t3 = handed(t2, b2, c3);
    let b3 = b2.with_removed(c3);
    let command = GameCommand::SelectThreeTokens(c1, c2, c3);
    lemma_three_handed(t0, b0, c1, c2, c3, c1);
    assert(second_gain(user, b0, c1, c2) == first_gain(b1, c2));
    assert(third_gain(user, b0, c1, c2, c3) == first_gain(b2, c3));
    assert forall|c: Color|
        t3.count(c) == t0.count(c) + token_gain(user, board, command, c) && b3.count(c)
            == b0.count(c) - token_gain(user, board, command, c) by {
        lemma_three_handed(t0, b0, c1, c2, c3, c);
    }
}

/// Where the bank has none of the three colors, trying them changes
/// nothing.
proof fn lemma_nothing_taken(t0: TokenStack, b0: TokenStack, c1: Color, c2: Color, c3: Color)
    requires
        stacks_fit(t0, b0),
        first_gain(b0, c1) == 0,
        first_gain(b0.with_removed(c1), c2) == 0,
        first_gain(b0.with_removed(c1).with_removed(c2), c3) == 0,
    ensures
        handed(
            handed(handed(t0, b0, c1), b0.with_removed(c1), c2),
            b0.with_removed(c1).with_removed(c2),
            c3,
        ) == t0,
        b0.with_removed(c1).with_removed(c2).with_removed(c3) == b0,
{
    let t1 = handed(t0, b0, c1);
    let b1 = b0.with_removed(c1);
    let t2 = handed(t1, b1, c2);
    let b2 = b1.with_removed(c2);
    let t3 = handed(t2, b2, c3);
    let b3 = b2.with_removed(c3);
    assert forall|c: Color| t3.count(c) == t0.count(c) by {
        lemma_three_handed(t0, b0, c1, c2, c3, c);
    }
    assert forall|c: Color| b3.count(c) == b0.count(c) by {
        lemma_three_handed(t0, b0, c1, c2, c3, c);
    }
    t3.lemma_equal_by_counts(t0);
    b3.lemma_equal_by_counts(b0);
}

/// Takes one token of each of three colors, as far as the bank has them,
/// and stops as soon as the player's holding is full. Fails where the
/// holding is full beforehand or no token at all could be taken.
pub fn select_three_tokens(
    color1: Color,
    color2: Color,
    color3: Color,
    user: &mut User,
    board: &mut Board,
) -> (result: Result<Outcome, MoveError>)
    requires
        tokens_fit(old(user)@, old(board)@),
    ensures
        result == outcome_of(
            old(user)@,
            old(board)@,
            GameCommand::SelectThreeTokens(color1, color2, color3),
        ),
        resolved(
            old(user)@,
            old(board)@,
            GameCommand::SelectThreeTokens(color1, color2, color3),
            final(user)@,
            final(board)@,
        ),
        result.is_ok() ==> final(user)@.tokens.total() <= MAX_NUMBER_OF_HELD_TOKENS,
{
    if !user.can_get_token() {
        return Err(MoveError::IllegalMove(IllegalMove::HoldingCapExceeded));
    }
    let mut count: u8 = 0;
    if take_one(color1, user, board) {
        count = count + 1;
    }
    if !user.can_get_token() {
        proof {
            lemma_taken_after_one(old(user)@, old(board)@, color1, color2, color3);
        }
        return Ok(Outcome::TokensTaken);
    }
    if take_one(color2, user, board) {
        count = count + 1;
    }
    if !user.can_get_token() {
        proof {
            lemma_three_handed(old(user)@.tokens, old(board)@.bank, color1, color2, color3, color1);
            lemma_taken_after_two(old(user)@, old(board)@, color1, color2, color3);
        }
        return Ok(Outcome::TokensTaken);
    }
    if take_one(color3, user, board) {
        count = count + 1;
    }
    proof {
        lemma_three_handed(old(user)@.tokens, old(board)@.bank, color1, color2, color3, color1);
        lemma_taken_after_three(old(user)@, old(board)@, color1, color2, color3);
    }
    if count == 0 {
        proof {
            lemma_nothing_taken(old(user)@.tokens, old(board)@.bank, color1, color2, color3);
        }
        Err(MoveError::IllegalMove(IllegalMove::NothingTaken))
    } else {
        Ok(Outcome::TokensTaken)
    }
}

} // verus!
