use vstd::prelude::*;
use crate::board::{row_of, BoardView, LIMIT_OF_GETTING_SAME_TOKEN};
use crate::card::Card;
use crate::color::Color;
use crate::game_command::{GameCommand, IllegalMove, MoveError, Outcome};
use crate::level::Level;
use crate::noble_tile::NobleTile;
use crate::token_stack::TokenStack;
use crate::user::{bonus_of, UserView, MAX_NUMBER_OF_HANDS, MAX_NUMBER_OF_HELD_TOKENS};

verus! {

/// For every color, bank and player together hold no more tokens than a
/// single count can express.
pub open spec fn tokens_fit(user: UserView, board: BoardView) -> bool {
    stacks_fit(user.tokens, board.bank)
}

/// For every color, the two stacks together hold no more tokens than a
/// single count can express.
pub open spec fn stacks_fit(tokens: TokenStack, bank: TokenStack) -> bool {
    forall|c: Color|
        #![trigger bank.count(c)]
        #![trigger tokens.count(c)]
        bank.count(c) + tokens.count(c) <= u8::MAX
}

/// The noble visits a player with these acquired cards: the bonus reaches
/// what the noble asks for in every gem color.
pub open spec fn visits(tile: NobleTile, acquired: Seq<Card>) -> bool {
    forall|c: Color| tile.bonus(c) <= bonus_of(acquired, c)
}

/// The nobles that visit a player with these acquired cards, in their order.
pub open spec fn visiting(nobles: Seq<NobleTile>, acquired: Seq<Card>) -> Seq<NobleTile>
    decreases nobles.len(),
{
    if nobles.len() == 0 {
        Seq::empty()
    } else if visits(nobles.last(), acquired) {
        visiting(nobles.drop_last(), acquired).push(nobles.last())
    } else {
        visiting(nobles.drop_last(), acquired)
    }
}

/// The nobles that do not visit a player with these acquired cards, in
/// their order.
pub open spec fn staying(nobles: Seq<NobleTile>, acquired: Seq<Card>) -> Seq<NobleTile>
    decreases nobles.len(),
{
    if nobles.len() == 0 {
        Seq::empty()
    } else if visits(nobles.last(), acquired) {
        staying(nobles.drop_last(), acquired)
    } else {
        staying(nobles.drop_last(), acquired).push(nobles.last())
    }
}

/// The victory points of some nobles together.
pub open spec fn points_of(nobles: Seq<NobleTile>) -> nat
    decreases nobles.len(),
{
    if nobles.len() == 0 {
        0
    } else {
        points_of(nobles.drop_last()) + nobles.last().point as nat
    }
}

/// The victory points that buying a card brings: those of the card and
/// those of the nobles that visit once the card is acquired.
pub open spec fn purchase_points(user: UserView, nobles: Seq<NobleTile>, card: Card) -> nat {
    card.point as nat + points_of(visiting(nobles, user.acquired.push(card)))
}

/// The top card of a tier's pile, if the pile has one.
pub open spec fn top_of(board: BoardView, level: Level) -> Option<Card> {
    if board.piles[row_of(level)].len() > 0 {
        Some(board.piles[row_of(level)].last())
    } else {
        None
    }
}

/// The reserved card at a place of the hand, if there is one.
pub open spec fn in_hand(user: UserView, order: u8) -> Option<Card> {
    if order < user.hand.len() {
        Some(user.hand[order as int])
    } else {
        None
    }
}

/// The numbers that a move computes stay within what the counters of a
/// player can express: tokens that change hands fit, and the victory points
/// after a purchase fit.
pub open spec fn within_limits(user: UserView, board: BoardView, command: GameCommand) -> bool {
    &&& tokens_fit(user, board)
    &&& match command {
        GameCommand::BuyDevelopmentCard { x, y } => match board.cell(x as int, y as int) {
            Some(card) => user.can_afford(card) ==> user.vp + purchase_points(
                user,
                board.nobles,
                card,
            ) <= u8::MAX,
            None => true,
        },
        GameCommand::BuyReservedCard(order) => match in_hand(user, order) {
            Some(card) => user.can_afford(card) ==> user.vp + purchase_points(
                user,
                board.nobles,
                card,
            ) <= u8::MAX,
            None => true,
        },
        _ => true,
    }
}

/// Whatever card the player buys, on the board or from the hand, and even
/// if every noble came to visit, the tokens that change hands and the
/// victory points fit into the counters of the player.
pub open spec fn has_room(user: UserView, board: BoardView) -> bool {
    &&& tokens_fit(user, board)
    &&& user.vp + points_of(board.nobles) <= u8::MAX
    &&& forall|x: int, y: int|
        0 <= x < board.grid.len() && 0 <= y < board.grid[x].len() ==> match #[trigger] board.cell(
            x,
            y,
        ) {
            Some(card) => user.vp + card.point + points_of(board.nobles) <= u8::MAX,
            None => true,
        }
    &&& forall|i: int|
        0 <= i < user.hand.len() ==> user.vp + (#[trigger] user.hand[i]).point + points_of(
            board.nobles,
        ) <= u8::MAX
}

/// The first nobles bring no more points than all of them.
pub proof fn lemma_points_of_prefix(nobles: Seq<NobleTile>, k: int)
    requires
        0 <= k <= nobles.len(),
    ensures
        points_of(nobles.take(k)) <= points_of(nobles),
    decreases nobles.len(),
{
    if k < nobles.len() {
        lemma_points_of_prefix(nobles.drop_last(), k);
        assert(nobles.drop_last().take(k) =~= nobles.take(k));
    } else {
        assert(nobles.take(k) =~= nobles);
    }
}

/// The nobles that visit bring no more points than all nobles together.
pub proof fn lemma_visiting_points_bound(nobles: Seq<NobleTile>, acquired: Seq<Card>)
    ensures
        points_of(visiting(nobles, acquired)) <= points_of(nobles),
    decreases nobles.len(),
{
    if nobles.len() > 0 {
        lemma_visiting_points_bound(nobles.drop_last(), acquired);
        if visits(nobles.last(), acquired) {
            assert(visiting(nobles, acquired).drop_last() =~= visiting(
                nobles.drop_last(),
                acquired,
            ));
        }
    }
}

/// Where there is room for every purchase, every move stays within the
/// limits.
pub proof fn lemma_room_for_every_move(user: UserView, board: BoardView, command: GameCommand)
    requires
        has_room(user, board),
    ensures
        within_limits(user, board, command),
{
    match command {
        GameCommand::BuyDevelopmentCard { x, y } => {
            if let Some(card) = board.cell(x as int, y as int) {
                lemma_visiting_points_bound(board.nobles, user.acquired.push(card));
            }
        },
        GameCommand::BuyReservedCard(order) => {
            if let Some(card) = in_hand(user, order) {
                assert(card == user.hand[order as int]);
                lemma_visiting_points_bound(board.nobles, user.acquired.push(card));
            }
        },
        _ => {},
    }
}

/// How a reservation ends for a player, given the card that the move names
/// and the bank.
pub open spec fn reserve_outcome(user: UserView, card: Option<Card>, bank: TokenStack) -> Result<
    Outcome,
    MoveError,
> {
    if user.hand.len() >= MAX_NUMBER_OF_HANDS {
        Err(MoveError::IllegalMove(IllegalMove::HandFull))
    } else if card.is_none() {
        Err(MoveError::IllegalMove(IllegalMove::EmptyTarget))
    } else if bank.count(Color::Gold) > 0 {
        Ok(Outcome::Reserved)
    } else {
        Ok(Outcome::ReservedWithoutGold)
    }
}

/// How a purchase ends for a player, given the card that the move names and
/// the nobles on the board.
pub open spec fn purchase_outcome(
    user: UserView,
    card: Option<Card>,
    nobles: Seq<NobleTile>,
) -> Result<Outcome, MoveError> {
    match card {
        None => Err(MoveError::IllegalMove(IllegalMove::EmptyTarget)),
        Some(card) => if !user.can_afford(card) {
            Err(MoveError::IllegalMove(IllegalMove::InsufficientFunds))
        } else if visiting(nobles, user.acquired.push(card)).len() > 0 {
            Ok(Outcome::PurchasedWithVisit)
        } else {
            Ok(Outcome::Purchased)
        },
    }
}

/// How many tokens a player who may take two of a color gets: two, or one
/// where the first already fills the holding.
pub open spec fn take_two_gain(user: UserView) -> nat {
    if user.tokens.total() + 1 >= MAX_NUMBER_OF_HELD_TOKENS {
        1
    } else {
        2
    }
}

/// How taking two tokens of a color ends.
pub open spec fn take_two_outcome(user: UserView, bank: TokenStack, color: Color) -> Result<
    Outcome,
    MoveError,
> {
    if user.tokens.total() >= MAX_NUMBER_OF_HELD_TOKENS {
        Err(MoveError::IllegalMove(IllegalMove::HoldingCapExceeded))
    } else if bank.count(color) < LIMIT_OF_GETTING_SAME_TOKEN {
        Err(MoveError::IllegalMove(IllegalMove::BankScarcity))
    } else {
        Ok(Outcome::TokensTaken)
    }
}

/// Whether the first of three colors gives a token: the bank has one.
pub open spec fn first_gain(bank: TokenStack, c1: Color) -> nat {
    if bank.count(c1) > 0 {
        1
    } else {
        0
    }
}

/// Whether the second of three colors gives a token: the holding is not
/// full after the first, and the bank, as the first color left it, has one.
pub open spec fn second_gain(user: UserView, bank: TokenStack, c1: Color, c2: Color) -> nat {
    if user.tokens.total() + first_gain(bank, c1) >= MAX_NUMBER_OF_HELD_TOKENS {
        0
    } else {
        first_gain(bank.with_removed(c1), c2)
    }
}

/// Whether the third of three colors gives a token: the holding is not
/// full after the first two, and the bank, as the first two colors left
/// it, has one.
pub open spec fn third_gain(
    user: UserView,
    bank: TokenStack,
    c1: Color,
    c2: Color,
    c3: Color,
) -> nat {
    if user.tokens.total() + first_gain(bank, c1) >= MAX_NUMBER_OF_HELD_TOKENS
        || user.tokens.total() + first_gain(bank, c1) + second_gain(user, bank, c1, c2)
        >= MAX_NUMBER_OF_HELD_TOKENS {
        0
    } else {
        first_gain(bank.with_removed(c1).with_removed(c2), c3)
    }
}

/// How taking one token of each of three colors ends.
pub open spec fn take_three_outcome(
    user: UserView,
    bank: TokenStack,
    c1: Color,
    c2: Color,
    c3: Color,
) -> Result<Outcome, MoveError> {
    if user.tokens.total() >= MAX_NUMBER_OF_HELD_TOKENS {
        Err(MoveError::IllegalMove(IllegalMove::HoldingCapExceeded))
    } else if first_gain(bank, c1) + second_gain(user, bank, c1, c2) + third_gain(
        user,
        bank,
        c1,
        c2,
        c3,
    ) == 0 {
        Err(MoveError::IllegalMove(IllegalMove::NothingTaken))
    } else {
        Ok(Outcome::TokensTaken)
    }
}

/// How a move ends.
pub open spec fn outcome_of(user: UserView, board: BoardView, command: GameCommand) -> Result<
    Outcome,
    MoveError,
> {
    match command {
        GameCommand::ReserveDevelopmentCard { x, y } => reserve_outcome(
            user,
            board.cell(x as int, y as int),
            board.bank,
        ),
        GameCommand::BuyDevelopmentCard { x, y } => purchase_outcome(
            user,
            board.cell(x as int, y as int),
            board.nobles,
        ),
        GameCommand::SelectTwoSameTokens(color) => take_two_outcome(user, board.bank, color),
        GameCommand::SelectThreeTokens(c1, c2, c3) => take_three_outcome(
            user,
            board.bank,
            c1,
            c2,
            c3,
        ),
        GameCommand::ReserveStackCard(level) => reserve_outcome(
            user,
            top_of(board, level),
            board.bank,
        ),
        GameCommand::BuyReservedCard(order) => purchase_outcome(
            user,
            in_hand(user, order),
            board.nobles,
        ),
    }
}

/// `n` where the two colors are the same, and nothing where they differ.
pub open spec fn when_same(color: Color, other: Color, n: nat) -> nat {
    if color == other {
        n
    } else {
        0
    }
}

/// Over the six colors, `when_same` adds up to `n`.
pub proof fn lemma_when_same_sums(other: Color, n: nat)
    ensures
        when_same(Color::Black, other, n) + when_same(Color::White, other, n) + when_same(
            Color::Red,
            other,
            n,
        ) + when_same(Color::Blue, other, n) + when_same(Color::Green, other, n) + when_same(
            Color::Gold,
            other,
            n,
        ) == n,
{
}

/// How many tokens of a color a move that takes tokens brings the player.
pub open spec fn token_gain(
    user: UserView,
    board: BoardView,
    command: GameCommand,
    color: Color,
) -> nat {
    match command {
        GameCommand::SelectTwoSameTokens(c) => when_same(color, c, take_two_gain(user)),
        GameCommand::SelectThreeTokens(c1, c2, c3) => when_same(
            color,
            c1,
            first_gain(board.bank, c1),
        ) + when_same(color, c2, second_gain(user, board.bank, c1, c2)) + when_same(
            color,
            c3,
            third_gain(user, board.bank, c1, c2, c3),
        ),
        _ => 0,
    }
}

/// Whether a reservation brings a gold token: the bank has one.
pub open spec fn gold_grant(bank: TokenStack, color: Color) -> nat {
    if color == Color::Gold && bank.count(Color::Gold) > 0 {
        1
    } else {
        0
    }
}

/// The state after a reservation that went through. `board` is the board
/// once the card has left it; the card joins the hand, and one gold token
/// goes from the bank to the player if the bank has one.
pub open spec fn reserved(
    user: UserView,
    board: BoardView,
    card: Card,
    user_after: UserView,
    board_after: BoardView,
) -> bool {
    &&& user_after == (UserView { hand: user.hand.push(card), tokens: user_after.tokens, ..user })
    &&& board_after == (BoardView { bank: board_after.bank, ..board })
    &&& forall|c: Color|
        #![trigger user_after.tokens.count(c)]
        #![trigger board_after.bank.count(c)]
        user_after.tokens.count(c) == user.tokens.count(c) + gold_grant(board.bank, c)
            && board_after.bank.count(c) == board.bank.count(c) - gold_grant(board.bank, c)
}

/// The state after a purchase that went through. `user` is the player and
/// `board` the board once the card has left its place; the player pays, the
/// card joins the acquired cards, its points are credited, and the nobles
/// that now visit leave the board and bring their points.
pub open spec fn purchased(
    user: UserView,
    board: BoardView,
    card: Card,
    user_after: UserView,
    board_after: BoardView,
) -> bool {
    let acquired = user.acquired.push(card);
    &&& user_after == (UserView {
        acquired,
        vp: (user.vp + purchase_points(user, board.nobles, card)) as u8,
        tokens: user_after.tokens,
        ..user
    })
    &&& board_after == (BoardView {
        nobles: staying(board.nobles, acquired),
        bank: board_after.bank,
        ..board
    })
    &&& forall|c: Color|
        #![trigger user_after.tokens.count(c)]
        #![trigger board_after.bank.count(c)]
        user_after.tokens.count(c) == user.tokens.count(c) - user.payment(card, c)
            && board_after.bank.count(c) == board.bank.count(c) + user.payment(card, c)
}

/// The state after tokens were taken: for every color, what the move
/// brings has gone from the bank to the player; nothing else has changed.
pub open spec fn taken(
    user: UserView,
    board: BoardView,
    command: GameCommand,
    user_after: UserView,
    board_after: BoardView,
) -> bool {
    &&& user_after == (UserView { tokens: user_after.tokens, ..user })
    &&& board_after == (BoardView { bank: board_after.bank, ..board })
    &&& forall|c: Color|
        #![trigger user_after.tokens.count(c)]
        #![trigger board_after.bank.count(c)]
        user_after.tokens.count(c) == user.tokens.count(c) + token_gain(user, board, command, c)
            && board_after.bank.count(c) == board.bank.count(c) - token_gain(
            user,
            board,
            command,
            c,
        )
}

/// The state after a move: as it was where the move did not go through,
/// and else what the kind of move says.
pub open spec fn resolved(
    user: UserView,
    board: BoardView,
    command: GameCommand,
    user_after: UserView,
    board_after: BoardView,
) -> bool {
    if outcome_of(user, board, command).is_err() {
        user_after == user && board_after == board
    } else {
        match command {
            GameCommand::ReserveDevelopmentCard { x, y } => reserved(
                user,
                board.refilled(x as int, y as int),
                board.cell(x as int, y as int).unwrap(),
                user_after,
                board_after,
            ),
            GameCommand::BuyDevelopmentCard { x, y } => purchased(
                user,
                board.refilled(x as int, y as int),
                board.cell(x as int, y as int).unwrap(),
                user_after,
                board_after,
            ),
            GameCommand::SelectTwoSameTokens(_) => taken(
                user,
                board,
                command,
                user_after,
                board_after,
            ),
            GameCommand::SelectThreeTokens(_, _, _) => taken(
                user,
                board,
                command,
                user_after,
                board_after,
            ),
            GameCommand::ReserveStackCard(level) => reserved(
                user,
                board.drawn(level),
                top_of(board, level).unwrap(),
                user_after,
                board_after,
            ),
            GameCommand::BuyReservedCard(order) => purchased(
                (UserView { hand: user.hand.remove(order as int), ..user }),
                board,
                user.hand[order as int],
                user_after,
                board_after,
            ),
        }
    }
}

/// A move leaves the number of tokens of every color that the bank and the
/// player hold together as it was.
pub proof fn lemma_move_conserves_tokens(
    user: UserView,
    board: BoardView,
    command: GameCommand,
    user_after: UserView,
    board_after: BoardView,
    color: Color,
)
    requires
        resolved(user, board, command, user_after, board_after),
    ensures
        board_after.bank.count(color) + user_after.tokens.count(color) == board.bank.count(color)
            + user.tokens.count(color),
{
    assert(user_after.tokens.count(color) >= 0);
    assert(board_after.bank.count(color) >= 0);
}

/// A player who holds no more tokens than a player may before taking two
/// or three tokens holds no more than that afterwards, whether the move
/// went through or not.
pub proof fn lemma_taking_keeps_cap(
    user: UserView,
    board: BoardView,
    command: GameCommand,
    user_after: UserView,
    board_after: BoardView,
)
    requires
        command is SelectTwoSameTokens || command is SelectThreeTokens,
        user.tokens.total() <= MAX_NUMBER_OF_HELD_TOKENS,
        resolved(user, board, command, user_after, board_after),
    ensures
        user_after.tokens.total() <= MAX_NUMBER_OF_HELD_TOKENS,
{
    if outcome_of(user, board, command).is_ok() {
        user.tokens.lemma_total();
        user_after.tokens.lemma_total();
        let black = token_gain(user, board, command, Color::Black);
        let white = token_gain(user, board, command, Color::White);
        let red = token_gain(user, board, command, Color::Red);
        let blue = token_gain(user, board, command, Color::Blue);
        let green = token_gain(user, board, command, Color::Green);
        let gold = token_gain(user, board, command, Color::Gold);
        assert(user_after.tokens.count(Color::Black) == user.tokens.count(Color::Black) + black);
        assert(user_after.tokens.count(Color::White) == user.tokens.count(Color::White) + white);
        assert(user_after.tokens.count(Color::Red) == user.tokens.count(Color::Red) + red);
        assert(user_after.tokens.count(Color::Blue) == user.tokens.count(Color::Blue) + blue);
        assert(user_after.tokens.count(Color::Green) == user.tokens.count(Color::Green) + green);
        assert(user_after.tokens.count(Color::Gold) == user.tokens.count(Color::Gold) + gold);
        match command {
            GameCommand::SelectTwoSameTokens(c) => {
                lemma_when_same_sums(c, take_two_gain(user));
            },
            GameCommand::SelectThreeTokens(c1, c2, c3) => {
                let g1 = first_gain(board.bank, c1);
                let g2 = second_gain(user, board.bank, c1, c2);
                let g3 = third_gain(user, board.bank, c1, c2, c3);
                lemma_when_same_sums(c1, g1);
                lemma_when_same_sums(c2, g2);
                lemma_when_same_sums(c3, g3);
                assert(black + white + red + blue + green + gold == g1 + g2 + g3);
            },
            _ => {},
        }
    }
}

/// A player whose hand is within bounds has a hand within bounds after any
/// move; in particular a reservation never leaves more than
/// `MAX_NUMBER_OF_HANDS` cards in the hand.
pub proof fn lemma_move_keeps_hand_bound(
    user: UserView,
    board: BoardView,
    command: GameCommand,
    user_after: UserView,
    board_after: BoardView,
)
    requires
        user.wf(),
        resolved(user, board, command, user_after, board_after),
    ensures
        user_after.wf(),
        user_after.hand.len() <= MAX_NUMBER_OF_HANDS,
{
}

/// None of the nobles that stay on the board would visit the player, and
/// every noble that visits would.
pub proof fn lemma_staying_do_not_visit(nobles: Seq<NobleTile>, acquired: Seq<Card>)
    ensures
        forall|i: int|
            0 <= i < staying(nobles, acquired).len() ==> !visits(
                #[trigger] staying(nobles, acquired)[i],
                acquired,
            ),
        forall|i: int|
            0 <= i < visiting(nobles, acquired).len() ==> visits(
                #[trigger] visiting(nobles, acquired)[i],
                acquired,
            ),
    decreases nobles.len(),
{
    if nobles.len() > 0 {
        lemma_staying_do_not_visit(nobles.drop_last(), acquired);
        let kept = staying(nobles, acquired);
        let came = visiting(nobles, acquired);
        assert forall|i: int| 0 <= i < kept.len() implies !visits(#[trigger] kept[i], acquired) by {
            if visits(nobles.last(), acquired) {
                assert(kept == staying(nobles.drop_last(), acquired));
            } else if i < kept.len() - 1 {
                assert(kept[i] == staying(nobles.drop_last(), acquired)[i]);
            }
        }
        assert forall|i: int| 0 <= i < came.len() implies visits(#[trigger] came[i], acquired) by {
            if !visits(nobles.last(), acquired) {
                assert(came == visiting(nobles.drop_last(), acquired));
            } else if i < came.len() - 1 {
                assert(came[i] == visiting(nobles.drop_last(), acquired)[i]);
            }
        }
    }
}

/// A noble is awarded once: among the nobles that stayed after a visit,
/// none visits when the same player is looked at again, so a second visit
/// awards nothing and removes nothing.
pub proof fn lemma_visit_is_idempotent(nobles: Seq<NobleTile>, acquired: Seq<Card>)
    ensures
        visiting(staying(nobles, acquired), acquired) == Seq::<NobleTile>::empty(),
        staying(staying(nobles, acquired), acquired) == staying(nobles, acquired),
        points_of(visiting(staying(nobles, acquired), acquired)) == 0,
    decreases nobles.len(),
{
    if nobles.len() > 0 {
        lemma_visit_is_idempotent(nobles.drop_last(), acquired);
        if !visits(nobles.last(), acquired) {
            let rest = staying(nobles.drop_last(), acquired);
            assert(rest.push(nobles.last()).drop_last() =~= rest);
        }
    }
}

/// A visit neither loses nor invents a noble: those that visit and those
/// that stay are together the nobles that were on the board, each as often
/// as before.
pub proof fn lemma_visit_partitions(nobles: Seq<NobleTile>, acquired: Seq<Card>)
    ensures
        visiting(nobles, acquired).to_multiset().add(staying(nobles, acquired).to_multiset())
            == nobles.to_multiset(),
        visiting(nobles, acquired).len() + staying(nobles, acquired).len() == nobles.len(),
    decreases nobles.len(),
{
    broadcast use vstd::seq_lib::group_to_multiset_ensures;

    if nobles.len() == 0 {
        assert(visiting(nobles, acquired).to_multiset().add(
            staying(nobles, acquired).to_multiset(),
        ) =~= nobles.to_multiset());
    } else {
        lemma_visit_partitions(nobles.drop_last(), acquired);
        assert(nobles == nobles.drop_last().push(nobles.last()));
        assert(visiting(nobles, acquired).to_multiset().add(
            staying(nobles, acquired).to_multiset(),
        ) =~= nobles.to_multiset());
    }
}

/// The victory points of the visitors among the first nobles are at most
/// those of the visitors among all.
pub proof fn lemma_visiting_prefix(nobles: Seq<NobleTile>, k: int, acquired: Seq<Card>)
    requires
        0 <= k <= nobles.len(),
    ensures
        points_of(visiting(nobles.take(k), acquired)) <= points_of(visiting(nobles, acquired)),
    decreases nobles.len(),
{
    if k < nobles.len() {
        lemma_visiting_prefix(nobles.drop_last(), k, acquired);
        assert(nobles.drop_last().take(k) =~= nobles.take(k));
        if visits(nobles.last(), acquired) {
            assert(visiting(nobles, acquired).drop_last() =~= visiting(
                nobles.drop_last(),
                acquired,
            ));
        }
    } else {
        assert(nobles.take(k) =~= nobles);
    }
}

} // verus!
