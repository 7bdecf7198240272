use vstd::prelude::*;
use crate::board::{Board, BoardView, COLUMNS, ROWS};
use crate::card::Card;
use crate::card_stack::{levels_valid, of_level};
use crate::color::Color;
use crate::game_command::{
    buy_development_card,
    buy_reserved_card,
    command_of,
    numbered,
    reserve_development_card,
    reserve_stack_card,
    select_three_tokens,
    select_two_same_tokens,
    GameCommand,
    MoveError,
    Outcome,
    NUMBER_OF_COMMANDS,
};
use crate::noble_tile::{kept_tiles, NobleTile};
use crate::rules::{
    has_room,
    lemma_move_conserves_tokens,
    lemma_points_of_prefix,
    lemma_room_for_every_move,
    outcome_of,
    points_of,
    resolved,
    tokens_fit,
    within_limits,
};
use crate::token_stack::MAX_NUMBER_OF_TOKEN;
use crate::user::{User, UserView};

verus! {

/// A player with this many victory points ends the game.
pub const VP_TO_END: u8 = 15;

/// How many moves a player may try in one turn before the turn is lost.
pub const MAX_NUMBER_OF_TRIALS: u8 = 100;

/// What a game is, as plain values.
pub struct GameView {
    pub board: BoardView,
    pub users: Seq<UserView>,
}

/// The tokens of one color that some players hold together.
pub open spec fn held(users: Seq<UserView>, color: Color) -> nat
    decreases users.len(),
{
    if users.len() == 0 {
        0
    } else {
        held(users.drop_last(), color) + users.last().tokens.count(color)
    }
}

/// The limits of `within_limits` hold for every move that has a number.
pub open spec fn any_move_within_limits(user: UserView, board: BoardView) -> bool {
    forall|i: int|
        0 <= i < NUMBER_OF_COMMANDS ==> within_limits(user, board, #[trigger] command_of(i))
}

impl GameView {
    /// All tokens of one color in the game: those in the bank and those
    /// that the players hold.
    pub open spec fn circulation(self, color: Color) -> nat {
        self.board.bank.count(color) + held(self.users, color)
    }

    /// Player `who` has made a move and the game has gone from `self` to
    /// `after`: the player and the board are as the move leaves them, and
    /// every other player is as before.
    pub open spec fn moved(self, who: int, command: GameCommand, after: GameView) -> bool {
        &&& 0 <= who < self.users.len()
        &&& after.users.len() == self.users.len()
        &&& resolved(self.users[who], self.board, command, after.users[who], after.board)
        &&& forall|i: int|
            0 <= i < self.users.len() && i != who ==> after.users[i] == self.users[i]
    }
}

/// Replacing one player changes what the players hold together by what
/// that player's holding changes.
pub proof fn lemma_held_update(users: Seq<UserView>, who: int, user: UserView, color: Color)
    requires
        0 <= who < users.len(),
    ensures
        held(users.update(who, user), color) + users[who].tokens.count(color) == held(
            users,
            color,
        ) + user.tokens.count(color),
    decreases users.len(),
{
    if who == users.len() - 1 {
        assert(users.update(who, user).drop_last() =~= users.drop_last());
    } else {
        lemma_held_update(users.drop_last(), who, user, color);
        assert(users.update(who, user).drop_last() =~= users.drop_last().update(who, user));
    }
}

/// A move of one player leaves the number of tokens of every color in the
/// game as it was.
pub proof fn lemma_move_conserves_circulation(
    game: GameView,
    who: int,
    command: GameCommand,
    after: GameView,
    color: Color,
)
    requires
        game.moved(who, command, after),
    ensures
        after.circulation(color) == game.circulation(color),
{
    lemma_move_conserves_tokens(
        game.users[who],
        game.board,
        command,
        after.users[who],
        after.board,
        color,
    );
    lemma_held_update(game.users, who, after.users[who], color);
    assert(after.users =~= game.users.update(who, after.users[who]));
}

/// However many moves the players make, the number of tokens of every
/// color in the game stays what it was at the start. `states` holds the
/// game before the first move and after each move; move `i` is `commands[i]`
/// and is made by player `players[i]`.
pub proof fn lemma_play_conserves_circulation(
    states: Seq<GameView>,
    players: Seq<int>,
    commands: Seq<GameCommand>,
    color: Color,
)
    requires
        states.len() == commands.len() + 1,
        players.len() == commands.len(),
        forall|i: int|
            0 <= i < commands.len() ==> (#[trigger] states[i]).moved(
                players[i],
                commands[i],
                states[i + 1],
            ),
    ensures
        states.last().circulation(color) == states[0].circulation(color),
    decreases commands.len(),
{
    if commands.len() > 0 {
        let n = commands.len() - 1;
        let earlier = states.drop_last();
        assert forall|i: int| 0 <= i < n implies (#[trigger] earlier[i]).moved(
            players.drop_last()[i],
            commands.drop_last()[i],
            earlier[i + 1],
        ) by {
            assert(states[i].moved(players[i], commands[i], states[i + 1]));
        }
        lemma_play_conserves_circulation(
            earlier,
            players.drop_last(),
            commands.drop_last(),
            color,
        );
        assert(states[n].moved(players[n], commands[n], states[n + 1]));
        lemma_move_conserves_circulation(states[n], players[n], commands[n], states[n + 1], color);
    }
}

/// A board and the players around it.
pub struct Game {
    board: Board,
    users: Vec<User>,
}

impl View for Game {
    type V = GameView;

    closed spec fn view(&self) -> GameView {
        GameView {
            board: self.board@,
            users: Seq::new(self.users@.len(), |i: int| self.users@[i]@),
        }
    }
}

impl Game {
    /// A game for two players on a fresh board.
    pub fn new(cards: Vec<Card>, nobles: Vec<NobleTile>) -> (game: Game)
        requires
            levels_valid(cards@),
        ensures
            game@.board.wf(),
            forall|c: Color| game@.board.bank.count(c) == MAX_NUMBER_OF_TOKEN,
            exists|order: Seq<NobleTile>|
                order.to_multiset() == nobles@.to_multiset() && game@.board.nobles
                    == #[trigger] order.take(kept_tiles(nobles@.len()) as int),
            game@.board.dealt_from(0, of_level(cards@, 3)),
            game@.board.dealt_from(1, of_level(cards@, 2)),
            game@.board.dealt_from(2, of_level(cards@, 1)),
            game@.users.len() == 2,
            forall|i: int|
                0 <= i < 2 ==> {
                    &&& (#[trigger] game@.users[i]).id == i
                    &&& game@.users[i].hand.len() == 0
                    &&& game@.users[i].acquired.len() == 0
                    &&& game@.users[i].vp == 0
                    &&& game@.users[i].tokens.total() == 0
                    &&& forall|c: Color| game@.users[i].tokens.count(c) == 0
                },
    {
        let mut users: Vec<User> = Vec::new();
        users.push(User::new(0));
        users.push(User::new(1));
        Game { board: Board::new(cards, nobles), users }
    }

    /// A board of its own with the same cards, tokens and nobles as the
    /// board of the game.
    pub fn copy_board(&mut self) -> (board: Board)
        ensures
            board@ == old(self)@.board,
            final(self)@ == old(self)@,
    {
        self.board.clone()
    }

    /// Players of their own with the same cards, points and tokens as the
    /// players of the game.
    pub fn copy_users(&mut self) -> (users: Vec<User>)
        ensures
            users@.len() == old(self)@.users.len(),
            forall|i: int| 0 <= i < users@.len() ==> (#[trigger] users@[i])@ == old(self)@.users[i],
            final(self)@ == old(self)@,
    {
        let mut users: Vec<User> = Vec::new();
        let mut i: usize = 0;
        while i < self.users.len()
            invariant
                i <= self.users.len(),
                users@.len() == i,
                forall|k: int| 0 <= k < i ==> (#[trigger] users@[k])@ == self.users@[k]@,
            decreases self.users.len() - i,
        {
            users.push(self.users[i].clone());
            i += 1;
        }
        users
    }

    /// The board of the game.
    pub fn board(&self) -> (board: &Board)
        ensures
            board@ == self@.board,
    {
        &self.board
    }

    /// The players of the game, in the order of their turns.
    pub fn users(&self) -> (users: &Vec<User>)
        ensures
            users@.len() == self@.users.len(),
            forall|i: int| 0 <= i < users@.len() ==> (#[trigger] users@[i])@ == self@.users[i],
    {
        &self.users
    }

    /// Picks a move at random for player `who`. The game stays as it was.
    pub fn read(&mut self, who: usize) -> (command: GameCommand)
        requires
            who < old(self)@.users.len(),
        ensures
            final(self)@ == old(self)@,
            numbered(command),
    {
        let user = &mut self.users[who];
        let command = user.read();
        assert(self@.users =~= old(self)@.users);
        command
    }

    /// The turn of player `who`: makes a move for the player as `eval`
    /// does, starting with `input`. The other players stay as they were,
    /// and so does the number of tokens of every color in the game.
    pub fn turn(&mut self, who: usize, input: GameCommand) -> (result: Result<Outcome, MoveError>)
        requires
            who < old(self)@.users.len(),
            old(self)@.users[who as int].wf(),
            old(self)@.board.wf(),
            within_limits(old(self)@.users[who as int], old(self)@.board, input),
            any_move_within_limits(old(self)@.users[who as int], old(self)@.board),
        ensures
            final(self)@.users[who as int].wf(),
            final(self)@.board.wf(),
            outcome_of(old(self)@.users[who as int], old(self)@.board, input).is_ok() ==> result
                == outcome_of(old(self)@.users[who as int], old(self)@.board, input) && old(
                self,
            )@.moved(who as int, input, final(self)@),
            result.is_ok() ==> exists|command: GameCommand|
                (command == input || numbered(command)) && result == #[trigger] outcome_of(
                    old(self)@.users[who as int],
                    old(self)@.board,
                    command,
                ) && old(self)@.moved(who as int, command, final(self)@),
            result.is_err() ==> result == Err::<Outcome, MoveError>(MoveError::ExhaustedRetries)
                && final(self)@ == old(self)@,
            forall|c: Color| final(self)@.circulation(c) == old(self)@.circulation(c),
    {
        let user = &mut self.users[who];
        let result = Game::eval(input, user, &mut self.board);
        proof {
            let before = old(self)@;
            let after = self@;
            assert(after.users =~= before.users.update(who as int, after.users[who as int]));
            if result.is_err() {
                assert(after.users =~= before.users);
            }
            assert forall|c: Color| after.circulation(c) == before.circulation(c) by {
                lemma_held_update(before.users, who as int, after.users[who as int], c);
            }
        }
        result
    }

    /// Whether any player of the game has the victory points that end it.
    pub fn finished(&self) -> (over: bool)
        ensures
            over == exists|i: int|
                0 <= i < self@.users.len() && (#[trigger] self@.users[i]).vp >= VP_TO_END,
    {
        let over = Game::is_over(&self.users);
        proof {
            if over {
                let i = choose|i: int|
                    0 <= i < self.users@.len() && (#[trigger] self.users@[i])@.vp >= VP_TO_END;
                assert(self@.users[i].vp >= VP_TO_END);
            }
            if exists|i: int|
                0 <= i < self@.users.len() && (#[trigger] self@.users[i]).vp >= VP_TO_END {
                let i = choose|i: int|
                    0 <= i < self@.users.len() && (#[trigger] self@.users[i]).vp >= VP_TO_END;
                assert(self.users@[i]@.vp >= VP_TO_END);
            }
        }
        over
    }

    /// Whether there is room in the counters of the player for whatever a
    /// move may bring: for every color, the tokens of the bank and of the
    /// player together can be counted, and so can the victory points after
    /// any purchase, even if every noble came to visit. Where this holds,
    /// every move stays within the limits.
    pub fn has_room(user: &User, board: &Board) -> (room: bool)
        requires
            user@.wf(),
            board@.shaped(),
        ensures
            room == has_room(user@, board@),
            room ==> any_move_within_limits(user@, board@),
            room ==> forall|command: GameCommand| within_limits(user@, board@, command),
    {
        let fit = Game::tokens_have_room(user, board, Color::Black) && Game::tokens_have_room(
            user,
            board,
            Color::White,
        ) && Game::tokens_have_room(user, board, Color::Red) && Game::tokens_have_room(
            user,
            board,
            Color::Blue,
        ) && Game::tokens_have_room(user, board, Color::Green) && Game::tokens_have_room(
            user,
            board,
            Color::Gold,
        );
        if !fit {
            return false;
        }
        assert(tokens_fit(user@, board@)) by {
            assert forall|c: Color|
                board@.bank.count(c) + user@.tokens.count(c) <= u8::MAX by {
                match c {
                    Color::Black => {},
                    Color::White => {},
                    Color::Red => {},
                    Color::Blue => {},
                    Color::Green => {},
                    Color::Gold => {},
                }
            }
        }
        // What is left of the 255 points once all nobles have come.
        let mut spare: u8 = 255 - user.get_vp();
        let nobles = board.peek_noble_tile();
        let mut i: usize = 0;
        while i < nobles.len()
            invariant
                i <= nobles.len(),
                nobles@ == board@.nobles,
                spare == 255 - user@.vp - points_of(nobles@.take(i as int)),
            decreases nobles.len() - i,
        {
            proof {
                assert(nobles@.take(i + 1).drop_last() =~= nobles@.take(i as int));
                lemma_points_of_prefix(nobles@, i + 1);
            }
            let point = nobles[i].get_point();
            if point > spare {
                return false;
            }
            spare -= point;
            i += 1;
        }
        assert(nobles@.take(i as int) =~= nobles@);
        let mut x: u8 = 0;
        while x < 3
            invariant
                x <= ROWS,
                board@.shaped(),
                spare == 255 - user@.vp - points_of(board@.nobles),
                forall|r: int, c: int|
                    0 <= r < x && 0 <= c < COLUMNS ==> match #[trigger] board@.cell(r, c) {
                        Some(card) => card.point <= spare,
                        None => true,
                    },
            decreases ROWS - x,
        {
            let mut y: u8 = 0;
            while y < 4
                invariant
                    x < ROWS,
                    y <= COLUMNS,
                    board@.shaped(),
                    spare == 255 - user@.vp - points_of(board@.nobles),
                    forall|r: int, c: int|
                        0 <= r < x && 0 <= c < COLUMNS ==> match #[trigger] board@.cell(r, c) {
                            Some(card) => card.point <= spare,
                            None => true,
                        },
                    forall|c: int|
                        0 <= c < y ==> match #[trigger] board@.cell(x as int, c) {
                            Some(card) => card.point <= spare,
                            None => true,
                        },
                decreases COLUMNS - y,
            {
                match board.peek_card(x, y) {
                    Some(card) => {
                        if card.get_point() > spare {
                            assert(board@.cell(x as int, y as int) == Some(*card));
                            return false;
                        }
                    },
                    None => {},
                }
                y += 1;
            }
            x += 1;
        }
        let hand = user.get_number_of_hands();
        let mut order: u8 = 0;
        while order < hand
            invariant
                order <= hand,
                hand == user@.hand.len(),
                spare == 255 - user@.vp - points_of(board@.nobles),
                forall|k: int| 0 <= k < order ==> (#[trigger] user@.hand[k]).point <= spare,
            decreases hand - order,
        {
            match user.peek_card_in_hands(order) {
                Some(card) => {
                    if card.get_point() > spare {
                        return false;
                    }
                },
                None => {},
            }
            order += 1;
        }
        proof {
            assert(has_room(user@, board@));
            assert forall|command: GameCommand| within_limits(user@, board@, command) by {
                lemma_room_for_every_move(user@, board@, command);
            }
        }
        true
    }

    /// Whether the tokens of one color that the bank and the player hold
    /// can be counted together.
    fn tokens_have_room(user: &User, board: &Board, color: Color) -> (room: bool)
        ensures
            room == (board@.bank.count(color) + user@.tokens.count(color) <= u8::MAX),
    {
        board.peek_token_stack().len(color) as u16 + user.get_number_of_tokens(color) as u16 <= 255
    }

    /// Makes a move for a player: tries `input` first and, as long as the
    /// move tried is not allowed, another one picked at random, up to
    /// `MAX_NUMBER_OF_TRIALS` moves in all. The first move that is allowed
    /// is carried out. Where none is, the turn is lost and nothing has
    /// changed.
    pub fn eval(input: GameCommand, user: &mut User, board: &mut Board) -> (result: Result<
        Outcome,
        MoveError,
    >)
        requires
            old(user)@.wf(),
            old(board)@.wf(),
            within_limits(old(user)@, old(board)@, input),
            any_move_within_limits(old(user)@, old(board)@),
        ensures
            final(user)@.wf(),
            final(board)@.wf(),
            outcome_of(old(user)@, old(board)@, input).is_ok() ==> result == outcome_of(
                old(user)@,
                old(board)@,
                input,
            ) && resolved(old(user)@, old(board)@, input, final(user)@, final(board)@),
            result.is_ok() ==> exists|command: GameCommand|
                (command == input || numbered(command)) && result == #[trigger] outcome_of(
                    old(user)@,
                    old(board)@,
                    command,
                ) && resolved(old(user)@, old(board)@, command, final(user)@, final(board)@),
            result.is_err() ==> result == Err::<Outcome, MoveError>(MoveError::ExhaustedRetries)
                && final(user)@ == old(user)@ && final(board)@ == old(board)@,
            forall|c: Color|
                final(board)@.bank.count(c) + final(user)@.tokens.count(c) == old(
                    board,
                )@.bank.count(c) + old(user)@.tokens.count(c),
    {
        let mut command = input;
        let mut trial: u8 = 0;
        while trial < MAX_NUMBER_OF_TRIALS
            invariant
                trial <= MAX_NUMBER_OF_TRIALS,
                user@ == old(user)@,
                board@ == old(board)@,
                user@.wf(),
                board@.wf(),
                within_limits(user@, board@, command),
                any_move_within_limits(user@, board@),
                trial > 0 ==> outcome_of(old(user)@, old(board)@, input).is_err(),
                trial == 0 ==> command == input,
                command == input || numbered(command),
            decreases MAX_NUMBER_OF_TRIALS - trial,
        {
            match Game::eval_by_selection(command, user, board) {
                Ok(outcome) => {
                    proof {
                        assert forall|c: Color|
                            board@.bank.count(c) + user@.tokens.count(c) == old(
                                board,
                            )@.bank.count(c) + old(user)@.tokens.count(c) by {
                            lemma_move_conserves_tokens(
                                old(user)@,
                                old(board)@,
                                command,
                                user@,
                                board@,
                                c,
                            );
                        }
                    }
                    return Ok(outcome);
                },
                Err(_) => {
                    command = user.read();
                },
            }
            trial += 1;
        }
        Err(MoveError::ExhaustedRetries)
    }

    /// Carries out one move of a player, if the rules allow it.
    pub fn eval_by_selection(input: GameCommand, user: &mut User, board: &mut Board) -> (result:
        Result<Outcome, MoveError>)
        requires
            old(user)@.wf(),
            old(board)@.wf(),
            within_limits(old(user)@, old(board)@, input),
        ensures
            final(user)@.wf(),
            final(board)@.wf(),
            result == outcome_of(old(user)@, old(board)@, input),
            resolved(old(user)@, old(board)@, input, final(user)@, final(board)@),
    {
        match input {
            GameCommand::ReserveDevelopmentCard { x, y } => reserve_development_card(
                x,
                y,
                user,
                board,
            ),
            GameCommand::BuyDevelopmentCard { x, y } => buy_development_card(x, y, user, board),
            GameCommand::SelectTwoSameTokens(color) => select_two_same_tokens(color, user, board),
            GameCommand::SelectThreeTokens(color1, color2, color3) => select_three_tokens(
                color1,
                color2,
                color3,
                user,
                board,
            ),
            GameCommand::ReserveStackCard(level) => reserve_stack_card(level, user, board),
            GameCommand::BuyReservedCard(index) => buy_reserved_card(index, user, board),
        }
    }

    /// Whether any of the players has the victory points that end the game.
    pub fn is_over(users: &Vec<User>) -> (over: bool)
        ensures
            over == exists|i: int| 0 <= i < users@.len() && (#[trigger] users@[i])@.vp >= VP_TO_END,
    {
        let mut result = false;
        let mut i: usize = 0;
        while i < users.len()
            invariant
                i <= users.len(),
                result == exists|k: int| 0 <= k < i && (#[trigger] users@[k])@.vp >= VP_TO_END,
            decreases users.len() - i,
        {
            if users[i].get_vp() >= VP_TO_END {
                result = true;
            }
            i += 1;
        }
        result
    }
}

} // verus!
