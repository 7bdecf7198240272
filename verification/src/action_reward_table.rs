use vstd::prelude::*;
use crate::board::{lemma_required_cost_bound, Board, BoardView};
use crate::card::Card;
use crate::color::Color;
use crate::color_value::{ColorValue, UNIT_LIMIT, VALUE_LIMIT};
use crate::game::{any_move_within_limits, Game};
use crate::game_command::{color_sets, command_of, to_command, GameCommand, NUMBER_OF_COMMANDS};
use crate::rules::{in_hand, outcome_of, resolved, token_gain};
use crate::user::{User, UserView};

verus! {

/// No gem color can cost more than this on the face-up cards together:
/// twelve cards at 255 each.
pub const REQUIRED_LIMIT: u64 = 3060;

/// A move and what it is worth, counted in the units of the color values
/// that it was estimated with.
#[derive(Clone, Copy, PartialEq, Eq, Structural, Debug)]
pub struct ActionReward {
    pub action: GameCommand,
    pub reward: i128,
}

impl ActionReward {
    pub fn new(action: GameCommand, reward: i128) -> (action_reward: ActionReward)
        ensures
            action_reward == (ActionReward { action, reward }),
    {
        ActionReward { action, reward }
    }
}

/// The moves that a player could make, each with what it is worth.
pub struct ActionRewardTable(Vec<ActionReward>);

impl View for ActionRewardTable {
    type V = Seq<ActionReward>;

    closed spec fn view(&self) -> Seq<ActionReward> {
        self.0@
    }
}

/// What the face-up cards cost in a gem color, or one where they cost
/// nothing in it.
pub open spec fn weight(board: BoardView, color: Color) -> int {
    if board.required_cost(color) == 0 {
        1
    } else {
        board.required_cost(color) as int
    }
}

/// The unit in which the worth of the colors on a board is counted: ten
/// times the weights of the five gem colors.
pub open spec fn scale(board: BoardView) -> int {
    10 * weight(board, Color::Black) * weight(board, Color::White) * weight(board, Color::Red)
        * weight(board, Color::Blue) * weight(board, Color::Green)
}

/// The weights of the four other gem colors, multiplied.
pub open spec fn share(board: BoardView, color: Color) -> int {
    match color {
        Color::Black => weight(board, Color::White) * weight(board, Color::Red) * weight(
            board,
            Color::Blue,
        ) * weight(board, Color::Green),
        Color::White => weight(board, Color::Black) * weight(board, Color::Red) * weight(
            board,
            Color::Blue,
        ) * weight(board, Color::Green),
        Color::Red => weight(board, Color::Black) * weight(board, Color::White) * weight(
            board,
            Color::Blue,
        ) * weight(board, Color::Green),
        Color::Blue => weight(board, Color::Black) * weight(board, Color::White) * weight(
            board,
            Color::Red,
        ) * weight(board, Color::Green),
        _ => weight(board, Color::Black) * weight(board, Color::White) * weight(
            board,
            Color::Red,
        ) * weight(board, Color::Blue),
    }
}

/// How scarce a gem color is for a player, counted in units of
/// `scale(board)`: three tenths of the part of the cost on the board that
/// the player's bonus does not cover, and nothing where the board costs
/// nothing in that color.
pub open spec fn scarcity(user: UserView, board: BoardView, color: Color) -> int {
    if board.required_cost(color) == 0 {
        0
    } else {
        3 * (board.required_cost(color) - user.bonus(color)) * share(board, color)
    }
}

/// The color values of a player on a board: every gem color is worth its
/// scarcity, gold is worth as much as the gem color that is worth most.
pub open spec fn values_of(user: UserView, board: BoardView, color_value: ColorValue) -> bool {
    &&& color_value.unit_spec() == scale(board)
    &&& forall|c: Color| c.is_gem() ==> #[trigger] color_value.value(c) == scarcity(user, board, c)
    &&& color_value.value(Color::Gold) == color_value.greatest_gem_value()
}

/// The scarcity of a gem color, taken as a fraction of the unit, is
/// 0.3 * (1 - bonus / cost): ten times the cost times the scarcity is
/// three times the uncovered cost times the unit.
pub proof fn lemma_scarcity_is_fraction(user: UserView, board: BoardView, color: Color)
    requires
        color.is_gem(),
        board.required_cost(color) > 0,
    ensures
        scarcity(user, board, color) * (10 * board.required_cost(color)) == 3 * (
        board.required_cost(color) - user.bonus(color)) * scale(board),
{
    let a = weight(board, Color::Black);
    let b = weight(board, Color::White);
    let c = weight(board, Color::Red);
    let d = weight(board, Color::Blue);
    let e = weight(board, Color::Green);
    let x = board.required_cost(color) - user.bonus(color);
    match color {
        Color::Black => {
            assert((3 * x * (b * c * d * e)) * (10 * a) == 3 * x * (10 * a * b * c * d * e))
                by (nonlinear_arith);
        },
        Color::White => {
            assert((3 * x * (a * c * d * e)) * (10 * b) == 3 * x * (10 * a * b * c * d * e))
                by (nonlinear_arith);
        },
        Color::Red => {
            assert((3 * x * (a * b * d * e)) * (10 * c) == 3 * x * (10 * a * b * c * d * e))
                by (nonlinear_arith);
        },
        Color::Blue => {
            assert((3 * x * (a * b * c * e)) * (10 * d) == 3 * x * (10 * a * b * c * d * e))
                by (nonlinear_arith);
        },
        _ => {
            assert((3 * x * (a * b * c * d)) * (10 * e) == 3 * x * (10 * a * b * c * d * e))
                by (nonlinear_arith);
        },
    }
}

/// What buying a card is worth: its victory points and the worth of its
/// color.
pub open spec fn purchase_reward(values: ColorValue, card: Card) -> int {
    card.point * values.unit_spec() + values.value(card.color)
}

/// The worth of a color where the move brings a token of it, and nothing
/// where it does not.
pub open spec fn gained_value(
    user: UserView,
    board: BoardView,
    values: ColorValue,
    command: GameCommand,
    color: Color,
) -> int {
    if token_gain(user, board, command, color) > 0 {
        values.value(color)
    } else {
        0
    }
}

/// What a move that the rules allow is worth to a player. Reserving a
/// face-up card is worth what gold is worth, reserving from a pile nothing;
/// buying a card is worth its points and the worth of its color; taking two
/// tokens of a color is worth twice that color, taking three the worth of
/// each color of which a token came.
pub open spec fn reward_of(
    user: UserView,
    board: BoardView,
    values: ColorValue,
    command: GameCommand,
) -> int {
    match command {
        GameCommand::ReserveDevelopmentCard { x, y } => values.value(Color::Gold),
        GameCommand::BuyDevelopmentCard { x, y } => purchase_reward(
            values,
            board.cell(x as int, y as int).unwrap(),
        ),
        GameCommand::SelectTwoSameTokens(color) => 2 * values.value(color),
        GameCommand::SelectThreeTokens(c1, c2, c3) => gained_value(user, board, values, command, c1)
            + gained_value(user, board, values, command, c2) + gained_value(
            user,
            board,
            values,
            command,
            c3,
        ),
        GameCommand::ReserveStackCard(level) => 0,
        GameCommand::BuyReservedCard(order) => purchase_reward(
            values,
            in_hand(user, order).unwrap(),
        ),
    }
}

/// The moves with a number below `n` that the rules allow, in the order of
/// their numbers, each with what it is worth.
pub open spec fn candidates(
    user: UserView,
    board: BoardView,
    values: ColorValue,
    n: nat,
) -> Seq<ActionReward>
    decreases n,
{
    if n == 0 {
        Seq::empty()
    } else {
        let command = command_of(n - 1);
        let before = candidates(user, board, values, (n - 1) as nat);
        if outcome_of(user, board, command).is_ok() {
            before.push(
                ActionReward {
                    action: command,
                    reward: reward_of(user, board, values, command) as i128,
                },
            )
        } else {
            before
        }
    }
}

/// The move that is picked when no candidate is worth anything.
pub open spec fn default_command() -> GameCommand {
    GameCommand::ReserveDevelopmentCard { x: 0, y: 0 }
}

/// `command` is the pick from `list`: the first candidate among those
/// worth most, if that is worth more than nothing, and the default move
/// otherwise.
pub open spec fn is_choice(list: Seq<ActionReward>, command: GameCommand) -> bool {
    if forall|j: int| 0 <= j < list.len() ==> (#[trigger] list[j]).reward <= 0 {
        command == default_command()
    } else {
        exists|i: int|
            {
                &&& 0 <= i < list.len()
                &&& command == (#[trigger] list[i]).action
                &&& list[i].reward > 0
                &&& forall|j: int|
                    0 <= j < list.len() ==> (#[trigger] list[j]).reward <= list[i].reward
                &&& forall|j: int| 0 <= j < i ==> (#[trigger] list[j]).reward < list[i].reward
            }
    }
}

/// Every candidate is a move that the rules allow.
pub proof fn lemma_candidates_are_legal(
    user: UserView,
    board: BoardView,
    values: ColorValue,
    n: nat,
)
    ensures
        forall|j: int|
            0 <= j < candidates(user, board, values, n).len() ==> outcome_of(
                user,
                board,
                (#[trigger] candidates(user, board, values, n)[j]).action,
            ).is_ok(),
    decreases n,
{
    if n > 0 {
        lemma_candidates_are_legal(user, board, values, (n - 1) as nat);
    }
}

/// A pick from the candidates is a move that the rules allow, or the
/// default move.
pub proof fn lemma_choice_is_legal_or_default(
    user: UserView,
    board: BoardView,
    values: ColorValue,
    n: nat,
    command: GameCommand,
)
    requires
        is_choice(candidates(user, board, values, n), command),
    ensures
        command == default_command() || outcome_of(user, board, command).is_ok(),
{
    lemma_candidates_are_legal(user, board, values, n);
}

/// The product of two numbers within bounds is within the product of the
/// bounds.
proof fn lemma_product_range(a: int, b: int, la: int, lb: int)
    requires
        0 <= a <= la,
        0 <= b <= lb,
    ensures
        0 <= a * b <= la * lb,
        a >= 1 && b >= 1 ==> a * b >= 1,
{
    assert(0 <= a * b <= la * lb) by (nonlinear_arith)
        requires
            0 <= a <= la,
            0 <= b <= lb,
    ;
    assert(a >= 1 && b >= 1 ==> a * b >= 1) by (nonlinear_arith);
}

/// The product of a number of either sign and a positive one is within the
/// product of their bounds.
proof fn lemma_signed_product_range(a: int, b: int, la: int, lb: int)
    requires
        -la <= a <= la,
        0 <= b <= lb,
    ensures
        -(la * lb) <= a * b <= la * lb,
{
    assert(-(la * lb) <= a * b <= la * lb) by (nonlinear_arith)
        requires
            -la <= a <= la,
            0 <= b <= lb,
    ;
}

/// A cost on the board as a factor: the cost itself, or one where it is
/// nothing.
fn weight_of(required: u64) -> (weight: i128)
    requires
        required <= REQUIRED_LIMIT,
    ensures
        weight == if required == 0 {
            1
        } else {
            required as int
        },
        1 <= weight <= REQUIRED_LIMIT,
{
    if required == 0 {
        1
    } else {
        required as i128
    }
}

/// Four weights multiplied.
fn share_of(p: i128, q: i128, r: i128, s: i128) -> (product: i128)
    requires
        1 <= p <= REQUIRED_LIMIT,
        1 <= q <= REQUIRED_LIMIT,
        1 <= r <= REQUIRED_LIMIT,
        1 <= s <= REQUIRED_LIMIT,
    ensures
        product == p * q * r * s,
        1 <= product <= 87677004960000,
{
    proof {
        lemma_product_range(p as int, q as int, 3060, 3060);
        lemma_product_range(p * q, r as int, 9363600, 3060);
        lemma_product_range(p * q * r, s as int, 28652616000, 3060);
    }
    p * q * r * s
}

/// The scarcity of one gem color.
fn scarcity_of(required: u64, owned: u64, share: i128) -> (value: i128)
    requires
        required <= REQUIRED_LIMIT,
        1 <= share <= 87677004960000,
    ensures
        value == if required == 0 {
            0
        } else {
            3 * (required - owned) * share
        },
        -VALUE_LIMIT <= value <= VALUE_LIMIT,
{
    if required == 0 {
        0
    } else {
        let uncovered: i128 = required as i128 - owned as i128;
        proof {
            lemma_signed_product_range(
                3 * (uncovered as int),
                share as int,
                3 * 0x1_0000_0000_0000_0000int,
                87677004960000,
            );
        }
        3 * uncovered * share
    }
}

impl ActionRewardTable {
    /// A table without candidates.
    pub fn new() -> (table: ActionRewardTable)
        ensures
            table@ == Seq::<ActionReward>::empty(),
    {
        ActionRewardTable(Vec::new())
    }

    /// The candidates in the table, in the order in which they were added.
    pub fn entries(&self) -> (entries: &Vec<ActionReward>)
        ensures
            entries@ == self@,
    {
        &self.0
    }

    /// Picks a move for a player: estimates every move afresh with the color
    /// values of the player on the board and picks the one that is worth
    /// most. The pick is a move that the rules allow, or the default move
    /// where no move is worth anything. The table looks one move ahead,
    /// whatever `step` says.
    pub fn look(&mut self, step: u8, user: &User, board: &Board) -> (command: GameCommand)
        requires
            user@.wf(),
            board@.wf(),
            any_move_within_limits(user@, board@),
        ensures
            exists|values: ColorValue|
                #![trigger values_of(user@, board@, values)]
                values_of(user@, board@, values) && final(self)@ == candidates(
                    user@,
                    board@,
                    values,
                    NUMBER_OF_COMMANDS as nat,
                ) && is_choice(final(self)@, command),
            command == default_command() || outcome_of(user@, board@, command).is_ok(),
    {
        let color_value = self.calc_color_value(user, board);
        self.0 = Vec::new();
        self.estimate(step, user, board, &color_value);
        let command = self.choice();
        proof {
            assert(self@ =~= candidates(user@, board@, color_value, NUMBER_OF_COMMANDS as nat));
            lemma_choice_is_legal_or_default(
                user@,
                board@,
                color_value,
                NUMBER_OF_COMMANDS as nat,
                command,
            );
        }
        command
    }

    /// Works out what a token of each color is worth to a player on a
    /// board: a gem color is worth 0.3 * (1 - bonus / cost), where the cost
    /// is what the face-up cards cost together in that color, and nothing
    /// where they cost nothing; gold is worth as much as the gem color that
    /// is worth most.
    pub fn calc_color_value(&mut self, user: &User, board: &Board) -> (color_value: ColorValue)
        requires
            board@.shaped(),
        ensures
            *final(self) == *old(self),
            color_value.wf(),
            values_of(user@, board@, color_value),
    {
        let required_cost = board.get_required_cost();
        let owned = user.get_jewelries();
        proof {
            lemma_required_cost_bound(board@, Color::Black);
            lemma_required_cost_bound(board@, Color::White);
            lemma_required_cost_bound(board@, Color::Red);
            lemma_required_cost_bound(board@, Color::Blue);
            lemma_required_cost_bound(board@, Color::Green);
        }
        let black = weight_of(required_cost.get(Color::Black));
        let white = weight_of(required_cost.get(Color::White));
        let red = weight_of(required_cost.get(Color::Red));
        let blue = weight_of(required_cost.get(Color::Blue));
        let green = weight_of(required_cost.get(Color::Green));
        proof {
            lemma_product_range(10, black as int, 10, 3060);
            lemma_product_range(10 * black, white as int, 30600, 3060);
            lemma_product_range(10 * black * white, red as int, 93636000, 3060);
            lemma_product_range(10 * black * white * red, blue as int, 286526160000, 3060);
            lemma_product_range(
                10 * black * white * red * blue,
                green as int,
                876770049600000,
                3060,
            );
        }
        let unit: i128 = 10 * black * white * red * blue * green;
        let mut color_value = ColorValue::with_unit(unit);
        color_value.set(
            Color::Black,
            scarcity_of(
                required_cost.get(Color::Black),
                owned.get_jewelry(Color::Black),
                share_of(white, red, blue, green),
            ),
        );
        color_value.set(
            Color::White,
            scarcity_of(
                required_cost.get(Color::White),
                owned.get_jewelry(Color::White),
                share_of(black, red, blue, green),
            ),
        );
        color_value.set(
            Color::Red,
            scarcity_of(
                required_cost.get(Color::Red),
                owned.get_jewelry(Color::Red),
                share_of(black, white, blue, green),
            ),
        );
        color_value.set(
            Color::Blue,
            scarcity_of(
                required_cost.get(Color::Blue),
                owned.get_jewelry(Color::Blue),
                share_of(black, white, red, green),
            ),
        );
        color_value.set(
            Color::Green,
            scarcity_of(
                required_cost.get(Color::Green),
                owned.get_jewelry(Color::Green),
                share_of(black, white, red, blue),
            ),
        );
        color_value.set_gold_value();
        color_value
    }

    /// Tries every move on a copy of the player and a copy of the board, and
    /// adds those that the rules allow to the table, in the order of their
    /// numbers, each with what it is worth. The player and the board
    /// themselves are not touched. The table looks one move ahead, whatever
    /// `step` says.
    pub fn estimate(&mut self, step: u8, user: &User, board: &Board, color_value: &ColorValue)
        requires
            user@.wf(),
            board@.wf(),
            any_move_within_limits(user@, board@),
            color_value.wf(),
        ensures
            final(self)@ == old(self)@ + candidates(
                user@,
                board@,
                *color_value,
                NUMBER_OF_COMMANDS as nat,
            ),
    {
        let mut input: u8 = 0;
        assert(self@ =~= old(self)@ + candidates(user@, board@, *color_value, 0));
        while input < NUMBER_OF_COMMANDS
            invariant
                input <= NUMBER_OF_COMMANDS,
                user@.wf(),
                board@.wf(),
                any_move_within_limits(user@, board@),
                color_value.wf(),
                self@ == old(self)@ + candidates(user@, board@, *color_value, input as nat),
            decreases NUMBER_OF_COMMANDS - input,
        {
            let command = to_command(input);
            let mut trial_user = user.clone();
            let mut trial_board = board.clone();
            let ghost before = candidates(user@, board@, *color_value, input as nat);
            match Game::eval_by_selection(command, &mut trial_user, &mut trial_board) {
                Ok(_) => {
                    let reward = ActionRewardTable::reward(
                        command,
                        user,
                        &trial_user,
                        color_value,
                        Ghost(board@),
                        Ghost(trial_board@),
                        Ghost(input as int),
                    );
                    self.0.push(ActionReward::new(command, reward));
                    assert(self@ =~= old(self)@ + before.push(
                        ActionReward { action: command, reward },
                    ));
                },
                Err(_) => {},
            }
            input += 1;
        }
    }

    /// What a move that went through is worth, read off the player before
    /// and after it.
    fn reward(
        command: GameCommand,
        before: &User,
        after: &User,
        color_value: &ColorValue,
        Ghost(board): Ghost<BoardView>,
        Ghost(board_after): Ghost<BoardView>,
        Ghost(input): Ghost<int>,
    ) -> (reward: i128)
        requires
            color_value.wf(),
            0 <= input < NUMBER_OF_COMMANDS,
            command == command_of(input),
            outcome_of(before@, board, command).is_ok(),
            resolved(before@, board, command, after@, board_after),
        ensures
            reward == reward_of(before@, board, *color_value, command),
    {
        proof {
            assert(-VALUE_LIMIT <= color_value.value(Color::Black) <= VALUE_LIMIT);
            assert(-VALUE_LIMIT <= color_value.value(Color::White) <= VALUE_LIMIT);
            assert(-VALUE_LIMIT <= color_value.value(Color::Red) <= VALUE_LIMIT);
            assert(-VALUE_LIMIT <= color_value.value(Color::Blue) <= VALUE_LIMIT);
            assert(-VALUE_LIMIT <= color_value.value(Color::Green) <= VALUE_LIMIT);
            assert(-VALUE_LIMIT <= color_value.value(Color::Gold) <= VALUE_LIMIT);
        }
        match command {
            GameCommand::ReserveDevelopmentCard { x, y } => color_value.get(Color::Gold),
            GameCommand::BuyDevelopmentCard { x, y } => ActionRewardTable::purchase_reward(
                after,
                color_value,
            ),
            GameCommand::SelectTwoSameTokens(c) => 2 * color_value.get(c),
            GameCommand::SelectThreeTokens(c1, c2, c3) => {
                proof {
                    assert(c1 != c2 && c1 != c3 && c2 != c3) by {
                        assert(29 <= input < 39);
                        let set = color_sets()[input - 29];
                        assert(set.0 != set.1 && set.0 != set.2 && set.1 != set.2);
                    }
                }
                let t1 = after.get_number_of_tokens(c1) - before.get_number_of_tokens(c1);
                let t2 = after.get_number_of_tokens(c2) - before.get_number_of_tokens(c2);
                let t3 = after.get_number_of_tokens(c3) - before.get_number_of_tokens(c3);
                let mut total: i128 = 0;
                if t1 > 0 {
                    total += color_value.get(c1);
                }
                if t2 > 0 {
                    total += color_value.get(c2);
                }
                if t3 > 0 {
                    total += color_value.get(c3);
                }
                total
            },
            GameCommand::ReserveStackCard(l) => 0,
            GameCommand::BuyReservedCard(index) => ActionRewardTable::purchase_reward(
                after,
                color_value,
            ),
        }
    }

    /// What the card that a player acquired last is worth.
    fn purchase_reward(after: &User, color_value: &ColorValue) -> (reward: i128)
        requires
            color_value.wf(),
            after@.acquired.len() > 0,
        ensures
            reward == purchase_reward(*color_value, after@.acquired.last()),
    {
        let cards = after.get_acquired_cards();
        let card = cards[cards.len() - 1];
        proof {
            lemma_product_range(card.point as int, color_value.unit_spec(), 255, UNIT_LIMIT as int);
            assert(-VALUE_LIMIT <= color_value.value(card.color) <= VALUE_LIMIT);
        }
        card.get_point() as i128 * color_value.unit() + color_value.get(card.get_color())
    }

    /// Picks the candidate that is worth most, the first of them where
    /// several are; picks the default move where no candidate is worth more
    /// than nothing.
    pub fn choice(&self) -> (command: GameCommand)
        ensures
            is_choice(self@, command),
    {
        let mut max_value: i128 = 0;
        let mut command = GameCommand::ReserveDevelopmentCard { x: 0, y: 0 };
        let ghost mut best: int = -1;
        let mut i: usize = 0;
        while i < self.0.len()
            invariant
                i <= self.0.len(),
                -1 <= best < i,
                max_value >= 0,
                forall|j: int| 0 <= j < i ==> (#[trigger] self.0@[j]).reward <= max_value,
                best == -1 ==> max_value == 0 && command == default_command(),
                best >= 0 ==> max_value > 0 && command == self.0@[best].action
                    && self.0@[best].reward == max_value,
                forall|j: int| 0 <= j < best ==> (#[trigger] self.0@[j]).reward < max_value,
            decreases self.0.len() - i,
        {
            let e = self.0[i];
            if e.reward > max_value {
                command = e.action;
                max_value = e.reward;
                proof {
                    best = i as int;
                }
            }
            i += 1;
        }
        proof {
            if best >= 0 {
                assert(self@[best].reward > 0);
            }
        }
        command
    }
}

} // verus!
