use splendor::action_reward_table::{ActionReward, ActionRewardTable};
use splendor::board::Board;
use splendor::card::Card;
use splendor::color::Color;
use splendor::color::Color::{Black, Blue, Gold, Green, Red, White};
use splendor::color_value::ColorValue;
use splendor::game::Game;
use splendor::game_command::{to_command, GameCommand};
use splendor::noble_tile::NobleTile;
use splendor::token_stack::Token;
use splendor::user::User;

fn priced_card(level: u8, color: Color, point: u8, cost: [u8; 5]) -> Card {
    Card {
        level,
        color,
        point,
        cost_black: cost[0],
        cost_white: cost[1],
        cost_red: cost[2],
        cost_blue: cost[3],
        cost_green: cost[4],
    }
}

fn priced_deck() -> Vec<Card> {
    let mut cards = vec![];
    for level in 1..=3u8 {
        for i in 0..10u8 {
            cards.push(priced_card(level, Blue, i % 4, [i % 3, (i + 1) % 3, 1, level, 0]));
        }
    }
    cards
}

fn some_nobles() -> Vec<NobleTile> {
    vec![
        NobleTile {
            point: 3,
            black_bonus: 3,
            white_bonus: 3,
            red_bonus: 0,
            blue_bonus: 0,
            green_bonus: 3,
        };
        10
    ]
}

#[test]
fn test_calc_color_value() {
    let mut game = Game::new(priced_deck(), some_nobles());
    let board = game.copy_board();
    let user = User::new(1);
    let mut table = ActionRewardTable::new();

    let value = table.calc_color_value(&user, &board);
    assert!(value.unit() > 0);
    assert_eq!(value.get(Green), 0);
    assert!(value.get(Blue) > 0);
    assert_eq!(value.get(Gold), value.get(Blue).max(value.get(Black)).max(value.get(White)));
}

#[test]
fn test_estimate() {
    let mut game = Game::new(priced_deck(), some_nobles());
    let board = game.copy_board();
    let user = User::new(1);
    let mut table = ActionRewardTable::new();
    let color_value = ColorValue::new();

    table.estimate(1, &user, &board, &color_value);
    // A player without tokens can reserve any of the twelve cards and the
    // top of each pile and take tokens in every way, and can buy nothing.
    assert_eq!(table.entries().len(), 12 + 5 + 10 + 3);
    for entry in table.entries().iter() {
        assert_eq!(entry.reward, 0);
    }
}

#[test]
fn test_choise() {
    let mut game = Game::new(priced_deck(), some_nobles());
    let _board = game.copy_board();
    let _users = game.copy_users();
    let table = ActionRewardTable::new();

    assert_eq!(table.choice(), GameCommand::ReserveDevelopmentCard { x: 0, y: 0 });
}

#[test]
fn a_color_is_worth_three_tenths_of_its_uncovered_share() {
    let board = Board::new(vec![priced_card(3, Red, 2, [3, 1, 0, 0, 0])], vec![]);
    let mut user = User::new(1);
    user.obtain(priced_card(1, Black, 0, [0; 5]));
    let mut table = ActionRewardTable::new();
    let value = table.calc_color_value(&user, &board);
    // Black: 0.3 * (1 - 1/3) = 6/30. White: 0.3 * (1 - 0/1) = 9/30.
    assert_eq!(value.unit(), 30);
    assert_eq!(value.get(Black), 6);
    assert_eq!(value.get(White), 9);
    assert_eq!(value.get(Red), 0);
    assert_eq!(value.get(Blue), 0);
    assert_eq!(value.get(Green), 0);
    assert_eq!(value.get(Gold), 9);
    assert_eq!(table.entries().len(), 0);
}

#[test]
fn a_bonus_beyond_the_cost_makes_a_color_worth_less_than_nothing() {
    let board = Board::new(vec![priced_card(3, Red, 2, [1, 2, 0, 0, 0])], vec![]);
    let mut user = User::new(1);
    for _ in 0..3 {
        user.obtain(priced_card(1, Black, 0, [0; 5]));
        user.obtain(priced_card(1, White, 0, [0; 5]));
    }
    let mut table = ActionRewardTable::new();
    let value = table.calc_color_value(&user, &board);
    // Black: 0.3 * (1 - 3/1) = -12/20. White: 0.3 * (1 - 3/2) = -3/20.
    assert_eq!(value.unit(), 20);
    assert_eq!(value.get(Black), -12);
    assert_eq!(value.get(White), -3);
    assert_eq!(value.get(Gold), 0);
}

#[test]
fn an_empty_board_makes_every_color_worth_nothing() {
    let board = Board::new(vec![], vec![]);
    let user = User::new(1);
    let mut table = ActionRewardTable::new();
    let value = table.calc_color_value(&user, &board);
    assert_eq!(value.unit(), 10);
    for color in [Black, White, Red, Blue, Green, Gold] {
        assert_eq!(value.get(color), 0);
    }
    // Tokens can be taken, but none is worth anything.
    assert_eq!(table.look(1, &user, &board), GameCommand::ReserveDevelopmentCard { x: 0, y: 0 });
    assert_eq!(table.entries().len(), 15);
    let mut hopeless = User::new(2);
    for _ in 0..10 {
        hopeless.add_token(Token::new(Gold));
    }
    assert_eq!(table.look(1, &hopeless, &board), GameCommand::ReserveDevelopmentCard { x: 0, y: 0 });
    assert_eq!(table.entries().len(), 0);
}

#[test]
fn gold_is_worth_as_much_as_the_best_gem() {
    let mut value = ColorValue::new();
    assert_eq!(value.unit(), 1);
    value.set(Black, -5);
    value.set(White, -2);
    value.set(Red, -9);
    value.set(Blue, -3);
    value.set(Green, -4);
    value.set_gold_value();
    assert_eq!(value.get(Gold), -2);
    value.set(Green, 7);
    value.set_gold_value();
    assert_eq!(value.get(Gold), 7);
    assert_eq!(value.get(Black), -5);
    let other = ColorValue::with_unit(30);
    assert_eq!(other.unit(), 30);
    assert_eq!(other.get(Gold), 0);
}

#[test]
fn the_candidates_are_the_allowed_moves_with_their_worth() {
    let board = Board::new(vec![priced_card(3, Red, 2, [3, 1, 0, 0, 0])], vec![]);
    let user = User::new(1);
    let mut table = ActionRewardTable::new();
    let value = table.calc_color_value(&user, &board);
    assert_eq!((value.unit(), value.get(Black), value.get(White), value.get(Gold)), (30, 9, 9, 9));

    table.estimate(1, &user, &board, &value);
    let expected = vec![
        ActionReward::new(to_command(0), 9),
        ActionReward::new(to_command(24), 18),
        ActionReward::new(to_command(25), 18),
        ActionReward::new(to_command(26), 0),
        ActionReward::new(to_command(27), 0),
        ActionReward::new(to_command(28), 0),
        ActionReward::new(to_command(29), 18),
        ActionReward::new(to_command(30), 18),
        ActionReward::new(to_command(31), 18),
        ActionReward::new(to_command(32), 9),
        ActionReward::new(to_command(33), 9),
        ActionReward::new(to_command(34), 9),
        ActionReward::new(to_command(35), 9),
        ActionReward::new(to_command(36), 9),
        ActionReward::new(to_command(37), 9),
        ActionReward::new(to_command(38), 0),
    ];
    assert_eq!(table.entries(), &expected);
    // The first of the moves that are worth most.
    assert_eq!(table.choice(), GameCommand::SelectTwoSameTokens(Black));
    // Nothing was tried on the player or the board themselves.
    assert_eq!(user.get_number_of_hands(), 0);
    assert_eq!(user.get_number_of_tokens(Black), 0);
    assert!(board.peek_card(0, 0).is_some());
    assert!(board.can_get_token(Black));
}

#[test]
fn a_purchase_is_worth_its_points_and_its_color() {
    let cards = vec![priced_card(3, White, 2, [1, 0, 0, 0, 0]), priced_card(2, Black, 1, [0, 1, 0, 0, 0])];
    let board = Board::new(cards, vec![]);
    let mut user = User::new(1);
    user.add_token(Token::new(Black));
    user.add_to_hands(priced_card(1, Green, 4, [0; 5]));
    let mut table = ActionRewardTable::new();
    let value = table.calc_color_value(&user, &board);
    assert_eq!((value.unit(), value.get(Black), value.get(White), value.get(Green)), (10, 3, 3, 0));

    table.estimate(1, &user, &board, &value);
    let entries = table.entries();
    let find = |command: GameCommand| entries.iter().find(|e| e.action == command).map(|e| e.reward);
    assert_eq!(find(GameCommand::BuyDevelopmentCard { x: 0, y: 0 }), Some(2 * 10 + 3));
    assert_eq!(find(GameCommand::BuyDevelopmentCard { x: 1, y: 0 }), None);
    assert_eq!(find(GameCommand::BuyReservedCard(0)), Some(4 * 10));
    assert_eq!(find(GameCommand::ReserveDevelopmentCard { x: 1, y: 0 }), Some(3));
    assert_eq!(find(GameCommand::ReserveStackCard(splendor::level::Level::One)), None);
    assert_eq!(table.choice(), GameCommand::BuyReservedCard(0));
    assert_eq!(table.look(1, &user, &board), GameCommand::BuyReservedCard(0));
    assert_eq!(table.entries().len(), entries_len_after_one_look(&user, &board));
}

fn entries_len_after_one_look(user: &User, board: &Board) -> usize {
    let mut table = ActionRewardTable::new();
    table.look(1, user, board);
    table.entries().len()
}

#[test]
fn the_pick_is_a_move_that_goes_through() {
    let mut game = Game::new(priced_deck(), some_nobles());
    let mut table = ActionRewardTable::new();
    for _ in 0..40 {
        let mut board = game.copy_board();
        let mut user = game.copy_users().remove(0);
        let command = table.look(1, &user, &board);
        if command != (GameCommand::ReserveDevelopmentCard { x: 0, y: 0 }) {
            assert!(Game::eval_by_selection(command, &mut user, &mut board).is_ok());
        }
        assert!(game.turn(0, command).is_ok());
    }
}
