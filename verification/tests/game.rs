use splendor::board::Board;
use splendor::card::Card;
use splendor::color::Color;
use splendor::color::Color::{Black, Blue, Gold, Green, Red, White};
use splendor::game::Game;
use splendor::game_command::{to_command, GameCommand, MoveError, Outcome};
use splendor::noble_tile::NobleTile;
use splendor::token_stack::Token;
use splendor::user::User;

const COLORS: [Color; 6] = [Black, White, Red, Blue, Green, Gold];

fn game_card(level: u8, color: Color, point: u8, cost: [u8; 5]) -> Card {
    Card {
        level,
        color,
        point,
        cost_black: cost[0],
        cost_white: cost[1],
        cost_red: cost[2],
        cost_blue: cost[3],
        cost_green: cost[4],
    }
}

fn game_deck() -> Vec<Card> {
    let mut cards = vec![];
    for level in 1..=3u8 {
        for i in 0..10u8 {
            let color = COLORS[(i % 5) as usize];
            cards.push(game_card(level, color, (i % 3) * (level - 1), [i % 3, (i + 1) % 3, 0, level, 1]));
        }
    }
    cards
}

fn game_nobles() -> Vec<NobleTile> {
    let mut tiles = vec![];
    for i in 0..10u8 {
        tiles.push(NobleTile {
            point: 3,
            black_bonus: i % 4,
            white_bonus: (i + 1) % 4,
            red_bonus: 0,
            blue_bonus: 0,
            green_bonus: (i + 2) % 4,
        });
    }
    tiles
}

fn tokens_in_game(game: &mut Game) -> Vec<u16> {
    let users = game.copy_users();
    let mut board = game.copy_board();
    COLORS
        .iter()
        .map(|c| {
            let held: u16 = users.iter().map(|u| u.get_number_of_tokens(*c) as u16).sum();
            held + board.get_token_stack().len(*c) as u16
        })
        .collect()
}

#[test]
fn a_new_game_has_two_players_and_a_full_bank() {
    let mut game = Game::new(game_deck(), game_nobles());
    assert_eq!(game.users().len(), 2);
    assert_eq!(game.users()[0].get_id(), 0);
    assert_eq!(game.users()[1].get_id(), 1);
    assert_eq!(game.users()[1].get_vp(), 0);
    assert!(game.board().peek_card(0, 0).is_some());
    assert_eq!(game.copy_board().get_noble_tile().len(), 4);
    assert_eq!(tokens_in_game(&mut game), vec![5; 6]);
    assert!(!game.finished());
}

#[test]
fn the_tokens_in_the_game_stay_the_same_over_many_turns() {
    let mut game = Game::new(game_deck(), game_nobles());
    for round in 0..60 {
        for who in 0..2usize {
            let command = game.read(who);
            let result = game.turn(who, command);
            assert!(result.is_ok() || result == Err(MoveError::ExhaustedRetries));
            assert_eq!(tokens_in_game(&mut game), vec![5; 6], "round {}", round);
            let user = &game.users()[who];
            assert!(user.get_number_of_hands() <= 3);
        }
    }
}

#[test]
fn a_turn_leaves_the_other_player_alone() {
    let mut game = Game::new(game_deck(), game_nobles());
    assert_eq!(game.turn(0, GameCommand::SelectTwoSameTokens(Red)), Ok(Outcome::TokensTaken));
    assert_eq!(game.users()[0].get_number_of_tokens(Red), 2);
    assert_eq!(game.users()[1].get_number_of_tokens(Red), 0);
    assert_eq!(game.board().can_get_token(Red), false);
    assert_eq!(
        game.turn(1, GameCommand::SelectThreeTokens(Red, Blue, Green)),
        Ok(Outcome::TokensTaken)
    );
    assert_eq!(game.users()[0].get_number_of_tokens(Red), 2);
    assert_eq!(game.users()[1].get_number_of_tokens(Red), 1);
    assert_eq!(game.users()[1].get_number_of_tokens(Blue), 1);
    assert_eq!(tokens_in_game(&mut game), vec![5; 6]);
}

#[test]
fn copies_of_the_game_do_not_change_with_it() {
    let mut game = Game::new(game_deck(), game_nobles());
    let users = game.copy_users();
    let mut board = game.copy_board();
    assert_eq!(game.turn(0, GameCommand::SelectTwoSameTokens(Red)), Ok(Outcome::TokensTaken));
    assert_eq!(users[0].get_number_of_tokens(Red), 0);
    assert_eq!(board.get_token_stack().len(Red), 5);
    assert_eq!(game.copy_users()[0].get_number_of_tokens(Red), 2);
    assert_eq!(game.copy_board().get_token_stack().len(Red), 3);
}

#[test]
fn an_allowed_move_is_made_at_once() {
    let mut board = Board::new(game_deck(), game_nobles());
    let mut user = User::new(0);
    let result = Game::eval(GameCommand::ReserveDevelopmentCard { x: 1, y: 2 }, &mut user, &mut board);
    assert_eq!(result, Ok(Outcome::Reserved));
    assert_eq!(user.get_number_of_hands(), 1);
    assert_eq!(user.get_number_of_tokens(Gold), 1);
}

#[test]
fn a_move_that_is_not_allowed_is_replaced_by_another() {
    let mut board = Board::new(game_deck(), game_nobles());
    let mut user = User::new(0);
    let before = board.get_token_stack().len_all();
    let result = Game::eval(GameCommand::BuyReservedCard(2), &mut user, &mut board);
    assert!(result.is_ok());
    let held: u16 = COLORS.iter().map(|c| user.get_number_of_tokens(*c) as u16).sum();
    assert_eq!(held + board.get_token_stack().len_all(), before);
}

#[test]
fn the_turn_is_lost_when_no_move_is_allowed() {
    // Every card is too dear, the hand is full and so is the holding.
    let mut cards = vec![];
    for level in 1..=3u8 {
        for i in 0..8u8 {
            cards.push(game_card(level, Red, i, [200, 0, 0, 0, 0]));
        }
    }
    let mut board = Board::new(cards, vec![]);
    let mut user = User::new(0);
    for y in 0..3u8 {
        assert_eq!(
            Game::eval_by_selection(
                GameCommand::ReserveDevelopmentCard { x: 0, y },
                &mut user,
                &mut board
            ),
            Ok(Outcome::Reserved)
        );
    }
    for color in [Black, White, Red] {
        assert_eq!(
            Game::eval_by_selection(GameCommand::SelectTwoSameTokens(color), &mut user, &mut board),
            Ok(Outcome::TokensTaken)
        );
    }
    assert_eq!(
        Game::eval_by_selection(GameCommand::SelectTwoSameTokens(Blue), &mut user, &mut board),
        Ok(Outcome::TokensTaken)
    );
    assert!(!user.can_get_token());
    let bank = board.get_token_stack().len_all();
    for input in 0..45u8 {
        let mut trial_user = user.clone();
        let mut trial_board = board.clone();
        assert!(Game::eval_by_selection(to_command(input), &mut trial_user, &mut trial_board)
            .is_err());
    }

    let result = Game::eval(GameCommand::SelectTwoSameTokens(Green), &mut user, &mut board);
    assert_eq!(result, Err(MoveError::ExhaustedRetries));
    assert_eq!(user.get_number_of_hands(), 3);
    assert_eq!(user.get_number_of_tokens(Gold), 3);
    assert_eq!(board.get_token_stack().len_all(), bank);
}

#[test]
fn the_game_is_over_at_fifteen_points() {
    let mut users = vec![User::new(0), User::new(1)];
    assert!(!Game::is_over(&users));
    users[1].add_vp(14);
    assert!(!Game::is_over(&users));
    users[1].add_vp(1);
    assert!(Game::is_over(&users));
    users[0].add_token(Token::new(Gold));
    assert!(Game::is_over(&users));
    assert!(!Game::is_over(&vec![]));
}

#[test]
fn there_is_room_while_the_counters_can_hold_every_gain() {
    let mut board = Board::new(
        vec![game_card(3, Red, 100, [0; 5]), game_card(2, Blue, 20, [0; 5])],
        vec![NobleTile {
            point: 50,
            black_bonus: 0,
            white_bonus: 0,
            red_bonus: 9,
            blue_bonus: 0,
            green_bonus: 0,
        }; 8],
    );
    assert_eq!(board.peek_noble_tile().len(), 2);
    let mut user = User::new(0);
    // 100 points of nobles and a card of 100 points.
    assert!(Game::has_room(&user, &board));
    user.add_vp(55);
    assert!(Game::has_room(&user, &board));
    user.add_vp(1);
    assert!(!Game::has_room(&user, &board));

    // Without the dear card there is room again, until a dear card is in the hand.
    assert_eq!(board.get_card(0, 0).map(|c| c.get_point()), Some(100));
    assert!(Game::has_room(&user, &board));
    user.add_to_hands(game_card(1, Red, 100, [0; 5]));
    assert!(!Game::has_room(&user, &board));
    user.remove_card_in_hands(0);
    user.add_vp(79);
    assert!(Game::has_room(&user, &board));
    user.add_vp(1);
    assert!(!Game::has_room(&user, &board));
}

#[test]
fn there_is_no_room_when_a_color_cannot_be_counted() {
    let board = Board::new(vec![], vec![]);
    let mut user = User::new(0);
    for _ in 0..250 {
        user.add_token(Token::new(Green));
    }
    assert_eq!(board.peek_token_stack().len(Green), 5);
    assert!(Game::has_room(&user, &board));
    user.add_token(Token::new(Green));
    assert!(!Game::has_room(&user, &board));
}
