use splendor::board::Board;
use splendor::card::Card;
use splendor::color::Color;
use splendor::color::Color::{Black, Blue, Gold, Green, Red, White};
use splendor::game::Game;
use splendor::game_command::GameCommand::{
    BuyDevelopmentCard, BuyReservedCard, ReserveDevelopmentCard, ReserveStackCard,
    SelectThreeTokens, SelectTwoSameTokens,
};
use splendor::game_command::{
    buy_development_card, buy_reserved_card, reserve_development_card, reserve_stack_card,
    select_three_tokens, select_two_same_tokens, to_command, visit, GameCommand, IllegalMove,
    MoveError, Outcome,
};
use splendor::level::Level;
use splendor::noble_tile::NobleTile;
use splendor::token_stack::Token;
use splendor::user::User;

const COLORS: [Color; 6] = [Black, White, Red, Blue, Green, Gold];

fn move_card(level: u8, color: Color, point: u8, cost: [u8; 5]) -> Card {
    Card {
        level,
        color,
        point,
        cost_black: cost[0],
        cost_white: cost[1],
        cost_red: cost[2],
        cost_blue: cost[3],
        cost_green: cost[4],
    }
}

fn move_noble(point: u8, bonus: [u8; 5]) -> NobleTile {
    NobleTile {
        point,
        black_bonus: bonus[0],
        white_bonus: bonus[1],
        red_bonus: bonus[2],
        blue_bonus: bonus[3],
        green_bonus: bonus[4],
    }
}

fn not_allowed(reason: IllegalMove) -> Result<Outcome, MoveError> {
    Err(MoveError::IllegalMove(reason))
}

fn move_totals(user: &User, board: &mut Board) -> Vec<u16> {
    COLORS
        .iter()
        .map(|c| user.get_number_of_tokens(*c) as u16 + board.get_token_stack().len(*c) as u16)
        .collect()
}

fn tokens_held(user: &User) -> u16 {
    COLORS.iter().map(|c| user.get_number_of_tokens(*c) as u16).sum()
}

#[test]
fn the_numbers_name_the_forty_five_moves() {
    assert_eq!(to_command(0), ReserveDevelopmentCard { x: 0, y: 0 });
    assert_eq!(to_command(3), ReserveDevelopmentCard { x: 0, y: 3 });
    assert_eq!(to_command(4), ReserveDevelopmentCard { x: 1, y: 0 });
    assert_eq!(to_command(11), ReserveDevelopmentCard { x: 2, y: 3 });
    assert_eq!(to_command(12), BuyDevelopmentCard { x: 0, y: 0 });
    assert_eq!(to_command(18), BuyDevelopmentCard { x: 1, y: 2 });
    assert_eq!(to_command(23), BuyDevelopmentCard { x: 2, y: 3 });
    assert_eq!(to_command(24), SelectTwoSameTokens(Black));
    assert_eq!(to_command(25), SelectTwoSameTokens(White));
    assert_eq!(to_command(26), SelectTwoSameTokens(Red));
    assert_eq!(to_command(27), SelectTwoSameTokens(Blue));
    assert_eq!(to_command(28), SelectTwoSameTokens(Green));
    let sets = [
        (Black, White, Red),
        (Black, White, Blue),
        (Black, White, Green),
        (Black, Red, Blue),
        (Black, Red, Green),
        (Black, Blue, Green),
        (White, Red, Blue),
        (White, Red, Green),
        (White, Blue, Green),
        (Red, Blue, Green),
    ];
    for (i, set) in sets.iter().enumerate() {
        assert_eq!(to_command(29 + i as u8), SelectThreeTokens(set.0, set.1, set.2));
    }
    assert_eq!(to_command(39), ReserveStackCard(Level::One));
    assert_eq!(to_command(40), ReserveStackCard(Level::Two));
    assert_eq!(to_command(41), ReserveStackCard(Level::Three));
    assert_eq!(to_command(42), BuyReservedCard(0));
    assert_eq!(to_command(43), BuyReservedCard(1));
    assert_eq!(to_command(44), BuyReservedCard(2));
    for i in 0..45u8 {
        for j in 0..i {
            assert_ne!(to_command(i), to_command(j));
        }
    }
}

#[test]
fn taking_two_needs_four_in_the_bank() {
    let mut board = Board::new(vec![], vec![]);
    let mut user = User::new(1);
    board.get_token(Black);
    assert_eq!(board.get_token_stack().len(Black), 4);

    assert_eq!(select_two_same_tokens(Black, &mut user, &mut board), Ok(Outcome::TokensTaken));
    assert_eq!(board.get_token_stack().len(Black), 2);
    assert_eq!(user.get_number_of_tokens(Black), 2);

    assert_eq!(
        select_two_same_tokens(Black, &mut user, &mut board),
        not_allowed(IllegalMove::BankScarcity)
    );
    assert_eq!(board.get_token_stack().len(Black), 2);
    assert_eq!(user.get_number_of_tokens(Black), 2);
}

#[test]
fn buying_fails_without_enough_gold_and_moves_nothing() {
    let mut board = Board::new(vec![move_card(3, Red, 1, [3, 0, 0, 0, 0])], vec![]);
    let mut user = User::new(1);
    user.add_token(Token::new(Gold));
    user.add_token(Token::new(Gold));
    let target = *board.peek_card(0, 0).unwrap();
    let before = move_totals(&user, &mut board);

    assert_eq!(
        buy_development_card(0, 0, &mut user, &mut board),
        not_allowed(IllegalMove::InsufficientFunds)
    );
    assert_eq!(board.peek_card(0, 0), Some(&target));
    assert_eq!(user.get_number_of_tokens(Gold), 2);
    assert_eq!(user.get_vp(), 0);
    assert_eq!(user.get_acquired_cards().len(), 0);
    for color in COLORS {
        assert_eq!(board.get_token_stack().len(color), 5);
    }
    assert_eq!(move_totals(&user, &mut board), before);
}

#[test]
fn buying_with_bonus_and_tokens_returns_the_tokens_to_the_bank() {
    let mut board = Board::new(vec![move_card(3, Red, 2, [3, 0, 0, 0, 0])], vec![]);
    let mut user = User::new(1);
    user.obtain(move_card(1, Black, 0, [0; 5]));
    user.obtain(move_card(1, Black, 0, [0; 5]));
    assert_eq!(board.get_token(Black), Some(Token::new(Black)));
    user.add_token(Token::new(Black));
    let before = move_totals(&user, &mut board);

    assert_eq!(buy_development_card(0, 0, &mut user, &mut board), Ok(Outcome::Purchased));
    assert_eq!(user.get_number_of_tokens(Black), 0);
    assert_eq!(user.get_number_of_tokens(Gold), 0);
    assert_eq!(board.get_token_stack().len(Black), 5);
    assert_eq!(board.get_token_stack().len(Gold), 5);
    assert_eq!(user.get_vp(), 2);
    assert_eq!(user.get_acquired_cards().len(), 3);
    assert_eq!(user.get_acquired_cards()[2].get_color(), Red);
    assert_eq!(board.peek_card(0, 0), None);
    assert_eq!(move_totals(&user, &mut board), before);
}

#[test]
fn buying_from_an_empty_place_fails() {
    let mut board = Board::new(vec![], vec![]);
    let mut user = User::new(1);
    assert_eq!(
        buy_development_card(1, 1, &mut user, &mut board),
        not_allowed(IllegalMove::EmptyTarget)
    );
    assert_eq!(
        buy_development_card(9, 9, &mut user, &mut board),
        not_allowed(IllegalMove::EmptyTarget)
    );
    assert_eq!(buy_reserved_card(0, &mut user, &mut board), not_allowed(IllegalMove::EmptyTarget));
}

#[test]
fn reserving_brings_a_gold_token_while_the_bank_has_one() {
    let mut cards = vec![];
    for i in 0..8u8 {
        cards.push(move_card(1, Blue, i, [i, 0, 0, 0, 0]));
    }
    let mut board = Board::new(cards, vec![]);
    let mut user = User::new(1);
    for _ in 0..4 {
        board.get_token(Gold);
    }
    let before = move_totals(&user, &mut board);
    let first = *board.peek_card(2, 0).unwrap();

    assert_eq!(reserve_development_card(2, 0, &mut user, &mut board), Ok(Outcome::Reserved));
    assert_eq!(user.get_number_of_hands(), 1);
    assert_eq!(user.peek_card_in_hands(0), Some(&first));
    assert_eq!(user.get_number_of_tokens(Gold), 1);
    assert_eq!(board.get_token_stack().len(Gold), 0);
    assert!(board.peek_card(2, 0).is_some());
    assert_ne!(board.peek_card(2, 0), Some(&first));

    assert_eq!(
        reserve_stack_card(Level::One, &mut user, &mut board),
        Ok(Outcome::ReservedWithoutGold)
    );
    assert_eq!(user.get_number_of_hands(), 2);
    assert_eq!(user.get_number_of_tokens(Gold), 1);
    assert_eq!(
        reserve_development_card(2, 3, &mut user, &mut board),
        Ok(Outcome::ReservedWithoutGold)
    );
    assert_eq!(user.get_number_of_hands(), 3);
    assert_eq!(move_totals(&user, &mut board), before);

    // The hand is full now.
    assert_eq!(
        reserve_development_card(2, 1, &mut user, &mut board),
        not_allowed(IllegalMove::HandFull)
    );
    assert_eq!(
        reserve_stack_card(Level::One, &mut user, &mut board),
        not_allowed(IllegalMove::HandFull)
    );
    assert_eq!(user.get_number_of_hands(), 3);
    assert!(board.peek_card(2, 1).is_some());
}

#[test]
fn reserving_from_an_empty_place_or_pile_fails() {
    let mut board = Board::new(vec![move_card(1, Blue, 0, [0; 5])], vec![]);
    let mut user = User::new(1);
    assert_eq!(
        reserve_development_card(0, 0, &mut user, &mut board),
        not_allowed(IllegalMove::EmptyTarget)
    );
    assert_eq!(
        reserve_development_card(3, 0, &mut user, &mut board),
        not_allowed(IllegalMove::EmptyTarget)
    );
    assert_eq!(
        reserve_stack_card(Level::One, &mut user, &mut board),
        not_allowed(IllegalMove::EmptyTarget)
    );
    assert_eq!(user.get_number_of_hands(), 0);
    assert_eq!(user.get_number_of_tokens(Gold), 0);
    assert_eq!(board.get_token_stack().len(Gold), 5);
}

#[test]
fn a_reserved_card_is_bought_from_the_hand() {
    let mut board =
        Board::new(vec![move_card(1, Green, 4, [0, 2, 0, 0, 0]), move_card(2, Red, 1, [0; 5])], vec![]);
    let mut user = User::new(1);
    assert_eq!(reserve_development_card(2, 0, &mut user, &mut board), Ok(Outcome::Reserved));
    assert_eq!(
        buy_reserved_card(0, &mut user, &mut board),
        not_allowed(IllegalMove::InsufficientFunds)
    );
    assert_eq!(reserve_development_card(1, 0, &mut user, &mut board), Ok(Outcome::Reserved));
    assert_eq!(buy_reserved_card(2, &mut user, &mut board), not_allowed(IllegalMove::EmptyTarget));
    let before = move_totals(&user, &mut board);

    // Two gold tokens stand in for two white.
    assert_eq!(buy_reserved_card(0, &mut user, &mut board), Ok(Outcome::Purchased));
    assert_eq!(user.get_number_of_hands(), 1);
    assert_eq!(user.peek_card_in_hands(0).map(|c| c.get_color()), Some(Red));
    assert_eq!(user.get_acquired_cards().len(), 1);
    assert_eq!(user.get_acquired_cards()[0].get_color(), Green);
    assert_eq!(user.get_vp(), 4);
    assert_eq!(user.get_number_of_tokens(Gold), 0);
    assert_eq!(board.get_token_stack().len(Gold), 5);
    assert_eq!(move_totals(&user, &mut board), before);
}

#[test]
fn the_holding_is_capped_at_ten() {
    let mut board = Board::new(vec![], vec![]);
    let mut user = User::new(1);
    assert_eq!(select_two_same_tokens(Black, &mut user, &mut board), Ok(Outcome::TokensTaken));
    assert_eq!(select_two_same_tokens(White, &mut user, &mut board), Ok(Outcome::TokensTaken));
    assert_eq!(select_two_same_tokens(Red, &mut user, &mut board), Ok(Outcome::TokensTaken));
    assert_eq!(
        select_three_tokens(Blue, Green, Black, &mut user, &mut board),
        Ok(Outcome::TokensTaken)
    );
    assert_eq!(tokens_held(&user), 9);
    let before = move_totals(&user, &mut board);

    // Only one more token fits.
    assert_eq!(select_two_same_tokens(Green, &mut user, &mut board), Ok(Outcome::TokensTaken));
    assert_eq!(tokens_held(&user), 10);
    assert_eq!(user.get_number_of_tokens(Green), 2);
    assert_eq!(board.get_token_stack().len(Green), 3);
    assert_eq!(move_totals(&user, &mut board), before);

    assert_eq!(
        select_two_same_tokens(Blue, &mut user, &mut board),
        not_allowed(IllegalMove::HoldingCapExceeded)
    );
    assert_eq!(
        select_three_tokens(Blue, Green, Black, &mut user, &mut board),
        not_allowed(IllegalMove::HoldingCapExceeded)
    );
    assert_eq!(tokens_held(&user), 10);
    assert_eq!(move_totals(&user, &mut board), before);
}

#[test]
fn taking_three_stops_when_the_holding_is_full() {
    let mut board = Board::new(vec![], vec![]);
    let mut user = User::new(1);
    for color in [Black, Black, White, White, Red, Red, Gold, Gold] {
        user.add_token(Token::new(color));
    }
    assert_eq!(
        select_three_tokens(Blue, Green, Black, &mut user, &mut board),
        Ok(Outcome::TokensTaken)
    );
    assert_eq!(user.get_number_of_tokens(Blue), 1);
    assert_eq!(user.get_number_of_tokens(Green), 1);
    assert_eq!(user.get_number_of_tokens(Black), 2);
    assert_eq!(board.get_token_stack().len(Black), 5);
    assert_eq!(tokens_held(&user), 10);
}

#[test]
fn taking_three_skips_colors_that_the_bank_lacks() {
    let mut board = Board::new(vec![], vec![]);
    let mut user = User::new(1);
    for _ in 0..5 {
        board.get_token(Red);
        board.get_token(Blue);
    }
    assert_eq!(
        select_three_tokens(Red, Blue, Green, &mut user, &mut board),
        Ok(Outcome::TokensTaken)
    );
    assert_eq!(user.get_number_of_tokens(Red), 0);
    assert_eq!(user.get_number_of_tokens(Blue), 0);
    assert_eq!(user.get_number_of_tokens(Green), 1);
    assert_eq!(board.get_token_stack().len(Green), 4);

    for _ in 0..4 {
        board.get_token(Green);
    }
    assert_eq!(
        select_three_tokens(Red, Blue, Green, &mut user, &mut board),
        not_allowed(IllegalMove::NothingTaken)
    );
    assert_eq!(tokens_held(&user), 1);
    assert_eq!(board.get_token_stack().len_all(), 15);
}

#[test]
fn a_noble_visits_once() {
    let tiles = vec![move_noble(3, [0, 0, 0, 1, 0]); 8];
    let cards = vec![move_card(3, Blue, 1, [0; 5]), move_card(3, Blue, 2, [0; 5])];
    let mut board = Board::new(cards, tiles);
    assert_eq!(board.get_noble_tile().len(), 2);
    board.get_noble_tile().push(move_noble(5, [0, 0, 0, 3, 0]));
    let mut user = User::new(1);
    let first = board.peek_card(0, 0).unwrap().get_point();

    assert_eq!(buy_development_card(0, 0, &mut user, &mut board), Ok(Outcome::PurchasedWithVisit));
    // Both nobles that ask for one blue card came; the third stays.
    assert_eq!(user.get_vp(), first + 6);
    assert_eq!(board.get_noble_tile().clone(), vec![move_noble(5, [0, 0, 0, 3, 0])]);

    assert!(!visit(&mut user, &mut board));
    assert_eq!(user.get_vp(), first + 6);
    assert_eq!(board.get_noble_tile().len(), 1);

    assert_eq!(buy_development_card(0, 1, &mut user, &mut board), Ok(Outcome::Purchased));
    assert_eq!(user.get_vp(), 9);
    assert_eq!(board.get_noble_tile().len(), 1);
}

#[test]
fn a_move_is_carried_out_by_its_kind() {
    let mut board = Board::new(vec![move_card(3, Red, 1, [0; 5]), move_card(1, Red, 1, [0; 5])], vec![]);
    let mut user = User::new(1);
    let moves = [
        (GameCommand::SelectTwoSameTokens(Blue), Ok(Outcome::TokensTaken)),
        (GameCommand::SelectThreeTokens(Black, White, Red), Ok(Outcome::TokensTaken)),
        (GameCommand::ReserveDevelopmentCard { x: 0, y: 0 }, Ok(Outcome::Reserved)),
        (GameCommand::ReserveStackCard(Level::Two), not_allowed(IllegalMove::EmptyTarget)),
        (GameCommand::BuyReservedCard(0), Ok(Outcome::Purchased)),
        (GameCommand::BuyDevelopmentCard { x: 2, y: 0 }, Ok(Outcome::Purchased)),
        (GameCommand::BuyDevelopmentCard { x: 2, y: 0 }, not_allowed(IllegalMove::EmptyTarget)),
    ];
    for (command, expected) in moves {
        let before = move_totals(&user, &mut board);
        assert_eq!(Game::eval_by_selection(command, &mut user, &mut board), expected);
        assert_eq!(move_totals(&user, &mut board), before);
        assert!(user.get_number_of_hands() <= 3);
        assert!(tokens_held(&user) <= 10);
    }
    assert_eq!(user.get_vp(), 2);
    assert_eq!(user.get_number_of_tokens(Blue), 2);
    assert_eq!(user.get_number_of_tokens(Gold), 1);
}
