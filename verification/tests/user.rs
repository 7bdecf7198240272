use splendor::card::Card;
use splendor::color::Color;
use splendor::color::Color::{Black, Blue, Gold, Green, Red, White};
use splendor::game_command::GameCommand;
use splendor::token_stack::{CountMismatch, Token, TokenStack};
use splendor::user::User;

fn gem_card(color: Color, point: u8, cost: [u8; 5]) -> Card {
    Card {
        level: 1,
        color,
        point,
        cost_black: cost[0],
        cost_white: cost[1],
        cost_red: cost[2],
        cost_blue: cost[3],
        cost_green: cost[4],
    }
}

#[test]
fn user_test_new() {
    let user = User::new(1);
    assert_eq!(user.get_id(), 1);
    assert_eq!(user.get_vp(), 0);
    assert_eq!(user.get_number_of_hands(), 0);
    assert_eq!(user.get_acquired_cards().len(), 0);
    assert_eq!(user.get_number_of_tokens(Gold), 0);
}

#[test]
fn user_test_get_jewelries() {
    let mut user = User::new(1);
    let cards = vec![gem_card(Black, 1, [0, 1, 1, 0, 1])];
    for card in cards.into_iter() {
        user.obtain(card);
    }

    let jewelries = user.get_jewelries();
    assert_eq!(jewelries.get_jewelry(Black), 1)
}

#[test]
fn test_pay_each_token() {
    let mut user = User::new(1);

    let tokens = user.pay_each_tokens(0, 0, 0, Black).unwrap();
    assert_eq!(tokens, vec![]);

    let tokens = user.pay_each_tokens(2, 0, 2, Black).unwrap();
    assert_eq!(tokens, vec![]);

    user.add_token(Token::new(Black));
    let tokens = user.pay_each_tokens(2, 1, 1, Black).unwrap();
    assert_eq!(tokens, vec![Token::new(Black)]);

    user.add_token(Token::new(Gold));
    let tokens = user.pay_each_tokens(2, 0, 1, White).unwrap();
    assert_eq!(tokens, vec![Token::new(Gold)]);

    user.add_token(Token::new(Gold));
    user.add_token(Token::new(White));
    let tokens = user.pay_each_tokens(3, 1, 1, White).unwrap();
    assert_eq!(tokens, vec![Token::new(White), Token::new(Gold)]);
}

#[test]
fn pay_each_tokens_takes_nothing_when_gold_is_missing() {
    let mut user = User::new(1);
    user.add_token(Token::new(Red));
    let result = user.pay_each_tokens(3, 1, 0, Red);
    assert_eq!(result, Err(CountMismatch { color: Gold, requested: 2, available: 0 }));
    assert_eq!(user.get_number_of_tokens(Red), 1);

    let result = user.pay_each_tokens(3, 2, 0, Red);
    assert_eq!(result, Err(CountMismatch { color: Red, requested: 2, available: 1 }));
    assert_eq!(user.get_number_of_tokens(Red), 1);

    let result = user.pay_each_tokens(1, 0, 0, Gold);
    assert_eq!(result, Err(CountMismatch { color: Gold, requested: 1, available: 0 }));
}

#[test]
fn the_bonus_counts_cards_not_points() {
    let mut user = User::new(7);
    user.obtain(gem_card(Blue, 5, [0; 5]));
    user.obtain(gem_card(Blue, 0, [0; 5]));
    user.obtain(gem_card(Green, 2, [0; 5]));
    let jewelries = user.get_jewelries();
    assert_eq!(jewelries.get_jewelry(Blue), 2);
    assert_eq!(jewelries.get_jewelry(Green), 1);
    assert_eq!(jewelries.get_jewelry(Red), 0);
    assert_eq!(user.get_vp(), 7);
    assert_eq!(user.get_acquired_cards().len(), 3);
}

#[test]
fn bonus_and_tokens_pay_before_gold() {
    // Black bonus 2, one black token, no gold, and a card that costs three black.
    let mut user = User::new(1);
    user.obtain(gem_card(Black, 0, [0; 5]));
    user.obtain(gem_card(Black, 0, [0; 5]));
    user.add_token(Token::new(Black));
    let target = gem_card(White, 1, [3, 0, 0, 0, 0]);
    assert!(target.is_available(&user));

    let mut bank = TokenStack::new();
    assert_eq!(user.pay(&target, &mut bank), Ok(()));
    assert_eq!(user.get_number_of_tokens(Black), 0);
    assert_eq!(user.get_number_of_tokens(Gold), 0);
    assert_eq!(bank.len(Black), 1);
    assert_eq!(bank.len(Gold), 0);
    assert_eq!(bank.len_all(), 1);
}

#[test]
fn pay_moves_color_tokens_first_and_gold_for_the_rest() {
    let mut user = User::new(1);
    for color in [Red, Red, Red, Blue, Gold, Gold, Gold] {
        user.add_token(Token::new(color));
    }
    let target = gem_card(White, 1, [0, 0, 2, 3, 1]);
    let mut bank = TokenStack::new().fill();
    assert_eq!(user.pay(&target, &mut bank), Ok(()));
    // Red: two of three tokens. Blue: one token and two gold. Green: one gold.
    assert_eq!(user.get_number_of_tokens(Red), 1);
    assert_eq!(user.get_number_of_tokens(Blue), 0);
    assert_eq!(user.get_number_of_tokens(Gold), 0);
    assert_eq!(bank.len(Red), 7);
    assert_eq!(bank.len(Blue), 6);
    assert_eq!(bank.len(Green), 5);
    assert_eq!(bank.len(Gold), 8);
}

#[test]
fn pay_moves_nothing_when_the_card_is_too_dear() {
    let mut user = User::new(1);
    user.add_token(Token::new(Gold));
    user.add_token(Token::new(Gold));
    let target = gem_card(White, 1, [3, 0, 0, 0, 0]);
    let mut bank = TokenStack::new();
    assert_eq!(
        user.pay(&target, &mut bank),
        Err(CountMismatch { color: Gold, requested: 3, available: 2 })
    );
    assert_eq!(user.get_number_of_tokens(Gold), 2);
    assert_eq!(bank.len_all(), 0);
}

#[test]
fn the_hand_takes_three_cards() {
    let mut user = User::new(1);
    assert!(!user.is_over_capacity_of_hand());
    user.add_to_hands(gem_card(Red, 1, [0; 5]));
    user.add_to_hands(gem_card(Blue, 2, [0; 5]));
    assert!(!user.is_over_capacity_of_hand());
    user.add_to_hands(gem_card(Green, 3, [0; 5]));
    assert!(user.is_over_capacity_of_hand());
    assert_eq!(user.get_number_of_hands(), 3);
    assert_eq!(user.peek_card_in_hands(1).map(|c| c.get_color()), Some(Blue));
    assert_eq!(user.peek_card_in_hands(3), None);
    assert_eq!(user.uget_card_in_hands(2).get_point(), 3);
    user.remove_card_in_hands(0);
    assert_eq!(user.get_number_of_hands(), 2);
    assert_eq!(user.peek_card_in_hands(0).map(|c| c.get_color()), Some(Blue));
    assert!(!user.is_over_capacity_of_hand());
}

#[test]
fn a_player_may_take_tokens_below_ten() {
    let mut user = User::new(1);
    for _ in 0..9 {
        assert!(user.can_get_token());
        user.add_token(Token::new(Green));
    }
    assert!(user.can_get_token());
    user.add_token(Token::new(Gold));
    assert!(!user.can_get_token());
    user.remove_token(Green);
    assert!(user.can_get_token());
    assert_eq!(user.get_number_of_tokens(Green), 8);
    user.remove_token(Black);
    assert_eq!(user.get_number_of_tokens(Black), 0);
}

#[test]
fn victory_points_add_up() {
    let mut user = User::new(3);
    user.add_vp(3);
    user.add_vp(4);
    assert_eq!(user.get_vp(), 7);
    user.obtain(gem_card(Red, 248, [0; 5]));
    assert_eq!(user.get_vp(), 255);
}

#[test]
fn a_copy_of_a_player_is_independent() {
    let mut user = User::new(4);
    user.add_token(Token::new(Red));
    user.add_to_hands(gem_card(Red, 1, [0; 5]));
    let copy = user.clone();
    user.add_token(Token::new(Red));
    user.remove_card_in_hands(0);
    assert_eq!(copy.get_id(), 4);
    assert_eq!(copy.get_number_of_tokens(Red), 1);
    assert_eq!(copy.get_number_of_hands(), 1);
    assert_eq!(user.get_number_of_tokens(Red), 2);
}

#[test]
fn a_random_move_is_one_of_the_forty_five() {
    let mut user = User::new(1);
    for _ in 0..200 {
        let command = user.read();
        let mut found = false;
        for input in 0..45u8 {
            if splendor::game_command::to_command(input) == command {
                found = true;
            }
        }
        assert!(found);
        if let GameCommand::BuyReservedCard(index) = command {
            assert!(index < 3);
        }
    }
    assert_eq!(user.get_vp(), 0);
    assert_eq!(user.get_number_of_hands(), 0);
}
