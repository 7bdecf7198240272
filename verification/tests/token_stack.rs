use splendor::color::Color;
use splendor::color::Color::{Black, Blue, Gold, Green, Red, White};
use splendor::token_stack::{CountMismatch, Token, TokenStack};

#[test]
fn token_stack_test_new() {
    let stack = TokenStack::new();
    let colors = [Black, White, Red, Blue, Green, Gold];
    for color in colors.iter() {
        assert_eq!(stack.len(*color), 0);
    }

    let stack = stack.fill();
    for color in colors.iter() {
        assert_eq!(stack.len(*color), 5);
    }
}

#[test]
fn test_addn() {
    let mut stack = TokenStack::new();
    let tokens = vec![];
    stack.addn(tokens);
    assert_eq!(stack.remove(Black), None);

    let tokens = vec![Token::new(Black), Token::new(Black), Token::new(White)];
    stack.addn(tokens);
    assert_eq!(stack.remove(Black), Some(Token::new(Black)));
    assert_eq!(stack.remove(White), Some(Token::new(White)));
    assert_eq!(stack.remove(Black), Some(Token::new(Black)));
    assert_eq!(stack.remove(Black), None);
    assert_eq!(stack.remove(White), None);
}

#[test]
fn test_removen() {
    let mut stack = TokenStack::new();
    let mut tokens = stack.removen(Black, 0).unwrap();
    assert_eq!(tokens.pop(), None);

    stack.addn(vec![Token::new(Black), Token::new(Black), Token::new(White)]);
    let mut tokens = stack.removen(White, 1).unwrap();
    assert_eq!(tokens.pop(), Some(Token::new(White)));
    assert_eq!(tokens.pop(), None);
}

#[test]
fn removen_reports_a_mismatch_and_removes_nothing() {
    let mut stack = TokenStack::new();
    stack.addn(vec![Token::new(Red), Token::new(Red)]);
    let result = stack.removen(Red, 3);
    assert_eq!(result, Err(CountMismatch { color: Red, requested: 3, available: 2 }));
    assert_eq!(stack.len(Red), 2);
    assert_eq!(stack.len_all(), 2);
}

#[test]
fn removen_takes_exactly_n() {
    let mut stack = TokenStack::new().fill();
    let tokens = stack.removen(Blue, 3).unwrap();
    assert_eq!(tokens, vec![Token::new(Blue), Token::new(Blue), Token::new(Blue)]);
    assert_eq!(stack.len(Blue), 2);
    assert_eq!(stack.len(Green), 5);
    assert_eq!(stack.len_all(), 27);
}

#[test]
fn len_all_adds_the_six_counts() {
    let mut stack = TokenStack::new();
    assert_eq!(stack.len_all(), 0);
    stack.add(Token::new(Gold));
    stack.add(Token::new(Gold));
    stack.add(Token::new(Green));
    assert_eq!(stack.len(Gold), 2);
    assert_eq!(stack.len(Green), 1);
    assert_eq!(stack.len_all(), 3);
    assert_eq!(TokenStack::new().fill().len_all(), 30);
}

#[test]
fn a_full_stack_holds_255_of_a_color() {
    let mut stack = TokenStack::new();
    for _ in 0..255 {
        stack.add(Token::new(Black));
    }
    assert_eq!(stack.len(Black), 255);
    assert_eq!(stack.len_all(), 255);
}

#[test]
fn create_stack_gives_five_tokens_of_the_color() {
    let stack = Token::create_stack(Red);
    assert_eq!(stack.len(), 5);
    for token in stack.iter() {
        assert_eq!(token.get_color(), Red);
    }
    let stack = TokenStack::create_stack(Gold);
    assert_eq!(stack, vec![Token::new(Gold); 5]);
}

#[test]
fn remove_from_an_empty_color_changes_nothing() {
    let mut stack = TokenStack::new();
    stack.add(Token::new(White));
    let before = stack;
    assert_eq!(stack.remove(Black), None);
    assert_eq!(stack, before);
    let color: Color = White;
    assert_eq!(stack.remove(color), Some(Token::new(White)));
    assert_eq!(stack, TokenStack::new());
}
