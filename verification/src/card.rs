use vstd::prelude::*;
use crate::color::Color;
use crate::jewelry_box::JewelryBox;
use crate::user::User;

verus! {

/// A development card: its tier, the gem color it grants as a bonus, its
/// victory points and its price in each of the five gem colors.
#[derive(Clone, Copy, PartialEq, Eq, Structural, Debug)]
pub struct Card {
    pub level: u8,
    pub color: Color,
    pub point: u8,
    pub cost_black: u8,
    pub cost_white: u8,
    pub cost_red: u8,
    pub cost_blue: u8,
    pub cost_green: u8,
}

impl Default for Card {
    fn default() -> (card: Card)
        ensures
            card == (Card {
                level: 0,
                color: Color::Black,
                point: 0,
                cost_black: 0,
                cost_white: 0,
                cost_red: 0,
                cost_blue: 0,
                cost_green: 0,
            }),
    {
        Card {
            level: 0,
            color: Color::Black,
            point: 0,
            cost_black: 0,
            cost_white: 0,
            cost_red: 0,
            cost_blue: 0,
            cost_green: 0,
        }
    }
}

/// What is missing when `held` is to cover `cost`.
pub open spec fn shortfall(held: nat, cost: nat) -> nat {
    if held < cost {
        (cost - held) as nat
    } else {
        0
    }
}

impl Card {
    /// The price of the card in one gem color; gold is never part of a price.
    pub open spec fn cost(self, color: Color) -> u8 {
        match color {
            Color::Black => self.cost_black,
            Color::White => self.cost_white,
            Color::Red => self.cost_red,
            Color::Blue => self.cost_blue,
            Color::Green => self.cost_green,
            Color::Gold => 0,
        }
    }

    pub fn get_point(&self) -> (point: u8)
        ensures
            point == self.point,
    {
        self.point
    }

    /// Whether the player can pay for the card. Starting from the gold
    /// tokens held, what is missing in each gem color after bonus and tokens
    /// is taken off; the card can be paid where the balance does not fall
    /// below zero.
    pub fn is_available(&self, user: &User) -> (available: bool)
        ensures
            available == user@.can_afford(*self),
    {
        let jewelries = user.get_jewelries();
        let mut gold_token: i32 = user.get_number_of_tokens(Color::Gold) as i32;
        self.estimate_color(user, &jewelries, Color::Black, &mut gold_token);
        self.estimate_color(user, &jewelries, Color::White, &mut gold_token);
        self.estimate_color(user, &jewelries, Color::Red, &mut gold_token);
        self.estimate_color(user, &jewelries, Color::Blue, &mut gold_token);
        self.estimate_color(user, &jewelries, Color::Green, &mut gold_token);
        gold_token >= 0
    }

    /// Takes off the balance what the player misses in one gem color.
    fn estimate_color(
        &self,
        user: &User,
        jewelries: &JewelryBox,
        color: Color,
        gold_token: &mut i32,
    )
        requires
            color.is_gem(),
            jewelries.amount(color) == user@.bonus(color),
            *old(gold_token) >= i32::MIN + u8::MAX,
        ensures
            *final(gold_token) == *old(gold_token) - user@.gold_payment(*self, color),
    {
        let token = user.get_number_of_tokens(color);
        let jewelry = jewelries.get_jewelry(color);
        let cost = self.get_cost(color);
        // A bonus beyond the cost buys nothing more.
        let counted: u8 = if jewelry >= cost as u64 {
            cost
        } else {
            jewelry as u8
        };
        self.estimate_gold_token(token as u16 + counted as u16, cost, gold_token);
    }

    pub fn get_color(&self) -> (color: Color)
        ensures
            color == self.color,
    {
        self.color
    }

    pub fn get_cost(&self, color: Color) -> (cost: u8)
        requires
            color.is_gem(),
        ensures
            cost == self.cost(color),
    {
        match color {
            Color::Black => self.cost_black,
            Color::White => self.cost_white,
            Color::Red => self.cost_red,
            Color::Blue => self.cost_blue,
            Color::Green => self.cost_green,
            Color::Gold => 0,
        }
    }

    /// Takes off a balance of gold tokens what is missing when
    /// `user_token` is to cover `card_cost`.
    pub fn estimate_gold_token(&self, user_token: u16, card_cost: u8, gold_token: &mut i32)
        requires
            *old(gold_token) >= i32::MIN + u8::MAX,
        ensures
            *final(gold_token) == *old(gold_token) - shortfall(user_token as nat, card_cost as nat),
    {
        if user_token < card_cost as u16 {
            let diff: u16 = card_cost as u16 - user_token;
            *gold_token -= diff as i32;
        }
    }
}

} // verus!
