use vstd::prelude::*;
use crate::color::Color;

verus! {

/// The bonuses of a player: for each gem color, how many cards of that color
/// the player has acquired.
#[derive(Clone, Copy, PartialEq, Eq, Structural, Debug)]
pub struct JewelryBox {
    black: u64,
    white: u64,
    red: u64,
    blue: u64,
    green: u64,
}

impl JewelryBox {
    /// The number held for a gem color; nothing is ever held for gold.
    pub closed spec fn amount(self, color: Color) -> nat {
        match color {
            Color::Black => self.black as nat,
            Color::White => self.white as nat,
            Color::Red => self.red as nat,
            Color::Blue => self.blue as nat,
            Color::Green => self.green as nat,
            Color::Gold => 0,
        }
    }

    pub fn new() -> (jewelries: JewelryBox)
        ensures
            forall|c: Color| jewelries.amount(c) == 0,
    {
        JewelryBox { black: 0, white: 0, red: 0, blue: 0, green: 0 }
    }

    pub fn get_jewelry(&self, color: Color) -> (n: u64)
        requires
            color.is_gem(),
        ensures
            n == self.amount(color),
    {
        match color {
            Color::Black => self.black,
            Color::White => self.white,
            Color::Red => self.red,
            Color::Blue => self.blue,
            Color::Green => self.green,
            Color::Gold => 0,
        }
    }

    /// Sets the number held for one gem color.
    pub fn set_jewelry(&mut self, color: Color, jewelries: u64)
        requires
            color.is_gem(),
        ensures
            final(self).amount(color) == jewelries,
            forall|c: Color| c != color ==> final(self).amount(c) == old(self).amount(c),
    {
        match color {
            Color::Black => self.black = jewelries,
            Color::White => self.white = jewelries,
            Color::Red => self.red = jewelries,
            Color::Blue => self.blue = jewelries,
            Color::Green => self.green = jewelries,
            Color::Gold => {},
        }
    }

    /// Raises the number held for one gem color by `jewelries`.
    pub fn add_jewelry(&mut self, color: Color, jewelries: u64)
        requires
            color.is_gem(),
            old(self).amount(color) + jewelries <= u64::MAX,
        ensures
            final(self).amount(color) == old(self).amount(color) + jewelries,
            forall|c: Color| c != color ==> final(self).amount(c) == old(self).amount(c),
    {
        match color {
            Color::Black => self.black += jewelries,
            Color::White => self.white += jewelries,
            Color::Red => self.red += jewelries,
            Color::Blue => self.blue += jewelries,
            Color::Green => self.green += jewelries,
            Color::Gold => {},
        }
    }
}

} // verus!
