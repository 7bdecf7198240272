use vstd::prelude::*;
use crate::color::Color;

verus! {

/// An amount per gem color, such as what the face-up cards of a board cost
/// together.
#[derive(Clone, Copy, PartialEq, Eq, Structural, Debug)]
pub struct Gem {
    black: u64,
    white: u64,
    red: u64,
    blue: u64,
    green: u64,
}

impl Gem {
    /// The amount held for a gem color; nothing is ever held for gold.
    pub closed spec fn amount(self, color: Color) -> nat {
        match color {
            Color::Black => self.black as nat,
            Color::White => self.white as nat,
            Color::Red => self.red as nat,
            Color::Blue => self.blue as nat,
            Color::Green => self.green as nat,
            Color::Gold => 0,
        }
    }

    pub fn new() -> (gem: Gem)
        ensures
            forall|c: Color| gem.amount(c) == 0,
    {
        Gem { black: 0, white: 0, red: 0, blue: 0, green: 0 }
    }

    pub fn get(&self, color: Color) -> (n: u64)
        requires
            color.is_gem(),
        ensures
            n == self.amount(color),
    {
        match color {
            Color::Black => self.black,
            Color::White => self.white,
            Color::Red => self.red,
            Color::Blue => self.blue,
            Color::Green => self.green,
            Color::Gold => 0,
        }
    }

    /// Raises the amount of one gem color by `gems`.
    pub fn add(&mut self, color: Color, gems: u8)
        requires
            color.is_gem(),
            old(self).amount(color) + gems <= u64::MAX,
        ensures
            final(self).amount(color) == old(self).amount(color) + gems,
            forall|c: Color| c != color ==> final(self).amount(c) == old(self).amount(c),
    {
        match color {
            Color::Black => self.black += gems as u64,
            Color::White => self.white += gems as u64,
            Color::Red => self.red += gems as u64,
            Color::Blue => self.blue += gems as u64,
            Color::Green => self.green += gems as u64,
            Color::Gold => {},
        }
    }
}

} // verus!
