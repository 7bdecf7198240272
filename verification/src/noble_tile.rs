use vstd::prelude::*;
use crate::color::Color;
use crate::jewelry_box::JewelryBox;
use crate::rng::shuffle;

verus! {

/// How many tiles a full set holds.
pub const NUMBER_OF_TILES: u8 = 10;

/// How many tiles of a full set a board keeps.
pub const MAX_NUMBER_OF_TILES: u8 = 4;

/// A noble: the points it brings and the bonus it asks for in each gem color.
#[derive(Clone, Copy, PartialEq, Eq, Structural, Debug)]
pub struct NobleTile {
    pub point: u8,
    pub black_bonus: u8,
    pub white_bonus: u8,
    pub red_bonus: u8,
    pub blue_bonus: u8,
    pub green_bonus: u8,
}

/// How many tiles stay of a set of `n` once the surplus of a full set has
/// been put aside.
pub open spec fn kept_tiles(n: nat) -> nat {
    if n >= NUMBER_OF_TILES - MAX_NUMBER_OF_TILES {
        (n - (NUMBER_OF_TILES - MAX_NUMBER_OF_TILES)) as nat
    } else {
        0
    }
}

impl NobleTile {
    /// The bonus the noble asks for in a gem color; none is asked in gold.
    pub open spec fn bonus(self, color: Color) -> u8 {
        match color {
            Color::Black => self.black_bonus,
            Color::White => self.white_bonus,
            Color::Red => self.red_bonus,
            Color::Blue => self.blue_bonus,
            Color::Green => self.green_bonus,
            Color::Gold => 0,
        }
    }

    /// The noble visits a player whose bonus reaches what it asks for in
    /// every gem color.
    pub open spec fn welcomes(self, jewelries: JewelryBox) -> bool {
        forall|c: Color| self.bonus(c) <= jewelries.amount(c)
    }

    /// Shuffles the tiles and puts the surplus aside, from the end: what is
    /// left is the start of some reordering of the tiles.
    pub fn create_stack(tiles: Vec<NobleTile>) -> (stack: Vec<NobleTile>)
        ensures
            exists|order: Seq<NobleTile>|
                order.to_multiset() == tiles@.to_multiset() && stack@ == #[trigger] order.take(
                    kept_tiles(tiles@.len()) as int,
                ),
    {
        let mut stack = tiles;
        let mut rng = rand::thread_rng();
        shuffle(&mut stack, &mut rng);
        let ghost order = stack@;
        proof {
            broadcast use vstd::seq_lib::group_to_multiset_ensures;

            assert(order.len() == order.to_multiset().len());
            assert(tiles@.len() == tiles@.to_multiset().len());
        }
        let mut i: u8 = 0;
        while i < NUMBER_OF_TILES - MAX_NUMBER_OF_TILES
            invariant
                i <= NUMBER_OF_TILES - MAX_NUMBER_OF_TILES,
                order.to_multiset() == tiles@.to_multiset(),
                order.len() == tiles@.len(),
                stack@ == order.take(
                    if order.len() >= i {
                        order.len() - i
                    } else {
                        0
                    },
                ),
            decreases NUMBER_OF_TILES - MAX_NUMBER_OF_TILES - i,
        {
            stack.pop();
            i += 1;
        }
        assert(stack@ == order.take(kept_tiles(tiles@.len()) as int));
        stack
    }

    pub fn get_point(&self) -> (point: u8)
        ensures
            point == self.point,
    {
        self.point
    }

    pub fn can_visit(&self, jewelries: &JewelryBox) -> (visits: bool)
        ensures
            visits == self.welcomes(*jewelries),
    {
        let visits = self.black_bonus as u64 <= jewelries.get_jewelry(Color::Black)
            && self.white_bonus as u64 <= jewelries.get_jewelry(Color::White)
            && self.red_bonus as u64 <= jewelries.get_jewelry(Color::Red)
            && self.blue_bonus as u64 <= jewelries.get_jewelry(Color::Blue)
            && self.green_bonus as u64 <= jewelries.get_jewelry(Color::Green);
        proof {
            if visits {
                assert forall|c: Color| self.bonus(c) <= jewelries.amount(c) by {
                    match c {
                        Color::Black => {},
                        Color::White => {},
                        Color::Red => {},
                        Color::Blue => {},
                        Color::Green => {},
                        Color::Gold => {},
                    }
                }
            } else {
                assert(self.bonus(Color::Black) <= jewelries.amount(Color::Black)
                    && self.bonus(Color::White) <= jewelries.amount(Color::White)
                    && self.bonus(Color::Red) <= jewelries.amount(Color::Red)
                    && self.bonus(Color::Blue) <= jewelries.amount(Color::Blue)
                    && self.bonus(Color::Green) <= jewelries.amount(Color::Green) ==> false);
            }
        }
        visits
    }

    pub fn get_bonus(&self, color: Color) -> (bonus: u8)
        requires
            color.is_gem(),
        ensures
            bonus == self.bonus(color),
    {
        match color {
            Color::Black => self.black_bonus,
            Color::White => self.white_bonus,
            Color::Red => self.red_bonus,
            Color::Blue => self.blue_bonus,
            Color::Green => self.green_bonus,
            Color::Gold => 0,
        }
    }
}

} // verus!
