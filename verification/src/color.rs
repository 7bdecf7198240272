use vstd::prelude::*;

verus! {

/// The six kinds of token. The first five are gems, which cards cost and
/// grant; `Gold` is the wildcard and is never part of a cost.
#[derive(Clone, Copy, PartialEq, Eq, Structural, Hash, Debug)]
pub enum Color {
    Black,
    White,
    Red,
    Blue,
    Green,
    Gold,
}

impl Color {
    /// True of the five gem colors, false of `Gold`.
    pub open spec fn is_gem(self) -> bool {
        self != Color::Gold
    }
}

} // verus!
