use vstd::prelude::*;

verus! {

/// The three tiers of development cards.
#[derive(Clone, Copy, PartialEq, Eq, Structural, Hash, Debug)]
pub enum Level {
    One,
    Two,
    Three,
}

impl Level {
    /// The number a card carries for this tier: 1, 2 or 3.
    pub open spec fn number_spec(self) -> u8 {
        match self {
            Level::One => 1,
            Level::Two => 2,
            Level::Three => 3,
        }
    }

    #[verifier::when_used_as_spec(number_spec)]
    pub fn number(self) -> (n: u8)
        ensures
            n == self.number_spec(),
    {
        match self {
            Level::One => 1,
            Level::Two => 2,
            Level::Three => 3,
        }
    }
}

} // verus!
