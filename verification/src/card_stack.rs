use vstd::prelude::*;
use crate::card::Card;
use crate::level::Level;
use crate::rng::shuffle;

verus! {

/// The cards of `cards` whose tier number is `level`, in their order.
pub open spec fn of_level(cards: Seq<Card>, level: u8) -> Seq<Card>
    decreases cards.len(),
{
    if cards.len() == 0 {
        Seq::empty()
    } else if cards.last().level == level {
        of_level(cards.drop_last(), level).push(cards.last())
    } else {
        of_level(cards.drop_last(), level)
    }
}

/// Every card carries one of the tier numbers 1, 2 and 3.
pub open spec fn levels_valid(cards: Seq<Card>) -> bool {
    forall|i: int| 0 <= i < cards.len() ==> 1 <= (#[trigger] cards[i]).level <= 3
}

/// Splitting cards by tier loses none and invents none: the three parts
/// together hold each card as often as the whole does.
pub proof fn lemma_of_level_partition(cards: Seq<Card>)
    requires
        levels_valid(cards),
    ensures
        of_level(cards, 1).to_multiset().add(of_level(cards, 2).to_multiset()).add(
            of_level(cards, 3).to_multiset(),
        ) == cards.to_multiset(),
        of_level(cards, 1).len() + of_level(cards, 2).len() + of_level(cards, 3).len()
            == cards.len(),
    decreases cards.len(),
{
    broadcast use vstd::seq_lib::group_to_multiset_ensures;

    if cards.len() == 0 {
        assert(of_level(cards, 1).to_multiset().add(of_level(cards, 2).to_multiset()).add(
            of_level(cards, 3).to_multiset(),
        ) =~= cards.to_multiset());
    } else {
        let rest = cards.drop_last();
        let last = cards.last();
        assert(levels_valid(rest)) by {
            assert forall|i: int| 0 <= i < rest.len() implies 1 <= (#[trigger] rest[i]).level
                <= 3 by {
                assert(rest[i] == cards[i]);
            }
        }
        lemma_of_level_partition(rest);
        assert(cards == rest.push(last));
        assert(1 <= cards[cards.len() - 1].level <= 3);
        assert(of_level(cards, 1).to_multiset().add(of_level(cards, 2).to_multiset()).add(
            of_level(cards, 3).to_multiset(),
        ) =~= cards.to_multiset());
    }
}

/// The three draw piles, one per tier. The top of a pile is its last card.
pub struct CardStack {
    level1: Vec<Card>,
    level2: Vec<Card>,
    level3: Vec<Card>,
}

impl CardStack {
    /// The pile of one tier, from bottom to top.
    pub closed spec fn pile(&self, level: Level) -> Seq<Card> {
        match level {
            Level::One => self.level1@,
            Level::Two => self.level2@,
            Level::Three => self.level3@,
        }
    }

    /// Sorts the cards into the three piles by their tier number and shuffles
    /// each pile. Each pile holds exactly the cards of its tier, in an order
    /// that the shuffle chose.
    pub fn new(cards: Vec<Card>) -> (stack: CardStack)
        requires
            levels_valid(cards@),
        ensures
            forall|l: Level| #[trigger]
                stack.pile(l).to_multiset() == of_level(cards@, l.number_spec()).to_multiset(),
            stack.pile(Level::One).len() + stack.pile(Level::Two).len() + stack.pile(
                Level::Three,
            ).len() == cards@.len(),
            stack.pile(Level::One).to_multiset().add(stack.pile(Level::Two).to_multiset()).add(
                stack.pile(Level::Three).to_multiset(),
            ) == cards@.to_multiset(),
    {
        let mut level1: Vec<Card> = Vec::new();
        let mut level2: Vec<Card> = Vec::new();
        let mut level3: Vec<Card> = Vec::new();
        let mut i: usize = 0;
        while i < cards.len()
            invariant
                i <= cards.len(),
                levels_valid(cards@),
                level1@ == of_level(cards@.take(i as int), 1),
                level2@ == of_level(cards@.take(i as int), 2),
                level3@ == of_level(cards@.take(i as int), 3),
            decreases cards.len() - i,
        {
            let card = cards[i];
            proof {
                assert(cards@.take(i + 1).drop_last() =~= cards@.take(i as int));
                assert(cards@.take(i + 1).last() == card);
            }
            if card.level == 1 {
                level1.push(card);
            } else if card.level == 2 {
                level2.push(card);
            } else {
                level3.push(card);
            }
            i += 1;
        }
        proof {
            assert(cards@.take(i as int) =~= cards@);
            lemma_of_level_partition(cards@);
        }
        let mut rng = rand::thread_rng();
        shuffle(&mut level1, &mut rng);
        shuffle(&mut level2, &mut rng);
        shuffle(&mut level3, &mut rng);
        proof {
            broadcast use vstd::seq_lib::group_to_multiset_ensures;

            assert(level1@.len() == level1@.to_multiset().len());
            assert(level2@.len() == level2@.to_multiset().len());
            assert(level3@.len() == level3@.to_multiset().len());
            assert(of_level(cards@, 1).len() == of_level(cards@, 1).to_multiset().len());
            assert(of_level(cards@, 2).len() == of_level(cards@, 2).to_multiset().len());
            assert(of_level(cards@, 3).len() == of_level(cards@, 3).to_multiset().len());
        }
        CardStack { level1, level2, level3 }
    }

    pub fn len(&self, level: Level) -> (n: usize)
        ensures
            n == self.pile(level).len(),
    {
        match level {
            Level::One => self.level1.len(),
            Level::Two => self.level2.len(),
            Level::Three => self.level3.len(),
        }
    }

    /// Draws the top card of a pile, if the pile has one.
    pub fn get(&mut self, level: Level) -> (card: Option<Card>)
        ensures
            old(self).pile(level).len() == 0 ==> card.is_none() && final(self).pile(level)
                == old(self).pile(level),
            old(self).pile(level).len() > 0 ==> card == Some(old(self).pile(level).last())
                && final(self).pile(level) == old(self).pile(level).drop_last(),
            forall|l: Level| l != level ==> final(self).pile(l) == old(self).pile(l),
    {
        match level {
            Level::One => self.level1.pop(),
            Level::Two => self.level2.pop(),
            Level::Three => self.level3.pop(),
        }
    }
}

impl Clone for CardStack {
    /// Three piles of their own with the same cards in the same order.
    fn clone(&self) -> (copy: CardStack)
        ensures
            forall|l: Level| copy.pile(l) == self.pile(l),
    {
        let copy = CardStack {
            level1: self.level1.clone(),
            level2: self.level2.clone(),
            level3: self.level3.clone(),
        };
        assert(copy.level1@ =~= self.level1@);
        assert(copy.level2@ =~= self.level2@);
        assert(copy.level3@ =~= self.level3@);
        copy
    }
}

} // verus!
