use vstd::prelude::*;
use rand::rngs::ThreadRng;
use crate::card::Card;
use crate::color::Color;
use crate::game_command::{command_of, numbered, to_command, GameCommand, NUMBER_OF_COMMANDS};
use crate::jewelry_box::JewelryBox;
use crate::rng::random_u8;
use crate::token_stack::{
    count_in,
    lemma_count_in_concat,
    lemma_count_in_run,
    run,
    CountMismatch,
    Token,
    TokenStack,
};

verus! {

/// A player may hold this many reserved cards.
pub const MAX_NUMBER_OF_HANDS: usize = 3;

/// A player who holds this many tokens may take no more.
pub const MAX_NUMBER_OF_HELD_TOKENS: u16 = 10;

/// How many of the cards are of the given color: the bonus that a player
/// with these acquired cards has in that color.
pub open spec fn bonus_of(cards: Seq<Card>, color: Color) -> nat
    decreases cards.len(),
{
    if cards.len() == 0 {
        0
    } else {
        bonus_of(cards.drop_last(), color) + if cards.last().color == color {
            1nat
        } else {
            0nat
        }
    }
}

/// A bonus is at most the number of cards.
pub proof fn lemma_bonus_bound(cards: Seq<Card>, color: Color)
    ensures
        bonus_of(cards, color) <= cards.len(),
    decreases cards.len(),
{
    if cards.len() > 0 {
        lemma_bonus_bound(cards.drop_last(), color);
    }
}

/// What is left to pay of a cost once a bonus has been taken off.
pub open spec fn cost_after_bonus(cost: nat, bonus: nat) -> nat {
    if bonus >= cost {
        0
    } else {
        (cost - bonus) as nat
    }
}

/// The smaller of two numbers.
pub open spec fn least(a: nat, b: nat) -> nat {
    if a <= b {
        a
    } else {
        b
    }
}

/// What a player is, as plain values.
pub struct UserView {
    pub id: u8,
    /// The reserved cards, in the order in which they were reserved.
    pub hand: Seq<Card>,
    /// The acquired cards, in the order in which they were acquired.
    pub acquired: Seq<Card>,
    /// The victory points.
    pub vp: u8,
    /// The tokens held.
    pub tokens: TokenStack,
}

impl UserView {
    /// The hand holds no more cards than a player may reserve.
    pub open spec fn wf(self) -> bool {
        self.hand.len() <= MAX_NUMBER_OF_HANDS
    }

    /// The bonus in a color: the number of acquired cards of that color.
    pub open spec fn bonus(self, color: Color) -> nat {
        bonus_of(self.acquired, color)
    }

    /// How many tokens of a gem color the player hands over for a card: what
    /// the bonus does not cover, as far as the tokens of that color reach.
    pub open spec fn token_payment(self, card: Card, color: Color) -> nat {
        least(
            self.tokens.count(color),
            cost_after_bonus(card.cost(color) as nat, self.bonus(color)),
        )
    }

    /// How many gold tokens stand in for a gem color when the player pays
    /// for a card: what neither the bonus nor the tokens of that color cover.
    pub open spec fn gold_payment(self, card: Card, color: Color) -> nat {
        (cost_after_bonus(card.cost(color) as nat, self.bonus(color)) - self.token_payment(
            card,
            color,
        )) as nat
    }

    /// How many gold tokens the player needs for a card in all.
    pub open spec fn gold_needed(self, card: Card) -> nat {
        self.gold_payment(card, Color::Black) + self.gold_payment(card, Color::White)
            + self.gold_payment(card, Color::Red) + self.gold_payment(card, Color::Blue)
            + self.gold_payment(card, Color::Green)
    }

    /// The player can pay for the card: the gold tokens held cover what the
    /// bonuses and the gem tokens leave open, all colors taken together.
    pub open spec fn can_afford(self, card: Card) -> bool {
        self.gold_needed(card) <= self.tokens.count(Color::Gold)
    }

    /// How many tokens of a color leave the player when the card is paid.
    pub open spec fn payment(self, card: Card, color: Color) -> nat {
        if color == Color::Gold {
            self.gold_needed(card)
        } else {
            self.token_payment(card, color)
        }
    }
}

/// A player: the reserved and the acquired cards, the victory points and the
/// tokens held, together with the generator that picks the player's moves.
pub struct User {
    id: u8,
    hand: Vec<Card>,
    acquired_card: Vec<Card>,
    vp: u8,
    token_stack: TokenStack,
    rng: ThreadRng,
}

impl View for User {
    type V = UserView;

    closed spec fn view(&self) -> UserView {
        UserView {
            id: self.id,
            hand: self.hand@,
            acquired: self.acquired_card@,
            vp: self.vp,
            tokens: self.token_stack,
        }
    }
}

impl User {
    /// A player with no cards, no points and no tokens.
    pub fn new(id: u8) -> (user: User)
        ensures
            user@.id == id,
            user@.hand == Seq::<Card>::empty(),
            user@.acquired == Seq::<Card>::empty(),
            user@.vp == 0,
            forall|c: Color| user@.tokens.count(c) == 0,
            user@.tokens.total() == 0,
    {
        User {
            id,
            vp: 0,
            hand: Vec::new(),
            acquired_card: Vec::new(),
            token_stack: TokenStack::new(),
            rng: rand::thread_rng(),
        }
    }

    /// Picks one of the moves at random. The player stays as it was.
    pub fn read(&mut self) -> (command: GameCommand)
        ensures
            final(self)@ == old(self)@,
            numbered(command),
    {
        let random_value = random_u8(&mut self.rng) % NUMBER_OF_COMMANDS;
        let command = to_command(random_value);
        assert(command == command_of(random_value as int));
        command
    }

    pub fn get_id(&self) -> (id: u8)
        ensures
            id == self@.id,
    {
        self.id
    }

    pub fn get_vp(&self) -> (vp: u8)
        ensures
            vp == self@.vp,
    {
        self.vp
    }

    /// Credits victory points.
    pub fn add_vp(&mut self, point: u8)
        requires
            old(self)@.vp + point <= u8::MAX,
        ensures
            final(self)@ == (UserView { vp: (old(self)@.vp + point) as u8, ..old(self)@ }),
    {
        self.vp += point;
    }

    pub fn get_number_of_tokens(&self, color: Color) -> (n: u8)
        ensures
            n == self@.tokens.count(color),
    {
        self.token_stack.len(color)
    }

    pub fn get_number_of_hands(&self) -> (n: u8)
        requires
            self@.wf(),
        ensures
            n == self@.hand.len(),
    {
        self.hand.len() as u8
    }

    /// Puts a reserved card into the hand.
    pub fn add_to_hands(&mut self, card: Card)
        requires
            old(self)@.hand.len() < MAX_NUMBER_OF_HANDS,
        ensures
            final(self)@ == (UserView { hand: old(self)@.hand.push(card), ..old(self)@ }),
    {
        self.hand.push(card);
    }

    /// Adds a card to the acquired cards and credits its victory points.
    pub fn obtain(&mut self, card: Card)
        requires
            old(self)@.vp + card.point <= u8::MAX,
        ensures
            final(self)@ == (UserView {
                vp: (old(self)@.vp + card.point) as u8,
                acquired: old(self)@.acquired.push(card),
                ..old(self)@
            }),
    {
        self.vp += card.get_point();
        self.acquired_card.push(card);
    }

    /// Whether the hand is full.
    pub fn is_over_capacity_of_hand(&self) -> (full: bool)
        ensures
            full == (self@.hand.len() >= MAX_NUMBER_OF_HANDS),
    {
        self.hand.len() >= MAX_NUMBER_OF_HANDS
    }

    /// Whether the player may take another token: fewer than
    /// `MAX_NUMBER_OF_HELD_TOKENS` are held.
    pub fn can_get_token(&self) -> (allowed: bool)
        ensures
            allowed == (self@.tokens.total() < MAX_NUMBER_OF_HELD_TOKENS),
    {
        self.token_stack.len_all() < MAX_NUMBER_OF_HELD_TOKENS
    }

    /// Hands the player a token.
    pub fn add_token(&mut self, token: Token)
        requires
            old(self)@.tokens.count(token.color) < u8::MAX,
        ensures
            final(self)@ == (UserView {
                tokens: old(self)@.tokens.with_added(token.color),
                ..old(self)@
            }),
            final(self)@.tokens.count(token.color) == old(self)@.tokens.count(token.color) + 1,
            forall|c: Color|
                c != token.color ==> final(self)@.tokens.count(c) == old(self)@.tokens.count(c),
    {
        self.token_stack.add(token);
    }

    /// Takes a token of `color` from the player, if one is held.
    pub fn remove_token(&mut self, color: Color)
        ensures
            final(self)@ == (UserView {
                tokens: old(self)@.tokens.with_removed(color),
                ..old(self)@
            }),
            old(self)@.tokens.count(color) == 0 ==> final(self)@ == old(self)@,
            old(self)@.tokens.count(color) > 0 ==> final(self)@.tokens.count(color) == old(
                self,
            )@.tokens.count(color) - 1,
            forall|c: Color|
                c != color ==> final(self)@.tokens.count(c) == old(self)@.tokens.count(c),
    {
        self.token_stack.remove(color);
    }

    pub fn get_acquired_cards(&self) -> (cards: &Vec<Card>)
        ensures
            cards@ == self@.acquired,
    {
        &self.acquired_card
    }

    /// The reserved card at place `order` of the hand, if there is one.
    pub fn peek_card_in_hands(&self, order: u8) -> (card: Option<&Card>)
        ensures
            order < self@.hand.len() ==> card == Some(&self@.hand[order as int]),
            order >= self@.hand.len() ==> card.is_none(),
    {
        if (order as usize) < self.hand.len() {
            Some(&self.hand[order as usize])
        } else {
            None
        }
    }

    /// A copy of the reserved card at place `order` of the hand.
    pub fn uget_card_in_hands(&mut self, order: u8) -> (card: Card)
        requires
            order < old(self)@.hand.len(),
        ensures
            card == old(self)@.hand[order as int],
            final(self)@ == old(self)@,
    {
        self.hand[order as usize]
    }

    /// Takes the reserved card at place `order` out of the hand.
    pub fn remove_card_in_hands(&mut self, order: u8)
        requires
            order < old(self)@.hand.len(),
        ensures
            final(self)@ == (UserView { hand: old(self)@.hand.remove(order as int), ..old(self)@ }),
    {
        self.hand.remove(order as usize);
    }

    /// The bonus of the player in each gem color.
    pub fn get_jewelries(&self) -> (jewelries: JewelryBox)
        ensures
            forall|c: Color| c.is_gem() ==> #[trigger] jewelries.amount(c) == self@.bonus(c),
    {
        let mut jewelries = JewelryBox::new();
        let mut i: usize = 0;
        while i < self.acquired_card.len()
            invariant
                i <= self.acquired_card.len(),
                forall|c: Color|
                    c.is_gem() ==> #[trigger] jewelries.amount(c) == bonus_of(
                        self.acquired_card@.take(i as int),
                        c,
                    ),
            decreases self.acquired_card.len() - i,
        {
            let color = self.acquired_card[i].get_color();
            proof {
                let cards = self.acquired_card@;
                assert(cards.take(i + 1).drop_last() =~= cards.take(i as int));
                assert(cards.take(i + 1).last() == cards[i as int]);
                lemma_bonus_bound(cards.take(i as int), color);
            }
            if color != Color::Gold {
                jewelries.add_jewelry(color, 1);
            }
            i += 1;
        }
        assert(self.acquired_card@.take(i as int) =~= self.acquired_card@);
        jewelries
    }

    /// Takes from the player what one gem color of a price asks for: of a
    /// cost of `cost`, a bonus of `user_jewelries` is taken off; of the rest,
    /// as much as `user_tokens` reaches is taken in tokens of `color`, and
    /// what is still open in gold tokens. Nothing is taken where the player
    /// does not hold all of that.
    pub fn pay_each_tokens(
        &mut self,
        cost: u8,
        user_tokens: u8,
        user_jewelries: u64,
        color: Color,
    ) -> (paid: Result<Vec<Token>, CountMismatch>)
        ensures
            final(self)@ == (UserView { tokens: final(self)@.tokens, ..old(self)@ }),
            ({
                let rest = cost_after_bonus(cost as nat, user_jewelries as nat);
                let in_color = least(user_tokens as nat, rest);
                let in_gold = (rest - in_color) as nat;
                let held = old(self)@.tokens.count(color);
                let gold = old(self)@.tokens.count(Color::Gold);
                if color == Color::Gold && gold < rest {
                    paid == Err::<Vec<Token>, CountMismatch>(
                        CountMismatch {
                            color: Color::Gold,
                            requested: rest as u16,
                            available: gold as u16,
                        },
                    ) && final(self)@ == old(self)@
                } else if color != Color::Gold && held < in_color {
                    paid == Err::<Vec<Token>, CountMismatch>(
                        CountMismatch { color, requested: in_color as u16, available: held as u16 },
                    ) && final(self)@ == old(self)@
                } else if color != Color::Gold && gold < in_gold {
                    paid == Err::<Vec<Token>, CountMismatch>(
                        CountMismatch {
                            color: Color::Gold,
                            requested: in_gold as u16,
                            available: gold as u16,
                        },
                    ) && final(self)@ == old(self)@
                } else {
                    &&& paid.is_ok()
                    &&& paid.unwrap()@ == run(color, in_color) + run(Color::Gold, in_gold)
                    &&& forall|c: Color|
                        final(self)@.tokens.count(c) + count_in(paid.unwrap()@, c) == old(
                            self,
                        )@.tokens.count(c)
                }
            }),
    {
        let rest: u8 = if user_jewelries >= cost as u64 {
            0
        } else {
            cost - user_jewelries as u8
        };
        let in_color: u8 = if user_tokens <= rest {
            user_tokens
        } else {
            rest
        };
        let in_gold: u8 = rest - in_color;
        let held = self.token_stack.len(color);
        let gold = self.token_stack.len(Color::Gold);
        if color == Color::Gold {
            if gold < rest {
                return Err(
                    CountMismatch {
                        color: Color::Gold,
                        requested: rest as u16,
                        available: gold as u16,
                    },
                );
            }
        } else if held < in_color {
            return Err(CountMismatch { color, requested: in_color as u16, available: held as u16 });
        } else if gold < in_gold {
            return Err(
                CountMismatch {
                    color: Color::Gold,
                    requested: in_gold as u16,
                    available: gold as u16,
                },
            );
        }
        let mut paid_tokens = self.token_stack.removen(color, in_color)?;
        let mut gold_tokens = self.token_stack.removen(Color::Gold, in_gold)?;
        paid_tokens.append(&mut gold_tokens);
        proof {
            assert forall|c: Color|
                self@.tokens.count(c) + count_in(paid_tokens@, c) == old(self)@.tokens.count(
                    c,
                ) by {
                lemma_count_in_concat(
                    run(color, in_color as nat),
                    run(Color::Gold, in_gold as nat),
                    c,
                );
                lemma_count_in_run(in_color as nat, color, c);
                lemma_count_in_run(in_gold as nat, Color::Gold, c);
            }
        }
        Ok(paid_tokens)
    }

    /// Pays for a card: for each gem color, what the bonus does not cover
    /// goes to the bank in tokens of that color as far as the player holds
    /// them, and in gold tokens beyond that. Nothing moves where the player
    /// cannot pay for the whole card.
    pub fn pay(&mut self, card: &Card, board_token_stack: &mut TokenStack) -> (paid: Result<
        (),
        CountMismatch,
    >)
        requires
            forall|c: Color|
                old(board_token_stack).count(c) + old(self)@.tokens.count(c) <= u8::MAX,
        ensures
            paid.is_ok() == old(self)@.can_afford(*card),
            final(self)@ == (UserView { tokens: final(self)@.tokens, ..old(self)@ }),
            paid.is_ok() ==> forall|c: Color|
                #![trigger final(self)@.tokens.count(c)]
                #![trigger final(board_token_stack).count(c)]
                final(self)@.tokens.count(c) == old(self)@.tokens.count(c) - old(self)@.payment(
                    *card,
                    c,
                ) && final(board_token_stack).count(c) == old(board_token_stack).count(c) + old(
                    self,
                )@.payment(*card, c),
            paid.is_err() ==> final(self)@ == old(self)@ && *final(board_token_stack) == *old(
                board_token_stack,
            ) && paid == Err::<(), CountMismatch>(
                CountMismatch {
                    color: Color::Gold,
                    requested: old(self)@.gold_needed(*card) as u16,
                    available: old(self)@.tokens.count(Color::Gold) as u16,
                },
            ),
    {
        let jewelries = self.get_jewelries();
        let gold = self.token_stack.len(Color::Gold);
        let needed = self.gold_for(card, &jewelries);
        if needed > gold as u16 {
            return Err(
                CountMismatch { color: Color::Gold, requested: needed, available: gold as u16 },
            );
        }
        let ghost before = self@;
        self.pay_color(card, &jewelries, Color::Black, board_token_stack)?;
        assert(self@.gold_payment(*card, Color::White) == before.gold_payment(*card, Color::White));
        assert(self@.token_payment(*card, Color::White) == before.token_payment(
            *card,
            Color::White,
        ));
        self.pay_color(card, &jewelries, Color::White, board_token_stack)?;
        assert(self@.gold_payment(*card, Color::Red) == before.gold_payment(*card, Color::Red));
        assert(self@.token_payment(*card, Color::Red) == before.token_payment(*card, Color::Red));
        self.pay_color(card, &jewelries, Color::Red, board_token_stack)?;
        assert(self@.gold_payment(*card, Color::Blue) == before.gold_payment(*card, Color::Blue));
        assert(self@.token_payment(*card, Color::Blue) == before.token_payment(*card, Color::Blue));
        self.pay_color(card, &jewelries, Color::Blue, board_token_stack)?;
        assert(self@.gold_payment(*card, Color::Green) == before.gold_payment(*card, Color::Green));
        assert(self@.token_payment(*card, Color::Green) == before.token_payment(
            *card,
            Color::Green,
        ));
        self.pay_color(card, &jewelries, Color::Green, board_token_stack)?;
        Ok(())
    }

    /// How many gold tokens the player needs for a card in all.
    fn gold_for(&self, card: &Card, jewelries: &JewelryBox) -> (needed: u16)
        requires
            forall|c: Color| c.is_gem() ==> #[trigger] jewelries.amount(c) == self@.bonus(c),
        ensures
            needed == self@.gold_needed(*card),
    {
        let mut needed: u16 = 0;
        needed += self.gold_for_color(card, jewelries, Color::Black) as u16;
        needed += self.gold_for_color(card, jewelries, Color::White) as u16;
        needed += self.gold_for_color(card, jewelries, Color::Red) as u16;
        needed += self.gold_for_color(card, jewelries, Color::Blue) as u16;
        needed += self.gold_for_color(card, jewelries, Color::Green) as u16;
        needed
    }

    fn gold_for_color(&self, card: &Card, jewelries: &JewelryBox, color: Color) -> (needed: u8)
        requires
            color.is_gem(),
            jewelries.amount(color) == self@.bonus(color),
        ensures
            needed == self@.gold_payment(*card, color),
    {
        let cost = card.get_cost(color);
        let bonus = jewelries.get_jewelry(color);
        let held = self.token_stack.len(color);
        let rest: u8 = if bonus >= cost as u64 {
            0
        } else {
            cost - bonus as u8
        };
        if held >= rest {
            0
        } else {
            rest - held
        }
    }

    /// Pays one gem color of a card's price into the bank.
    fn pay_color(
        &mut self,
        card: &Card,
        jewelries: &JewelryBox,
        color: Color,
        bank: &mut TokenStack,
    ) -> (paid: Result<(), CountMismatch>)
        requires
            color.is_gem(),
            jewelries.amount(color) == old(self)@.bonus(color),
            old(self)@.gold_payment(*card, color) <= old(self)@.tokens.count(Color::Gold),
            forall|c: Color| old(bank).count(c) + old(self)@.tokens.count(c) <= u8::MAX,
        ensures
            paid.is_ok(),
            final(self)@ == (UserView { tokens: final(self)@.tokens, ..old(self)@ }),
            final(self)@.tokens.count(color) == old(self)@.tokens.count(color) - old(
                self,
            )@.token_payment(*card, color),
            final(bank).count(color) == old(bank).count(color) + old(self)@.token_payment(
                *card,
                color,
            ),
            final(self)@.tokens.count(Color::Gold) == old(self)@.tokens.count(Color::Gold) - old(
                self,
            )@.gold_payment(*card, color),
            final(bank).count(Color::Gold) == old(bank).count(Color::Gold) + old(
                self,
            )@.gold_payment(*card, color),
            forall|c: Color|
                c != color && c != Color::Gold ==> #[trigger] final(self)@.tokens.count(c) == old(
                    self,
                )@.tokens.count(c),
            forall|c: Color|
                c != color && c != Color::Gold ==> #[trigger] final(bank).count(c) == old(
                    bank,
                ).count(c),
    {
        let cost = card.get_cost(color);
        let number_of_token = self.get_number_of_tokens(color);
        let jewelry = jewelries.get_jewelry(color);
        let paid_tokens = self.pay_each_tokens(cost, number_of_token, jewelry, color)?;
        proof {
            let in_color = old(self)@.token_payment(*card, color);
            let in_gold = old(self)@.gold_payment(*card, color);
            assert(paid_tokens@ == run(color, in_color) + run(Color::Gold, in_gold));
            assert forall|c: Color|
                count_in(paid_tokens@, c) == (if c == color {
                    in_color
                } else if c == Color::Gold {
                    in_gold
                } else {
                    0
                }) by {
                lemma_count_in_concat(run(color, in_color), run(Color::Gold, in_gold), c);
                lemma_count_in_run(in_color, color, c);
                lemma_count_in_run(in_gold, Color::Gold, c);
            }
        }
        bank.addn(paid_tokens);
        Ok(())
    }
}

impl Clone for User {
    /// A player of its own with the same cards, points and tokens.
    fn clone(&self) -> (copy: User)
        ensures
            copy@ == self@,
    {
        User {
            id: self.id,
            hand: self.hand.clone(),
            acquired_card: self.acquired_card.clone(),
            vp: self.vp,
            token_stack: self.token_stack,
            rng: rand::thread_rng(),
        }
    }
}

} // verus!
