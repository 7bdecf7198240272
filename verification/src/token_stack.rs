use vstd::prelude::*;
use crate::color::Color;

verus! {

/// How many tokens of each color a fresh bank holds.
pub const MAX_NUMBER_OF_TOKEN: u8 = 5;

/// One token of a given color.
#[derive(Clone, Copy, PartialEq, Eq, Structural, Debug)]
pub struct Token {
    pub color: Color,
}

impl Token {
    pub fn new(color: Color) -> (token: Token)
        ensures
            token.color == color,
    {
        Token { color }
    }

    pub fn get_color(self) -> (color: Color)
        ensures
            color == self.color,
    {
        self.color
    }

    /// A pile of `MAX_NUMBER_OF_TOKEN` tokens of one color.
    pub fn create_stack(color: Color) -> (stack: Vec<Token>)
        ensures
            stack@ == run(color, MAX_NUMBER_OF_TOKEN as nat),
    {
        let mut stack: Vec<Token> = Vec::new();
        let mut i: u8 = 0;
        while i < MAX_NUMBER_OF_TOKEN
            invariant
                i <= MAX_NUMBER_OF_TOKEN,
                stack@ == run(color, i as nat),
            decreases MAX_NUMBER_OF_TOKEN - i,
        {
            stack.push(Token { color });
            i += 1;
            assert(stack@ =~= run(color, i as nat));
        }
        stack
    }
}

/// A run of `n` tokens of one color.
pub open spec fn run(color: Color, n: nat) -> Seq<Token> {
    Seq::new(n, |i: int| Token { color })
}

/// Number of tokens of `color` among `tokens`.
pub open spec fn count_in(tokens: Seq<Token>, color: Color) -> nat
    decreases tokens.len(),
{
    if tokens.len() == 0 {
        0
    } else {
        count_in(tokens.drop_last(), color) + if tokens.last().color == color {
            1nat
        } else {
            0nat
        }
    }
}

/// Removing more tokens of a color than a stack holds; the stack is left as
/// it was.
#[derive(Clone, Copy, PartialEq, Eq, Structural, Debug)]
pub struct CountMismatch {
    pub color: Color,
    pub requested: u16,
    pub available: u16,
}

/// A count of tokens per color: the bank of a board, or what a player holds.
#[derive(Clone, Copy, PartialEq, Eq, Structural, Debug)]
pub struct TokenStack {
    black: u8,
    white: u8,
    red: u8,
    blue: u8,
    green: u8,
    gold: u8,
}

impl TokenStack {
    /// The number of tokens of `color` in the stack.
    pub closed spec fn count(self, color: Color) -> nat {
        match color {
            Color::Black => self.black as nat,
            Color::White => self.white as nat,
            Color::Red => self.red as nat,
            Color::Blue => self.blue as nat,
            Color::Green => self.green as nat,
            Color::Gold => self.gold as nat,
        }
    }

    /// The number of tokens of all six colors together.
    pub closed spec fn total(self) -> nat {
        self.count(Color::Black) + self.count(Color::White) + self.count(Color::Red)
            + self.count(Color::Blue) + self.count(Color::Green) + self.count(Color::Gold)
    }

    /// The total is the sum of the six counts.
    pub proof fn lemma_total(self)
        ensures
            self.total() == self.count(Color::Black) + self.count(Color::White) + self.count(
                Color::Red,
            ) + self.count(Color::Blue) + self.count(Color::Green) + self.count(Color::Gold),
    {
    }

    /// The stack with one more token of `color`; a count that is full stays.
    pub closed spec fn with_added(self, color: Color) -> TokenStack {
        if self.count(color) >= u8::MAX {
            self
        } else {
            match color {
                Color::Black => TokenStack { black: (self.black + 1) as u8, ..self },
                Color::White => TokenStack { white: (self.white + 1) as u8, ..self },
                Color::Red => TokenStack { red: (self.red + 1) as u8, ..self },
                Color::Blue => TokenStack { blue: (self.blue + 1) as u8, ..self },
                Color::Green => TokenStack { green: (self.green + 1) as u8, ..self },
                Color::Gold => TokenStack { gold: (self.gold + 1) as u8, ..self },
            }
        }
    }

    /// The stack with one token of `color` less; an empty count stays.
    pub closed spec fn with_removed(self, color: Color) -> TokenStack {
        if self.count(color) == 0 {
            self
        } else {
            match color {
                Color::Black => TokenStack { black: (self.black - 1) as u8, ..self },
                Color::White => TokenStack { white: (self.white - 1) as u8, ..self },
                Color::Red => TokenStack { red: (self.red - 1) as u8, ..self },
                Color::Blue => TokenStack { blue: (self.blue - 1) as u8, ..self },
                Color::Green => TokenStack { green: (self.green - 1) as u8, ..self },
                Color::Gold => TokenStack { gold: (self.gold - 1) as u8, ..self },
            }
        }
    }

    /// What `with_added` does to the count of each color and to the total.
    pub proof fn lemma_with_added(self, color: Color, c: Color)
        ensures
            self.with_added(color).count(c) == self.count(c) + (if c == color && self.count(color)
                < u8::MAX {
                1nat
            } else {
                0nat
            }),
            self.with_added(color).total() == self.total() + (if self.count(color) < u8::MAX {
                1nat
            } else {
                0nat
            }),
    {
    }

    /// What `with_removed` does to the count of each color and to the total.
    pub proof fn lemma_with_removed(self, color: Color, c: Color)
        ensures
            self.with_removed(color).count(c) == self.count(c) - (if c == color && self.count(color)
                > 0 {
                1nat
            } else {
                0nat
            }),
            self.with_removed(color).total() == self.total() - (if self.count(color) > 0 {
                1nat
            } else {
                0nat
            }),
    {
    }

    /// Two stacks with the same count of every color are the same stack.
    pub proof fn lemma_equal_by_counts(self, other: TokenStack)
        requires
            forall|c: Color| self.count(c) == other.count(c),
        ensures
            self == other,
    {
        assert(self.count(Color::Black) == other.count(Color::Black));
        assert(self.count(Color::White) == other.count(Color::White));
        assert(self.count(Color::Red) == other.count(Color::Red));
        assert(self.count(Color::Blue) == other.count(Color::Blue));
        assert(self.count(Color::Green) == other.count(Color::Green));
        assert(self.count(Color::Gold) == other.count(Color::Gold));
    }

    /// The empty stack.
    pub fn new() -> (stack: TokenStack)
        ensures
            forall|c: Color| stack.count(c) == 0,
            stack.total() == 0,
    {
        TokenStack { black: 0, white: 0, red: 0, blue: 0, green: 0, gold: 0 }
    }

    /// The stack of a fresh bank: `MAX_NUMBER_OF_TOKEN` of every color,
    /// whatever `self` held.
    pub fn fill(self) -> (stack: TokenStack)
        ensures
            forall|c: Color| stack.count(c) == MAX_NUMBER_OF_TOKEN,
            stack.total() == 6 * MAX_NUMBER_OF_TOKEN,
    {
        TokenStack {
            black: MAX_NUMBER_OF_TOKEN,
            white: MAX_NUMBER_OF_TOKEN,
            red: MAX_NUMBER_OF_TOKEN,
            blue: MAX_NUMBER_OF_TOKEN,
            green: MAX_NUMBER_OF_TOKEN,
            gold: MAX_NUMBER_OF_TOKEN,
        }
    }

    /// A pile of `MAX_NUMBER_OF_TOKEN` tokens of one color.
    pub fn create_stack(color: Color) -> (stack: Vec<Token>)
        ensures
            stack@ == run(color, MAX_NUMBER_OF_TOKEN as nat),
    {
        Token::create_stack(color)
    }

    pub fn len(&self, color: Color) -> (n: u8)
        ensures
            n == self.count(color),
    {
        match color {
            Color::Black => self.black,
            Color::White => self.white,
            Color::Red => self.red,
            Color::Blue => self.blue,
            Color::Green => self.green,
            Color::Gold => self.gold,
        }
    }

    pub fn len_all(&self) -> (n: u16)
        ensures
            n == self.total(),
    {
        let mut sum: u16 = self.black as u16;
        sum += self.white as u16;
        sum += self.red as u16;
        sum += self.blue as u16;
        sum += self.green as u16;
        sum += self.gold as u16;
        sum
    }

    /// Puts one token on the stack.
    pub fn add(&mut self, token: Token)
        requires
            old(self).count(token.color) < u8::MAX,
        ensures
            *final(self) == old(self).with_added(token.color),
            final(self).count(token.color) == old(self).count(token.color) + 1,
            forall|c: Color| c != token.color ==> final(self).count(c) == old(self).count(c),
    {
        match token.color {
            Color::Black => self.black += 1,
            Color::White => self.white += 1,
            Color::Red => self.red += 1,
            Color::Blue => self.blue += 1,
            Color::Green => self.green += 1,
            Color::Gold => self.gold += 1,
        }
    }

    /// Takes one token of `color` off the stack, if there is one.
    pub fn remove(&mut self, color: Color) -> (token: Option<Token>)
        ensures
            *final(self) == old(self).with_removed(color),
            old(self).count(color) == 0 ==> token.is_none() && *final(self) == *old(self),
            old(self).count(color) > 0 ==> token == Some(Token { color })
                && final(self).count(color) == old(self).count(color) - 1,
            forall|c: Color| c != color ==> final(self).count(c) == old(self).count(c),
    {
        if self.len(color) == 0 {
            None
        } else {
            match color {
                Color::Black => self.black -= 1,
                Color::White => self.white -= 1,
                Color::Red => self.red -= 1,
                Color::Blue => self.blue -= 1,
                Color::Green => self.green -= 1,
                Color::Gold => self.gold -= 1,
            }
            Some(Token { color })
        }
    }

    /// Puts every token of `tokens` on the stack.
    pub fn addn(&mut self, tokens: Vec<Token>)
        requires
            forall|c: Color| old(self).count(c) + count_in(tokens@, c) <= u8::MAX,
        ensures
            forall|c: Color| final(self).count(c) == old(self).count(c) + count_in(tokens@, c),
    {
        let mut i: usize = 0;
        while i < tokens.len()
            invariant
                i <= tokens.len(),
                forall|c: Color| old(self).count(c) + count_in(tokens@, c) <= u8::MAX,
                forall|c: Color|
                    self.count(c) == old(self).count(c) + count_in(tokens@.take(i as int), c),
            decreases tokens.len() - i,
        {
            let token = tokens[i];
            proof {
                assert(tokens@.take(i + 1).drop_last() =~= tokens@.take(i as int));
                assert(tokens@.take(i + 1).last() == token);
                lemma_count_in_prefix(tokens@, (i + 1) as int, token.color);
            }
            self.add(token);
            i += 1;
        }
        assert(tokens@.take(i as int) =~= tokens@);
    }

    /// Takes `n` tokens of `color` off the stack, or none at all where the
    /// stack holds fewer.
    pub fn removen(&mut self, color: Color, n: u8) -> (taken: Result<Vec<Token>, CountMismatch>)
        ensures
            old(self).count(color) >= n ==> taken.is_ok()
                && taken.unwrap()@ == run(color, n as nat)
                && final(self).count(color) == old(self).count(color) - n,
            old(self).count(color) < n ==> taken == Err::<Vec<Token>, CountMismatch>(
                CountMismatch {
                    color,
                    requested: n as u16,
                    available: old(self).count(color) as u16,
                },
            ) && *final(self) == *old(self),
            forall|c: Color| c != color ==> final(self).count(c) == old(self).count(c),
    {
        let available = self.len(color);
        if available < n {
            return Err(CountMismatch { color, requested: n as u16, available: available as u16 });
        }
        let mut result: Vec<Token> = Vec::new();
        let mut i: u8 = 0;
        while i < n
            invariant
                i <= n,
                result@ == run(color, i as nat),
                self.count(color) == old(self).count(color) - i,
                old(self).count(color) >= n,
                forall|c: Color| c != color ==> self.count(c) == old(self).count(c),
            decreases n - i,
        {
            let token = self.remove(color);
            result.push(token.unwrap());
            i += 1;
            assert(result@ =~= run(color, i as nat));
        }
        Ok(result)
    }
}

/// The count of a color in a prefix never exceeds the count in the whole.
pub proof fn lemma_count_in_prefix(tokens: Seq<Token>, k: int, color: Color)
    requires
        0 <= k <= tokens.len(),
    ensures
        count_in(tokens.take(k), color) <= count_in(tokens, color),
    decreases tokens.len(),
{
    if k < tokens.len() {
        lemma_count_in_prefix(tokens.drop_last(), k, color);
        assert(tokens.drop_last().take(k) =~= tokens.take(k));
    } else {
        assert(tokens.take(k) =~= tokens);
    }
}

/// A run of `n` tokens of one color counts `n` of that color and none of
/// any other.
pub proof fn lemma_count_in_run(n: nat, of: Color, color: Color)
    ensures
        count_in(run(of, n), color) == if of == color {
            n
        } else {
            0
        },
    decreases n,
{
    let whole = run(of, n);
    if n > 0 {
        lemma_count_in_run((n - 1) as nat, of, color);
        assert(whole.drop_last() =~= run(of, (n - 1) as nat));
    }
}

/// Counting over a concatenation adds the counts of the two parts.
pub proof fn lemma_count_in_concat(a: Seq<Token>, b: Seq<Token>, color: Color)
    ensures
        count_in(a + b, color) == count_in(a, color) + count_in(b, color),
    decreases b.len(),
{
    if b.len() == 0 {
        assert(a + b =~= a);
    } else {
        lemma_count_in_concat(a, b.drop_last(), color);
        assert((a + b).drop_last() =~= a + b.drop_last());
    }
}

} // verus!
