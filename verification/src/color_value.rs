use vstd::prelude::*;
use crate::color::Color;

verus! {

/// The largest unit in which values may be counted.
pub const UNIT_LIMIT: i128 = 0x4000_0000_0000_0000;

/// The largest size of a value, counted in units.
pub const VALUE_LIMIT: i128 = 0x0100_0000_0000_0000_0000_0000_0000_0000;

/// How much a token of each color is worth to a player, as exact
/// fractions: the worth of a color is `value(color) / unit_spec()` victory
/// points. All six colors share the unit.
#[derive(Clone, Copy, PartialEq, Eq, Structural, Debug)]
pub struct ColorValue {
    black: i128,
    white: i128,
    red: i128,
    blue: i128,
    green: i128,
    gold: i128,
    unit: i128,
}

/// The greater of two numbers.
pub open spec fn greater(a: int, b: int) -> int {
    if a >= b {
        a
    } else {
        b
    }
}

impl ColorValue {
    /// The worth of a color, counted in units.
    pub closed spec fn value(self, color: Color) -> int {
        match color {
            Color::Black => self.black as int,
            Color::White => self.white as int,
            Color::Red => self.red as int,
            Color::Blue => self.blue as int,
            Color::Green => self.green as int,
            Color::Gold => self.gold as int,
        }
    }

    /// How many units make one victory point.
    pub closed spec fn unit_spec(self) -> int {
        self.unit as int
    }

    /// The unit is positive, and unit and values are small enough to add up
    /// a few of them.
    pub open spec fn wf(self) -> bool {
        &&& 0 < self.unit_spec() <= UNIT_LIMIT
        &&& forall|c: Color| -VALUE_LIMIT <= #[trigger] self.value(c) <= VALUE_LIMIT
    }

    /// The greatest worth among the five gem colors.
    pub open spec fn greatest_gem_value(self) -> int {
        greater(
            self.value(Color::Black),
            greater(
                self.value(Color::White),
                greater(
                    self.value(Color::Red),
                    greater(self.value(Color::Blue), self.value(Color::Green)),
                ),
            ),
        )
    }

    /// Every color is worth nothing; the unit is one.
    pub fn new() -> (color_value: ColorValue)
        ensures
            color_value.wf(),
            color_value.unit_spec() == 1,
            forall|c: Color| color_value.value(c) == 0,
    {
        ColorValue { black: 0, white: 0, red: 0, blue: 0, green: 0, gold: 0, unit: 1 }
    }

    /// Every color is worth nothing; the unit is as given.
    pub fn with_unit(unit: i128) -> (color_value: ColorValue)
        requires
            0 < unit <= UNIT_LIMIT,
        ensures
            color_value.wf(),
            color_value.unit_spec() == unit,
            forall|c: Color| color_value.value(c) == 0,
    {
        ColorValue { black: 0, white: 0, red: 0, blue: 0, green: 0, gold: 0, unit }
    }

    /// How many units make one victory point.
    pub fn unit(&self) -> (unit: i128)
        ensures
            unit == self.unit_spec(),
    {
        self.unit
    }

    pub fn get(&self, color: Color) -> (value: i128)
        ensures
            value == self.value(color),
    {
        self._get(color)
    }

    /// Sets the worth of one color, counted in units.
    pub fn set(&mut self, color: Color, value: i128)
        requires
            -VALUE_LIMIT <= value <= VALUE_LIMIT,
        ensures
            final(self).value(color) == value,
            final(self).unit_spec() == old(self).unit_spec(),
            forall|c: Color| c != color ==> final(self).value(c) == old(self).value(c),
            old(self).wf() ==> final(self).wf(),
    {
        match color {
            Color::Black => self.black = value,
            Color::White => self.white = value,
            Color::Red => self.red = value,
            Color::Blue => self.blue = value,
            Color::Green => self.green = value,
            Color::Gold => self.gold = value,
        }
        proof {
            if old(self).wf() {
                assert forall|c: Color| -VALUE_LIMIT <= #[trigger] self.value(c) <= VALUE_LIMIT by {
                    assert(-VALUE_LIMIT <= old(self).value(c) <= VALUE_LIMIT);
                }
            }
        }
    }

    /// Makes gold worth as much as the gem color that is worth most.
    pub fn set_gold_value(&mut self)
        requires
            old(self).wf(),
        ensures
            final(self).wf(),
            final(self).value(Color::Gold) == old(self).greatest_gem_value(),
            final(self).unit_spec() == old(self).unit_spec(),
            forall|c: Color| c != Color::Gold ==> final(self).value(c) == old(self).value(c),
    {
        let mut max = self._get(Color::Black);
        let white = self._get(Color::White);
        if max <= white {
            max = white;
        }
        let red = self._get(Color::Red);
        if max <= red {
            max = red;
        }
        let blue = self._get(Color::Blue);
        if max <= blue {
            max = blue;
        }
        let green = self._get(Color::Green);
        if max <= green {
            max = green;
        }
        assert(-VALUE_LIMIT <= self.value(Color::Black) <= VALUE_LIMIT);
        assert(-VALUE_LIMIT <= self.value(Color::White) <= VALUE_LIMIT);
        assert(-VALUE_LIMIT <= self.value(Color::Red) <= VALUE_LIMIT);
        assert(-VALUE_LIMIT <= self.value(Color::Blue) <= VALUE_LIMIT);
        assert(-VALUE_LIMIT <= self.value(Color::Green) <= VALUE_LIMIT);
        self.set(Color::Gold, max);
    }

    fn _get(&self, color: Color) -> (value: i128)
        ensures
            value == self.value(color),
    {
        match color {
            Color::Black => self.black,
            Color::White => self.white,
            Color::Red => self.red,
            Color::Blue => self.blue,
            Color::Green => self.green,
            Color::Gold => self.gold,
        }
    }
}

} // verus!
