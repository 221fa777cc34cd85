//! The colours a liquid can have, and how each one is shown.

use vstd::prelude::*;

verus! {

/// The colour of one unit of liquid.
#[derive(Debug, PartialEq, Eq, Clone, Copy, Hash, Structural)]
pub enum LiquidColors {
    Red,
    Green,
    Blue,
    Pink,
    BabyBlue,
    Yellow,
}

/// A shade of the terminal palette, as far as liquids are drawn in it.
#[derive(Debug, PartialEq, Eq, Clone, Copy, Hash, Structural)]
pub enum TerminalColor {
    LightRed,
    LightGreen,
    Blue,
    LightMagenta,
    LightBlue,
    Yellow,
}

/// How many colours there are.
pub const COLOR_COUNT: u8 = 6;

impl LiquidColors {
    /// The position of the colour in the declaration order, from 0.
    pub open spec fn spec_index(self) -> u8 {
        match self {
            LiquidColors::Red => 0,
            LiquidColors::Green => 1,
            LiquidColors::Blue => 2,
            LiquidColors::Pink => 3,
            LiquidColors::BabyBlue => 4,
            LiquidColors::Yellow => 5,
        }
    }

    /// The shade in which the colour is drawn.
    pub open spec fn spec_to_color(self) -> TerminalColor {
        match self {
            LiquidColors::Red => TerminalColor::LightRed,
            LiquidColors::Green => TerminalColor::LightGreen,
            LiquidColors::Blue => TerminalColor::Blue,
            LiquidColors::Pink => TerminalColor::LightMagenta,
            LiquidColors::BabyBlue => TerminalColor::LightBlue,
            LiquidColors::Yellow => TerminalColor::Yellow,
        }
    }

    /// The colour's name, as it is written out.
    pub open spec fn spec_name(self) -> Seq<char> {
        match self {
            LiquidColors::Red => "Red"@,
            LiquidColors::Green => "Green"@,
            LiquidColors::Blue => "Blue"@,
            LiquidColors::Pink => "Pink"@,
            LiquidColors::BabyBlue => "BabyBlue"@,
            LiquidColors::Yellow => "Yellow"@,
        }
    }

    /// A small integer that stands for the colour, distinct for each one and
    /// below [`COLOR_COUNT`].
    pub fn index(&self) -> (i: u8)
        ensures
            i == self.spec_index(),
            i < COLOR_COUNT,
    {
        match self {
            LiquidColors::Red => 0,
            LiquidColors::Green => 1,
            LiquidColors::Blue => 2,
            LiquidColors::Pink => 3,
            LiquidColors::BabyBlue => 4,
            LiquidColors::Yellow => 5,
        }
    }

    /// The shade of the terminal palette in which the colour is drawn.
    pub fn to_color(&self) -> (shade: TerminalColor)
        ensures
            shade == self.spec_to_color(),
    {
        match self {
            LiquidColors::Red => TerminalColor::LightRed,
            LiquidColors::Green => TerminalColor::LightGreen,
            LiquidColors::Blue => TerminalColor::Blue,
            LiquidColors::Pink => TerminalColor::LightMagenta,
            LiquidColors::BabyBlue => TerminalColor::LightBlue,
            LiquidColors::Yellow => TerminalColor::Yellow,
        }
    }

    /// The colour's name.
    pub fn name(&self) -> (text: &'static str)
        ensures
            text@ == self.spec_name(),
    {
        match self {
            LiquidColors::Red => "Red",
            LiquidColors::Green => "Green",
            LiquidColors::Blue => "Blue",
            LiquidColors::Pink => "Pink",
            LiquidColors::BabyBlue => "BabyBlue",
            LiquidColors::Yellow => "Yellow",
        }
    }

    /// Two colours with the same index are the same colour.
    pub proof fn lemma_index_injective(a: LiquidColors, b: LiquidColors)
        requires
            a.spec_index() == b.spec_index(),
        ensures
            a == b,
    {
    }

    /// Two colours drawn in the same shade are the same colour.
    pub proof fn lemma_shade_injective(a: LiquidColors, b: LiquidColors)
        requires
            a.spec_to_color() == b.spec_to_color(),
        ensures
            a == b,
    {
    }
}

} // verus!
