//! A single cell of the grid and the way a cell is drawn.

use vstd::prelude::*;

verus! {

/// Number of distinct base colours in the palette.
pub const PALETTE_SIZE: usize = 10;

/// Number of distinguishable ball styles: every base colour in each theme.
pub const MAX_STYLES: usize = 20;

/// A single cell: free, or holding a token of some colour.
#[derive(Clone, Copy, Debug, PartialEq, Eq, Hash, Structural)]
pub enum Slot {
    Empty,
    Ball(usize),
}

/// The visual variant of a ball.
#[derive(Clone, Copy, Debug, PartialEq, Eq, Structural)]
pub enum BallTheme {
    Plain,
    Hole,
}

/// What a cell is filled with when drawn.
#[derive(Clone, Copy, Debug, PartialEq, Eq, Structural)]
pub enum BallColor {
    /// The neutral colour of a free cell, chosen by the drawing surface.
    Background,
    /// A palette colour as red, green and blue.
    Rgb(u8, u8, u8),
}

/// Colour and theme of one drawn cell.
#[derive(Clone, Copy, Debug, PartialEq, Eq, Structural)]
pub struct BallStyle {
    pub color: BallColor,
    pub theme: BallTheme,
}

/// The palette as a function from position to colour.
pub open spec fn palette_color(index: int) -> BallColor {
    if index == 0 {
        BallColor::Rgb(255, 239, 62)
    } else if index == 1 {
        BallColor::Rgb(255, 160, 197)
    } else if index == 2 {
        BallColor::Rgb(169, 132, 103)
    } else if index == 3 {
        BallColor::Rgb(50, 219, 169)
    } else if index == 4 {
        BallColor::Rgb(255, 166, 0)
    } else if index == 5 {
        BallColor::Rgb(199, 82, 42)
    } else if index == 6 {
        BallColor::Rgb(71, 111, 149)
    } else if index == 7 {
        BallColor::Rgb(255, 211, 128)
    } else if index == 8 {
        BallColor::Rgb(137, 63, 113)
    } else {
        BallColor::Rgb(146, 186, 146)
    }
}

/// The theme that belongs to a variant number: even is plain, odd has a hole.
pub open spec fn theme_of(index: int) -> BallTheme {
    if index % 2 == 0 {
        BallTheme::Plain
    } else {
        BallTheme::Hole
    }
}

/// The style in which a slot is drawn: colours repeat every `PALETTE_SIZE`
/// indices, and each repetition switches the theme.
pub open spec fn style_of(slot: Slot) -> BallStyle {
    match slot {
        Slot::Empty => BallStyle { color: BallColor::Background, theme: BallTheme::Plain },
        Slot::Ball(c) => BallStyle {
            color: palette_color(c as int % PALETTE_SIZE as int),
            theme: theme_of(c as int / PALETTE_SIZE as int),
        },
    }
}

/// Looks up a palette entry.
pub fn palette_entry(index: usize) -> (color: BallColor)
    requires
        index < PALETTE_SIZE,
    ensures
        color == palette_color(index as int),
{
    match index {
        0 => BallColor::Rgb(255, 239, 62),
        1 => BallColor::Rgb(255, 160, 197),
        2 => BallColor::Rgb(169, 132, 103),
        3 => BallColor::Rgb(50, 219, 169),
        4 => BallColor::Rgb(255, 166, 0),
        5 => BallColor::Rgb(199, 82, 42),
        6 => BallColor::Rgb(71, 111, 149),
        7 => BallColor::Rgb(255, 211, 128),
        8 => BallColor::Rgb(137, 63, 113),
        _ => BallColor::Rgb(146, 186, 146),
    }
}

impl BallTheme {
    pub fn from_index(index: usize) -> (theme: Self)
        ensures
            theme == theme_of(index as int),
    {
        if index % 2 == 0 {
            BallTheme::Plain
        } else {
            BallTheme::Hole
        }
    }
}

impl Slot {
    /// Whether the slot holds a token.
    pub open spec fn is_ball(self) -> bool {
        self != Slot::Empty
    }

    pub fn color(&self) -> (style: BallStyle)
        ensures
            style == style_of(*self),
    {
        match self {
            Slot::Empty => BallStyle { color: BallColor::Background, theme: BallTheme::Plain },
            Slot::Ball(color_idx) => BallStyle {
                color: palette_entry(*color_idx % PALETTE_SIZE),
                theme: BallTheme::from_index(*color_idx / PALETTE_SIZE),
            },
        }
    }
}

} // verus!
