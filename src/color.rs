use vstd::prelude::*;

verus! {

/// A display color tag attached to glyphs and messages.
#[derive(Clone, Copy, Debug, PartialEq, Eq, Structural)]
pub enum Color {
    Black,
    White,
    Red,
    DarkRed,
    LightRed,
    Orange,
    DarkerOrange,
    Amber,
    Yellow,
    LightYellow,
    Green,
    LightGreen,
    DesaturatedGreen,
    DarkerGreen,
    LightCyan,
    LightBlue,
    Sky,
    Violet,
    LightViolet,
}

/// The red, green and blue channels of each color.
pub open spec fn rgb_of(c: Color) -> (u8, u8, u8) {
    match c {
        Color::Black => (0, 0, 0),
        Color::White => (255, 255, 255),
        Color::Red => (255, 0, 0),
        Color::DarkRed => (191, 0, 0),
        Color::LightRed => (255, 63, 63),
        Color::Orange => (255, 127, 0),
        Color::DarkerOrange => (127, 63, 0),
        Color::Amber => (255, 191, 0),
        Color::Yellow => (255, 255, 0),
        Color::LightYellow => (255, 255, 63),
        Color::Green => (0, 255, 0),
        Color::LightGreen => (63, 255, 63),
        Color::DesaturatedGreen => (63, 127, 63),
        Color::DarkerGreen => (0, 127, 0),
        Color::LightCyan => (63, 255, 255),
        Color::LightBlue => (63, 63, 255),
        Color::Sky => (0, 191, 255),
        Color::Violet => (127, 0, 255),
        Color::LightViolet => (159, 63, 255),
    }
}

impl Color {
    /// The red, green and blue channels of this color.
    pub fn rgb(&self) -> (r: (u8, u8, u8))
        ensures
            r == rgb_of(*self),
    {
        match *self {
            Color::Black => (0, 0, 0),
            Color::White => (255, 255, 255),
            Color::Red => (255, 0, 0),
            Color::DarkRed => (191, 0, 0),
            Color::LightRed => (255, 63, 63),
            Color::Orange => (255, 127, 0),
            Color::DarkerOrange => (127, 63, 0),
            Color::Amber => (255, 191, 0),
            Color::Yellow => (255, 255, 0),
            Color::LightYellow => (255, 255, 63),
            Color::Green => (0, 255, 0),
            Color::LightGreen => (63, 255, 63),
            Color::DesaturatedGreen => (63, 127, 63),
            Color::DarkerGreen => (0, 127, 0),
            Color::LightCyan => (63, 255, 255),
            Color::LightBlue => (63, 63, 255),
            Color::Sky => (0, 191, 255),
            Color::Violet => (127, 0, 255),
            Color::LightViolet => (159, 63, 255),
        }
    }
}

} // verus!
