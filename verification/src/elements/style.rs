use vstd::prelude::*;

verus! {

/// A length along one axis, in whole pixels or whole percent of the parent.
#[derive(Clone, Copy, Debug, PartialEq, Eq, Structural)]
pub enum Unit {
    Auto,
    Px(u32),
    Percentage(u32),
}

/// A colour with one byte per channel.
#[derive(Clone, Copy, Debug, PartialEq, Eq, Structural)]
pub struct Color {
    pub r: u8,
    pub g: u8,
    pub b: u8,
    pub a: u8,
}

impl Color {
    pub fn new_from_rgba_u8(r: u8, g: u8, b: u8, a: u8) -> (color: Color)
        ensures
            color == (Color { r, g, b, a }),
    {
        Color { r, g, b, a }
    }
}

/// The layout and paint properties an element declares.
#[derive(Clone, Copy, Debug, PartialEq, Eq, Structural)]
pub struct Style {
    pub width: Unit,
    pub height: Unit,
    pub background: Color,
}

impl Style {
    /// Automatic size on both axes over a transparent background.
    pub fn new() -> (style: Style)
        ensures
            style == Style::initial(),
    {
        Style { width: Unit::Auto, height: Unit::Auto, background: Color { r: 0, g: 0, b: 0, a: 0 } }
    }

    pub open spec fn initial() -> Style {
        Style { width: Unit::Auto, height: Unit::Auto, background: Color { r: 0, g: 0, b: 0, a: 0 } }
    }
}

} // verus!
