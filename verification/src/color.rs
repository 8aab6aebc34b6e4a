//! The display colors a piece can have.

use vstd::prelude::*;

verus! {

/// A color token. The engine only carries it from the moment a piece is
/// created to the moment it is drawn.
#[derive(Clone, Copy, Debug, PartialEq, Eq, Structural)]
pub enum Color {
    DarkGrey,
    Red,
    DarkRed,
    Green,
    DarkGreen,
    Yellow,
    DarkYellow,
    Blue,
    DarkBlue,
    Magenta,
    DarkMagenta,
    Cyan,
    DarkCyan,
}

/// The colors a new piece draws from, in a fixed order.
pub open spec fn palette_colors() -> Seq<Color> {
    seq![
        Color::DarkGrey,
        Color::Red,
        Color::DarkRed,
        Color::Green,
        Color::DarkGreen,
        Color::Yellow,
        Color::DarkYellow,
        Color::Blue,
        Color::DarkBlue,
        Color::Magenta,
        Color::DarkMagenta,
        Color::Cyan,
        Color::DarkCyan,
    ]
}

/// The palette as a vector.
pub fn palette() -> (colors: Vec<Color>)
    ensures
        colors@ == palette_colors(),
{
    let mut colors: Vec<Color> = Vec::new();
    colors.push(Color::DarkGrey);
    colors.push(Color::Red);
    colors.push(Color::DarkRed);
    colors.push(Color::Green);
    colors.push(Color::DarkGreen);
    colors.push(Color::Yellow);
    colors.push(Color::DarkYellow);
    colors.push(Color::Blue);
    colors.push(Color::DarkBlue);
    colors.push(Color::Magenta);
    colors.push(Color::DarkMagenta);
    colors.push(Color::Cyan);
    colors.push(Color::DarkCyan);
    assert(colors@ =~= palette_colors());
    colors
}

} // verus!
