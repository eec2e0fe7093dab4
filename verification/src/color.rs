//! Card colors and game formats, the vocabulary of a search.

use vstd::prelude::*;

verus! {

/// One of the six color identities a search can be scoped to.
#[derive(Debug, Clone, Copy, PartialEq, Eq, Hash, Structural)]
pub enum Color {
    White,
    Blue,
    Black,
    Red,
    Green,
    Colorless,
}

/// A game ruleset a search can be scoped to.
#[derive(Debug, Clone, Copy, PartialEq, Eq, Hash, Structural)]
pub enum Format {
    Brawl,
    Commander,
}

impl Color {
    /// The six colors in their canonical order.
    pub open spec fn palette() -> Seq<Color> {
        seq![
            Color::White,
            Color::Blue,
            Color::Black,
            Color::Red,
            Color::Green,
            Color::Colorless,
        ]
    }

    /// The letter that stands for this color in a search query.
    pub open spec fn letter_spec(self) -> char {
        match self {
            Color::White => 'w',
            Color::Blue => 'u',
            Color::Black => 'b',
            Color::Red => 'r',
            Color::Green => 'g',
            Color::Colorless => 'c',
        }
    }

    /// Every color, in canonical order.
    pub fn all() -> (colors: Vec<Color>)
        ensures
            colors@ == Color::palette(),
    {
        let mut colors: Vec<Color> = Vec::new();
        colors.push(Color::White);
        colors.push(Color::Blue);
        colors.push(Color::Black);
        colors.push(Color::Red);
        colors.push(Color::Green);
        colors.push(Color::Colorless);
        assert(colors@ =~= Color::palette());
        colors
    }

    /// A check list with one entry per color, in canonical order, none of
    /// them ticked.
    pub fn check_list() -> (list: Vec<(Color, bool)>)
        ensures
            list@ == Color::palette().map_values(|c: Color| (c, false)),
    {
        let mut list: Vec<(Color, bool)> = Vec::new();
        list.push((Color::White, false));
        list.push((Color::Blue, false));
        list.push((Color::Black, false));
        list.push((Color::Red, false));
        list.push((Color::Green, false));
        list.push((Color::Colorless, false));
        assert(list@ =~= Color::palette().map_values(|c: Color| (c, false)));
        list
    }

    /// The letter that stands for this color in a search query.
    pub fn letter(self) -> (c: char)
        ensures
            c == self.letter_spec(),
    {
        match self {
            Color::White => 'w',
            Color::Blue => 'u',
            Color::Black => 'b',
            Color::Red => 'r',
            Color::Green => 'g',
            Color::Colorless => 'c',
        }
    }
}

} // verus!
