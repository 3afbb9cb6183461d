//! Species identities.
//!
//! A particle's species is one of a fixed closed set of twelve named
//! colours; a run populates some of them.  A colour has no behaviour
//! beyond identity: equality is by value, and `colour_index` places it in
//! the fixed enumeration so the force matrix can key ordered pairs.

use vstd::prelude::*;

verus! {

/// Number of species identities in the closed set.
pub const NUM_COLOURS: usize = 12;

/// A species identity: an enumerable tag, nothing more.
#[derive(Clone, Copy, PartialEq, Eq, Structural, Debug, Hash)]
pub enum Colour {
    Red,
    Green,
    Blue,
    White,
    Orange,
    Purple,
    Yellow,
    Plum,
    Coral,
    Fuchsia,
    Navy,
    Lavenderblush,
}

/// Position of a colour in the fixed enumeration.
pub open spec fn colour_index(c: Colour) -> int {
    match c {
        Colour::Red => 0,
        Colour::Green => 1,
        Colour::Blue => 2,
        Colour::White => 3,
        Colour::Orange => 4,
        Colour::Purple => 5,
        Colour::Yellow => 6,
        Colour::Plum => 7,
        Colour::Coral => 8,
        Colour::Fuchsia => 9,
        Colour::Navy => 10,
        Colour::Lavenderblush => 11,
    }
}

impl Colour {
    /// Position of this colour in the fixed enumeration.
    pub fn index(self) -> (i: usize)
        ensures
            i as int == colour_index(self),
            i < NUM_COLOURS,
    {
        match self {
            Colour::Red => 0,
            Colour::Green => 1,
            Colour::Blue => 2,
            Colour::White => 3,
            Colour::Orange => 4,
            Colour::Purple => 5,
            Colour::Yellow => 6,
            Colour::Plum => 7,
            Colour::Coral => 8,
            Colour::Fuchsia => 9,
            Colour::Navy => 10,
            Colour::Lavenderblush => 11,
        }
    }
}

} // verus!
