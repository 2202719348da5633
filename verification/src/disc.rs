use vstd::prelude::*;

verus! {

/// What a single cell of the board holds.
///
/// `Red` and `Yellow` are the two colours of the four-in-a-row game, `T` and
/// `O` the two letters of the spelling game. A board holds discs of one
/// family only.
#[derive(Clone, Copy, Debug, PartialEq, Eq, Structural)]
pub enum DiscType {
    Empty,
    Red,
    Yellow,
    T,
    O,
}

impl DiscType {
    /// Whether this is one of the two colours.
    pub open spec fn is_color(self) -> bool {
        self == DiscType::Red || self == DiscType::Yellow
    }

    /// Whether this is one of the two letters.
    pub open spec fn is_letter(self) -> bool {
        self == DiscType::T || self == DiscType::O
    }

    /// The letter that stands for the disc in text: R, Y, T and O for the
    /// discs, E for an empty cell.
    pub open spec fn symbol(self) -> Seq<char> {
        match self {
            DiscType::Red => "R"@,
            DiscType::Yellow => "Y"@,
            DiscType::T => "T"@,
            DiscType::O => "O"@,
            DiscType::Empty => "E"@,
        }
    }

    /// The letter that stands for the disc in text, as a string.
    pub fn to_string(&self) -> (text: String)
        ensures
            text@ == self.symbol(),
    {
        match self {
            DiscType::Red => String::from_str("R"),
            DiscType::Yellow => String::from_str("Y"),
            DiscType::T => String::from_str("T"),
            DiscType::O => String::from_str("O"),
            DiscType::Empty => String::from_str("E"),
        }
    }

    /// The other letter: `O` for `T`, and `T` for anything else.
    pub open spec fn flipped(self) -> DiscType {
        if self == DiscType::T {
            DiscType::O
        } else {
            DiscType::T
        }
    }
}

} // verus!
