//! The board sizes that are on offer.

use vstd::prelude::*;
use crate::grid::MAX_SIDE;

verus! {

/// A board size, named by its number of columns and its number of rows.
#[derive(PartialEq, Eq, Structural, Copy, Clone, Debug)]
pub enum BoardSize {
    SevenBySix,
    FiveByFour,
    SixByFive,
    EightBySeven,
    NineBySeven,
    TenBySeven,
    EightByEight,
}

impl BoardSize {
    /// Number of rows of a board of this size.
    pub open spec fn row_count(self) -> int {
        match self {
            BoardSize::SevenBySix => 6,
            BoardSize::FiveByFour => 4,
            BoardSize::SixByFive => 5,
            BoardSize::EightBySeven => 7,
            BoardSize::NineBySeven => 7,
            BoardSize::TenBySeven => 7,
            BoardSize::EightByEight => 8,
        }
    }

    /// Number of columns of a board of this size.
    pub open spec fn column_count(self) -> int {
        match self {
            BoardSize::SevenBySix => 7,
            BoardSize::FiveByFour => 5,
            BoardSize::SixByFive => 6,
            BoardSize::EightBySeven => 8,
            BoardSize::NineBySeven => 9,
            BoardSize::TenBySeven => 10,
            BoardSize::EightByEight => 8,
        }
    }

    /// Number of rows of a board of this size; a board may have that many.
    pub fn get_row(&self) -> (n: usize)
        ensures
            n == self.row_count(),
            1 <= n <= MAX_SIDE,
    {
        match self {
            BoardSize::SevenBySix => 6,
            BoardSize::FiveByFour => 4,
            BoardSize::SixByFive => 5,
            BoardSize::EightBySeven => 7,
            BoardSize::NineBySeven => 7,
            BoardSize::TenBySeven => 7,
            BoardSize::EightByEight => 8,
        }
    }

    /// Number of columns of a board of this size; a board may have that
    /// many.
    pub fn get_column(&self) -> (n: usize)
        ensures
            n == self.column_count(),
            1 <= n <= MAX_SIDE,
    {
        match self {
            BoardSize::SevenBySix => 7,
            BoardSize::FiveByFour => 5,
            BoardSize::SixByFive => 6,
            BoardSize::EightBySeven => 8,
            BoardSize::NineBySeven => 9,
            BoardSize::TenBySeven => 10,
            BoardSize::EightByEight => 8,
        }
    }

    /// All sizes, the usual one first.
    pub fn to_vec() -> (all: Vec<BoardSize>)
        ensures
            all@ == seq![
                BoardSize::SevenBySix,
                BoardSize::FiveByFour,
                BoardSize::SixByFive,
                BoardSize::EightBySeven,
                BoardSize::NineBySeven,
                BoardSize::TenBySeven,
                BoardSize::EightByEight,
            ],
    {
        let mut all: Vec<BoardSize> = Vec::new();
        all.push(BoardSize::SevenBySix);
        all.push(BoardSize::FiveByFour);
        all.push(BoardSize::SixByFive);
        all.push(BoardSize::EightBySeven);
        all.push(BoardSize::NineBySeven);
        all.push(BoardSize::TenBySeven);
        all.push(BoardSize::EightByEight);
        assert(all@ =~= seq![
            BoardSize::SevenBySix,
            BoardSize::FiveByFour,
            BoardSize::SixByFive,
            BoardSize::EightBySeven,
            BoardSize::NineBySeven,
            BoardSize::TenBySeven,
            BoardSize::EightByEight,
        ]);
        all
    }

    /// The size as text: the number of columns, " x ", the number of rows.
    pub fn to_string(&self) -> (text: String)
        ensures
            text@ == match self {
                BoardSize::SevenBySix => "7 x 6"@,
                BoardSize::FiveByFour => "5 x 4"@,
                BoardSize::SixByFive => "6 x 5"@,
                BoardSize::EightBySeven => "8 x 7"@,
                BoardSize::NineBySeven => "9 x 7"@,
                BoardSize::TenBySeven => "10 x 7"@,
                BoardSize::EightByEight => "8 x 8"@,
            },
    {
        match self {
            BoardSize::SevenBySix => String::from_str("7 x 6"),
            BoardSize::FiveByFour => String::from_str("5 x 4"),
            BoardSize::SixByFive => String::from_str("6 x 5"),
            BoardSize::EightBySeven => String::from_str("8 x 7"),
            BoardSize::NineBySeven => String::from_str("9 x 7"),
            BoardSize::TenBySeven => String::from_str("10 x 7"),
            BoardSize::EightByEight => String::from_str("8 x 8"),
        }
    }
}

} // verus!
