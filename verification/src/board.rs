//! The executable board: a rectangle of cells into which discs are dropped.

use vstd::prelude::*;
use crate::disc::DiscType;
use crate::game::GameEvent;
use crate::grid::{
    board_text, row_text, rows_text, column_full, columns, deciding_word, dropped, empty_grid,
    four_at, full, has_four, in_grid, is_landing_row, landing_row, lemma_drop_well_formed,
    lemma_first_word_decides, lemma_landing_row, lemma_no_word_anywhere,
    lemma_word_starts_with_its_letter,
    lemma_lowest_empty_is_landing_row, no_word, no_word_before, open_columns, open_columns_upto,
    reads_before, rows, spells_at, well_formed, window, window_fits, word_at, word_from, Direction,
    Grid, Word, MAX_SIDE,
};

verus! {

/// A board of discs. Row 0 is the top row; a disc dropped into a column comes
/// to rest in the lowest empty cell of that column.
#[derive(Debug)]
pub struct Board {
    board: Vec<Vec<DiscType>>,
}

impl View for Board {
    type V = Grid;

    closed spec fn view(&self) -> Grid {
        Seq::new(self.board@.len(), |r: int| self.board@[r]@)
    }
}

impl Board {
    /// The invariant of every board: it is a rectangle of at least one and at
    /// most `MAX_SIDE` rows and columns, and its discs obey gravity.
    pub open spec fn wf(&self) -> bool {
        well_formed(self@)
    }

    /// How the cells of a well-formed board are stored: row by row, every
    /// row as long as the board is wide.
    proof fn lemma_storage(&self)
        requires
            self.wf(),
        ensures
            self.board@.len() == rows(self@),
            forall|r: int|
                0 <= r < self.board@.len() ==> (#[trigger] self.board@[r])@ == self@[r]
                    && self.board@[r]@.len() == columns(self@),
    {
        assert forall|r: int| 0 <= r < self.board@.len() implies (#[trigger] self.board@[r])@
            == self@[r] && self.board@[r]@.len() == columns(self@) by {
            assert(self@[r].len() == columns(self@));
        }
    }

    /// An empty board with the given number of rows and of columns.
    pub fn new(board_rows: usize, board_columns: usize) -> (b: Self)
        requires
            1 <= board_rows <= MAX_SIDE,
            1 <= board_columns <= MAX_SIDE,
        ensures
            b.wf(),
            b@ == empty_grid(board_rows as int, board_columns as int),
    {
        let mut board: Vec<Vec<DiscType>> = Vec::new();
        let mut r: usize = 0;
        while r < board_rows
            invariant
                r <= board_rows,
                board@.len() == r,
                forall|i: int| 0 <= i < r ==> (#[trigger] board@[i])@ == Seq::new(
                    board_columns as nat,
                    |c: int| DiscType::Empty,
                ),
            decreases board_rows - r,
        {
            let mut row: Vec<DiscType> = Vec::new();
            let mut c: usize = 0;
            while c < board_columns
                invariant
                    c <= board_columns,
                    row@.len() == c,
                    forall|j: int| 0 <= j < c ==> #[trigger] row@[j] == DiscType::Empty,
                decreases board_columns - c,
            {
                row.push(DiscType::Empty);
                c += 1;
            }
            assert(row@ =~= Seq::new(board_columns as nat, |c: int| DiscType::Empty));
            board.push(row);
            r += 1;
        }
        let b = Board { board };
        assert(b@ =~= empty_grid(board_rows as int, board_columns as int));
        b
    }

    /// Number of rows.
    pub fn board_rows(&self) -> (n: usize)
        requires
            self.wf(),
        ensures
            n == rows(self@),
            1 <= n <= MAX_SIDE,
    {
        self.board.len()
    }

    /// Number of columns.
    pub fn board_columns(&self) -> (n: usize)
        requires
            self.wf(),
        ensures
            n == columns(self@),
            1 <= n <= MAX_SIDE,
    {
        self.board[0].len()
    }

    /// Drops a disc into a column.
    ///
    /// Where the top cell of the column is occupied, nothing changes and the
    /// event is `PlaceColumnFull`. Otherwise the disc fills the lowest empty
    /// cell of the column, no other cell changes, and the event is
    /// `PlaceSuccess` with the row of that cell.
    pub fn place_disc(&mut self, column: usize, disc_type: DiscType) -> (event: GameEvent)
        requires
            old(self).wf(),
            column < columns(old(self)@),
        ensures
            final(self).wf(),
            rows(final(self)@) == rows(old(self)@),
            columns(final(self)@) == columns(old(self)@),
            column_full(old(self)@, column as int) ==> event == GameEvent::PlaceColumnFull
                && final(self)@ == old(self)@,
            !column_full(old(self)@, column as int) ==> {
                &&& event == GameEvent::PlaceSuccess(
                    landing_row(old(self)@, column as int) as usize,
                )
                &&& is_landing_row(
                    old(self)@,
                    column as int,
                    landing_row(old(self)@, column as int),
                )
                &&& final(self)@ == dropped(old(self)@, column as int, disc_type)
            },
    {
        if self.board[0][column] != DiscType::Empty {
            return GameEvent::PlaceColumnFull;
        }
        proof {
            lemma_landing_row(self@, column as int);
            lemma_drop_well_formed(self@, column as int, disc_type);
        }
        let mut i: usize = self.board.len();
        while i > 0
            invariant
                *self == *old(self),
                self.wf(),
                column < columns(self@),
                i <= rows(self@),
                forall|below: int|
                    i <= below < rows(self@) ==> (#[trigger] self@[below][column as int])
                        != DiscType::Empty,
            decreases i,
        {
            i -= 1;
            proof {
                self.lemma_storage();
            }
            if self.board[i][column] == DiscType::Empty {
                proof {
                    lemma_lowest_empty_is_landing_row(
                        self@,
                        column as int,
                        i as int,
                        rows(self@) - 1,
                    );
                }
                self.board[i][column] = disc_type;
                assert(self@ =~= dropped(old(self)@, column as int, disc_type));
                return GameEvent::PlaceSuccess(i);
            }
        }
        assert(false);
        GameEvent::PlaceColumnFull
    }

    /// Whether no column takes another disc: the top cell of every column is
    /// occupied.
    pub fn is_full(&self) -> (b: bool)
        requires
            self.wf(),
        ensures
            b == full(self@),
    {
        let n = self.board[0].len();
        let mut c: usize = 0;
        while c < n
            invariant
                self.wf(),
                n == columns(self@),
                c <= n,
                forall|k: int| 0 <= k < c ==> #[trigger] column_full(self@, k),
            decreases n - c,
        {
            if self.board[0][c] == DiscType::Empty {
                assert(!column_full(self@, c as int));
                return false;
            }
            c += 1;
        }
        true
    }

    /// The columns that still take a disc, in increasing order.
    pub fn get_valid_columns(&self) -> (result: Vec<usize>)
        requires
            self.wf(),
        ensures
            result@ == open_columns(self@),
    {
        let n = self.board[0].len();
        let mut result: Vec<usize> = Vec::new();
        let mut c: usize = 0;
        while c < n
            invariant
                self.wf(),
                n == columns(self@),
                c <= n,
                result@ == open_columns_upto(self@, c as int),
            decreases n - c,
        {
            if self.board[0][c] == DiscType::Empty {
                result.push(c);
            }
            c += 1;
        }
        result
    }

    /// The four cells of the line that starts at the given cell and runs in
    /// the given direction, or `None` where that line leaves the board.
    pub fn scan_line(&self, row: usize, column: usize, direction: Direction) -> (cells: Option<
        (DiscType, DiscType, DiscType, DiscType),
    >)
        requires
            self.wf(),
        ensures
            cells.is_some() == window_fits(self@, row as int, column as int, direction),
            cells.is_some() ==> cells.unwrap() == window(
                self@,
                row as int,
                column as int,
                direction,
            ),
    {
        proof {
            self.lemma_storage();
        }
        let height = self.board.len();
        let width = self.board[0].len();
        if row >= height || column >= width {
            return None;
        }
        let b = &self.board;
        match direction {
            Direction::Right => {
                if width - column < 4 {
                    None
                } else {
                    Some(
                        (
                            b[row][column],
                            b[row][column + 1],
                            b[row][column + 2],
                            b[row][column + 3],
                        ),
                    )
                }
            },
            Direction::Down => {
                if height - row < 4 {
                    None
                } else {
                    Some(
                        (
                            b[row][column],
                            b[row + 1][column],
                            b[row + 2][column],
                            b[row + 3][column],
                        ),
                    )
                }
            },
            Direction::DownRight => {
                if height - row < 4 || width - column < 4 {
                    None
                } else {
                    Some(
                        (
                            b[row][column],
                            b[row + 1][column + 1],
                            b[row + 2][column + 2],
                            b[row + 3][column + 3],
                        ),
                    )
                }
            },
            Direction::UpRight => {
                if row < 3 || width - column < 4 {
                    None
                } else {
                    Some(
                        (
                            b[row][column],
                            b[row - 1][column + 1],
                            b[row - 2][column + 2],
                            b[row - 3][column + 3],
                        ),
                    )
                }
            },
        }
    }

    /// Whether the line from the given cell in the given direction lies on
    /// the board and holds four discs of the given type.
    fn four_along(&self, row: usize, column: usize, direction: Direction, disc: DiscType) -> (b:
        bool)
        requires
            self.wf(),
        ensures
            b == four_at(self@, row as int, column as int, direction, disc),
    {
        match self.scan_line(row, column, direction) {
            Some((a, b, c, d)) => a == disc && b == disc && c == disc && d == disc,
            None => false,
        }
    }

    /// Whether four discs of the given type stand in a line anywhere on the
    /// board: along a row, along a column or along either diagonal.
    pub fn is_connect4(&self, check_disc_type: DiscType) -> (b: bool)
        requires
            self.wf(),
        ensures
            b == has_four(self@, check_disc_type),
    {
        let height = self.board_rows();
        let width = self.board_columns();
        let mut i: usize = 0;
        while i < height
            invariant
                self.wf(),
                height == rows(self@),
                width == columns(self@),
                i <= height,
                forall|r: int, c: int, d: Direction|
                    r < i ==> !#[trigger] four_at(self@, r, c, d, check_disc_type),
            decreases height - i,
        {
            let mut j: usize = 0;
            while j < width
                invariant
                    self.wf(),
                    height == rows(self@),
                    width == columns(self@),
                    i < height,
                    j <= width,
                    forall|r: int, c: int, d: Direction|
                        reads_before(r, c, i as int, j as int) ==> !#[trigger] four_at(
                            self@,
                            r,
                            c,
                            d,
                            check_disc_type,
                        ),
                decreases width - j,
            {
                if self.four_along(i, j, Direction::Right, check_disc_type) || self.four_along(
                    i,
                    j,
                    Direction::Down,
                    check_disc_type,
                ) || self.four_along(i, j, Direction::DownRight, check_disc_type)
                    || self.four_along(i, j, Direction::UpRight, check_disc_type) {
                    return true;
                }
                j += 1;
            }
            i += 1;
        }
        false
    }

    /// The word that the line from the given cell in the given direction
    /// spells, if it lies on the board and spells one.
    fn word_along(&self, row: usize, column: usize, direction: Direction) -> (word: Option<Word>)
        requires
            self.wf(),
        ensures
            word == word_at(self@, row as int, column as int, direction),
    {
        match self.scan_line(row, column, direction) {
            Some((a, b, c, d)) => {
                if a == DiscType::T && b == DiscType::O && c == DiscType::O && d == DiscType::T {
                    Some(Word::Toot)
                } else if a == DiscType::O && b == DiscType::T && c == DiscType::T && d
                    == DiscType::O {
                    Some(Word::Otto)
                } else {
                    None
                }
            },
            None => None,
        }
    }

    /// The word spelled from the given cell in some direction, if there is
    /// one.
    fn word_starting_at(&self, row: usize, column: usize) -> (word: Option<Word>)
        requires
            self.wf(),
        ensures
            forall|w: Word|
                word == Some(w) <==> #[trigger] word_from(self@, row as int, column as int, w),
    {
        let right = self.word_along(row, column, Direction::Right);
        let down = self.word_along(row, column, Direction::Down);
        let down_right = self.word_along(row, column, Direction::DownRight);
        let up_right = self.word_along(row, column, Direction::UpRight);
        proof {
            let (r, c) = (row as int, column as int);
            assert forall|w: Word| #[trigger]
                word_from(self@, r, c, w) <==> (right == Some(w) || down == Some(w) || down_right
                    == Some(w) || up_right == Some(w)) by {
                if word_from(self@, r, c, w) {
                    let d = choose|d: Direction| #[trigger] spells_at(self@, r, c, d, w);
                    assert(spells_at(self@, r, c, d, w));
                    lemma_word_starts_with_its_letter(self@, r, c, d, w);
                }
                if right == Some(w) {
                    assert(spells_at(self@, r, c, Direction::Right, w));
                }
                if down == Some(w) {
                    assert(spells_at(self@, r, c, Direction::Down, w));
                }
                if down_right == Some(w) {
                    assert(spells_at(self@, r, c, Direction::DownRight, w));
                }
                if up_right == Some(w) {
                    assert(spells_at(self@, r, c, Direction::UpRight, w));
                }
            }
            assert forall|w: Word, d: Direction| #[trigger]
                spells_at(self@, r, c, d, w) implies self@[r][c] == match w {
                Word::Toot => DiscType::T,
                Word::Otto => DiscType::O,
            } by {
                lemma_word_starts_with_its_letter(self@, r, c, d, w);
            }
        }
        if matches!(right, Some(Word::Toot)) || matches!(down, Some(Word::Toot)) || matches!(
            down_right,
            Some(Word::Toot)
        ) || matches!(up_right, Some(Word::Toot)) {
            Some(Word::Toot)
        } else if matches!(right, Some(Word::Otto)) || matches!(down, Some(Word::Otto))
            || matches!(down_right, Some(Word::Otto)) || matches!(up_right, Some(Word::Otto)) {
            Some(Word::Otto)
        } else {
            None
        }
    }

    /// Looks for the two words of the spelling game on the whole board.
    ///
    /// The cells are tried row by row from the top, each row from the left,
    /// as the first cell of a line in each of the four directions. The first
    /// cell from which a word is spelled decides: `IsTOOT` where a line from
    /// it spells TOOT, `IsOTTO` where one spells OTTO. `Ongoing` is returned
    /// where no line on the board spells either word.
    pub fn is_toot_or_otto(&self) -> (event: GameEvent)
        requires
            self.wf(),
        ensures
            event == GameEvent::IsTOOT <==> deciding_word(self@, Word::Toot),
            event == GameEvent::IsOTTO <==> deciding_word(self@, Word::Otto),
            event == GameEvent::Ongoing <==> no_word(self@),
            event == GameEvent::IsTOOT || event == GameEvent::IsOTTO || event
                == GameEvent::Ongoing,
    {
        let height = self.board_rows();
        let width = self.board_columns();
        let mut i: usize = 0;
        while i < height
            invariant
                self.wf(),
                height == rows(self@),
                width == columns(self@),
                i <= height,
                no_word_before(self@, i as int, 0),
            decreases height - i,
        {
            let mut j: usize = 0;
            while j < width
                invariant
                    self.wf(),
                    height == rows(self@),
                    width == columns(self@),
                    i < height,
                    j <= width,
                    no_word_before(self@, i as int, j as int),
                decreases width - j,
            {
                match self.word_starting_at(i, j) {
                    Some(Word::Toot) => {
                        proof {
                            lemma_first_word_decides(self@, i as int, j as int, Word::Toot);
                        }
                        return GameEvent::IsTOOT;
                    },
                    Some(Word::Otto) => {
                        proof {
                            lemma_first_word_decides(self@, i as int, j as int, Word::Otto);
                        }
                        return GameEvent::IsOTTO;
                    },
                    None => {
                        assert forall|d: Direction, w: Word| !#[trigger] spells_at(
                            self@,
                            i as int,
                            j as int,
                            d,
                            w,
                        ) by {
                            if spells_at(self@, i as int, j as int, d, w) {
                                assert(word_from(self@, i as int, j as int, w));
                            }
                        }
                    },
                }
                j += 1;
            }
            i += 1;
        }
        proof {
            lemma_no_word_anywhere(self@);
        }
        GameEvent::Ongoing
    }

    /// The board as text: one line for each row, the top row first, with the
    /// letter of each cell followed by a blank, and an empty line at the end.
    pub fn to_string(&self) -> (text: String)
        requires
            self.wf(),
        ensures
            text@ == board_text(self@),
    {
        proof {
            self.lemma_storage();
        }
        let mut text = String::new();
        let mut r: usize = 0;
        while r < self.board.len()
            invariant
                self.wf(),
                self.board@.len() == rows(self@),
                forall|i: int|
                    0 <= i < self.board@.len() ==> (#[trigger] self.board@[i])@ == self@[i],
                r <= self.board@.len(),
                text@ == rows_text(self@, r as int),
            decreases self.board@.len() - r,
        {
            let mut line = String::new();
            let mut c: usize = 0;
            while c < self.board[r].len()
                invariant
                    r < self.board@.len(),
                    self.board@[r as int]@ == self@[r as int],
                    c <= self@[r as int].len(),
                    line@ == row_text(self@[r as int], c as int),
                decreases self@[r as int].len() - c,
            {
                let symbol = self.board[r][c].to_string();
                line.append(symbol.as_str());
                line.append(" ");
                c += 1;
            }
            line.append("\n");
            text.append(line.as_str());
            r += 1;
        }
        text.append("\n");
        text
    }

    /// The content of the cell in the given row and column.
    pub fn disc_at(&self, row: usize, column: usize) -> (d: DiscType)
        requires
            self.wf(),
            in_grid(self@, row as int, column as int),
        ensures
            d == self@[row as int][column as int],
    {
        self.board[row][column]
    }
}

impl Clone for Board {
    /// A second board with the same discs.
    fn clone(&self) -> (b: Self)
        ensures
            b@ == self@,
    {
        let mut board: Vec<Vec<DiscType>> = Vec::new();
        let mut r: usize = 0;
        while r < self.board.len()
            invariant
                r <= self.board@.len(),
                board@.len() == r,
                forall|i: int| 0 <= i < r ==> (#[trigger] board@[i])@ == self.board@[i]@,
            decreases self.board@.len() - r,
        {
            let mut row: Vec<DiscType> = Vec::new();
            let mut c: usize = 0;
            while c < self.board[r].len()
                invariant
                    r < self.board@.len(),
                    c <= self.board@[r as int]@.len(),
                    row@.len() == c,
                    forall|j: int| 0 <= j < c ==> #[trigger] row@[j] == self.board@[r as int]@[j],
                decreases self.board@[r as int]@.len() - c,
            {
                row.push(self.board[r][c]);
                c += 1;
            }
            assert(row@ =~= self.board@[r as int]@);
            board.push(row);
            r += 1;
        }
        let b = Board { board };
        assert(b@ =~= self@);
        b
    }
}

} // verus!
