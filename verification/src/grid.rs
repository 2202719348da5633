//! The mathematical model of a board: a rectangle of cells, row 0 on top.
//!
//! Everything here is specification. The executable board lives in
//! `board`, and its contracts are stated over the functions of this module.

use vstd::prelude::*;
use crate::disc::DiscType;

verus! {

/// A board as a sequence of rows, each a sequence of cells. Row 0 is the top
/// row; discs fall towards the last row.
pub type Grid = Seq<Seq<DiscType>>;

/// The largest number of rows, and of columns, that a board may have.
///
/// With this bound the sum of all window scores of a position stays well
/// below the reward of a win, and every total fits a 64-bit integer.
pub const MAX_SIDE: usize = 32;

/// Number of rows of `g`.
pub open spec fn rows<T>(g: Seq<Seq<T>>) -> int {
    g.len() as int
}

/// Number of columns of `g`: the length of its top row.
pub open spec fn columns<T>(g: Seq<Seq<T>>) -> int {
    if g.len() > 0 {
        g[0].len() as int
    } else {
        0
    }
}

/// Whether `(r, c)` names a cell of `g`.
pub open spec fn in_grid<T>(g: Seq<Seq<T>>, r: int, c: int) -> bool {
    0 <= r < rows(g) && 0 <= c < columns(g)
}

/// `g` is a rectangle with at least one cell and at most `MAX_SIDE` rows and
/// columns.
pub open spec fn rectangular(g: Grid) -> bool {
    &&& 1 <= rows(g) <= MAX_SIDE
    &&& 1 <= columns(g) <= MAX_SIDE
    &&& forall|r: int| 0 <= r < g.len() ==> (#[trigger] g[r]).len() == columns(g)
}

/// Gravity: below a disc there is never an empty cell.
pub open spec fn settled(g: Grid) -> bool {
    forall|r1: int, r2: int, c: int|
        0 <= r1 < r2 < rows(g) && 0 <= c < columns(g) && #[trigger] g[r1][c] != DiscType::Empty
            ==> #[trigger] g[r2][c] != DiscType::Empty
}

/// The states a board can be in: a rectangle whose discs obey gravity.
pub open spec fn well_formed(g: Grid) -> bool {
    rectangular(g) && settled(g)
}

/// The board of the given size with no disc on it.
pub open spec fn empty_grid(rows: int, columns: int) -> Grid {
    Seq::new(rows as nat, |r: int| Seq::new(columns as nat, |c: int| DiscType::Empty))
}

/// `g` with the cell `(r, c)` replaced by `d`.
pub open spec fn with_cell<T>(g: Seq<Seq<T>>, r: int, c: int, d: T) -> Seq<Seq<T>> {
    g.update(r, g[r].update(c, d))
}

/// Column `c` takes no more discs: its top cell is occupied.
pub open spec fn column_full(g: Grid, c: int) -> bool {
    g[0][c] != DiscType::Empty
}

/// No column takes another disc.
pub open spec fn full(g: Grid) -> bool {
    forall|c: int| 0 <= c < columns(g) ==> #[trigger] column_full(g, c)
}

/// `r` is the lowest empty cell of column `c`: it is empty and every cell
/// below it is occupied.
pub open spec fn is_landing_row(g: Grid, c: int, r: int) -> bool {
    &&& 0 <= r < rows(g)
    &&& g[r][c] == DiscType::Empty
    &&& forall|below: int| r < below < rows(g) ==> (#[trigger] g[below][c]) != DiscType::Empty
}

/// The lowest empty cell of column `c` at or above row `from`, or -1 when
/// there is none.
pub open spec fn lowest_empty_from(g: Grid, c: int, from: int) -> int
    decreases from + 1,
{
    if from < 0 {
        -1
    } else if g[from][c] == DiscType::Empty {
        from
    } else {
        lowest_empty_from(g, c, from - 1)
    }
}

/// The row in which a disc dropped into column `c` comes to rest, or -1 when
/// the column has no empty cell.
pub open spec fn landing_row(g: Grid, c: int) -> int {
    lowest_empty_from(g, c, rows(g) - 1)
}

/// The board after a disc `d` has been dropped into column `c`, which must
/// not be full.
pub open spec fn dropped(g: Grid, c: int, d: DiscType) -> Grid {
    with_cell(g, landing_row(g, c), c, d)
}

/// Number of discs in the rows `0..upto` of column `c`.
pub open spec fn occupied_upto(g: Grid, c: int, upto: int) -> nat
    decreases upto,
{
    if upto <= 0 {
        0
    } else {
        occupied_upto(g, c, upto - 1) + if g[upto - 1][c] != DiscType::Empty {
            1nat
        } else {
            0nat
        }
    }
}

/// Number of discs in column `c`.
pub open spec fn occupied(g: Grid, c: int) -> nat {
    occupied_upto(g, c, rows(g))
}

/// Number of discs in the columns `0..upto`.
pub open spec fn discs_upto(g: Grid, upto: int) -> nat
    decreases upto,
{
    if upto <= 0 {
        0
    } else {
        discs_upto(g, upto - 1) + occupied(g, upto - 1)
    }
}

/// Number of discs on the board.
pub open spec fn total_discs(g: Grid) -> nat {
    discs_upto(g, columns(g))
}

/// Every cell of the board is empty or holds one of the two given discs.
pub open spec fn only_discs(g: Grid, a: DiscType, b: DiscType) -> bool {
    forall|r: int, c: int|
        in_grid(g, r, c) ==> {
            let d = #[trigger] g[r][c];
            d == DiscType::Empty || d == a || d == b
        }
}

/// The columns among `0..upto` that still take a disc, in increasing order.
pub open spec fn open_columns_upto(g: Grid, upto: int) -> Seq<usize>
    decreases upto,
{
    if upto <= 0 {
        Seq::empty()
    } else if column_full(g, upto - 1) {
        open_columns_upto(g, upto - 1)
    } else {
        open_columns_upto(g, upto - 1).push((upto - 1) as usize)
    }
}

/// All columns that still take a disc, in increasing order.
pub open spec fn open_columns(g: Grid) -> Seq<usize> {
    open_columns_upto(g, columns(g))
}

/// The four ways in which a line of four cells can run from its first cell.
#[derive(Clone, Copy, Debug, PartialEq, Eq, Structural)]
pub enum Direction {
    /// Along a row, to the right.
    Right,
    /// Along a column, downwards.
    Down,
    /// Diagonally, down and to the right.
    DownRight,
    /// Diagonally, up and to the right.
    UpRight,
}

/// Row of the `k`-th cell of the line that starts in row `r` and runs in
/// direction `d`.
pub open spec fn line_row(r: int, d: Direction, k: int) -> int {
    match d {
        Direction::Right => r,
        Direction::Down => r + k,
        Direction::DownRight => r + k,
        Direction::UpRight => r - k,
    }
}

/// Column of the `k`-th cell of the line that starts in column `c` and runs
/// in direction `d`.
pub open spec fn line_column(c: int, d: Direction, k: int) -> int {
    match d {
        Direction::Down => c,
        _ => c + k,
    }
}

/// The line of four cells from `(r, c)` in direction `d` lies on the board.
pub open spec fn window_fits<T>(g: Seq<Seq<T>>, r: int, c: int, d: Direction) -> bool {
    in_grid(g, r, c) && in_grid(g, line_row(r, d, 3), line_column(c, d, 3))
}

/// The `k`-th cell of the line from `(r, c)` in direction `d`.
pub open spec fn window_cell(g: Grid, r: int, c: int, d: Direction, k: int) -> DiscType {
    g[line_row(r, d, k)][line_column(c, d, k)]
}

/// The four cells of the line from `(r, c)` in direction `d`, in order.
pub open spec fn window(g: Grid, r: int, c: int, d: Direction) -> (
    DiscType,
    DiscType,
    DiscType,
    DiscType,
) {
    (
        window_cell(g, r, c, d, 0),
        window_cell(g, r, c, d, 1),
        window_cell(g, r, c, d, 2),
        window_cell(g, r, c, d, 3),
    )
}

/// The line from `(r, c)` in direction `d` lies on the board and holds four
/// discs `disc`.
pub open spec fn four_at(g: Grid, r: int, c: int, d: Direction, disc: DiscType) -> bool {
    window_fits(g, r, c, d) && window(g, r, c, d) == (disc, disc, disc, disc)
}

/// Somewhere on the board four discs `disc` stand in a line.
pub open spec fn has_four(g: Grid, disc: DiscType) -> bool {
    exists|r: int, c: int, d: Direction| #[trigger] four_at(g, r, c, d, disc)
}

/// The two words of the spelling game.
#[derive(Clone, Copy, Debug, PartialEq, Eq, Structural)]
pub enum Word {
    /// The letters T, O, O, T.
    Toot,
    /// The letters O, T, T, O.
    Otto,
}

/// The word that four cells spell, read in order, if they spell one.
pub open spec fn word_of(w: (DiscType, DiscType, DiscType, DiscType)) -> Option<Word> {
    if w == (DiscType::T, DiscType::O, DiscType::O, DiscType::T) {
        Some(Word::Toot)
    } else if w == (DiscType::O, DiscType::T, DiscType::T, DiscType::O) {
        Some(Word::Otto)
    } else {
        None
    }
}

/// The word that the line from `(r, c)` in direction `d` spells, if it lies
/// on the board and spells one.
pub open spec fn word_at(g: Grid, r: int, c: int, d: Direction) -> Option<Word> {
    if window_fits(g, r, c, d) {
        word_of(window(g, r, c, d))
    } else {
        None
    }
}

/// The line from `(r, c)` in direction `d` lies on the board and spells
/// `word`.
pub open spec fn spells_at(g: Grid, r: int, c: int, d: Direction, word: Word) -> bool {
    word_at(g, r, c, d) == Some(word)
}

/// Some line that starts at `(r, c)` spells `word`.
pub open spec fn word_from(g: Grid, r: int, c: int, word: Word) -> bool {
    exists|d: Direction| #[trigger] spells_at(g, r, c, d, word)
}

/// Cell `(r1, c1)` comes before `(r2, c2)` when the board is read row by
/// row from the top, each row from the left.
pub open spec fn reads_before(r1: int, c1: int, r2: int, c2: int) -> bool {
    r1 < r2 || (r1 == r2 && c1 < c2)
}

/// No line that starts before `(r, c)` in reading order spells a word.
pub open spec fn no_word_before(g: Grid, r: int, c: int) -> bool {
    forall|r0: int, c0: int, d: Direction, w: Word|
        reads_before(r0, c0, r, c) ==> !#[trigger] spells_at(g, r0, c0, d, w)
}

/// No line on the board spells a word.
pub open spec fn no_word(g: Grid) -> bool {
    forall|r: int, c: int, d: Direction, w: Word| !#[trigger] spells_at(g, r, c, d, w)
}

/// The word that decides the board: the one spelled from the first cell, in
/// reading order, from which a word is spelled. One cell never starts both
/// words, since they begin with different letters.
pub open spec fn deciding_word(g: Grid, word: Word) -> bool {
    exists|r: int, c: int|
        #![trigger word_from(g, r, c, word)]
        word_from(g, r, c, word) && no_word_before(g, r, c)
}

/// The cells `0..upto` of a row as text: the letter of each cell, followed by
/// a blank.
pub open spec fn row_text(row: Seq<DiscType>, upto: int) -> Seq<char>
    decreases upto,
{
    if upto <= 0 {
        Seq::empty()
    } else {
        row_text(row, upto - 1) + row[upto - 1].symbol() + " "@
    }
}

/// A row as a line of text: its cells, followed by a line break.
pub open spec fn line_text(row: Seq<DiscType>) -> Seq<char> {
    row_text(row, row.len() as int) + "\n"@
}

/// The rows `0..upto` of a board as text: one line for each.
pub open spec fn rows_text(g: Grid, upto: int) -> Seq<char>
    decreases upto,
{
    if upto <= 0 {
        Seq::empty()
    } else {
        rows_text(g, upto - 1) + line_text(g[upto - 1])
    }
}

/// A board as text: one line for each row, the top row first, and an empty
/// line at the end.
pub open spec fn board_text(g: Grid) -> Seq<char> {
    rows_text(g, g.len() as int) + "\n"@
}

/// The board with its columns in the opposite order.
pub open spec fn mirrored(g: Grid) -> Grid {
    Seq::new(g.len(), |r: int| Seq::new(g[r].len(), |c: int| g[r][g[r].len() - 1 - c]))
}

/// A cell that is empty with only discs below it is where the search for the
/// lowest empty cell ends, from any row at or below it.
pub proof fn lemma_lowest_empty_is_landing_row(g: Grid, c: int, r: int, from: int)
    requires
        is_landing_row(g, c, r),
        r <= from < rows(g),
    ensures
        lowest_empty_from(g, c, from) == r,
    decreases from - r,
{
    if from > r {
        assert(g[from][c] != DiscType::Empty);
        lemma_lowest_empty_is_landing_row(g, c, r, from - 1);
    }
}

/// The search for the lowest empty cell finds one wherever the column has an
/// empty cell at or above the row it starts from.
pub proof fn lemma_lowest_empty_found(g: Grid, c: int, from: int, witness: int)
    requires
        0 <= witness <= from < rows(g),
        g[witness][c] == DiscType::Empty,
    ensures
        witness <= lowest_empty_from(g, c, from) <= from,
        g[lowest_empty_from(g, c, from)][c] == DiscType::Empty,
        forall|below: int|
            lowest_empty_from(g, c, from) < below <= from ==> (#[trigger] g[below][c])
                != DiscType::Empty,
    decreases from,
{
    if g[from][c] != DiscType::Empty {
        lemma_lowest_empty_found(g, c, from - 1, witness);
    }
}

/// In a column that is not full a dropped disc comes to rest in the lowest
/// empty cell of the column.
pub proof fn lemma_landing_row(g: Grid, c: int)
    requires
        rectangular(g),
        0 <= c < columns(g),
        !column_full(g, c),
    ensures
        is_landing_row(g, c, landing_row(g, c)),
{
    lemma_lowest_empty_found(g, c, rows(g) - 1, 0);
}

/// Dropping a disc keeps the board a rectangle whose discs obey gravity.
pub proof fn lemma_drop_well_formed(g: Grid, c: int, d: DiscType)
    requires
        well_formed(g),
        0 <= c < columns(g),
        !column_full(g, c),
    ensures
        well_formed(dropped(g, c, d)),
        rows(dropped(g, c, d)) == rows(g),
        columns(dropped(g, c, d)) == columns(g),
{
    lemma_landing_row(g, c);
    let r = landing_row(g, c);
    let h = dropped(g, c, d);
    assert(h.len() == g.len());
    assert forall|i: int| 0 <= i < h.len() implies (#[trigger] h[i]).len() == columns(g) by {
        assert(g[i].len() == columns(g));
    }
    assert forall|r1: int, r2: int, cc: int|
        0 <= r1 < r2 < rows(h) && 0 <= cc < columns(h) && #[trigger] h[r1][cc]
            != DiscType::Empty implies #[trigger] h[r2][cc] != DiscType::Empty by {
        assert(g[r1].len() == columns(g));
        assert(g[r2].len() == columns(g));
        if cc == c {
            if r2 == r {
                if g[r1][cc] != DiscType::Empty {
                    assert(g[r2][cc] != DiscType::Empty);
                }
            } else if r1 == r {
                assert(g[r2][c] != DiscType::Empty);
            } else {
                assert(h[r1][cc] == g[r1][cc]);
                assert(g[r2][cc] != DiscType::Empty);
            }
        } else {
            assert(h[r1][cc] == g[r1][cc]);
            assert(g[r2][cc] != DiscType::Empty);
        }
    }
}

/// Replacing one cell changes the count of discs in the rows above `upto`
/// only when the cell lies among them, and then by the difference between
/// the old and the new cell.
pub proof fn lemma_occupied_upto_with_cell(g: Grid, c: int, upto: int, r: int, cc: int, d: DiscType)
    requires
        rectangular(g),
        0 <= upto <= rows(g),
        in_grid(g, r, cc),
        0 <= c < columns(g),
    ensures
        occupied_upto(with_cell(g, r, cc, d), c, upto) + (if cc == c && r < upto && g[r][cc]
            != DiscType::Empty {
            1int
        } else {
            0int
        }) == occupied_upto(g, c, upto) + (if cc == c && r < upto && d != DiscType::Empty {
            1int
        } else {
            0int
        }),
    decreases upto,
{
    if upto > 0 {
        lemma_occupied_upto_with_cell(g, c, upto - 1, r, cc, d);
        assert(g[upto - 1].len() == columns(g));
        assert(g[r].len() == columns(g));
    }
}

/// A disc dropped into a column that is not full raises the number of discs
/// in that column by exactly one, leaves every other column as it was, and
/// fills the cell that was the lowest empty one of the column.
pub proof fn lemma_drop_adds_one_disc(g: Grid, c: int, d: DiscType)
    requires
        well_formed(g),
        0 <= c < columns(g),
        !column_full(g, c),
        d != DiscType::Empty,
    ensures
        is_landing_row(g, c, landing_row(g, c)),
        dropped(g, c, d)[landing_row(g, c)][c] == d,
        occupied(dropped(g, c, d), c) == occupied(g, c) + 1,
        forall|other: int|
            0 <= other < columns(g) && other != c ==> #[trigger] occupied(dropped(g, c, d), other)
                == occupied(g, other),
{
    lemma_landing_row(g, c);
    let r = landing_row(g, c);
    assert(g[r].len() == columns(g));
    lemma_occupied_upto_with_cell(g, c, rows(g), r, c, d);
    assert forall|other: int| 0 <= other < columns(g) && other != c implies #[trigger] occupied(
        dropped(g, c, d),
        other,
    ) == occupied(g, other) by {
        lemma_occupied_upto_with_cell(g, other, rows(g), r, c, d);
    }
}

/// Where the discs obey gravity, the discs of a column are exactly its cells
/// from some row down, so a dropped disc lands right above as many rows as
/// the column holds discs.
pub proof fn lemma_landing_row_by_count(g: Grid, c: int)
    requires
        well_formed(g),
        0 <= c < columns(g),
        !column_full(g, c),
    ensures
        landing_row(g, c) == rows(g) - 1 - occupied(g, c),
{
    lemma_landing_row(g, c);
    lemma_occupied_split(g, c, landing_row(g, c), rows(g));
}

/// With the lowest empty cell of a column in row `r`, the rows `0..upto`
/// hold no disc of that column up to and including `r`, and only discs
/// below it.
pub proof fn lemma_occupied_split(g: Grid, c: int, r: int, upto: int)
    requires
        well_formed(g),
        0 <= c < columns(g),
        is_landing_row(g, c, r),
        0 <= upto <= rows(g),
    ensures
        occupied_upto(g, c, upto) == if upto <= r + 1 {
            0int
        } else {
            upto - r - 1
        },
    decreases upto,
{
    if upto > 0 {
        lemma_occupied_split(g, c, r, upto - 1);
        if upto - 1 < r {
            if g[upto - 1][c] != DiscType::Empty {
                assert(g[r][c] != DiscType::Empty);
            }
        } else if upto - 1 > r {
            assert(g[upto - 1][c] != DiscType::Empty);
        }
    }
}

/// The columns listed as open are exactly those whose top cell is empty, and
/// they are listed in increasing order.
pub proof fn lemma_open_columns(g: Grid, upto: int)
    requires
        0 <= upto <= columns(g),
        columns(g) <= MAX_SIDE,
    ensures
        forall|i: int|
            0 <= i < open_columns_upto(g, upto).len() ==> {
                &&& 0 <= (#[trigger] open_columns_upto(g, upto)[i]) < upto
                &&& !column_full(g, open_columns_upto(g, upto)[i] as int)
            },
        forall|i: int, j: int|
            0 <= i < j < open_columns_upto(g, upto).len() ==> open_columns_upto(g, upto)[i]
                < open_columns_upto(g, upto)[j],
        forall|c: int|
            0 <= c < upto && !column_full(g, c) ==> open_columns_upto(g, upto).contains(
                c as usize,
            ),
        open_columns_upto(g, upto).len() <= upto,
    decreases upto,
{
    if upto > 0 {
        lemma_open_columns(g, upto - 1);
        let p = open_columns_upto(g, upto - 1);
        let s = open_columns_upto(g, upto);
        if !column_full(g, upto - 1) {
            assert(s == p.push((upto - 1) as usize));
            assert(s[p.len() as int] == (upto - 1) as usize);
            assert forall|c: int| 0 <= c < upto && !column_full(g, c) implies s.contains(
                c as usize,
            ) by {
                if c < upto - 1 {
                    assert(p.contains(c as usize));
                    let i = choose|i: int| 0 <= i < p.len() && p[i] == c as usize;
                    assert(s[i] == c as usize);
                } else {
                    assert(s[p.len() as int] == c as usize);
                }
            }
        } else {
            assert(s == p);
        }
    }
}

/// A board is full exactly when no column is open.
pub proof fn lemma_full_iff_no_open_column(g: Grid)
    requires
        rectangular(g),
    ensures
        full(g) <==> open_columns(g).len() == 0,
{
    lemma_open_columns(g, columns(g));
    let s = open_columns(g);
    if full(g) {
        if s.len() > 0 {
            assert(!column_full(g, s[0] as int));
        }
    } else {
        let c = choose|c: int| 0 <= c < columns(g) && !#[trigger] column_full(g, c);
        assert(s.contains(c as usize));
    }
}

/// A line that spells a word starts with the first letter of that word: T
/// for TOOT, O for OTTO.
pub proof fn lemma_word_starts_with_its_letter(g: Grid, r: int, c: int, d: Direction, word: Word)
    requires
        spells_at(g, r, c, d, word),
    ensures
        g[r][c] == match word {
            Word::Toot => DiscType::T,
            Word::Otto => DiscType::O,
        },
{
    assert(window_cell(g, r, c, d, 0) == g[r][c]);
}

/// The first cell, in reading order, from which a word is spelled fixes the
/// deciding word: no other word decides, and the board is not without words.
pub proof fn lemma_first_word_decides(g: Grid, r: int, c: int, word: Word)
    requires
        word_from(g, r, c, word),
        no_word_before(g, r, c),
    ensures
        deciding_word(g, word),
        forall|other: Word| other != word ==> !deciding_word(g, other),
        !no_word(g),
{
    let d = choose|d: Direction| #[trigger] spells_at(g, r, c, d, word);
    assert(spells_at(g, r, c, d, word));
    assert forall|other: Word| other != word implies !deciding_word(g, other) by {
        if deciding_word(g, other) {
            let (r2, c2) = choose|r2: int, c2: int|
                #![trigger word_from(g, r2, c2, other)]
                word_from(g, r2, c2, other) && no_word_before(g, r2, c2);
            let d2 = choose|d2: Direction| #[trigger] spells_at(g, r2, c2, d2, other);
            assert(spells_at(g, r2, c2, d2, other));
            if reads_before(r, c, r2, c2) {
                assert(!spells_at(g, r, c, d, word));
            } else if reads_before(r2, c2, r, c) {
                assert(!spells_at(g, r2, c2, d2, other));
            } else {
                assert(r == r2 && c == c2);
                lemma_word_starts_with_its_letter(g, r, c, d, word);
                lemma_word_starts_with_its_letter(g, r, c, d2, other);
            }
        }
    }
}

/// Where no line that starts on the board spells a word, no word decides.
pub proof fn lemma_no_word_anywhere(g: Grid)
    requires
        no_word_before(g, rows(g), 0),
    ensures
        no_word(g),
        !deciding_word(g, Word::Toot),
        !deciding_word(g, Word::Otto),
{
    assert forall|r: int, c: int, d: Direction, w: Word| !#[trigger] spells_at(g, r, c, d, w) by {
        if spells_at(g, r, c, d, w) {
            assert(reads_before(r, c, rows(g), 0));
        }
    }
    assert forall|w: Word| !deciding_word(g, w) by {
        if deciding_word(g, w) {
            let (r2, c2) = choose|r2: int, c2: int|
                #![trigger word_from(g, r2, c2, w)]
                word_from(g, r2, c2, w) && no_word_before(g, r2, c2);
            let d2 = choose|d2: Direction| #[trigger] spells_at(g, r2, c2, d2, w);
            assert(spells_at(g, r2, c2, d2, w));
        }
    }
}

/// Four cells spell a word exactly when they read T, O, O, T or O, T, T, O.
/// Every other arrangement of the two letters, and every arrangement with
/// another kind of cell in it, spells nothing.
pub proof fn lemma_only_two_words(a: DiscType, b: DiscType, c: DiscType, d: DiscType)
    ensures
        word_of((a, b, c, d)) == Some(Word::Toot) <==> (a == DiscType::T && b == DiscType::O && c
            == DiscType::O && d == DiscType::T),
        word_of((a, b, c, d)) == Some(Word::Otto) <==> (a == DiscType::O && b == DiscType::T && c
            == DiscType::T && d == DiscType::O),
        word_of((a, b, c, d)).is_none() <==> !(a == DiscType::T && b == DiscType::O && c
            == DiscType::O && d == DiscType::T) && !(a == DiscType::O && b == DiscType::T && c
            == DiscType::T && d == DiscType::O),
{
}

/// Reading the board up to a cell either meets no word or fixes the word
/// that decides the board.
proof fn lemma_scan_finds_first_word(g: Grid, r: int, c: int)
    requires
        rectangular(g),
        0 <= r < rows(g),
        0 <= c <= columns(g),
    ensures
        no_word_before(g, r, c) || deciding_word(g, Word::Toot) || deciding_word(g, Word::Otto),
    decreases r, c,
{
    if c == 0 {
        if r > 0 {
            lemma_scan_finds_first_word(g, r - 1, columns(g));
            if no_word_before(g, r - 1, columns(g)) {
                assert forall|r0: int, c0: int, d: Direction, w: Word|
                    reads_before(r0, c0, r, c) implies !#[trigger] spells_at(g, r0, c0, d, w) by {
                    if in_grid(g, r0, c0) {
                        assert(reads_before(r0, c0, r - 1, columns(g)));
                    }
                }
            }
        }
    } else {
        lemma_scan_finds_first_word(g, r, c - 1);
        if no_word_before(g, r, c - 1) {
            if word_from(g, r, c - 1, Word::Toot) {
                lemma_first_word_decides(g, r, c - 1, Word::Toot);
            } else if word_from(g, r, c - 1, Word::Otto) {
                lemma_first_word_decides(g, r, c - 1, Word::Otto);
            } else {
                assert forall|r0: int, c0: int, d: Direction, w: Word|
                    reads_before(r0, c0, r, c) implies !#[trigger] spells_at(g, r0, c0, d, w) by {
                    if r0 == r && c0 == c - 1 {
                        if spells_at(g, r0, c0, d, w) {
                            assert(word_from(g, r, c - 1, w));
                        }
                    } else {
                        assert(reads_before(r0, c0, r, c - 1));
                    }
                }
            }
        }
    }
}

/// A word decides the board exactly when some line of four cells on it, in
/// any of the four directions, reads T, O, O, T or O, T, T, O. No other
/// content of a line makes the board decided.
pub proof fn lemma_decided_iff_some_line_spells(g: Grid)
    requires
        rectangular(g),
    ensures
        (deciding_word(g, Word::Toot) || deciding_word(g, Word::Otto)) <==> (exists|
            r: int,
            c: int,
            d: Direction,
        |
            #![trigger window(g, r, c, d)]
            window_fits(g, r, c, d) && (window(g, r, c, d) == (
                DiscType::T,
                DiscType::O,
                DiscType::O,
                DiscType::T,
            ) || window(g, r, c, d) == (DiscType::O, DiscType::T, DiscType::T, DiscType::O))),
        (deciding_word(g, Word::Toot) || deciding_word(g, Word::Otto)) <==> !no_word(g),
        !(deciding_word(g, Word::Toot) && deciding_word(g, Word::Otto)),
{
    let toot = (DiscType::T, DiscType::O, DiscType::O, DiscType::T);
    let otto = (DiscType::O, DiscType::T, DiscType::T, DiscType::O);
    let some_line = exists|r: int, c: int, d: Direction|
        #![trigger window(g, r, c, d)]
        window_fits(g, r, c, d) && (window(g, r, c, d) == toot || window(g, r, c, d) == otto);
    if deciding_word(g, Word::Toot) || deciding_word(g, Word::Otto) {
        let w = if deciding_word(g, Word::Toot) {
            Word::Toot
        } else {
            Word::Otto
        };
        let (r, c) = choose|r: int, c: int|
            #![trigger word_from(g, r, c, w)]
            word_from(g, r, c, w) && no_word_before(g, r, c);
        let d = choose|d: Direction| #[trigger] spells_at(g, r, c, d, w);
        assert(spells_at(g, r, c, d, w));
        assert(window_fits(g, r, c, d) && (window(g, r, c, d) == toot || window(g, r, c, d)
            == otto));
        lemma_first_word_decides(g, r, c, w);
    }
    if some_line {
        let (r, c, d) = choose|r: int, c: int, d: Direction|
            #![trigger window(g, r, c, d)]
            window_fits(g, r, c, d) && (window(g, r, c, d) == toot || window(g, r, c, d) == otto);
        let w = if window(g, r, c, d) == toot {
            Word::Toot
        } else {
            Word::Otto
        };
        assert(spells_at(g, r, c, d, w));
        assert(!no_word(g));
    }
    if !no_word(g) {
        let (r, c, d, w) = choose|r: int, c: int, d: Direction, w: Word| #[trigger]
            spells_at(g, r, c, d, w);
        assert(window_fits(g, r, c, d) && (window(g, r, c, d) == toot || window(g, r, c, d)
            == otto));
        lemma_scan_finds_first_word(g, rows(g) - 1, columns(g));
        if no_word_before(g, rows(g) - 1, columns(g)) {
            assert(reads_before(r, c, rows(g) - 1, columns(g)));
        }
    }
}

/// The mirror image of a rectangle is a rectangle of the same size, gravity
/// holds in it where it held before, and mirroring twice gives the board
/// back.
pub proof fn lemma_mirrored_shape(g: Grid)
    requires
        rectangular(g),
    ensures
        rectangular(mirrored(g)),
        rows(mirrored(g)) == rows(g),
        columns(mirrored(g)) == columns(g),
        settled(g) ==> settled(mirrored(g)),
        mirrored(mirrored(g)) == g,
        forall|r: int, c: int|
            in_grid(g, r, c) ==> #[trigger] mirrored(g)[r][c] == g[r][columns(g) - 1 - c],
{
    let m = mirrored(g);
    assert(g[0].len() == columns(g));
    assert forall|r: int| 0 <= r < m.len() implies (#[trigger] m[r]).len() == columns(g) by {
        assert(g[r].len() == columns(g));
    }
    assert forall|r: int, c: int| in_grid(g, r, c) implies #[trigger] m[r][c] == g[r][columns(g)
        - 1 - c] by {
        assert(g[r].len() == columns(g));
    }
    if settled(g) {
        assert forall|r1: int, r2: int, c: int|
            0 <= r1 < r2 < rows(m) && 0 <= c < columns(m) && #[trigger] m[r1][c]
                != DiscType::Empty implies #[trigger] m[r2][c] != DiscType::Empty by {
            assert(m[r1][c] == g[r1][columns(g) - 1 - c]);
            assert(m[r2][c] == g[r2][columns(g) - 1 - c]);
        }
    }
    let mm = mirrored(m);
    assert forall|r: int| 0 <= r < g.len() implies #[trigger] mm[r] =~= g[r] by {
        assert(g[r].len() == columns(g));
        assert(m[r].len() == columns(g));
        assert forall|c: int| 0 <= c < columns(g) implies mm[r][c] == g[r][c] by {
            assert(in_grid(g, r, columns(g) - 1 - c));
            assert(m[r][columns(g) - 1 - c] == g[r][columns(g) - 1 - (columns(g) - 1 - c)]);
        }
    }
    assert(mm =~= g);
}

/// A line of four equal discs on a board appears on the mirrored board too.
proof fn lemma_four_survives_mirror(g: Grid, disc: DiscType)
    requires
        rectangular(g),
        has_four(g, disc),
    ensures
        has_four(mirrored(g), disc),
{
    lemma_mirrored_shape(g);
    let m = mirrored(g);
    let w = columns(g);
    let (r, c, d) = choose|r: int, c: int, d: Direction| #[trigger] four_at(g, r, c, d, disc);
    assert(four_at(g, r, c, d, disc));
    match d {
        Direction::Right => {
            assert(in_grid(g, r, w - 4 - c) && in_grid(g, r, w - 3 - c) && in_grid(
                g,
                r,
                w - 2 - c,
            ) && in_grid(g, r, w - 1 - c));
            assert(four_at(m, r, w - 4 - c, Direction::Right, disc));
        },
        Direction::Down => {
            assert(in_grid(g, r, w - 1 - c) && in_grid(g, r + 1, w - 1 - c) && in_grid(
                g,
                r + 2,
                w - 1 - c,
            ) && in_grid(g, r + 3, w - 1 - c));
            assert(four_at(m, r, w - 1 - c, Direction::Down, disc));
        },
        Direction::DownRight => {
            assert(in_grid(g, r + 3, w - 4 - c) && in_grid(g, r + 2, w - 3 - c) && in_grid(
                g,
                r + 1,
                w - 2 - c,
            ) && in_grid(g, r, w - 1 - c));
            assert(four_at(m, r + 3, w - 4 - c, Direction::UpRight, disc));
        },
        Direction::UpRight => {
            assert(in_grid(g, r - 3, w - 4 - c) && in_grid(g, r - 2, w - 3 - c) && in_grid(
                g,
                r - 1,
                w - 2 - c,
            ) && in_grid(g, r, w - 1 - c));
            assert(four_at(m, r - 3, w - 4 - c, Direction::DownRight, disc));
        },
    }
}

/// Four in a row does not depend on which side of the board is left: a board
/// and its mirror image hold a line of four discs of a kind, or both hold
/// none. So both report the same winner.
pub proof fn lemma_mirror_keeps_four(g: Grid, disc: DiscType)
    requires
        rectangular(g),
    ensures
        has_four(mirrored(g), disc) == has_four(g, disc),
{
    lemma_mirrored_shape(g);
    if has_four(g, disc) {
        lemma_four_survives_mirror(g, disc);
    }
    if has_four(mirrored(g), disc) {
        lemma_four_survives_mirror(mirrored(g), disc);
    }
}

/// The rows `0..upto` of a column hold at most `upto` discs.
pub proof fn lemma_occupied_bound(g: Grid, c: int, upto: int)
    requires
        0 <= upto,
    ensures
        occupied_upto(g, c, upto) <= upto,
    decreases upto,
{
    if upto > 0 {
        lemma_occupied_bound(g, c, upto - 1);
    }
}

/// The columns `0..upto` of a board hold at most `MAX_SIDE` discs each.
pub proof fn lemma_discs_bound(g: Grid, upto: int)
    requires
        rectangular(g),
        0 <= upto,
    ensures
        discs_upto(g, upto) <= MAX_SIDE * upto,
    decreases upto,
{
    if upto > 0 {
        lemma_discs_bound(g, upto - 1);
        lemma_occupied_bound(g, upto - 1, rows(g));
    }
}

/// A board never holds more than 1024 discs.
pub proof fn lemma_total_bound(g: Grid)
    requires
        rectangular(g),
    ensures
        total_discs(g) <= 1024,
{
    lemma_discs_bound(g, columns(g));
}

/// A dropped disc raises the number of discs in the columns `0..upto` by
/// one where its column is among them, and leaves it as it was where not.
proof fn lemma_discs_upto_dropped(g: Grid, c: int, d: DiscType, upto: int)
    requires
        well_formed(g),
        0 <= c < columns(g),
        !column_full(g, c),
        d != DiscType::Empty,
        0 <= upto <= columns(g),
    ensures
        discs_upto(dropped(g, c, d), upto) == discs_upto(g, upto) + if c < upto {
            1int
        } else {
            0int
        },
    decreases upto,
{
    if upto > 0 {
        lemma_discs_upto_dropped(g, c, d, upto - 1);
        lemma_drop_adds_one_disc(g, c, d);
        if upto - 1 != c {
            assert(occupied(dropped(g, c, d), upto - 1) == occupied(g, upto - 1));
        }
    }
}

/// A dropped disc raises the number of discs on the board by one.
pub proof fn lemma_drop_adds_to_total(g: Grid, c: int, d: DiscType)
    requires
        well_formed(g),
        0 <= c < columns(g),
        !column_full(g, c),
        d != DiscType::Empty,
    ensures
        total_discs(dropped(g, c, d)) == total_discs(g) + 1,
{
    lemma_drop_well_formed(g, c, d);
    lemma_discs_upto_dropped(g, c, d, columns(g));
}

/// An empty board of a permitted size is well formed and holds no disc, no
/// line of four discs and no word.
pub proof fn lemma_empty_grid(height: int, width: int)
    requires
        1 <= height <= MAX_SIDE,
        1 <= width <= MAX_SIDE,
    ensures
        well_formed(empty_grid(height, width)),
        rows(empty_grid(height, width)) == height,
        columns(empty_grid(height, width)) == width,
        total_discs(empty_grid(height, width)) == 0,
        !full(empty_grid(height, width)),
        no_word(empty_grid(height, width)),
        forall|disc: DiscType|
            disc != DiscType::Empty ==> !#[trigger] has_four(empty_grid(height, width), disc),
{
    let g = empty_grid(height, width);
    assert(!column_full(g, 0));
    assert forall|disc: DiscType| disc != DiscType::Empty implies !#[trigger] has_four(
        g,
        disc,
    ) by {
        if has_four(g, disc) {
            let (r, c, d) = choose|r: int, c: int, d: Direction| #[trigger]
                four_at(g, r, c, d, disc);
            assert(g[r][c] == DiscType::Empty);
        }
    }
    assert forall|r: int, c: int, d: Direction, w: Word| !#[trigger] spells_at(g, r, c, d, w) by {
        if window_fits(g, r, c, d) {
            assert(g[r][c] == DiscType::Empty);
        }
    }
    lemma_empty_discs(height, width, width);
}

/// The columns `0..upto` of an empty board hold no disc.
proof fn lemma_empty_discs(height: int, width: int, upto: int)
    requires
        1 <= height <= MAX_SIDE,
        1 <= width <= MAX_SIDE,
        0 <= upto <= width,
    ensures
        discs_upto(empty_grid(height, width), upto) == 0,
    decreases upto,
{
    if upto > 0 {
        lemma_empty_discs(height, width, upto - 1);
        lemma_empty_column(height, width, upto - 1, height);
    }
}

/// The rows `0..upto` of a column of an empty board hold no disc.
proof fn lemma_empty_column(height: int, width: int, c: int, upto: int)
    requires
        1 <= height <= MAX_SIDE,
        1 <= width <= MAX_SIDE,
        0 <= c < width,
        0 <= upto <= height,
    ensures
        occupied_upto(empty_grid(height, width), c, upto) == 0,
    decreases upto,
{
    if upto > 0 {
        lemma_empty_column(height, width, c, upto - 1);
    }
}

/// A dropped disc completes no line of discs of another kind: a line of four
/// discs `other` on the board after the drop was there before.
pub proof fn lemma_drop_adds_no_foreign_line(g: Grid, c: int, d: DiscType, other: DiscType)
    requires
        well_formed(g),
        0 <= c < columns(g),
        !column_full(g, c),
        d != other,
        has_four(dropped(g, c, d), other),
    ensures
        has_four(g, other),
{
    lemma_landing_row(g, c);
    lemma_drop_well_formed(g, c, d);
    let h = dropped(g, c, d);
    let row = landing_row(g, c);
    let (r, cc, dir) = choose|r: int, cc: int, dir: Direction| #[trigger]
        four_at(h, r, cc, dir, other);
    assert(h[row][c] == d) by {
        assert(g[row].len() == columns(g));
    }
    assert forall|k: int| 0 <= k < 4 implies window_cell(g, r, cc, dir, k) == window_cell(
        h,
        r,
        cc,
        dir,
        k,
    ) by {
        let (lr, lc) = (line_row(r, dir, k), line_column(cc, dir, k));
        assert(in_grid(g, lr, lc));
        assert(g[lr].len() == columns(g));
        assert(window_cell(h, r, cc, dir, k) == other);
    }
    assert(window_cell(g, r, cc, dir, 0) == window_cell(h, r, cc, dir, 0));
    assert(window_cell(g, r, cc, dir, 1) == window_cell(h, r, cc, dir, 1));
    assert(window_cell(g, r, cc, dir, 2) == window_cell(h, r, cc, dir, 2));
    assert(window_cell(g, r, cc, dir, 3) == window_cell(h, r, cc, dir, 3));
    assert(four_at(g, r, cc, dir, other));
}

/// Dropping one of two kinds of disc onto a board that holds only those
/// kinds gives a board that holds only those kinds.
pub proof fn lemma_drop_keeps_family(g: Grid, c: int, d: DiscType, a: DiscType, b: DiscType)
    requires
        well_formed(g),
        0 <= c < columns(g),
        !column_full(g, c),
        only_discs(g, a, b),
        d == a || d == b,
    ensures
        only_discs(dropped(g, c, d), a, b),
{
    lemma_landing_row(g, c);
    lemma_drop_well_formed(g, c, d);
    let h = dropped(g, c, d);
    assert forall|r: int, cc: int| in_grid(h, r, cc) implies {
        let x = #[trigger] h[r][cc];
        x == DiscType::Empty || x == a || x == b
    } by {
        assert(in_grid(g, r, cc));
        assert(g[r].len() == columns(g));
        let y = g[r][cc];
        assert(y == DiscType::Empty || y == a || y == b);
    }
}

} // verus!
