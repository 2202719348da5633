//! Boards as the move search sees them: a matrix of +1, -1 and 0, and what a
//! position is worth.

use vstd::prelude::*;
use crate::board::Board;
use crate::disc::DiscType;
use crate::grid::{
    column_full, columns, dropped, four_at, has_four, in_grid, landing_row,
    lemma_drop_well_formed, lemma_landing_row, line_column, line_row, lowest_empty_from,
    only_discs, rectangular, rows, spells_at, well_formed, window_fits, with_cell, Direction,
    Grid, Word, MAX_SIDE,
};

verus! {

/// A board as a matrix of numbers: +1 and -1 for the discs of the two kinds,
/// 0 for an empty cell. Row 0 is the top row.
pub type Scores = Seq<Seq<i64>>;

/// The matrix that a vector of rows stands for.
pub open spec fn scores_of(state: Vec<Vec<i64>>) -> Scores {
    Seq::new(state@.len(), |r: int| state@[r]@)
}

/// `s` is a rectangle of at least one and at most `MAX_SIDE` rows and
/// columns, and each of its cells holds +1, -1 or 0.
pub open spec fn valid_scores(s: Scores) -> bool {
    &&& 1 <= rows(s) <= MAX_SIDE
    &&& 1 <= columns(s) <= MAX_SIDE
    &&& forall|r: int| 0 <= r < s.len() ==> (#[trigger] s[r]).len() == columns(s)
    &&& forall|r: int, c: int| in_grid(s, r, c) ==> -1 <= #[trigger] s[r][c] <= 1
}

/// The number that stands for a disc: +1 for `plus`, -1 for `minus`, 0 for
/// anything else.
pub open spec fn code_of(d: DiscType, plus: DiscType, minus: DiscType) -> i64 {
    if d == plus {
        1i64
    } else if d == minus {
        -1i64
    } else {
        0i64
    }
}

/// The matrix that stands for a board: each cell replaced by its number.
pub open spec fn encoded(g: Grid, plus: DiscType, minus: DiscType) -> Scores {
    Seq::new(g.len(), |r: int| Seq::new(g[r].len(), |c: int| code_of(g[r][c], plus, minus)))
}

/// Column `c` of `s` takes another disc: its top cell is empty.
pub open spec fn column_open(s: Scores, c: int) -> bool {
    0 <= c < columns(s) && s[0][c] == 0
}

/// No column of `s` takes another disc.
pub open spec fn no_column_open(s: Scores) -> bool {
    forall|c: int| !#[trigger] column_open(s, c)
}

/// The lowest empty cell of column `c` at or above row `from`, or -1 when
/// there is none.
pub open spec fn lowest_zero_from(s: Scores, c: int, from: int) -> int
    decreases from + 1,
{
    if from < 0 {
        -1
    } else if s[from][c] == 0 {
        from
    } else {
        lowest_zero_from(s, c, from - 1)
    }
}

/// The matrix after the number `v` has been dropped into column `c`: it
/// replaces the lowest empty cell of that column.
pub open spec fn filled(s: Scores, c: int, v: i64) -> Scores {
    with_cell(s, lowest_zero_from(s, c, rows(s) - 1), c, v)
}

/// The number `x` as it counts in the `k`-th cell of a line of four. In the
/// four-in-a-row game every cell counts as it is. In the spelling game the
/// two outer cells count with the opposite sign, so that O, T, T, O adds up
/// to 4 and T, O, O, T to -4.
pub open spec fn weighted(spelling: bool, k: int, x: int) -> int {
    if spelling && (k == 0 || k == 3) {
        -x
    } else {
        x
    }
}

/// The weighted number in the `k`-th cell of the line from `(r, c)` in
/// direction `d`.
pub open spec fn weighted_cell(
    s: Scores,
    spelling: bool,
    r: int,
    c: int,
    d: Direction,
    k: int,
) -> int {
    weighted(spelling, k, s[line_row(r, d, k)][line_column(c, d, k)] as int)
}

/// The weighted sum of the four cells of the line from `(r, c)` in direction
/// `d`; 0 where that line leaves the board.
pub open spec fn window_total(s: Scores, spelling: bool, r: int, c: int, d: Direction) -> int {
    if window_fits(s, r, c, d) {
        weighted_cell(s, spelling, r, c, d, 0) + weighted_cell(s, spelling, r, c, d, 1)
            + weighted_cell(s, spelling, r, c, d, 2) + weighted_cell(s, spelling, r, c, d, 3)
    } else {
        0
    }
}

/// The third power of `x`.
pub open spec fn cube(x: int) -> int {
    x * x * x
}

/// What the four lines that start at `(r, c)` add to the chain value: the
/// sum of the cubes of their totals.
pub open spec fn cell_chain(s: Scores, spelling: bool, r: int, c: int) -> int {
    cube(window_total(s, spelling, r, c, Direction::Right)) + cube(
        window_total(s, spelling, r, c, Direction::Down),
    ) + cube(window_total(s, spelling, r, c, Direction::DownRight)) + cube(
        window_total(s, spelling, r, c, Direction::UpRight),
    )
}

/// The total, 4 or -4, of a complete line that starts at `(r, c)`, or 0
/// where no line from that cell is complete. Where several are, the first
/// of right, down, down-right, up-right counts.
pub open spec fn cell_win(s: Scores, spelling: bool, r: int, c: int) -> int {
    let right = window_total(s, spelling, r, c, Direction::Right);
    let down = window_total(s, spelling, r, c, Direction::Down);
    let down_right = window_total(s, spelling, r, c, Direction::DownRight);
    let up_right = window_total(s, spelling, r, c, Direction::UpRight);
    if right == 4 || right == -4 {
        right
    } else if down == 4 || down == -4 {
        down
    } else if down_right == 4 || down_right == -4 {
        down_right
    } else if up_right == 4 || up_right == -4 {
        up_right
    } else {
        0
    }
}

/// Chain value of the cells `0..upto` of row `r`.
pub open spec fn row_chain(s: Scores, spelling: bool, r: int, upto: int) -> int
    decreases upto,
{
    if upto <= 0 {
        0
    } else {
        row_chain(s, spelling, r, upto - 1) + cell_chain(s, spelling, r, upto - 1)
    }
}

/// Chain value of the rows `0..upto`.
pub open spec fn grid_chain(s: Scores, spelling: bool, upto: int) -> int
    decreases upto,
{
    if upto <= 0 {
        0
    } else {
        grid_chain(s, spelling, upto - 1) + row_chain(s, spelling, upto - 1, columns(s))
    }
}

/// The chain value of a position: the sum, over every line of four cells on
/// the board, of the cube of the line's total. Lines held by one side alone
/// weigh more than proportionally; lines that both sides share weigh little.
pub open spec fn chain_value(s: Scores, spelling: bool) -> int {
    grid_chain(s, spelling, rows(s))
}

/// The win total of the last cell among `0..upto` of row `r` from which a
/// complete line starts, or 0 where there is none.
pub open spec fn row_win(s: Scores, spelling: bool, r: int, upto: int) -> int
    decreases upto,
{
    if upto <= 0 {
        0
    } else if cell_win(s, spelling, r, upto - 1) != 0 {
        cell_win(s, spelling, r, upto - 1)
    } else {
        row_win(s, spelling, r, upto - 1)
    }
}

/// The win total of the last cell, in reading order, of the rows `0..upto`
/// from which a complete line starts, or 0 where there is none.
pub open spec fn grid_win(s: Scores, spelling: bool, upto: int) -> int
    decreases upto,
{
    if upto <= 0 {
        0
    } else if row_win(s, spelling, upto - 1, columns(s)) != 0 {
        row_win(s, spelling, upto - 1, columns(s))
    } else {
        grid_win(s, spelling, upto - 1)
    }
}

/// The win value of a position: 4 or -4 where a line of four on the board is
/// complete, by the side whose line it is, and 0 where none is. Where several
/// lines are complete, the one that starts last in reading order counts.
pub open spec fn win_value(s: Scores, spelling: bool) -> int {
    grid_win(s, spelling, rows(s))
}

/// The total of a line lies between -4 and 4.
pub proof fn lemma_window_total_range(s: Scores, spelling: bool, r: int, c: int, d: Direction)
    requires
        valid_scores(s),
    ensures
        -4 <= window_total(s, spelling, r, c, d) <= 4,
{
    if window_fits(s, r, c, d) {
        assert(in_grid(s, line_row(r, d, 0), line_column(c, d, 0)));
        assert(in_grid(s, line_row(r, d, 1), line_column(c, d, 1)));
        assert(in_grid(s, line_row(r, d, 2), line_column(c, d, 2)));
        assert(in_grid(s, line_row(r, d, 3), line_column(c, d, 3)));
    }
}

/// The cube of a number between -4 and 4 lies between -64 and 64.
pub proof fn lemma_cube_range(x: int)
    requires
        -4 <= x <= 4,
    ensures
        -64 <= cube(x) <= 64,
        cube(x) == x * x * x,
        0 <= x * x <= 16,
{
    assert(0 <= x * x <= 16) by (nonlinear_arith)
        requires
            -4 <= x <= 4,
    ;
    assert(-64 <= x * x * x <= 64) by (nonlinear_arith)
        requires
            -4 <= x <= 4,
            0 <= x * x <= 16,
    ;
}

/// The four lines from one cell add between -256 and 256 to the chain
/// value, and the win total of a cell is 4, -4 or 0.
pub proof fn lemma_cell_range(s: Scores, spelling: bool, r: int, c: int)
    requires
        valid_scores(s),
    ensures
        -256 <= cell_chain(s, spelling, r, c) <= 256,
        cell_win(s, spelling, r, c) == 4 || cell_win(s, spelling, r, c) == -4 || cell_win(
            s,
            spelling,
            r,
            c,
        ) == 0,
{
    lemma_window_total_range(s, spelling, r, c, Direction::Right);
    lemma_window_total_range(s, spelling, r, c, Direction::Down);
    lemma_window_total_range(s, spelling, r, c, Direction::DownRight);
    lemma_window_total_range(s, spelling, r, c, Direction::UpRight);
    lemma_cube_range(window_total(s, spelling, r, c, Direction::Right));
    lemma_cube_range(window_total(s, spelling, r, c, Direction::Down));
    lemma_cube_range(window_total(s, spelling, r, c, Direction::DownRight));
    lemma_cube_range(window_total(s, spelling, r, c, Direction::UpRight));
}

/// Bounds of the chain value and of the win total of a part of a row.
pub proof fn lemma_row_range(s: Scores, spelling: bool, r: int, upto: int)
    requires
        valid_scores(s),
        0 <= upto,
    ensures
        -256 * upto <= row_chain(s, spelling, r, upto) <= 256 * upto,
        row_win(s, spelling, r, upto) == 4 || row_win(s, spelling, r, upto) == -4 || row_win(
            s,
            spelling,
            r,
            upto,
        ) == 0,
    decreases upto,
{
    if upto > 0 {
        lemma_row_range(s, spelling, r, upto - 1);
        lemma_cell_range(s, spelling, r, upto - 1);
    }
}

/// Bounds of the chain value and of the win total of the top rows.
pub proof fn lemma_grid_range(s: Scores, spelling: bool, upto: int)
    requires
        valid_scores(s),
        0 <= upto,
    ensures
        -8192 * upto <= grid_chain(s, spelling, upto) <= 8192 * upto,
        grid_win(s, spelling, upto) == 4 || grid_win(s, spelling, upto) == -4 || grid_win(
            s,
            spelling,
            upto,
        ) == 0,
    decreases upto,
{
    if upto > 0 {
        lemma_grid_range(s, spelling, upto - 1);
        lemma_row_range(s, spelling, upto - 1, columns(s));
    }
}

/// The chain value of a position is at most 262144 in size, far below the
/// reward of a win, and its win value is 4, -4 or 0.
pub proof fn lemma_value_range(s: Scores, spelling: bool)
    requires
        valid_scores(s),
    ensures
        -262144 <= chain_value(s, spelling) <= 262144,
        win_value(s, spelling) == 4 || win_value(s, spelling) == -4 || win_value(s, spelling)
            == 0,
{
    lemma_grid_range(s, spelling, rows(s));
}

/// In a column whose top cell is empty the search for the lowest empty cell
/// ends in an empty cell with only occupied cells below it.
pub proof fn lemma_lowest_zero(s: Scores, c: int, from: int)
    requires
        0 <= from < rows(s),
        s[0][c] == 0,
    ensures
        0 <= lowest_zero_from(s, c, from) <= from,
        s[lowest_zero_from(s, c, from)][c] == 0,
        forall|below: int|
            lowest_zero_from(s, c, from) < below <= from ==> (#[trigger] s[below][c]) != 0,
    decreases from,
{
    if s[from][c] != 0 {
        lemma_lowest_zero(s, c, from - 1);
    }
}

/// An empty cell with only occupied cells below it is where the search for
/// the lowest empty cell ends.
pub proof fn lemma_lowest_zero_is(s: Scores, c: int, r: int, from: int)
    requires
        0 <= r <= from < rows(s),
        s[r][c] == 0,
        forall|below: int| r < below <= from ==> (#[trigger] s[below][c]) != 0,
    ensures
        lowest_zero_from(s, c, from) == r,
    decreases from - r,
{
    if from > r {
        assert(s[from][c] != 0);
        lemma_lowest_zero_is(s, c, r, from - 1);
    }
}

/// Dropping +1 or -1 into an open column gives a valid matrix of the same
/// size.
pub proof fn lemma_filled_valid(s: Scores, c: int, v: i64)
    requires
        valid_scores(s),
        column_open(s, c),
        -1 <= v <= 1,
    ensures
        valid_scores(filled(s, c, v)),
        rows(filled(s, c, v)) == rows(s),
        columns(filled(s, c, v)) == columns(s),
{
    lemma_lowest_zero(s, c, rows(s) - 1);
    let r = lowest_zero_from(s, c, rows(s) - 1);
    let t = filled(s, c, v);
    assert(s[r].len() == columns(s));
    assert(s[0].len() == columns(s));
    assert forall|i: int| 0 <= i < t.len() implies (#[trigger] t[i]).len() == columns(s) by {
        assert(s[i].len() == columns(s));
    }
    assert forall|i: int, j: int| in_grid(t, i, j) implies -1 <= #[trigger] t[i][j] <= 1 by {
        assert(in_grid(s, i, j));
        assert(-1 <= s[i][j] <= 1);
    }
}

/// The matrix that stands for a board is valid and has the board's size, and
/// its columns are open where the board's are.
pub proof fn lemma_encoded_valid(g: Grid, plus: DiscType, minus: DiscType)
    requires
        rectangular(g),
        plus != DiscType::Empty,
        minus != DiscType::Empty,
    ensures
        valid_scores(encoded(g, plus, minus)),
        rows(encoded(g, plus, minus)) == rows(g),
        columns(encoded(g, plus, minus)) == columns(g),
        forall|r: int, c: int|
            in_grid(g, r, c) ==> #[trigger] encoded(g, plus, minus)[r][c] == code_of(
                g[r][c],
                plus,
                minus,
            ),
{
    let s = encoded(g, plus, minus);
    assert(g[0].len() == columns(g));
    assert forall|r: int| 0 <= r < s.len() implies (#[trigger] s[r]).len() == columns(g) by {
        assert(g[r].len() == columns(g));
    }
    assert forall|r: int, c: int| in_grid(g, r, c) implies #[trigger] s[r][c] == code_of(
        g[r][c],
        plus,
        minus,
    ) by {
        assert(g[r].len() == columns(g));
    }
}

/// Some line of four cells on the board has the given total.
pub open spec fn has_line(s: Scores, spelling: bool, total: int) -> bool {
    exists|r: int, c: int, d: Direction| #[trigger] window_total(s, spelling, r, c, d) == total
}

/// The win total of a cell is the total of some line from it, where it is
/// not 0, and it is 0 only where no line from the cell has the total 4 or -4.
pub proof fn lemma_cell_win(s: Scores, spelling: bool, r: int, c: int)
    ensures
        cell_win(s, spelling, r, c) != 0 ==> (cell_win(s, spelling, r, c) == 4 || cell_win(
            s,
            spelling,
            r,
            c,
        ) == -4) && has_line(s, spelling, cell_win(s, spelling, r, c)),
        cell_win(s, spelling, r, c) == 0 ==> forall|d: Direction|
            #![trigger window_total(s, spelling, r, c, d)]
            window_total(s, spelling, r, c, d) != 4 && window_total(s, spelling, r, c, d) != -4,
{
    let w = cell_win(s, spelling, r, c);
    if w != 0 {
        let d = if window_total(s, spelling, r, c, Direction::Right) == w {
            Direction::Right
        } else if window_total(s, spelling, r, c, Direction::Down) == w {
            Direction::Down
        } else if window_total(s, spelling, r, c, Direction::DownRight) == w {
            Direction::DownRight
        } else {
            Direction::UpRight
        };
        assert(window_total(s, spelling, r, c, d) == w);
    } else {
        assert forall|d: Direction|
            #![trigger window_total(s, spelling, r, c, d)]
            window_total(s, spelling, r, c, d) != 4 && window_total(s, spelling, r, c, d)
                != -4 by {
            match d {
                Direction::Right => {},
                Direction::Down => {},
                Direction::DownRight => {},
                Direction::UpRight => {},
            }
        }
    }
}

/// The win total of a part of a row is the total of some line on the board,
/// where it is not 0, and it is 0 only where no cell of the part has a win
/// total.
pub proof fn lemma_row_win(s: Scores, spelling: bool, r: int, upto: int)
    ensures
        row_win(s, spelling, r, upto) != 0 ==> (row_win(s, spelling, r, upto) == 4 || row_win(
            s,
            spelling,
            r,
            upto,
        ) == -4) && has_line(s, spelling, row_win(s, spelling, r, upto)),
        row_win(s, spelling, r, upto) == 0 ==> forall|c: int|
            0 <= c < upto ==> #[trigger] cell_win(s, spelling, r, c) == 0,
    decreases upto,
{
    if upto > 0 {
        lemma_row_win(s, spelling, r, upto - 1);
        lemma_cell_win(s, spelling, r, upto - 1);
    }
}

/// The win total of the top rows is the total of some line on the board,
/// where it is not 0, and it is 0 only where no cell of those rows has a win
/// total.
pub proof fn lemma_grid_win(s: Scores, spelling: bool, upto: int)
    ensures
        grid_win(s, spelling, upto) != 0 ==> (grid_win(s, spelling, upto) == 4 || grid_win(
            s,
            spelling,
            upto,
        ) == -4) && has_line(s, spelling, grid_win(s, spelling, upto)),
        grid_win(s, spelling, upto) == 0 ==> forall|r: int, c: int|
            0 <= r < upto && 0 <= c < columns(s) ==> #[trigger] cell_win(s, spelling, r, c) == 0,
    decreases upto,
{
    if upto > 0 {
        lemma_grid_win(s, spelling, upto - 1);
        lemma_row_win(s, spelling, upto - 1, columns(s));
    }
}

/// What the win value of a position says about the board.
///
/// It is 4 or -4 only where some line has that total, and 0 exactly where no
/// line has the total 4 or -4. So where lines of one total only are complete,
/// the win value is that total.
pub proof fn lemma_win_value(s: Scores, spelling: bool)
    requires
        valid_scores(s),
    ensures
        win_value(s, spelling) == 4 ==> has_line(s, spelling, 4),
        win_value(s, spelling) == -4 ==> has_line(s, spelling, -4),
        win_value(s, spelling) == 0 <==> !has_line(s, spelling, 4) && !has_line(s, spelling, -4),
        win_value(s, spelling) == 4 || win_value(s, spelling) == -4 || win_value(s, spelling)
            == 0,
{
    lemma_grid_win(s, spelling, rows(s));
    lemma_value_range(s, spelling);
    if win_value(s, spelling) == 0 {
        assert forall|total: int| total == 4 || total == -4 implies !has_line(
            s,
            spelling,
            total,
        ) by {
            if has_line(s, spelling, total) {
                let (r, c, d) = choose|r: int, c: int, d: Direction| #[trigger]
                    window_total(s, spelling, r, c, d) == total;
                assert(window_fits(s, r, c, d));
                assert(cell_win(s, spelling, r, c) == 0);
                lemma_cell_win(s, spelling, r, c);
                assert(window_total(s, spelling, r, c, d) != total);
            }
        }
        assert(!has_line(s, spelling, 4));
        assert(!has_line(s, spelling, -4));
    }
}

/// In the four-in-a-row game a line has the total 4 exactly where its four
/// cells hold +1, and the total -4 exactly where they hold -1.
pub proof fn lemma_total_of_equal_cells(s: Scores, r: int, c: int, d: Direction, x: int)
    requires
        valid_scores(s),
        window_fits(s, r, c, d),
        x == 1 || x == -1,
    ensures
        window_total(s, false, r, c, d) == 4 * x <==> {
            &&& s[line_row(r, d, 0)][line_column(c, d, 0)] == x
            &&& s[line_row(r, d, 1)][line_column(c, d, 1)] == x
            &&& s[line_row(r, d, 2)][line_column(c, d, 2)] == x
            &&& s[line_row(r, d, 3)][line_column(c, d, 3)] == x
        },
{
    assert(in_grid(s, line_row(r, d, 0), line_column(c, d, 0)));
    assert(in_grid(s, line_row(r, d, 1), line_column(c, d, 1)));
    assert(in_grid(s, line_row(r, d, 2), line_column(c, d, 2)));
    assert(in_grid(s, line_row(r, d, 3), line_column(c, d, 3)));
}

/// The board that a matrix of the four-in-a-row game stands for shows four
/// discs `plus` in a line exactly where the matrix has a line with the total
/// 4, and four discs `minus` in a line exactly where it has one with the
/// total -4.
pub proof fn lemma_encoded_lines(g: Grid, plus: DiscType, minus: DiscType)
    requires
        rectangular(g),
        plus != DiscType::Empty,
        minus != DiscType::Empty,
        plus != minus,
    ensures
        has_line(encoded(g, plus, minus), false, 4) == has_four(g, plus),
        has_line(encoded(g, plus, minus), false, -4) == has_four(g, minus),
{
    let s = encoded(g, plus, minus);
    lemma_encoded_valid(g, plus, minus);
    assert forall|r: int, c: int, d: Direction| #[trigger]
        window_fits(g, r, c, d) implies (window_total(s, false, r, c, d) == 4) == four_at(
        g,
        r,
        c,
        d,
        plus,
    ) && (window_total(s, false, r, c, d) == -4) == four_at(g, r, c, d, minus) by {
        assert(window_fits(s, r, c, d));
        lemma_total_of_equal_cells(s, r, c, d, 1);
        lemma_total_of_equal_cells(s, r, c, d, -1);
        assert(in_grid(g, line_row(r, d, 0), line_column(c, d, 0)));
        assert(in_grid(g, line_row(r, d, 1), line_column(c, d, 1)));
        assert(in_grid(g, line_row(r, d, 2), line_column(c, d, 2)));
        assert(in_grid(g, line_row(r, d, 3), line_column(c, d, 3)));
    }
    if has_four(g, plus) {
        let (r, c, d) = choose|r: int, c: int, d: Direction| #[trigger] four_at(g, r, c, d, plus);
        assert(window_fits(g, r, c, d));
        assert(window_total(s, false, r, c, d) == 4);
    }
    if has_four(g, minus) {
        let (r, c, d) = choose|r: int, c: int, d: Direction| #[trigger]
            four_at(g, r, c, d, minus);
        assert(window_fits(g, r, c, d));
        assert(window_total(s, false, r, c, d) == -4);
    }
    if has_line(s, false, 4) {
        let (r, c, d) = choose|r: int, c: int, d: Direction| #[trigger]
            window_total(s, false, r, c, d) == 4;
        assert(window_fits(g, r, c, d));
        assert(four_at(g, r, c, d, plus));
    }
    if has_line(s, false, -4) {
        let (r, c, d) = choose|r: int, c: int, d: Direction| #[trigger]
            window_total(s, false, r, c, d) == -4;
        assert(window_fits(g, r, c, d));
        assert(four_at(g, r, c, d, minus));
    }
}

/// In the spelling game a line has the total 4 exactly where its cells hold
/// -1, +1, +1, -1, and the total -4 exactly where they hold +1, -1, -1, +1.
pub proof fn lemma_total_of_word(s: Scores, r: int, c: int, d: Direction, x: int)
    requires
        valid_scores(s),
        window_fits(s, r, c, d),
        x == 1 || x == -1,
    ensures
        window_total(s, true, r, c, d) == 4 * x <==> {
            &&& s[line_row(r, d, 0)][line_column(c, d, 0)] == -x
            &&& s[line_row(r, d, 1)][line_column(c, d, 1)] == x
            &&& s[line_row(r, d, 2)][line_column(c, d, 2)] == x
            &&& s[line_row(r, d, 3)][line_column(c, d, 3)] == -x
        },
{
    assert(in_grid(s, line_row(r, d, 0), line_column(c, d, 0)));
    assert(in_grid(s, line_row(r, d, 1), line_column(c, d, 1)));
    assert(in_grid(s, line_row(r, d, 2), line_column(c, d, 2)));
    assert(in_grid(s, line_row(r, d, 3), line_column(c, d, 3)));
}

/// The matrix of a board of the spelling game, with +1 for T and -1 for O,
/// has a line with the total 4 exactly where a line on the board spells
/// OTTO, and one with the total -4 exactly where a line spells TOOT.
pub proof fn lemma_encoded_words(g: Grid)
    requires
        rectangular(g),
    ensures
        has_line(encoded(g, DiscType::T, DiscType::O), true, 4) == (exists|
            r: int,
            c: int,
            d: Direction,
        | #[trigger] spells_at(g, r, c, d, Word::Otto)),
        has_line(encoded(g, DiscType::T, DiscType::O), true, -4) == (exists|
            r: int,
            c: int,
            d: Direction,
        | #[trigger] spells_at(g, r, c, d, Word::Toot)),
{
    let s = encoded(g, DiscType::T, DiscType::O);
    lemma_encoded_valid(g, DiscType::T, DiscType::O);
    assert forall|r: int, c: int, d: Direction| #[trigger]
        window_fits(g, r, c, d) implies (window_total(s, true, r, c, d) == 4) == spells_at(
        g,
        r,
        c,
        d,
        Word::Otto,
    ) && (window_total(s, true, r, c, d) == -4) == spells_at(g, r, c, d, Word::Toot) by {
        assert(window_fits(s, r, c, d));
        lemma_total_of_word(s, r, c, d, 1);
        lemma_total_of_word(s, r, c, d, -1);
        assert(in_grid(g, line_row(r, d, 0), line_column(c, d, 0)));
        assert(in_grid(g, line_row(r, d, 1), line_column(c, d, 1)));
        assert(in_grid(g, line_row(r, d, 2), line_column(c, d, 2)));
        assert(in_grid(g, line_row(r, d, 3), line_column(c, d, 3)));
    }
    if has_line(s, true, 4) {
        let (r, c, d) = choose|r: int, c: int, d: Direction| #[trigger]
            window_total(s, true, r, c, d) == 4;
        assert(window_fits(g, r, c, d));
        assert(spells_at(g, r, c, d, Word::Otto));
    }
    if has_line(s, true, -4) {
        let (r, c, d) = choose|r: int, c: int, d: Direction| #[trigger]
            window_total(s, true, r, c, d) == -4;
        assert(window_fits(g, r, c, d));
        assert(spells_at(g, r, c, d, Word::Toot));
    }
    if exists|r: int, c: int, d: Direction| #[trigger] spells_at(g, r, c, d, Word::Otto) {
        let (r, c, d) = choose|r: int, c: int, d: Direction| #[trigger]
            spells_at(g, r, c, d, Word::Otto);
        assert(window_fits(g, r, c, d));
        assert(window_total(s, true, r, c, d) == 4);
    }
    if exists|r: int, c: int, d: Direction| #[trigger] spells_at(g, r, c, d, Word::Toot) {
        let (r, c, d) = choose|r: int, c: int, d: Direction| #[trigger]
            spells_at(g, r, c, d, Word::Toot);
        assert(window_fits(g, r, c, d));
        assert(window_total(s, true, r, c, d) == -4);
    }
}

/// On a board that holds no other discs than `plus` and `minus`, the lowest
/// empty cell of a column is the lowest cell of the matrix that holds 0.
pub proof fn lemma_encoded_landing(g: Grid, plus: DiscType, minus: DiscType, c: int, from: int)
    requires
        rectangular(g),
        only_discs(g, plus, minus),
        plus != DiscType::Empty,
        minus != DiscType::Empty,
        0 <= c < columns(g),
        from < rows(g),
    ensures
        lowest_zero_from(encoded(g, plus, minus), c, from) == lowest_empty_from(g, c, from),
    decreases from + 1,
{
    lemma_encoded_valid(g, plus, minus);
    if from >= 0 {
        assert(in_grid(g, from, c));
        let x = g[from][c];
        assert(x == DiscType::Empty || x == plus || x == minus);
        lemma_encoded_landing(g, plus, minus, c, from - 1);
    }
}

/// Dropping a disc and taking the matrix of the board gives the same as
/// taking the matrix and dropping the number of the disc: the matrix of a
/// board follows the board move by move.
pub proof fn lemma_encoded_drop(g: Grid, plus: DiscType, minus: DiscType, c: int, d: DiscType)
    requires
        well_formed(g),
        only_discs(g, plus, minus),
        plus != DiscType::Empty,
        minus != DiscType::Empty,
        0 <= c < columns(g),
        !column_full(g, c),
    ensures
        column_open(encoded(g, plus, minus), c),
        encoded(dropped(g, c, d), plus, minus) == filled(
            encoded(g, plus, minus),
            c,
            code_of(d, plus, minus),
        ),
{
    let s = encoded(g, plus, minus);
    lemma_encoded_valid(g, plus, minus);
    lemma_encoded_landing(g, plus, minus, c, rows(g) - 1);
    lemma_landing_row(g, c);
    lemma_drop_well_formed(g, c, d);
    let row = landing_row(g, c);
    let h = dropped(g, c, d);
    let left = encoded(h, plus, minus);
    let right = filled(s, c, code_of(d, plus, minus));
    assert(in_grid(g, 0, c));
    assert(left.len() == right.len());
    assert forall|r: int| 0 <= r < left.len() implies #[trigger] left[r] =~= right[r] by {
        assert(g[r].len() == columns(g));
        assert(h[r].len() == columns(g));
        assert(s[r].len() == columns(g));
    }
    assert(left =~= right);
}

/// How a valid matrix is stored: row by row, every row as long as the
/// matrix is wide.
pub proof fn lemma_scores_storage(state: Vec<Vec<i64>>)
    requires
        valid_scores(scores_of(state)),
    ensures
        state@.len() == rows(scores_of(state)),
        forall|r: int|
            0 <= r < state@.len() ==> (#[trigger] state@[r])@ == scores_of(state)[r]
                && state@[r]@.len() == columns(scores_of(state)),
{
    let s = scores_of(state);
    assert forall|r: int| 0 <= r < state@.len() implies (#[trigger] state@[r])@ == s[r]
        && state@[r]@.len() == columns(s) by {
        assert(s[r].len() == columns(s));
    }
}

/// The matrix that stands for a board, with +1 for the discs `plus` and -1
/// for the discs `minus`.
pub fn encode_board(board: &Board, plus: DiscType, minus: DiscType) -> (state: Vec<Vec<i64>>)
    requires
        board.wf(),
        plus != DiscType::Empty,
        minus != DiscType::Empty,
    ensures
        scores_of(state) == encoded(board@, plus, minus),
        valid_scores(scores_of(state)),
{
    let height = board.board_rows();
    let width = board.board_columns();
    let mut state: Vec<Vec<i64>> = Vec::new();
    let mut r: usize = 0;
    proof {
        lemma_encoded_valid(board@, plus, minus);
    }
    while r < height
        invariant
            board.wf(),
            height == rows(board@),
            width == columns(board@),
            r <= height,
            state@.len() == r,
            forall|i: int|
                0 <= i < r ==> (#[trigger] state@[i])@ == encoded(board@, plus, minus)[i],
        decreases height - r,
    {
        let mut row: Vec<i64> = Vec::new();
        let mut c: usize = 0;
        while c < width
            invariant
                board.wf(),
                height == rows(board@),
                width == columns(board@),
                r < height,
                c <= width,
                row@.len() == c,
                forall|j: int|
                    0 <= j < c ==> #[trigger] row@[j] == code_of(
                        board@[r as int][j],
                        plus,
                        minus,
                    ),
            decreases width - c,
        {
            let d = board.disc_at(r, c);
            let code: i64 = if d == plus {
                1
            } else if d == minus {
                -1
            } else {
                0
            };
            row.push(code);
            c += 1;
        }
        assert(board@[r as int].len() == width);
        assert(row@ =~= encoded(board@, plus, minus)[r as int]);
        state.push(row);
        r += 1;
    }
    assert(scores_of(state) =~= encoded(board@, plus, minus));
    state
}

/// A second matrix with the same numbers.
fn copy_state(state: &Vec<Vec<i64>>) -> (copy: Vec<Vec<i64>>)
    ensures
        copy@.len() == state@.len(),
        forall|r: int| 0 <= r < state@.len() ==> (#[trigger] copy@[r])@ == state@[r]@,
        scores_of(copy) == scores_of(*state),
{
    let mut copy: Vec<Vec<i64>> = Vec::new();
    let mut r: usize = 0;
    while r < state.len()
        invariant
            r <= state@.len(),
            copy@.len() == r,
            forall|i: int| 0 <= i < r ==> (#[trigger] copy@[i])@ == state@[i]@,
        decreases state@.len() - r,
    {
        let mut row: Vec<i64> = Vec::new();
        let mut c: usize = 0;
        while c < state[r].len()
            invariant
                r < state@.len(),
                c <= state@[r as int]@.len(),
                row@.len() == c,
                forall|j: int| 0 <= j < c ==> #[trigger] row@[j] == state@[r as int]@[j],
            decreases state@[r as int]@.len() - c,
        {
            row.push(state[r][c]);
            c += 1;
        }
        assert(row@ =~= state@[r as int]@);
        copy.push(row);
        r += 1;
    }
    assert(scores_of(copy) =~= scores_of(*state));
    copy
}

/// Drops the number `value` into a column of a matrix.
///
/// Where the matrix has no such column, or the top cell of the column is
/// occupied, the result is `None`. Otherwise it is a copy of the matrix in
/// which `value` has replaced the lowest empty cell of the column.
pub fn fill_map(state: &Vec<Vec<i64>>, column: usize, value: i64) -> (next: Option<
    Vec<Vec<i64>>,
>)
    requires
        valid_scores(scores_of(*state)),
    ensures
        next.is_some() == column_open(scores_of(*state), column as int),
        next.is_some() ==> scores_of(next.unwrap()) == filled(
            scores_of(*state),
            column as int,
            value,
        ),
{
    proof {
        lemma_scores_storage(*state);
    }
    if column >= state[0].len() || state[0][column] != 0 {
        return None;
    }
    let ghost s = scores_of(*state);
    let mut next = copy_state(state);
    let mut i: usize = state.len();
    while i > 0
        invariant
            valid_scores(s),
            s == scores_of(*state),
            column_open(s, column as int),
            scores_of(next) == s,
            next@.len() == state@.len(),
            forall|r: int| 0 <= r < state@.len() ==> (#[trigger] next@[r])@ == state@[r]@,
            i <= rows(s),
            forall|below: int| i <= below < rows(s) ==> (#[trigger] s[below][column as int]) != 0,
        decreases i,
    {
        i -= 1;
        proof {
            lemma_scores_storage(*state);
        }
        if state[i][column] == 0 {
            proof {
                lemma_lowest_zero_is(s, column as int, i as int, rows(s) - 1);
            }
            next[i][column] = value;
            assert(scores_of(next) =~= filled(s, column as int, value));
            return Some(next);
        }
    }
    assert(false);
    None
}

/// The number in a cell of a valid matrix.
fn cell(state: &Vec<Vec<i64>>, r: usize, c: usize) -> (x: i64)
    requires
        valid_scores(scores_of(*state)),
        in_grid(scores_of(*state), r as int, c as int),
    ensures
        x == scores_of(*state)[r as int][c as int],
        -1 <= x <= 1,
{
    proof {
        lemma_scores_storage(*state);
    }
    state[r][c]
}

/// The weighted sum of four numbers, in the order in which they stand in a
/// line.
fn weighted_sum(spelling: bool, a: i64, b: i64, c: i64, d: i64) -> (total: i64)
    requires
        -1 <= a <= 1,
        -1 <= b <= 1,
        -1 <= c <= 1,
        -1 <= d <= 1,
    ensures
        total == weighted(spelling, 0, a as int) + weighted(spelling, 1, b as int) + weighted(
            spelling,
            2,
            c as int,
        ) + weighted(spelling, 3, d as int),
{
    if spelling {
        b + c - a - d
    } else {
        a + b + c + d
    }
}

/// The weighted sum of the four cells of the line from a cell in a
/// direction; 0 where that line leaves the board.
fn window_sum(state: &Vec<Vec<i64>>, spelling: bool, r: usize, c: usize, d: Direction) -> (total:
    i64)
    requires
        valid_scores(scores_of(*state)),
    ensures
        total == window_total(scores_of(*state), spelling, r as int, c as int, d),
        -4 <= total <= 4,
{
    proof {
        lemma_scores_storage(*state);
        lemma_window_total_range(scores_of(*state), spelling, r as int, c as int, d);
    }
    let height = state.len();
    let width = state[0].len();
    if r >= height || c >= width {
        return 0;
    }
    match d {
        Direction::Right => {
            if width - c < 4 {
                0
            } else {
                weighted_sum(
                    spelling,
                    cell(state, r, c),
                    cell(state, r, c + 1),
                    cell(state, r, c + 2),
                    cell(state, r, c + 3),
                )
            }
        },
        Direction::Down => {
            if height - r < 4 {
                0
            } else {
                weighted_sum(
                    spelling,
                    cell(state, r, c),
                    cell(state, r + 1, c),
                    cell(state, r + 2, c),
                    cell(state, r + 3, c),
                )
            }
        },
        Direction::DownRight => {
            if height - r < 4 || width - c < 4 {
                0
            } else {
                weighted_sum(
                    spelling,
                    cell(state, r, c),
                    cell(state, r + 1, c + 1),
                    cell(state, r + 2, c + 2),
                    cell(state, r + 3, c + 3),
                )
            }
        },
        Direction::UpRight => {
            if r < 3 || width - c < 4 {
                0
            } else {
                weighted_sum(
                    spelling,
                    cell(state, r, c),
                    cell(state, r - 1, c + 1),
                    cell(state, r - 2, c + 2),
                    cell(state, r - 3, c + 3),
                )
            }
        },
    }
}

/// The third power of a line's total.
fn cube_of(x: i64) -> (y: i64)
    requires
        -4 <= x <= 4,
    ensures
        y == cube(x as int),
        -64 <= y <= 64,
{
    proof {
        lemma_cube_range(x as int);
    }
    let square = x * x;
    square * x
}

/// The win value and the chain value of a position.
///
/// Every cell is taken, row by row, as the first cell of a line of four to
/// the right, downwards and along both diagonals. The chain value is the sum
/// of the cubes of the totals of all lines that lie on the board. The win
/// value is the total of a complete line, 4 or -4, or 0 where no line is
/// complete; where several are, the line that starts last in reading order
/// counts, and among the lines from one cell the first of right, down,
/// down-right, up-right.
pub fn check_state(state: &Vec<Vec<i64>>, spelling: bool) -> (result: (i64, i64))
    requires
        valid_scores(scores_of(*state)),
    ensures
        result.0 == win_value(scores_of(*state), spelling),
        result.1 == chain_value(scores_of(*state), spelling),
{
    proof {
        lemma_scores_storage(*state);
    }
    let ghost s = scores_of(*state);
    let height = state.len();
    let width = state[0].len();
    let mut win: i64 = 0;
    let mut chain: i64 = 0;
    let mut i: usize = 0;
    while i < height
        invariant
            valid_scores(s),
            s == scores_of(*state),
            height == rows(s),
            width == columns(s),
            i <= height,
            win == grid_win(s, spelling, i as int),
            chain == grid_chain(s, spelling, i as int),
        decreases height - i,
    {
        let mut row_w: i64 = 0;
        let mut row_c: i64 = 0;
        let mut j: usize = 0;
        proof {
            lemma_grid_range(s, spelling, i as int);
        }
        while j < width
            invariant
                valid_scores(s),
                s == scores_of(*state),
                height == rows(s),
                width == columns(s),
                i < height,
                j <= width,
                row_w == row_win(s, spelling, i as int, j as int),
                row_c == row_chain(s, spelling, i as int, j as int),
            decreases width - j,
        {
            proof {
                lemma_row_range(s, spelling, i as int, j as int);
                lemma_cell_range(s, spelling, i as int, j as int);
            }
            let right = window_sum(state, spelling, i, j, Direction::Right);
            let down = window_sum(state, spelling, i, j, Direction::Down);
            let down_right = window_sum(state, spelling, i, j, Direction::DownRight);
            let up_right = window_sum(state, spelling, i, j, Direction::UpRight);
            row_c = row_c + cube_of(right) + cube_of(down) + cube_of(down_right) + cube_of(
                up_right,
            );
            if right == 4 || right == -4 {
                row_w = right;
            } else if down == 4 || down == -4 {
                row_w = down;
            } else if down_right == 4 || down_right == -4 {
                row_w = down_right;
            } else if up_right == 4 || up_right == -4 {
                row_w = up_right;
            }
            j += 1;
        }
        proof {
            lemma_row_range(s, spelling, i as int, width as int);
        }
        chain = chain + row_c;
        if row_w != 0 {
            win = row_w;
        }
        i += 1;
    }
    (win, chain)
}

} // verus!
