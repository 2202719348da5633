//! The computer as an opponent, in both games and at four difficulties.

use vstd::prelude::*;
use crate::board::Board;
use crate::disc::DiscType;
use crate::game::{
    disc_to_move, first_to_move, valid_match, BoardGame, GameEvent, GameType, MatchState,
};
use crate::grid::{
    column_full, columns, deciding_word, dropped, four_at, has_four, in_grid, is_landing_row,
    lemma_drop_adds_no_foreign_line, lemma_drop_well_formed, lemma_lowest_empty_is_landing_row,
    lemma_open_columns, line_column, line_row, only_discs, open_columns, rectangular, rows,
    well_formed, window_cell, window_fits, Direction, Grid, Word, MAX_SIDE,
};
use crate::random::{draw_below, pick_move, picked};
use crate::scores::{
    column_open, encode_board, encoded, lemma_encoded_drop, lemma_encoded_lines,
    lemma_encoded_valid, lemma_win_value, scores_of, valid_scores, Scores,
};
use crate::search::{
    after_move, agrees, best_moves, best_value, lemma_achievers, lemma_best_upto_below_win,
    lemma_best_upto_covers, lemma_best_upto_range, lemma_open_column_playable,
    lemma_outcome_below_win, move_count, outcome, playable, playable_moves, Rules, MAX_PLY,
    UNBOUNDED, WIN_SCORE,
};

verus! {

/// How hard the computer tries. The difficulties are ordered from the
/// easiest to the hardest.
#[derive(PartialEq, Eq, PartialOrd, Ord, Structural, Copy, Clone, Debug)]
pub enum Difficulty {
    /// Any legal move, at random.
    Easy,
    /// Takes a win that is one move away, else stops the opponent's; else
    /// any legal move.
    Medium,
    /// Searches ahead.
    Hard,
    /// Searches further ahead.
    Insane,
}

impl Difficulty {
    /// The place of the difficulty among the four: 0 for the easiest, 3 for
    /// the hardest.
    pub open spec fn tier(self) -> int {
        match self {
            Difficulty::Easy => 0,
            Difficulty::Medium => 1,
            Difficulty::Hard => 2,
            Difficulty::Insane => 3,
        }
    }

    /// The place of the difficulty among the four: 0 for the easiest, 3 for
    /// the hardest.
    pub fn level(&self) -> (n: usize)
        ensures
            n == self.tier(),
    {
        match self {
            Difficulty::Easy => 0,
            Difficulty::Medium => 1,
            Difficulty::Hard => 2,
            Difficulty::Insane => 3,
        }
    }

    /// A harder difficulty searches deeper.
    pub proof fn lemma_harder_searches_deeper(self, other: Difficulty)
        requires
            self.tier() < other.tier(),
        ensures
            self.depth_limit() < other.depth_limit(),
    {
    }

    /// The ply at which a search of this difficulty stops looking ahead.
    pub open spec fn depth_limit(self) -> int {
        match self {
            Difficulty::Easy => 1,
            Difficulty::Medium => 3,
            Difficulty::Hard => 5,
            Difficulty::Insane => 7,
        }
    }

    /// The ply at which a search of this difficulty stops looking ahead: 1,
    /// 3, 5 and 7, from the easiest to the hardest.
    pub fn search_depth(&self) -> (limit: i64)
        ensures
            limit == self.depth_limit(),
            0 <= limit <= MAX_PLY,
    {
        match self {
            Difficulty::Easy => 1,
            Difficulty::Medium => 3,
            Difficulty::Hard => 5,
            Difficulty::Insane => 7,
        }
    }

    /// The four difficulties, from the easiest to the hardest.
    pub fn to_vec() -> (all: Vec<Difficulty>)
        ensures
            all@ == seq![
                Difficulty::Easy,
                Difficulty::Medium,
                Difficulty::Hard,
                Difficulty::Insane,
            ],
    {
        let mut all: Vec<Difficulty> = Vec::new();
        all.push(Difficulty::Easy);
        all.push(Difficulty::Medium);
        all.push(Difficulty::Hard);
        all.push(Difficulty::Insane);
        assert(all@ =~= seq![
            Difficulty::Easy,
            Difficulty::Medium,
            Difficulty::Hard,
            Difficulty::Insane,
        ]);
        all
    }

    /// The name of the difficulty.
    pub fn to_string(&self) -> (name: String)
        ensures
            name@ == match self {
                Difficulty::Easy => "Easy"@,
                Difficulty::Medium => "Medium"@,
                Difficulty::Hard => "Hard"@,
                Difficulty::Insane => "Insane"@,
            },
    {
        match self {
            Difficulty::Easy => String::from_str("Easy"),
            Difficulty::Medium => String::from_str("Medium"),
            Difficulty::Hard => String::from_str("Hard"),
            Difficulty::Insane => String::from_str("Insane"),
        }
    }
}

/// A disc dropped into column `c` completes a line of four discs `disc`.
pub open spec fn wins_at(g: Grid, c: int, disc: DiscType) -> bool {
    0 <= c < columns(g) && !column_full(g, c) && has_four(dropped(g, c, disc), disc)
}

/// The first column at or after `from` in which a disc `disc` completes a
/// line of four, if there is one.
pub open spec fn first_win_from(g: Grid, disc: DiscType, from: int) -> Option<usize>
    decreases columns(g) - from,
{
    if from < 0 || from >= columns(g) {
        None
    } else if wins_at(g, from, disc) {
        Some(from as usize)
    } else {
        first_win_from(g, disc, from + 1)
    }
}

/// The first column in which a disc `disc` completes a line of four, if
/// there is one.
pub open spec fn first_win(g: Grid, disc: DiscType) -> Option<usize> {
    first_win_from(g, disc, 0)
}

/// The colour of the other side: yellow for red, red for anything else.
pub open spec fn opponent(disc: DiscType) -> DiscType {
    if disc == DiscType::Red {
        DiscType::Yellow
    } else {
        DiscType::Red
    }
}

/// The number that stands for a colour in a search: +1 for red, -1 for
/// anything else.
pub open spec fn side_of(disc: DiscType) -> i64 {
    if disc == DiscType::Red {
        1i64
    } else {
        -1i64
    }
}

/// How a four-in-a-row search of a difficulty runs for the side with the
/// number `side`.
pub open spec fn connect4_rules(difficulty: Difficulty, side: i64) -> Rules {
    Rules { spelling: false, side, limit: difficulty.depth_limit() as i64 }
}

/// The columns among which the computer chooses when it places `disc` on
/// the board `g`.
///
/// - Easy: every column that is not full.
/// - Medium: the first column in which `disc` completes a line of four;
///   without one, the first column in which the opponent's disc would; without
///   that either, every column that is not full.
/// - Hard and Insane: the columns whose minimax value, searched to the
///   depth of the difficulty, is the best; every column that is not full where
///   the search names none.
pub open spec fn connect4_candidates(difficulty: Difficulty, g: Grid, disc: DiscType) -> Seq<
    usize,
> {
    match difficulty {
        Difficulty::Easy => open_columns(g),
        Difficulty::Medium => match first_win(g, disc) {
            Some(c) => seq![c],
            None => match first_win(g, opponent(disc)) {
                Some(c) => seq![c],
                None => open_columns(g),
            },
        },
        _ => {
            let best = best_moves(
                connect4_rules(difficulty, side_of(disc)),
                encoded(g, DiscType::Red, DiscType::Yellow),
                0,
                true,
            );
            if best.len() == 0 {
                open_columns(g)
            } else {
                best
            }
        },
    }
}

/// What the search for the first winning column finds: a column in which
/// the disc wins and before which none does, or nothing where no column wins.
pub proof fn lemma_first_win(g: Grid, disc: DiscType, from: int)
    requires
        rectangular(g),
        0 <= from,
    ensures
        first_win_from(g, disc, from).is_some() ==> {
            let c = first_win_from(g, disc, from).unwrap() as int;
            &&& from <= c
            &&& wins_at(g, c, disc)
            &&& forall|k: int| from <= k < c ==> !#[trigger] wins_at(g, k, disc)
        },
        first_win_from(g, disc, from).is_none() ==> forall|k: int|
            from <= k ==> !#[trigger] wins_at(g, k, disc),
    decreases columns(g) - from,
{
    if from < columns(g) && !wins_at(g, from, disc) {
        lemma_first_win(g, disc, from + 1);
        let rest = first_win_from(g, disc, from + 1);
        assert(first_win_from(g, disc, from) == rest);
        if rest.is_some() {
            let c = rest.unwrap() as int;
            assert forall|k: int| from <= k < c implies !#[trigger] wins_at(g, k, disc) by {
                if k > from {
                    assert(from + 1 <= k);
                }
            }
        } else {
            assert forall|k: int| from <= k implies !#[trigger] wins_at(g, k, disc) by {
                if k > from {
                    assert(from + 1 <= k);
                }
            }
        }
    }
}

/// A column in which the disc wins, with no such column before it from
/// `from` on, is the first winning column from `from` on.
pub proof fn lemma_first_win_is(g: Grid, disc: DiscType, from: int, c: int)
    requires
        rectangular(g),
        0 <= from <= c,
        wins_at(g, c, disc),
        forall|k: int| from <= k < c ==> !#[trigger] wins_at(g, k, disc),
    ensures
        first_win_from(g, disc, from) == Some(c as usize),
    decreases c - from,
{
    if from < c {
        assert(!wins_at(g, from, disc));
        lemma_first_win_is(g, disc, from + 1, c);
    }
}

/// Three discs of a kind in a line of four, with the fourth cell of the line
/// empty and the lowest empty cell of its column: a disc of that kind dropped
/// into that column completes the line.
pub proof fn lemma_three_and_open_cell_win(
    g: Grid,
    r: int,
    c: int,
    d: Direction,
    k: int,
    disc: DiscType,
)
    requires
        well_formed(g),
        window_fits(g, r, c, d),
        0 <= k < 4,
        forall|j: int| 0 <= j < 4 && j != k ==> #[trigger] window_cell(g, r, c, d, j) == disc,
        is_landing_row(g, line_column(c, d, k), line_row(r, d, k)),
    ensures
        wins_at(g, line_column(c, d, k), disc),
{
    let (lr, lc) = (line_row(r, d, k), line_column(c, d, k));
    assert(in_grid(g, lr, lc));
    lemma_lowest_empty_is_landing_row(g, lc, lr, rows(g) - 1);
    assert(!column_full(g, lc)) by {
        if lr > 0 && g[0][lc] != DiscType::Empty {
            assert(g[lr][lc] != DiscType::Empty);
        }
    }
    lemma_drop_well_formed(g, lc, disc);
    let h = dropped(g, lc, disc);
    assert forall|j: int| 0 <= j < 4 implies window_cell(h, r, c, d, j) == disc by {
        let (jr, jc) = (line_row(r, d, j), line_column(c, d, j));
        assert(in_grid(g, jr, jc));
        assert(g[jr].len() == columns(g));
        if j != k {
            assert(window_cell(g, r, c, d, j) == disc);
        }
    }
    assert(window_cell(h, r, c, d, 0) == disc);
    assert(window_cell(h, r, c, d, 1) == disc);
    assert(window_cell(h, r, c, d, 2) == disc);
    assert(window_cell(h, r, c, d, 3) == disc);
    assert(four_at(h, r, c, d, disc));
}

/// At the medium difficulty the computer takes a win that is one move away:
/// where a disc of its own completes a line of four in column `c`, and in no
/// column before it, `c` is its only candidate.
pub proof fn lemma_medium_takes_the_win(g: Grid, disc: DiscType, c: int)
    requires
        rectangular(g),
        wins_at(g, c, disc),
        forall|k: int| 0 <= k < c ==> !#[trigger] wins_at(g, k, disc),
    ensures
        connect4_candidates(Difficulty::Medium, g, disc) == seq![c as usize],
{
    lemma_first_win_is(g, disc, 0, c);
}

/// At the medium difficulty the computer that cannot win at once stops a win
/// of the opponent that is one move away: where no disc of its own completes
/// a line of four, and a disc of the opponent would in column `c`, and in no
/// column before it, `c` is its only candidate.
pub proof fn lemma_medium_blocks(g: Grid, disc: DiscType, c: int)
    requires
        rectangular(g),
        forall|k: int| !#[trigger] wins_at(g, k, disc),
        wins_at(g, c, opponent(disc)),
        forall|k: int| 0 <= k < c ==> !#[trigger] wins_at(g, k, opponent(disc)),
    ensures
        connect4_candidates(Difficulty::Medium, g, disc) == seq![c as usize],
{
    lemma_first_win(g, disc, 0);
    lemma_first_win_is(g, opponent(disc), 0, c);
}

/// What the search sees after a disc has been dropped into an open column:
/// the move is playable, and its outcome at ply 0 is the reward of a win
/// exactly where the disc completes a line of four.
proof fn lemma_outcome_of_winning_drop(difficulty: Difficulty, g: Grid, disc: DiscType, k: int)
    requires
        well_formed(g),
        only_discs(g, DiscType::Red, DiscType::Yellow),
        disc == DiscType::Red || disc == DiscType::Yellow,
        !has_four(g, opponent(disc)),
        0 <= k < columns(g),
        !column_full(g, k),
    ensures
        playable(
            connect4_rules(difficulty, side_of(disc)),
            encoded(g, DiscType::Red, DiscType::Yellow),
            k,
        ),
        (outcome(
            connect4_rules(difficulty, side_of(disc)),
            after_move(
                connect4_rules(difficulty, side_of(disc)),
                encoded(g, DiscType::Red, DiscType::Yellow),
                k,
                true,
            ),
            0,
        ) == WIN_SCORE) == wins_at(g, k, disc),
{
    let rules = connect4_rules(difficulty, side_of(disc));
    let s = encoded(g, DiscType::Red, DiscType::Yellow);
    let h = dropped(g, k, disc);
    let child = after_move(rules, s, k, true);
    lemma_encoded_valid(g, DiscType::Red, DiscType::Yellow);
    lemma_encoded_drop(g, DiscType::Red, DiscType::Yellow, k, disc);
    assert(child == encoded(h, DiscType::Red, DiscType::Yellow));
    lemma_drop_well_formed(g, k, disc);
    lemma_encoded_valid(h, DiscType::Red, DiscType::Yellow);
    lemma_encoded_lines(h, DiscType::Red, DiscType::Yellow);
    if has_four(h, opponent(disc)) {
        lemma_drop_adds_no_foreign_line(g, k, disc, opponent(disc));
    }
    lemma_win_value(child, false);
    lemma_outcome_below_win(rules, child, 0);
}

/// A search never misses a win that is one move away: where the side to move
/// can complete a line of four at once, the columns that a search of the
/// hard or the insane difficulty proposes are exactly the columns in which
/// it can. So where one column alone completes a line, the computer plays it.
pub proof fn lemma_search_takes_the_win(difficulty: Difficulty, g: Grid, disc: DiscType, c: int)
    requires
        well_formed(g),
        only_discs(g, DiscType::Red, DiscType::Yellow),
        disc == DiscType::Red || disc == DiscType::Yellow,
        !has_four(g, opponent(disc)),
        difficulty == Difficulty::Hard || difficulty == Difficulty::Insane,
        wins_at(g, c, disc),
    ensures
        connect4_candidates(difficulty, g, disc).contains(c as usize),
        forall|i: int|
            0 <= i < connect4_candidates(difficulty, g, disc).len() ==> wins_at(
                g,
                (#[trigger] connect4_candidates(difficulty, g, disc)[i]) as int,
                disc,
            ),
{
    let rules = connect4_rules(difficulty, side_of(disc));
    let s = encoded(g, DiscType::Red, DiscType::Yellow);
    let count = move_count(rules, s);
    lemma_encoded_valid(g, DiscType::Red, DiscType::Yellow);
    lemma_outcome_of_winning_drop(difficulty, g, disc, c);
    lemma_open_column_playable(rules, s, count, c);
    lemma_best_upto_covers(rules, s, 0, true, count, c);
    lemma_best_upto_below_win(rules, s, 0, true, count);
    assert(best_value(rules, s, 0, true) == WIN_SCORE);
    lemma_achievers(rules, s, 0, true, WIN_SCORE as int, count);
    let best = best_moves(rules, s, 0, true);
    assert(best.contains(c as usize));
    assert forall|i: int| 0 <= i < best.len() implies wins_at(
        g,
        (#[trigger] best[i]) as int,
        disc,
    ) by {
        let k = best[i] as int;
        assert(playable(rules, s, k));
        assert(in_grid(g, 0, k));
        lemma_outcome_of_winning_drop(difficulty, g, disc, k);
    }
}

/// In a four-in-a-row match that goes on, a computer of the hard or the
/// insane difficulty whose turn it is completes a line of four wherever it
/// can: each of its candidate columns completes one, and every column that
/// completes one is a candidate.
pub proof fn lemma_hard_takes_the_win(difficulty: Difficulty, m: MatchState, c: int)
    requires
        valid_match(m),
        m.game_type == GameType::Connect4,
        m.status == GameEvent::Ongoing,
        difficulty == Difficulty::Hard || difficulty == Difficulty::Insane,
        wins_at(m.grid, c, disc_to_move(m)),
    ensures
        connect4_candidates(difficulty, m.grid, disc_to_move(m)).contains(c as usize),
        forall|i: int|
            0 <= i < connect4_candidates(difficulty, m.grid, disc_to_move(m)).len() ==> wins_at(
                m.grid,
                (#[trigger] connect4_candidates(difficulty, m.grid, disc_to_move(m))[i]) as int,
                disc_to_move(m),
            ),
{
    lemma_search_takes_the_win(difficulty, m.grid, disc_to_move(m), c);
}

/// The computer opponent of the four-in-a-row game, for boards of one size.
#[derive(Clone, Copy, Debug)]
pub struct Connect4AI {
    board_rows: usize,
    board_columns: usize,
    difficulty: Difficulty,
}

impl Connect4AI {
    /// Number of rows of the boards that this opponent plays on.
    pub closed spec fn rows(&self) -> int {
        self.board_rows as int
    }

    /// Number of columns of the boards that this opponent plays on.
    pub closed spec fn columns(&self) -> int {
        self.board_columns as int
    }

    /// How hard this opponent tries.
    pub closed spec fn difficulty(&self) -> Difficulty {
        self.difficulty
    }

    /// The size of the boards is a permitted one.
    pub open spec fn wf(&self) -> bool {
        1 <= self.rows() <= MAX_SIDE && 1 <= self.columns() <= MAX_SIDE
    }

    /// The matrix is valid and has the size of this opponent's boards.
    pub open spec fn fits(&self, s: Scores) -> bool {
        valid_scores(s) && rows(s) == self.rows() && columns(s) == self.columns()
    }

    /// How this opponent searches for the side with the number
    /// `ai_move_value`.
    pub open spec fn rules(&self, ai_move_value: i64) -> Rules {
        connect4_rules(self.difficulty(), ai_move_value)
    }

    /// An opponent of the given difficulty for boards of the given size.
    pub fn new(board_rows: usize, board_columns: usize, difficulty: Difficulty) -> (ai: Self)
        requires
            1 <= board_rows <= MAX_SIDE,
            1 <= board_columns <= MAX_SIDE,
        ensures
            ai.wf(),
            ai.rows() == board_rows,
            ai.columns() == board_columns,
            ai.difficulty() == difficulty,
    {
        Self { board_rows, board_columns, difficulty }
    }

    /// The rules of a search for the side with the number `ai_move_value`.
    fn search_rules(&self, ai_move_value: i64) -> (rules: Rules)
        requires
            ai_move_value == 1 || ai_move_value == -1,
        ensures
            rules == self.rules(ai_move_value),
            rules.wf(),
    {
        Rules { spelling: false, side: ai_move_value, limit: self.difficulty.search_depth() }
    }

    /// The first column in which a disc `disc_type` completes a line of
    /// four, if there is one.
    pub fn find_winning_move(&self, game_board: &Board, disc_type: DiscType) -> (column: Option<
        usize,
    >)
        requires
            game_board.wf(),
        ensures
            column == first_win(game_board@, disc_type),
    {
        let width = game_board.board_columns();
        let mut c: usize = 0;
        while c < width
            invariant
                game_board.wf(),
                width == columns(game_board@),
                c <= width,
                first_win(game_board@, disc_type) == first_win_from(
                    game_board@,
                    disc_type,
                    c as int,
                ),
            decreases width - c,
        {
            let mut trial = game_board.clone();
            trial.place_disc(c, disc_type);
            if !column_is_full(game_board, c) && trial.is_connect4(disc_type) {
                return Some(c);
            }
            c += 1;
        }
        None
    }

    /// The first column in which the opponent of `disc_type` would complete a
    /// line of four, if there is one: the column to take away from the
    /// opponent.
    pub fn find_blocking_move(&self, game_board: &Board, disc_type: DiscType) -> (column: Option<
        usize,
    >)
        requires
            game_board.wf(),
        ensures
            column == first_win(game_board@, opponent(disc_type)),
    {
        let other = if disc_type == DiscType::Red {
            DiscType::Yellow
        } else {
            DiscType::Red
        };
        self.find_winning_move(game_board, other)
    }

    /// The columns among which this opponent chooses in a match, for the
    /// participant to move.
    pub fn candidate_moves(&self, game: &BoardGame) -> (candidates: Vec<usize>)
        requires
            self.wf(),
            game.wf(),
            game@.game_type == GameType::Connect4,
            rows(game@.grid) == self.rows(),
            columns(game@.grid) == self.columns(),
        ensures
            candidates@ == connect4_candidates(
                self.difficulty(),
                game@.grid,
                disc_to_move(game@),
            ),
            forall|i: int|
                0 <= i < candidates@.len() ==> (#[trigger] candidates@[i]) < columns(game@.grid)
                    && !column_full(game@.grid, candidates@[i] as int),
            candidates@.len() == 0 <==> open_columns(game@.grid).len() == 0,
    {
        let board = game.game_board();
        let disc = game.get_current_disc_type();
        proof {
            lemma_open_columns(board@, columns(board@));
            lemma_first_win(board@, disc, 0);
            lemma_first_win(board@, opponent(disc), 0);
        }
        match self.difficulty {
            Difficulty::Easy => board.get_valid_columns(),
            Difficulty::Medium => {
                match self.find_winning_move(board, disc) {
                    Some(c) => {
                        proof {
                            assert(open_columns(board@).contains(c));
                        }
                        single(c)
                    },
                    None => match self.find_blocking_move(board, disc) {
                        Some(c) => {
                            proof {
                                assert(open_columns(board@).contains(c));
                            }
                            single(c)
                        },
                        None => board.get_valid_columns(),
                    },
                }
            },
            _ => {
                let state = encode_board(board, DiscType::Red, DiscType::Yellow);
                let side: i64 = if disc == DiscType::Red {
                    1
                } else {
                    -1
                };
                let ghost rules = self.rules(side);
                let ghost s = scores_of(state);
                proof {
                    lemma_encoded_valid(board@, DiscType::Red, DiscType::Yellow);
                    lemma_best_upto_range(rules, s, 0, true, move_count(rules, s));
                    lemma_achievers(
                        rules,
                        s,
                        0,
                        true,
                        best_value(rules, s, 0, true),
                        move_count(rules, s),
                    );
                }
                let (_, best) = self.max_state(side, &state, 0, -UNBOUNDED, UNBOUNDED);
                if best.len() == 0 {
                    board.get_valid_columns()
                } else {
                    proof {
                        assert(!column_full(board@, best@[0] as int));
                        assert(open_columns(board@).contains(best@[0]));
                    }
                    best
                }
            },
        }
    }

    /// The column that this opponent plays in a match where `draw` is the
    /// number that chance came up with: the candidate at the position `draw`,
    /// counted round the list of candidates; 0 where there is none.
    pub fn select_move(&self, game: &BoardGame, draw: usize) -> (column: usize)
        requires
            self.wf(),
            game.wf(),
            game@.game_type == GameType::Connect4,
            rows(game@.grid) == self.rows(),
            columns(game@.grid) == self.columns(),
        ensures
            column == match picked(
                connect4_candidates(self.difficulty(), game@.grid, disc_to_move(game@)),
                draw as int,
            ) {
                Some(c) => c,
                None => 0,
            },
    {
        let candidates = self.candidate_moves(game);
        match pick_move(&candidates, draw) {
            Some(column) => column,
            None => 0,
        }
    }

    /// The column that this opponent plays in a match, for the participant
    /// to move.
    ///
    /// It is one of the candidate columns of the difficulty, drawn at
    /// random, and so a column that is not full. Where the board is full
    /// there is no candidate, and the result is 0.
    pub fn find_best_move(&self, game: BoardGame) -> (column: usize)
        requires
            self.wf(),
            game.wf(),
            game@.game_type == GameType::Connect4,
            rows(game@.grid) == self.rows(),
            columns(game@.grid) == self.columns(),
        ensures
            connect4_candidates(self.difficulty(), game@.grid, disc_to_move(game@)).len() == 0
                ==> column == 0,
            connect4_candidates(self.difficulty(), game@.grid, disc_to_move(game@)).len() > 0
                ==> connect4_candidates(
                self.difficulty(),
                game@.grid,
                disc_to_move(game@),
            ).contains(column) && column < columns(game@.grid) && !column_full(
                game@.grid,
                column as int,
            ),
    {
        let candidates = self.candidate_moves(&game);
        let draw = self.get_random_val(candidates.len());
        match pick_move(&candidates, draw) {
            Some(column) => column,
            None => 0,
        }
    }

    /// The value of a position that a move at ply `depth` has led to, for
    /// the side with the number `ai_move_value`, searched between the bounds
    /// `alpha` and `beta`.
    pub fn value(
        &self,
        ai_move_value: i64,
        state: &Vec<Vec<i64>>,
        depth: i64,
        alpha: i64,
        beta: i64,
    ) -> (v: i64)
        requires
            self.fits(scores_of(*state)),
            ai_move_value == 1 || ai_move_value == -1,
            0 <= depth <= MAX_PLY,
            -UNBOUNDED <= alpha <= beta <= UNBOUNDED,
        ensures
            agrees(
                outcome(self.rules(ai_move_value), scores_of(*state), depth as int),
                alpha as int,
                beta as int,
                v as int,
            ),
    {
        crate::search::value(self.search_rules(ai_move_value), state, depth, alpha, beta)
    }

    /// The best value that the side with the number `ai_move_value` can
    /// reach by a move at ply `depth`, searched between the bounds `alpha`
    /// and `beta`, and the columns that reach it.
    pub fn max_state(
        &self,
        ai_move_value: i64,
        state: &Vec<Vec<i64>>,
        depth: i64,
        alpha: i64,
        beta: i64,
    ) -> (result: (i64, Vec<usize>))
        requires
            self.fits(scores_of(*state)),
            ai_move_value == 1 || ai_move_value == -1,
            0 <= depth <= MAX_PLY,
            -UNBOUNDED <= alpha <= beta <= UNBOUNDED,
        ensures
            agrees(
                best_value(self.rules(ai_move_value), scores_of(*state), depth as int, true),
                alpha as int,
                beta as int,
                result.0 as int,
            ),
            alpha <= best_value(self.rules(ai_move_value), scores_of(*state), depth as int, true)
                <= beta ==> result.1@ == best_moves(
                self.rules(ai_move_value),
                scores_of(*state),
                depth as int,
                true,
            ),
            playable_moves(self.rules(ai_move_value), scores_of(*state), result.1@),
    {
        crate::search::max_state(self.search_rules(ai_move_value), state, depth, alpha, beta)
    }

    /// The best value that the opponent of the side with the number
    /// `ai_move_value` can reach by a move at ply `depth`, the lowest for
    /// that side, searched between the bounds `alpha` and `beta`, and the
    /// columns that reach it.
    pub fn min_state(
        &self,
        ai_move_value: i64,
        state: &Vec<Vec<i64>>,
        depth: i64,
        alpha: i64,
        beta: i64,
    ) -> (result: (i64, Vec<usize>))
        requires
            self.fits(scores_of(*state)),
            ai_move_value == 1 || ai_move_value == -1,
            0 <= depth <= MAX_PLY,
            -UNBOUNDED <= alpha <= beta <= UNBOUNDED,
        ensures
            agrees(
                best_value(self.rules(ai_move_value), scores_of(*state), depth as int, false),
                alpha as int,
                beta as int,
                result.0 as int,
            ),
            alpha <= best_value(
                self.rules(ai_move_value),
                scores_of(*state),
                depth as int,
                false,
            ) <= beta ==> result.1@ == best_moves(
                self.rules(ai_move_value),
                scores_of(*state),
                depth as int,
                false,
            ),
            playable_moves(self.rules(ai_move_value), scores_of(*state), result.1@),
    {
        crate::search::min_state(self.search_rules(ai_move_value), state, depth, alpha, beta)
    }

    /// The position after the number `value` has been dropped into a
    /// column, or `None` where the column does not exist or is full.
    pub fn fill_map(&self, new_state: &Vec<Vec<i64>>, column: usize, value: i64) -> (next: Option<
        Vec<Vec<i64>>,
    >)
        requires
            self.fits(scores_of(*new_state)),
        ensures
            next.is_some() == crate::scores::column_open(scores_of(*new_state), column as int),
            next.is_some() ==> scores_of(next.unwrap()) == crate::scores::filled(
                scores_of(*new_state),
                column as int,
                value,
            ),
    {
        crate::scores::fill_map(new_state, column, value)
    }

    /// The win value and the chain value of a position, with every cell of a
    /// line counted as it is.
    pub fn check_state(&self, state: &Vec<Vec<i64>>) -> (result: (i64, i64))
        requires
            self.fits(scores_of(*state)),
        ensures
            result.0 == crate::scores::win_value(scores_of(*state), false),
            result.1 == crate::scores::chain_value(scores_of(*state), false),
    {
        crate::scores::check_state(state, false)
    }

    /// A number below `val`, drawn at random; 0 where `val` is 0.
    pub fn get_random_val(&self, val: usize) -> (index: usize)
        ensures
            val > 0 ==> index < val,
            val == 0 ==> index == 0,
    {
        if val == 0 {
            0
        } else {
            draw_below(val)
        }
    }

    /// One of the given columns, drawn at random.
    pub fn choose_move(&self, choice: &Vec<usize>) -> (column: usize)
        requires
            choice@.len() > 0,
        ensures
            choice@.contains(column),
    {
        let index = self.get_random_val(choice.len());
        choice[index]
    }
}

/// Whether the top cell of a column of the board is occupied.
fn column_is_full(board: &Board, column: usize) -> (b: bool)
    requires
        board.wf(),
        column < columns(board@),
    ensures
        b == column_full(board@, column as int),
{
    board.disc_at(0, column) != DiscType::Empty
}

/// The list that holds one column.
fn single(column: usize) -> (list: Vec<usize>)
    ensures
        list@ == seq![column],
{
    let mut list: Vec<usize> = Vec::new();
    list.push(column);
    assert(list@ =~= seq![column]);
    list
}

/// The column and the letter of move `n` of the spelling game on a board
/// with `width` columns: a T in column `n` for `n` below `width`, an O in
/// column `n - width` from there on.
pub open spec fn letter_move(width: int, n: int) -> (usize, DiscType) {
    if n < width {
        (n as usize, DiscType::T)
    } else {
        ((n - width) as usize, DiscType::O)
    }
}

/// Move `n` of the spelling game can be made on `g` and makes `word` the
/// deciding word.
pub open spec fn spells_with(g: Grid, n: int, word: Word) -> bool {
    let (c, letter) = letter_move(columns(g), n);
    0 <= n < 2 * columns(g) && !column_full(g, c as int) && deciding_word(
        dropped(g, c as int, letter),
        word,
    )
}

/// The first move at or after `from` that makes `word` the deciding word, if
/// there is one.
pub open spec fn first_spelling_from(g: Grid, word: Word, from: int) -> Option<usize>
    decreases 2 * columns(g) - from,
{
    if from < 0 || from >= 2 * columns(g) {
        None
    } else if spells_with(g, from, word) {
        Some(from as usize)
    } else {
        first_spelling_from(g, word, from + 1)
    }
}

/// The first move that makes `word` the deciding word, if there is one. All
/// columns are tried with a T before any is tried with an O.
pub open spec fn first_spelling(g: Grid, word: Word) -> Option<usize> {
    first_spelling_from(g, word, 0)
}

/// The word of the other side.
pub open spec fn other_word(word: Word) -> Word {
    match word {
        Word::Toot => Word::Otto,
        Word::Otto => Word::Toot,
    }
}

/// The number that stands for a word in a search: +1 for OTTO, whose lines
/// add up to 4, and -1 for TOOT.
pub open spec fn word_side(word: Word) -> i64 {
    match word {
        Word::Otto => 1i64,
        Word::Toot => -1i64,
    }
}

/// The word with which the participant to move wins: TOOT for the first,
/// OTTO for the second.
pub open spec fn word_to_move(m: MatchState) -> Word {
    if first_to_move(m) {
        Word::Toot
    } else {
        Word::Otto
    }
}

/// Every move that can be made on `g`: a T in each column that is not full,
/// then an O in each.
pub open spec fn all_letter_moves(g: Grid) -> Seq<(usize, DiscType)> {
    open_columns(g).map_values(|c: usize| (c, DiscType::T)) + open_columns(g).map_values(
        |c: usize| (c, DiscType::O),
    )
}

/// How a search of the spelling game of a difficulty runs for the side with
/// the number `side`.
pub open spec fn toot_otto_rules(difficulty: Difficulty, side: i64) -> Rules {
    Rules { spelling: true, side, limit: difficulty.depth_limit() as i64 }
}

/// The moves among which the computer chooses when it plays for `word` on
/// the board `g`.
///
/// - Easy: every move that can be made.
/// - Medium: the first move that makes `word` the deciding word; without
///   one, the column of the first move with which the opponent's word would
///   decide, with the other letter; without that either, every move that can
///   be made.
/// - Hard and Insane: the moves whose minimax value, searched to the depth
///   of the difficulty, is the best; every move that can be made where the
///   search names none.
pub open spec fn toot_otto_candidates(difficulty: Difficulty, g: Grid, word: Word) -> Seq<
    (usize, DiscType),
> {
    match difficulty {
        Difficulty::Easy => all_letter_moves(g),
        Difficulty::Medium => match first_spelling(g, word) {
            Some(n) => seq![letter_move(columns(g), n as int)],
            None => match first_spelling(g, other_word(word)) {
                Some(n) => seq![
                    (
                        letter_move(columns(g), n as int).0,
                        letter_move(columns(g), n as int).1.flipped(),
                    ),
                ],
                None => all_letter_moves(g),
            },
        },
        _ => {
            let best = best_moves(
                toot_otto_rules(difficulty, word_side(word)),
                encoded(g, DiscType::T, DiscType::O),
                0,
                true,
            );
            if best.len() == 0 {
                all_letter_moves(g)
            } else {
                best.map_values(|n: usize| letter_move(columns(g), n as int))
            }
        },
    }
}

/// What the search for the first deciding move finds: a move that decides
/// for the word and before which none does, or nothing where no move does.
pub proof fn lemma_first_spelling(g: Grid, word: Word, from: int)
    requires
        rectangular(g),
        0 <= from,
    ensures
        first_spelling_from(g, word, from).is_some() ==> {
            let n = first_spelling_from(g, word, from).unwrap() as int;
            &&& from <= n < 2 * columns(g)
            &&& spells_with(g, n, word)
            &&& forall|k: int| from <= k < n ==> !#[trigger] spells_with(g, k, word)
        },
        first_spelling_from(g, word, from).is_none() ==> forall|k: int|
            from <= k ==> !#[trigger] spells_with(g, k, word),
    decreases 2 * columns(g) - from,
{
    if from < 2 * columns(g) && !spells_with(g, from, word) {
        lemma_first_spelling(g, word, from + 1);
        let rest = first_spelling_from(g, word, from + 1);
        assert(first_spelling_from(g, word, from) == rest);
        if rest.is_some() {
            let n = rest.unwrap() as int;
            assert forall|k: int| from <= k < n implies !#[trigger] spells_with(g, k, word) by {
                if k > from {
                    assert(from + 1 <= k);
                }
            }
        } else {
            assert forall|k: int| from <= k implies !#[trigger] spells_with(g, k, word) by {
                if k > from {
                    assert(from + 1 <= k);
                }
            }
        }
    }
}

/// A move that decides for the word, with no such move before it from
/// `from` on, is the first deciding move from `from` on.
pub proof fn lemma_first_spelling_is(g: Grid, word: Word, from: int, n: int)
    requires
        rectangular(g),
        0 <= from <= n,
        spells_with(g, n, word),
        forall|k: int| from <= k < n ==> !#[trigger] spells_with(g, k, word),
    ensures
        first_spelling_from(g, word, from) == Some(n as usize),
    decreases n - from,
{
    if from < n {
        assert(!spells_with(g, from, word));
        lemma_first_spelling_is(g, word, from + 1, n);
    }
}

/// At the medium difficulty the computer spells its word where one move
/// does: where move `n` makes its word the deciding word, and no move before
/// it does, that move is its only candidate.
pub proof fn lemma_medium_spells_its_word(g: Grid, word: Word, n: int)
    requires
        rectangular(g),
        spells_with(g, n, word),
        forall|k: int| 0 <= k < n ==> !#[trigger] spells_with(g, k, word),
    ensures
        toot_otto_candidates(Difficulty::Medium, g, word) == seq![letter_move(columns(g), n)],
{
    lemma_first_spelling_is(g, word, 0, n);
}

/// At the medium difficulty the computer that cannot spell its word at once
/// takes the cell in which the opponent would spell the other: where no move
/// makes its own word the deciding word, and move `n` would make the
/// opponent's, and no move before it, its only candidate is the column of
/// that move with the other letter.
pub proof fn lemma_medium_blocks_the_other_word(g: Grid, word: Word, n: int)
    requires
        rectangular(g),
        forall|k: int| !#[trigger] spells_with(g, k, word),
        spells_with(g, n, other_word(word)),
        forall|k: int| 0 <= k < n ==> !#[trigger] spells_with(g, k, other_word(word)),
    ensures
        toot_otto_candidates(Difficulty::Medium, g, word) == seq![
            (letter_move(columns(g), n).0, letter_move(columns(g), n).1.flipped()),
        ],
{
    lemma_first_spelling(g, word, 0);
    lemma_first_spelling_is(g, other_word(word), 0, n);
}

/// The computer opponent of the spelling game, for boards of one size.
#[derive(Clone, Copy, Debug)]
pub struct TootOttoAI {
    board_rows: usize,
    board_columns: usize,
    difficulty: Difficulty,
}

impl TootOttoAI {
    /// Number of rows of the boards that this opponent plays on.
    pub closed spec fn rows(&self) -> int {
        self.board_rows as int
    }

    /// Number of columns of the boards that this opponent plays on.
    pub closed spec fn columns(&self) -> int {
        self.board_columns as int
    }

    /// How hard this opponent tries.
    pub closed spec fn difficulty(&self) -> Difficulty {
        self.difficulty
    }

    /// The size of the boards is a permitted one.
    pub open spec fn wf(&self) -> bool {
        1 <= self.rows() <= MAX_SIDE && 1 <= self.columns() <= MAX_SIDE
    }

    /// The matrix is valid and has the size of this opponent's boards.
    pub open spec fn fits(&self, s: Scores) -> bool {
        valid_scores(s) && rows(s) == self.rows() && columns(s) == self.columns()
    }

    /// How this opponent searches for the side with the number
    /// `ai_move_value`: +1 for the side that spells OTTO, -1 for the side that
    /// spells TOOT.
    pub open spec fn rules(&self, ai_move_value: i64) -> Rules {
        toot_otto_rules(self.difficulty(), ai_move_value)
    }

    /// An opponent of the given difficulty for boards of the given size.
    pub fn new(board_rows: usize, board_columns: usize, difficulty: Difficulty) -> (ai: Self)
        requires
            1 <= board_rows <= MAX_SIDE,
            1 <= board_columns <= MAX_SIDE,
        ensures
            ai.wf(),
            ai.rows() == board_rows,
            ai.columns() == board_columns,
            ai.difficulty() == difficulty,
    {
        Self { board_rows, board_columns, difficulty }
    }

    /// The rules of a search for the side with the number `ai_move_value`.
    fn search_rules(&self, ai_move_value: i64) -> (rules: Rules)
        requires
            ai_move_value == 1 || ai_move_value == -1,
        ensures
            rules == self.rules(ai_move_value),
            rules.wf(),
    {
        Rules { spelling: true, side: ai_move_value, limit: self.difficulty.search_depth() }
    }

    /// The first move that makes `word` the deciding word, if there is one:
    /// its number, with all columns tried with a T before any is tried with an
    /// O.
    fn first_deciding_move(&self, game_board: &Board, word: Word) -> (found: Option<usize>)
        requires
            game_board.wf(),
        ensures
            found == first_spelling(game_board@, word),
            found.is_some() ==> found.unwrap() < 2 * columns(game_board@),
    {
        let width = game_board.board_columns();
        let mut n: usize = 0;
        proof {
            lemma_first_spelling(game_board@, word, 0);
        }
        while n < 2 * width
            invariant
                game_board.wf(),
                width == columns(game_board@),
                n <= 2 * width,
                first_spelling(game_board@, word) == first_spelling_from(
                    game_board@,
                    word,
                    n as int,
                ),
            decreases 2 * width - n,
        {
            let (column, letter) = letter_of_move(width, n);
            if !column_is_full(game_board, column) {
                let mut trial = game_board.clone();
                trial.place_disc(column, letter);
                let event = trial.is_toot_or_otto();
                let decided = match word {
                    Word::Toot => matches!(event, GameEvent::IsTOOT),
                    Word::Otto => matches!(event, GameEvent::IsOTTO),
                };
                if decided {
                    return Some(n);
                }
            }
            n += 1;
        }
        None
    }

    /// The first move with which the side of `word` wins at once, if there
    /// is one: its column and its letter.
    pub fn find_winning_move(&self, game_board: &Board, word: Word) -> (found: Option<
        (usize, DiscType),
    >)
        requires
            game_board.wf(),
        ensures
            found == match first_spelling(game_board@, word) {
                Some(n) => Some(letter_move(columns(game_board@), n as int)),
                None => None,
            },
    {
        let width = game_board.board_columns();
        match self.first_deciding_move(game_board, word) {
            Some(n) => Some(letter_of_move(width, n)),
            None => None,
        }
    }

    /// The move that takes the first win away from the opponent of the side
    /// of `word`, if the opponent has one: the column of the opponent's first
    /// winning move, with the other letter.
    pub fn find_blocking_move(&self, game_board: &Board, word: Word) -> (found: Option<
        (usize, DiscType),
    >)
        requires
            game_board.wf(),
        ensures
            found == match first_spelling(game_board@, other_word(word)) {
                Some(n) => Some(
                    (
                        letter_move(columns(game_board@), n as int).0,
                        letter_move(columns(game_board@), n as int).1.flipped(),
                    ),
                ),
                None => None,
            },
    {
        let width = game_board.board_columns();
        let theirs = match word {
            Word::Toot => Word::Otto,
            Word::Otto => Word::Toot,
        };
        match self.first_deciding_move(game_board, theirs) {
            Some(n) => {
                let (column, letter) = letter_of_move(width, n);
                let answer = if letter == DiscType::T {
                    DiscType::O
                } else {
                    DiscType::T
                };
                Some((column, answer))
            },
            None => None,
        }
    }

    /// The moves among which this opponent chooses in a match, for the
    /// participant to move.
    pub fn candidate_moves(&self, game: &BoardGame) -> (candidates: Vec<(usize, DiscType)>)
        requires
            self.wf(),
            game.wf(),
            game@.game_type == GameType::TOOTandOTTO,
            rows(game@.grid) == self.rows(),
            columns(game@.grid) == self.columns(),
        ensures
            candidates@ == toot_otto_candidates(
                self.difficulty(),
                game@.grid,
                word_to_move(game@),
            ),
            forall|i: int|
                0 <= i < candidates@.len() ==> {
                    let (column, letter) = #[trigger] candidates@[i];
                    &&& column < columns(game@.grid)
                    &&& !column_full(game@.grid, column as int)
                    &&& letter.is_letter()
                },
            candidates@.len() == 0 <==> open_columns(game@.grid).len() == 0,
    {
        let board = game.game_board();
        let word = if game.current_player() == 1 {
            Word::Toot
        } else {
            Word::Otto
        };
        let ghost g = board@;
        proof {
            lemma_open_columns(g, columns(g));
            lemma_first_spelling(g, word, 0);
            lemma_first_spelling(g, other_word(word), 0);
        }
        match self.difficulty {
            Difficulty::Easy => every_letter_move(board),
            Difficulty::Medium => {
                match self.find_winning_move(board, word) {
                    Some(m) => {
                        proof {
                            assert(open_columns(g).contains(m.0));
                        }
                        single_move(m)
                    },
                    None => match self.find_blocking_move(board, word) {
                        Some(m) => {
                            proof {
                                assert(open_columns(g).contains(m.0));
                            }
                            single_move(m)
                        },
                        None => every_letter_move(board),
                    },
                }
            },
            _ => {
                let state = encode_board(board, DiscType::T, DiscType::O);
                let side: i64 = match word {
                    Word::Otto => 1,
                    Word::Toot => -1,
                };
                let ghost rules = self.rules(side);
                let ghost s = scores_of(state);
                proof {
                    lemma_encoded_valid(g, DiscType::T, DiscType::O);
                    lemma_best_upto_range(rules, s, 0, true, move_count(rules, s));
                    lemma_achievers(
                        rules,
                        s,
                        0,
                        true,
                        best_value(rules, s, 0, true),
                        move_count(rules, s),
                    );
                }
                let (_, best) = crate::search::max_state(
                    self.search_rules(side),
                    &state,
                    0,
                    -UNBOUNDED,
                    UNBOUNDED,
                );
                if best.len() == 0 {
                    every_letter_move(board)
                } else {
                    proof {
                        let first = letter_move(columns(g), best@[0] as int);
                        assert(!column_full(g, first.0 as int));
                        assert(open_columns(g).contains(first.0));
                    }
                    let moves = letter_moves(board.board_columns(), &best);
                    moves
                }
            },
        }
    }

    /// The move that this opponent plays in a match where `draw` is the
    /// number that chance came up with: the candidate at the position `draw`,
    /// counted round the list of candidates; column 0 with no disc where there
    /// is none.
    pub fn select_move(&self, game: &BoardGame, draw: usize) -> (chosen: (usize, DiscType))
        requires
            self.wf(),
            game.wf(),
            game@.game_type == GameType::TOOTandOTTO,
            rows(game@.grid) == self.rows(),
            columns(game@.grid) == self.columns(),
        ensures
            chosen == match picked(
                toot_otto_candidates(self.difficulty(), game@.grid, word_to_move(game@)),
                draw as int,
            ) {
                Some(m) => m,
                None => (0usize, DiscType::Empty),
            },
    {
        let candidates = self.candidate_moves(game);
        match pick_move(&candidates, draw) {
            Some(chosen) => chosen,
            None => (0, DiscType::Empty),
        }
    }

    /// The move that this opponent plays in a match, for the participant to
    /// move: a column and a letter.
    ///
    /// It is one of the candidate moves of the difficulty, drawn at random,
    /// and so a letter in a column that is not full. Where the board is full
    /// there is no candidate, and the result is column 0 with no disc.
    pub fn find_best_move(&self, game: BoardGame) -> (chosen: (usize, DiscType))
        requires
            self.wf(),
            game.wf(),
            game@.game_type == GameType::TOOTandOTTO,
            rows(game@.grid) == self.rows(),
            columns(game@.grid) == self.columns(),
        ensures
            toot_otto_candidates(self.difficulty(), game@.grid, word_to_move(game@)).len() == 0
                ==> chosen == (0usize, DiscType::Empty),
            toot_otto_candidates(self.difficulty(), game@.grid, word_to_move(game@)).len() > 0
                ==> toot_otto_candidates(
                self.difficulty(),
                game@.grid,
                word_to_move(game@),
            ).contains(chosen) && chosen.0 < columns(game@.grid) && !column_full(
                game@.grid,
                chosen.0 as int,
            ) && chosen.1.is_letter(),
    {
        let candidates = self.candidate_moves(&game);
        let draw = self.get_random_val(candidates.len());
        match pick_move(&candidates, draw) {
            Some(chosen) => chosen,
            None => (0, DiscType::Empty),
        }
    }

    /// The value of a position that a move at ply `depth` has led to, for
    /// the side with the number `ai_move_value`, searched between the bounds
    /// `alpha` and `beta`.
    pub fn value(
        &self,
        ai_move_value: i64,
        state: &Vec<Vec<i64>>,
        depth: i64,
        alpha: i64,
        beta: i64,
    ) -> (v: i64)
        requires
            self.fits(scores_of(*state)),
            ai_move_value == 1 || ai_move_value == -1,
            0 <= depth <= MAX_PLY,
            -UNBOUNDED <= alpha <= beta <= UNBOUNDED,
        ensures
            agrees(
                outcome(self.rules(ai_move_value), scores_of(*state), depth as int),
                alpha as int,
                beta as int,
                v as int,
            ),
    {
        crate::search::value(self.search_rules(ai_move_value), state, depth, alpha, beta)
    }

    /// The best value that the side with the number `ai_move_value` can
    /// reach by a move at ply `depth`, searched between the bounds `alpha`
    /// and `beta`, and the moves that reach it, each a column and a letter.
    pub fn max_state(
        &self,
        ai_move_value: i64,
        state: &Vec<Vec<i64>>,
        depth: i64,
        alpha: i64,
        beta: i64,
    ) -> (result: (i64, Vec<(usize, DiscType)>))
        requires
            self.fits(scores_of(*state)),
            ai_move_value == 1 || ai_move_value == -1,
            0 <= depth <= MAX_PLY,
            -UNBOUNDED <= alpha <= beta <= UNBOUNDED,
        ensures
            agrees(
                best_value(self.rules(ai_move_value), scores_of(*state), depth as int, true),
                alpha as int,
                beta as int,
                result.0 as int,
            ),
            alpha <= best_value(self.rules(ai_move_value), scores_of(*state), depth as int, true)
                <= beta ==> result.1@ == best_moves(
                self.rules(ai_move_value),
                scores_of(*state),
                depth as int,
                true,
            ).map_values(|n: usize| letter_move(self.columns(), n as int)),
            forall|i: int|
                0 <= i < result.1@.len() ==> column_open(
                    scores_of(*state),
                    (#[trigger] result.1@[i]).0 as int,
                ) && result.1@[i].1.is_letter(),
    {
        let (v, moves) = crate::search::max_state(
            self.search_rules(ai_move_value),
            state,
            depth,
            alpha,
            beta,
        );
        let pairs = letter_moves(self.board_columns, &moves);
        proof {
            assert forall|i: int| 0 <= i < pairs@.len() implies column_open(
                scores_of(*state),
                (#[trigger] pairs@[i]).0 as int,
            ) && pairs@[i].1.is_letter() by {
                assert(playable(self.rules(ai_move_value), scores_of(*state), moves@[i] as int));
            }
        }
        (v, pairs)
    }

    /// The best value that the opponent of the side with the number
    /// `ai_move_value` can reach by a move at ply `depth`, the lowest for
    /// that side, searched between the bounds `alpha` and `beta`, and the
    /// moves that reach it, each a column and a letter.
    pub fn min_state(
        &self,
        ai_move_value: i64,
        state: &Vec<Vec<i64>>,
        depth: i64,
        alpha: i64,
        beta: i64,
    ) -> (result: (i64, Vec<(usize, DiscType)>))
        requires
            self.fits(scores_of(*state)),
            ai_move_value == 1 || ai_move_value == -1,
            0 <= depth <= MAX_PLY,
            -UNBOUNDED <= alpha <= beta <= UNBOUNDED,
        ensures
            agrees(
                best_value(self.rules(ai_move_value), scores_of(*state), depth as int, false),
                alpha as int,
                beta as int,
                result.0 as int,
            ),
            alpha <= best_value(
                self.rules(ai_move_value),
                scores_of(*state),
                depth as int,
                false,
            ) <= beta ==> result.1@ == best_moves(
                self.rules(ai_move_value),
                scores_of(*state),
                depth as int,
                false,
            ).map_values(|n: usize| letter_move(self.columns(), n as int)),
            forall|i: int|
                0 <= i < result.1@.len() ==> column_open(
                    scores_of(*state),
                    (#[trigger] result.1@[i]).0 as int,
                ) && result.1@[i].1.is_letter(),
    {
        let (v, moves) = crate::search::min_state(
            self.search_rules(ai_move_value),
            state,
            depth,
            alpha,
            beta,
        );
        let pairs = letter_moves(self.board_columns, &moves);
        proof {
            assert forall|i: int| 0 <= i < pairs@.len() implies column_open(
                scores_of(*state),
                (#[trigger] pairs@[i]).0 as int,
            ) && pairs@[i].1.is_letter() by {
                assert(playable(self.rules(ai_move_value), scores_of(*state), moves@[i] as int));
            }
        }
        (v, pairs)
    }

    /// The position after the number `value` has been dropped into a
    /// column, or `None` where the column does not exist or is full.
    pub fn fill_map(&self, new_state: &Vec<Vec<i64>>, column: usize, value: i64) -> (next: Option<
        Vec<Vec<i64>>,
    >)
        requires
            self.fits(scores_of(*new_state)),
        ensures
            next.is_some() == crate::scores::column_open(scores_of(*new_state), column as int),
            next.is_some() ==> scores_of(next.unwrap()) == crate::scores::filled(
                scores_of(*new_state),
                column as int,
                value,
            ),
    {
        crate::scores::fill_map(new_state, column, value)
    }

    /// The win value and the chain value of a position, with the two outer
    /// cells of every line counted with the opposite sign: a line that spells
    /// OTTO adds up to 4, one that spells TOOT to -4.
    pub fn check_state(&self, state: &Vec<Vec<i64>>) -> (result: (i64, i64))
        requires
            self.fits(scores_of(*state)),
        ensures
            result.0 == crate::scores::win_value(scores_of(*state), true),
            result.1 == crate::scores::chain_value(scores_of(*state), true),
    {
        crate::scores::check_state(state, true)
    }

    /// A number below `val`, drawn at random; 0 where `val` is 0.
    pub fn get_random_val(&self, val: usize) -> (index: usize)
        ensures
            val > 0 ==> index < val,
            val == 0 ==> index == 0,
    {
        if val == 0 {
            0
        } else {
            draw_below(val)
        }
    }

    /// One of the given entries, drawn at random.
    pub fn choose_move<T: Copy>(&self, choice: &Vec<T>) -> (entry: T)
        requires
            choice@.len() > 0,
        ensures
            choice@.contains(entry),
    {
        let index = self.get_random_val(choice.len());
        choice[index]
    }
}

/// The column and the letter of move `n` on a board with `width` columns.
fn letter_of_move(width: usize, n: usize) -> (parts: (usize, DiscType))
    requires
        n < 2 * width,
    ensures
        parts == letter_move(width as int, n as int),
        parts.0 < width,
        parts.1.is_letter(),
{
    if n < width {
        (n, DiscType::T)
    } else {
        (n - width, DiscType::O)
    }
}

/// The columns and letters of a list of moves on a board with `width`
/// columns.
fn letter_moves(width: usize, moves: &Vec<usize>) -> (pairs: Vec<(usize, DiscType)>)
    ensures
        pairs@ == moves@.map_values(|n: usize| letter_move(width as int, n as int)),
{
    let mut pairs: Vec<(usize, DiscType)> = Vec::new();
    let mut i: usize = 0;
    while i < moves.len()
        invariant
            i <= moves@.len(),
            pairs@.len() == i,
            forall|k: int|
                0 <= k < i ==> #[trigger] pairs@[k] == letter_move(width as int, moves@[k] as int),
        decreases moves@.len() - i,
    {
        let n = moves[i];
        let pair = if n < width {
            (n, DiscType::T)
        } else {
            (n - width, DiscType::O)
        };
        pairs.push(pair);
        i += 1;
    }
    assert(pairs@ =~= moves@.map_values(|n: usize| letter_move(width as int, n as int)));
    pairs
}

/// Every move that can be made on the board: a T in each column that is not
/// full, then an O in each.
fn every_letter_move(board: &Board) -> (moves: Vec<(usize, DiscType)>)
    requires
        board.wf(),
    ensures
        moves@ == all_letter_moves(board@),
{
    let open = board.get_valid_columns();
    let mut moves: Vec<(usize, DiscType)> = Vec::new();
    let mut i: usize = 0;
    while i < open.len()
        invariant
            i <= open@.len(),
            moves@.len() == i,
            forall|k: int| 0 <= k < i ==> #[trigger] moves@[k] == (open@[k], DiscType::T),
        decreases open@.len() - i,
    {
        moves.push((open[i], DiscType::T));
        i += 1;
    }
    let mut j: usize = 0;
    while j < open.len()
        invariant
            j <= open@.len(),
            moves@.len() == open@.len() + j,
            forall|k: int|
                0 <= k < open@.len() ==> #[trigger] moves@[k] == (open@[k], DiscType::T),
            forall|k: int|
                0 <= k < j ==> #[trigger] moves@[open@.len() + k] == (open@[k], DiscType::O),
        decreases open@.len() - j,
    {
        moves.push((open[j], DiscType::O));
        j += 1;
    }
    proof {
        let ts = open@.map_values(|c: usize| (c, DiscType::T));
        let os = open@.map_values(|c: usize| (c, DiscType::O));
        assert(moves@.len() == (ts + os).len());
        assert forall|k: int| 0 <= k < moves@.len() implies moves@[k] == (ts + os)[k] by {
            if k < open@.len() {
                assert(moves@[k] == (open@[k], DiscType::T));
            } else {
                assert(moves@[open@.len() + (k - open@.len())] == (
                    open@[k - open@.len()],
                    DiscType::O,
                ));
            }
        }
        assert(moves@ =~= ts + os);
    }
    moves
}

/// The list that holds one move.
fn single_move(m: (usize, DiscType)) -> (list: Vec<(usize, DiscType)>)
    ensures
        list@ == seq![m],
{
    let mut list: Vec<(usize, DiscType)> = Vec::new();
    list.push(m);
    assert(list@ =~= seq![m]);
    list
}

} // verus!
