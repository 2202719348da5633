//! A match: a board, two participants, whose turn it is, and how it stands.

use vstd::prelude::*;
use crate::board::Board;
use crate::disc::DiscType;
use crate::grid::{
    column_full, columns, deciding_word, dropped, empty_grid, full, has_four, is_landing_row,
    landing_row, lemma_decided_iff_some_line_spells, lemma_drop_adds_no_foreign_line,
    lemma_drop_adds_one_disc, lemma_drop_adds_to_total, occupied, lemma_drop_keeps_family,
    lemma_drop_well_formed, lemma_empty_grid, lemma_landing_row, lemma_total_bound, only_discs,
    total_discs, well_formed, Grid, Word, MAX_SIDE,
};
use crate::player::{Player, PlayerType};

verus! {

/// What a placement, or a look at the board, reports.
#[derive(Clone, Copy, Debug, PartialEq, Eq, Structural)]
pub enum GameEvent {
    /// The disc came to rest in the given row and the match goes on.
    PlaceSuccess(usize),
    /// The disc came to rest in the given row and the first player has won.
    Player1Win(usize),
    /// The disc came to rest in the given row and the second player has won.
    Player2Win(usize),
    /// The disc came to rest in the given row, the board is full and nobody
    /// has won.
    Draw(usize),
    /// The board spells TOOT.
    IsTOOT,
    /// The board spells OTTO.
    IsOTTO,
    /// The column has no empty cell; nothing was placed.
    PlaceColumnFull,
    /// The board has no such column; nothing was placed.
    InvalidColumn,
    /// Nothing has been decided yet.
    Ongoing,
}

/// The two games that are played on the board.
#[allow(non_camel_case_types)]
#[derive(Clone, Copy, Debug, PartialEq, Eq, Structural)]
pub enum GameType {
    /// Four discs of one colour in a line win.
    Connect4,
    /// The first player wins with the word TOOT, the second with OTTO.
    TOOTandOTTO,
}

impl GameType {
    /// The name of the game in records of matches: "Connect-4" or
    /// "TOOT-OTTO".
    pub open spec fn name(self) -> Seq<char> {
        match self {
            GameType::Connect4 => "Connect-4"@,
            GameType::TOOTandOTTO => "TOOT-OTTO"@,
        }
    }

    /// The name of the game in records of matches.
    pub fn to_string(&self) -> (text: String)
        ensures
            text@ == self.name(),
    {
        match self {
            GameType::Connect4 => String::from_str("Connect-4"),
            GameType::TOOTandOTTO => String::from_str("TOOT-OTTO"),
        }
    }
}

/// A match as a mathematical value.
pub struct MatchState {
    /// The board.
    pub grid: Grid,
    /// The participant who moves first.
    pub player1: Player,
    /// The participant who moves second.
    pub player2: Player,
    /// Which game is played.
    pub game_type: GameType,
    /// Number of placements after which the match went on.
    pub turns: nat,
    /// `Ongoing`, or the event that ended the match.
    pub status: GameEvent,
}

/// The match is over: its status is a win or a draw.
pub open spec fn is_final(status: GameEvent) -> bool {
    status is Player1Win || status is Player2Win || status is Draw
}

/// The first participant moves on even turns, the second on odd ones.
pub open spec fn first_to_move(m: MatchState) -> bool {
    m.turns % 2 == 0
}

/// The disc that the participant to move places.
pub open spec fn disc_to_move(m: MatchState) -> DiscType {
    if first_to_move(m) {
        m.player1.disc_type
    } else {
        m.player2.disc_type
    }
}

/// The board shows a win of the first participant: four red discs in a line,
/// or TOOT as the deciding word.
pub open spec fn first_has_won(game_type: GameType, g: Grid) -> bool {
    match game_type {
        GameType::Connect4 => has_four(g, DiscType::Red),
        GameType::TOOTandOTTO => deciding_word(g, Word::Toot),
    }
}

/// The board shows a win of the second participant: four yellow discs in a
/// line, or OTTO as the deciding word.
pub open spec fn second_has_won(game_type: GameType, g: Grid) -> bool {
    match game_type {
        GameType::Connect4 => has_four(g, DiscType::Yellow),
        GameType::TOOTandOTTO => deciding_word(g, Word::Otto),
    }
}

/// What the board says after the participant to move has placed a disc that
/// came to rest in `row`.
///
/// In the four-in-a-row game the mover wins with four discs of the colour just
/// placed in a line. In the spelling game the first participant wins where
/// TOOT decides the board and the second where OTTO does, whoever moved.
/// Without a win a full board is a draw. Otherwise the match goes on.
pub open spec fn verdict(
    game_type: GameType,
    g: Grid,
    first_moved: bool,
    disc: DiscType,
    row: usize,
) -> GameEvent {
    match game_type {
        GameType::Connect4 => {
            if has_four(g, disc) {
                if first_moved {
                    GameEvent::Player1Win(row)
                } else {
                    GameEvent::Player2Win(row)
                }
            } else if full(g) {
                GameEvent::Draw(row)
            } else {
                GameEvent::PlaceSuccess(row)
            }
        },
        GameType::TOOTandOTTO => {
            if deciding_word(g, Word::Toot) {
                GameEvent::Player1Win(row)
            } else if deciding_word(g, Word::Otto) {
                GameEvent::Player2Win(row)
            } else if full(g) {
                GameEvent::Draw(row)
            } else {
                GameEvent::PlaceSuccess(row)
            }
        },
    }
}

/// The match and the event after an attempt to place a disc in `column`.
///
/// The column is looked at first, whatever the state of the match: a column
/// that the board does not have gives `InvalidColumn`, a column whose top
/// cell is occupied gives `PlaceColumnFull`, and the match stays as it is.
/// Into any other column a match that is over takes no disc either: it stays
/// as it is and reports how it ended. Otherwise the disc of the participant
/// to move drops into the column; a win or a draw ends the match, and
/// anything else passes the turn.
pub open spec fn placed(m: MatchState, column: int) -> (MatchState, GameEvent) {
    if !(0 <= column < columns(m.grid)) {
        (m, GameEvent::InvalidColumn)
    } else if column_full(m.grid, column) {
        (m, GameEvent::PlaceColumnFull)
    } else if is_final(m.status) {
        (m, m.status)
    } else {
        let grid = dropped(m.grid, column, disc_to_move(m));
        let event = verdict(
            m.game_type,
            grid,
            first_to_move(m),
            disc_to_move(m),
            landing_row(m.grid, column) as usize,
        );
        if event is PlaceSuccess {
            (MatchState { grid, turns: m.turns + 1, ..m }, event)
        } else {
            (MatchState { grid, status: event, ..m }, event)
        }
    }
}

/// The states a match can be in.
///
/// The board is well formed and holds discs of the game's family only: in
/// the four-in-a-row game the first participant places red and the second
/// yellow; in the spelling game each places T or O. The status is `Ongoing`,
/// a win or a draw, and it agrees with the board: a match that goes on has no
/// winner and an open column, a draw has a full board and no winner, and a
/// win shows on the board. The turn counter is the number of discs on the
/// board, less the one that ended the match.
pub open spec fn valid_match(m: MatchState) -> bool {
    &&& well_formed(m.grid)
    &&& match m.game_type {
        GameType::Connect4 => {
            &&& m.player1.disc_type == DiscType::Red
            &&& m.player2.disc_type == DiscType::Yellow
            &&& only_discs(m.grid, DiscType::Red, DiscType::Yellow)
        },
        GameType::TOOTandOTTO => {
            &&& m.player1.disc_type.is_letter()
            &&& m.player2.disc_type.is_letter()
            &&& only_discs(m.grid, DiscType::T, DiscType::O)
        },
    }
    &&& m.status == GameEvent::Ongoing || is_final(m.status)
    &&& m.status == GameEvent::Ongoing ==> {
        &&& !full(m.grid)
        &&& !first_has_won(m.game_type, m.grid)
        &&& !second_has_won(m.game_type, m.grid)
        &&& total_discs(m.grid) == m.turns
    }
    &&& m.status is Draw ==> {
        &&& full(m.grid)
        &&& !first_has_won(m.game_type, m.grid)
        &&& !second_has_won(m.game_type, m.grid)
    }
    &&& m.status is Player1Win ==> first_has_won(m.game_type, m.grid)
    &&& m.status is Player2Win ==> second_has_won(m.game_type, m.grid)
    &&& is_final(m.status) ==> total_discs(m.grid) == m.turns + 1
}

/// The match before the first move.
pub open spec fn fresh_match(
    game_type: GameType,
    board_rows: int,
    board_columns: int,
    vs_ai: bool,
) -> MatchState {
    MatchState {
        grid: empty_grid(board_rows, board_columns),
        player1: Player {
            player_type: PlayerType::Human,
            disc_type: match game_type {
                GameType::Connect4 => DiscType::Red,
                GameType::TOOTandOTTO => DiscType::T,
            },
        },
        player2: Player {
            player_type: if vs_ai {
                PlayerType::AI
            } else {
                PlayerType::Human
            },
            disc_type: match game_type {
                GameType::Connect4 => DiscType::Yellow,
                GameType::TOOTandOTTO => DiscType::O,
            },
        },
        game_type,
        turns: 0,
        status: GameEvent::Ongoing,
    }
}

/// The match after the participant to move has taken up the letter `letter`.
///
/// Only the spelling game has a choice of disc, only while the match goes on,
/// and only between T and O. Anything else leaves the match as it is.
pub open spec fn with_letter(m: MatchState, letter: DiscType) -> MatchState {
    if m.game_type == GameType::TOOTandOTTO && m.status == GameEvent::Ongoing
        && letter.is_letter() {
        if first_to_move(m) {
            MatchState { player1: Player { disc_type: letter, ..m.player1 }, ..m }
        } else {
            MatchState { player2: Player { disc_type: letter, ..m.player2 }, ..m }
        }
    } else {
        m
    }
}

/// A match before the first move is a valid match that goes on.
pub proof fn lemma_fresh_match_valid(
    game_type: GameType,
    board_rows: int,
    board_columns: int,
    vs_ai: bool,
)
    requires
        1 <= board_rows <= MAX_SIDE,
        1 <= board_columns <= MAX_SIDE,
    ensures
        valid_match(fresh_match(game_type, board_rows, board_columns, vs_ai)),
{
    lemma_empty_grid(board_rows, board_columns);
    let g = empty_grid(board_rows, board_columns);
    lemma_decided_iff_some_line_spells(g);
    assert(has_four(g, DiscType::Red) == false);
    assert(has_four(g, DiscType::Yellow) == false);
}

/// An attempt to place a disc leads from a valid match to a valid match.
pub proof fn lemma_placed_valid(m: MatchState, column: int)
    requires
        valid_match(m),
    ensures
        valid_match(placed(m, column).0),
        placed(m, column).0.game_type == m.game_type,
{
    if !is_final(m.status) && 0 <= column < columns(m.grid) && !column_full(m.grid, column) {
        let disc = disc_to_move(m);
        let g = dropped(m.grid, column, disc);
        lemma_landing_row(m.grid, column);
        lemma_drop_well_formed(m.grid, column, disc);
        lemma_drop_adds_to_total(m.grid, column, disc);
        lemma_decided_iff_some_line_spells(g);
        match m.game_type {
            GameType::Connect4 => {
                lemma_drop_keeps_family(m.grid, column, disc, DiscType::Red, DiscType::Yellow);
                let other = if first_to_move(m) {
                    DiscType::Yellow
                } else {
                    DiscType::Red
                };
                if has_four(g, other) {
                    lemma_drop_adds_no_foreign_line(m.grid, column, disc, other);
                }
            },
            GameType::TOOTandOTTO => {
                lemma_drop_keeps_family(m.grid, column, disc, DiscType::T, DiscType::O);
            },
        }
    }
}

/// A full board without a win ends the match in a draw: where the disc just
/// placed fills the board and nobody has won, the event is `Draw`, and the
/// match never goes on with a full board.
pub proof fn lemma_full_board_is_draw(m: MatchState, column: int)
    requires
        valid_match(m),
        m.status == GameEvent::Ongoing,
        0 <= column < columns(m.grid),
        !column_full(m.grid, column),
        full(placed(m, column).0.grid),
        !first_has_won(m.game_type, placed(m, column).0.grid),
        !second_has_won(m.game_type, placed(m, column).0.grid),
    ensures
        placed(m, column).1 == GameEvent::Draw(landing_row(m.grid, column) as usize),
        placed(m, column).0.status == placed(m, column).1,
{
    lemma_placed_valid(m, column);
}

/// The row that an event reports, where it reports one.
pub open spec fn event_row(event: GameEvent) -> Option<usize> {
    match event {
        GameEvent::PlaceSuccess(row) => Some(row),
        GameEvent::Player1Win(row) => Some(row),
        GameEvent::Player2Win(row) => Some(row),
        GameEvent::Draw(row) => Some(row),
        _ => None,
    }
}

/// A placement into a column that is not full, in a match that goes on,
/// raises the number of discs in that column by exactly one and leaves the
/// other columns as they were. The disc of the participant to move fills the
/// cell that was the lowest empty one of the column, and the event reports
/// the row of that cell.
pub proof fn lemma_placement_fills_lowest_cell(m: MatchState, column: int)
    requires
        valid_match(m),
        m.status == GameEvent::Ongoing,
        0 <= column < columns(m.grid),
        !column_full(m.grid, column),
    ensures
        is_landing_row(m.grid, column, landing_row(m.grid, column)),
        event_row(placed(m, column).1) == Some(landing_row(m.grid, column) as usize),
        placed(m, column).0.grid[landing_row(m.grid, column)][column] == disc_to_move(m),
        occupied(placed(m, column).0.grid, column) == occupied(m.grid, column) + 1,
        forall|other: int|
            0 <= other < columns(m.grid) && other != column ==> #[trigger] occupied(
                placed(m, column).0.grid,
                other,
            ) == occupied(m.grid, other),
{
    lemma_drop_adds_one_disc(m.grid, column, disc_to_move(m));
}

/// A placement into a full column is refused, in every state of the match:
/// the event is `PlaceColumnFull`, and the board, the turn and everything else
/// of the match stay as they were.
pub proof fn lemma_full_column_is_refused(m: MatchState, column: int)
    requires
        0 <= column < columns(m.grid),
        column_full(m.grid, column),
    ensures
        placed(m, column) == (m, GameEvent::PlaceColumnFull),
{
}

/// A placement into a column that the board does not have is refused, in
/// every state of the match: the event is `InvalidColumn`, and the match
/// stays as it was.
pub proof fn lemma_column_outside_is_refused(m: MatchState, column: int)
    requires
        !(0 <= column < columns(m.grid)),
    ensures
        placed(m, column) == (m, GameEvent::InvalidColumn),
{
}

/// A match that goes on never shows a full board, and a match that is over
/// stays as it is under every further placement: a column that could take a
/// disc makes it report how it ended, and any other column is refused as in
/// every match.
pub proof fn lemma_final_states_absorb(m: MatchState, column: int)
    requires
        valid_match(m),
    ensures
        m.status == GameEvent::Ongoing ==> !full(m.grid),
        is_final(m.status) ==> placed(m, column).0 == m,
        is_final(m.status) && 0 <= column < columns(m.grid) && !column_full(m.grid, column)
            ==> placed(m, column).1 == m.status,
{
}

/// A choice of letter leads from a valid match to a valid match.
pub proof fn lemma_with_letter_valid(m: MatchState, letter: DiscType)
    requires
        valid_match(m),
    ensures
        valid_match(with_letter(m, letter)),
{
}

/// A match: the board, the two participants, the turn counter and the
/// status.
#[derive(Debug)]
pub struct BoardGame {
    game_board: Board,
    player1: Player,
    player2: Player,
    game_type: GameType,
    turns: usize,
    status: GameEvent,
}

impl View for BoardGame {
    type V = MatchState;

    closed spec fn view(&self) -> MatchState {
        MatchState {
            grid: self.game_board@,
            player1: self.player1,
            player2: self.player2,
            game_type: self.game_type,
            turns: self.turns as nat,
            status: self.status,
        }
    }
}

impl Clone for BoardGame {
    /// A second match in the same state.
    fn clone(&self) -> (game: Self)
        ensures
            game@ == self@,
    {
        Self {
            game_board: self.game_board.clone(),
            player1: self.player1,
            player2: self.player2,
            game_type: self.game_type,
            turns: self.turns,
            status: self.status,
        }
    }
}

impl BoardGame {
    /// The invariant of every match.
    pub open spec fn wf(&self) -> bool {
        valid_match(self@)
    }

    /// A four-in-a-row match on an empty board of the given size. The first
    /// participant is human and places red; the second places yellow and is
    /// the computer where `vs_ai` is set.
    pub fn new_connect4(board_rows: usize, board_columns: usize, vs_ai: bool) -> (game: Self)
        requires
            1 <= board_rows <= MAX_SIDE,
            1 <= board_columns <= MAX_SIDE,
        ensures
            game.wf(),
            game@ == fresh_match(
                GameType::Connect4,
                board_rows as int,
                board_columns as int,
                vs_ai,
            ),
    {
        let player2_type = if vs_ai {
            PlayerType::AI
        } else {
            PlayerType::Human
        };
        proof {
            lemma_fresh_match_valid(
                GameType::Connect4,
                board_rows as int,
                board_columns as int,
                vs_ai,
            );
        }
        Self {
            game_board: Board::new(board_rows, board_columns),
            player1: Player::new(PlayerType::Human, DiscType::Red),
            player2: Player::new(player2_type, DiscType::Yellow),
            game_type: GameType::Connect4,
            turns: 0,
            status: GameEvent::Ongoing,
        }
    }

    /// A spelling match on an empty board of the given size. The first
    /// participant is human and starts with the letter T; the second starts
    /// with O and is the computer where `vs_ai` is set.
    pub fn new_toot_and_otto(board_rows: usize, board_columns: usize, vs_ai: bool) -> (game: Self)
        requires
            1 <= board_rows <= MAX_SIDE,
            1 <= board_columns <= MAX_SIDE,
        ensures
            game.wf(),
            game@ == fresh_match(
                GameType::TOOTandOTTO,
                board_rows as int,
                board_columns as int,
                vs_ai,
            ),
    {
        let player2_type = if vs_ai {
            PlayerType::AI
        } else {
            PlayerType::Human
        };
        proof {
            lemma_fresh_match_valid(
                GameType::TOOTandOTTO,
                board_rows as int,
                board_columns as int,
                vs_ai,
            );
        }
        Self {
            game_board: Board::new(board_rows, board_columns),
            player1: Player::new(PlayerType::Human, DiscType::T),
            player2: Player::new(player2_type, DiscType::O),
            game_type: GameType::TOOTandOTTO,
            turns: 0,
            status: GameEvent::Ongoing,
        }
    }

    /// The board.
    pub fn game_board(&self) -> (board: &Board)
        ensures
            board@ == self@.grid,
    {
        &self.game_board
    }

    /// The participant who moves first.
    pub fn player1(&self) -> (p: Player)
        ensures
            p == self@.player1,
    {
        self.player1
    }

    /// The participant who moves second.
    pub fn player2(&self) -> (p: Player)
        ensures
            p == self@.player2,
    {
        self.player2
    }

    /// Which game is played.
    pub fn game_type(&self) -> (t: GameType)
        ensures
            t == self@.game_type,
    {
        self.game_type
    }

    /// 1 where the first participant is to move, 2 where the second is.
    pub fn current_player(&self) -> (n: usize)
        ensures
            n == if first_to_move(self@) {
                1int
            } else {
                2int
            },
    {
        1 + self.turns % 2
    }

    /// Number of placements after which the match went on.
    pub fn get_turns(&self) -> (n: usize)
        ensures
            n == self@.turns,
    {
        self.turns
    }

    /// The disc that the participant to move places.
    pub fn get_current_disc_type(&self) -> (d: DiscType)
        ensures
            d == disc_to_move(self@),
    {
        if self.turns % 2 == 0 {
            self.player1.disc_type
        } else {
            self.player2.disc_type
        }
    }

    /// The disc of the participant who is not to move.
    pub fn get_other_disc_type(&self) -> (d: DiscType)
        ensures
            d == if first_to_move(self@) {
                self@.player2.disc_type
            } else {
                self@.player1.disc_type
            },
    {
        if self.turns % 2 == 0 {
            self.player2.disc_type
        } else {
            self.player1.disc_type
        }
    }

    /// Gives the participant to move the given letter for the next
    /// placement. Outside a spelling match that goes on, and for anything
    /// but T and O, nothing changes.
    pub fn change_disc_type(&mut self, disc_type: DiscType)
        requires
            old(self).wf(),
        ensures
            final(self).wf(),
            final(self)@ == with_letter(old(self)@, disc_type),
    {
        let is_letter = disc_type == DiscType::T || disc_type == DiscType::O;
        if self.game_type == GameType::TOOTandOTTO && self.status == GameEvent::Ongoing
            && is_letter {
            if self.turns % 2 == 0 {
                self.player1.change_disc_type(disc_type);
            } else {
                self.player2.change_disc_type(disc_type);
            }
        }
    }

    /// Gives the participant to move the other letter for the next
    /// placement: O for T, and T for O. Outside a spelling match that goes on
    /// nothing changes.
    pub fn switch_disc_type(&mut self)
        requires
            old(self).wf(),
        ensures
            final(self).wf(),
            final(self)@ == with_letter(old(self)@, disc_to_move(old(self)@).flipped()),
    {
        let letter = if self.get_current_disc_type() == DiscType::T {
            DiscType::O
        } else {
            DiscType::T
        };
        self.change_disc_type(letter);
    }

    /// Drops the disc of the participant to move into a column.
    ///
    /// For a column that the board does not have the event is
    /// `InvalidColumn`, for a column whose top cell is occupied
    /// `PlaceColumnFull`, and the match does not change; that is so in every
    /// state of the match. Into any other column a match that is over takes no
    /// disc: it reports how it ended and does not change. Otherwise the disc
    /// comes to rest in the lowest empty cell of the column, and the event
    /// says what followed: a win, a draw, or `PlaceSuccess`, with which the
    /// turn passes to the other participant.
    pub fn place_disc(&mut self, column: usize) -> (event: GameEvent)
        requires
            old(self).wf(),
        ensures
            final(self).wf(),
            (final(self)@, event) == placed(old(self)@, column as int),
    {
        proof {
            lemma_placed_valid(self@, column as int);
        }
        if column >= self.game_board.board_columns() {
            return GameEvent::InvalidColumn;
        }
        if self.game_board.disc_at(0, column) != DiscType::Empty {
            return GameEvent::PlaceColumnFull;
        }
        if self.status != GameEvent::Ongoing {
            return self.status;
        }
        let disc = self.get_current_disc_type();
        match self.game_board.place_disc(column, disc) {
            GameEvent::PlaceSuccess(row) => {
                proof {
                    lemma_drop_adds_to_total(old(self)@.grid, column as int, disc);
                    lemma_total_bound(self.game_board@);
                }
                self.settle(disc, row)
            },
            _ => GameEvent::PlaceColumnFull,
        }
    }

    /// Judges the board after the participant to move has placed `disc` in
    /// `row`: records a win or a draw, or passes the turn.
    fn settle(&mut self, disc: DiscType, row: usize) -> (event: GameEvent)
        requires
            well_formed(old(self).game_board@),
            old(self).status == GameEvent::Ongoing,
            disc == disc_to_move(old(self)@),
            old(self).turns < 1024,
        ensures
            event == verdict(
                old(self)@.game_type,
                old(self)@.grid,
                first_to_move(old(self)@),
                disc,
                row,
            ),
            event is PlaceSuccess ==> final(self)@ == (MatchState {
                turns: old(self)@.turns + 1,
                ..old(self)@
            }),
            !(event is PlaceSuccess) ==> final(self)@ == (MatchState {
                status: event,
                ..old(self)@
            }),
    {
        let first_moved = self.turns % 2 == 0;
        let event = match self.game_type {
            GameType::Connect4 => {
                if self.game_board.is_connect4(disc) {
                    if first_moved {
                        GameEvent::Player1Win(row)
                    } else {
                        GameEvent::Player2Win(row)
                    }
                } else if self.game_board.is_full() {
                    GameEvent::Draw(row)
                } else {
                    GameEvent::PlaceSuccess(row)
                }
            },
            GameType::TOOTandOTTO => {
                match self.game_board.is_toot_or_otto() {
                    GameEvent::IsTOOT => GameEvent::Player1Win(row),
                    GameEvent::IsOTTO => GameEvent::Player2Win(row),
                    _ => {
                        if self.game_board.is_full() {
                            GameEvent::Draw(row)
                        } else {
                            GameEvent::PlaceSuccess(row)
                        }
                    },
                }
            },
        };
        match event {
            GameEvent::PlaceSuccess(_) => {
                self.turns += 1;
            },
            _ => {
                self.status = event;
            },
        }
        event
    }

    /// How the match stands: `Ongoing`, or the event that ended it.
    pub fn check(&self) -> (event: GameEvent)
        ensures
            event == self@.status,
    {
        self.status
    }
}

} // verus!
