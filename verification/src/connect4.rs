//! The four-in-a-row game as a type of its own.

use vstd::prelude::*;
use crate::game::{fresh_match, placed, valid_match, BoardGame, GameEvent, GameType, MatchState};
use crate::grid::MAX_SIDE;

verus! {

/// A four-in-a-row match.
#[derive(Debug)]
pub struct Connect4 {
    game: BoardGame,
}

impl View for Connect4 {
    type V = MatchState;

    closed spec fn view(&self) -> MatchState {
        self.game@
    }
}

impl Connect4 {
    /// The invariant of every four-in-a-row match.
    pub open spec fn wf(&self) -> bool {
        valid_match(self@) && self@.game_type == GameType::Connect4
    }

    /// A match on an empty board of the given size. The first participant
    /// is human and places red; the second places yellow and is the computer
    /// where `vs_ai` is set.
    pub fn new(board_rows: usize, board_columns: usize, vs_ai: bool) -> (game: Self)
        requires
            1 <= board_rows <= MAX_SIDE,
            1 <= board_columns <= MAX_SIDE,
        ensures
            game.wf(),
            game@ == fresh_match(
                GameType::Connect4,
                board_rows as int,
                board_columns as int,
                vs_ai,
            ),
    {
        Self { game: BoardGame::new_connect4(board_rows, board_columns, vs_ai) }
    }

    /// The match, to look at.
    pub fn game(&self) -> (game: &BoardGame)
        ensures
            game@ == self@,
    {
        &self.game
    }

    /// Drops the disc of the participant to move into a column, as
    /// `BoardGame::place_disc` does.
    pub fn place_disc(&mut self, column: usize) -> (event: GameEvent)
        requires
            old(self).wf(),
        ensures
            final(self).wf(),
            (final(self)@, event) == placed(old(self)@, column as int),
    {
        self.game.place_disc(column)
    }

    /// How the match stands: `Ongoing`, or the event that ended it.
    pub fn check(&self) -> (event: GameEvent)
        ensures
            event == self@.status,
    {
        self.game.check()
    }
}

} // verus!
