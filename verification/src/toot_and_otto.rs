//! The spelling game as a type of its own.

use vstd::prelude::*;
use crate::disc::DiscType;
use crate::game::{
    fresh_match, placed, valid_match, with_letter, BoardGame, GameEvent, GameType, MatchState,
};
use crate::grid::MAX_SIDE;

verus! {

/// A match of the spelling game: the first participant wins with the word
/// TOOT, the second with OTTO, and each places a T or an O as it likes.
#[allow(non_camel_case_types)]
#[derive(Debug)]
pub struct TOOTandOTTO {
    game: BoardGame,
}

impl View for TOOTandOTTO {
    type V = MatchState;

    closed spec fn view(&self) -> MatchState {
        self.game@
    }
}

impl TOOTandOTTO {
    /// The invariant of every match of the spelling game.
    pub open spec fn wf(&self) -> bool {
        valid_match(self@) && self@.game_type == GameType::TOOTandOTTO
    }

    /// A match on an empty board of the given size. The first participant
    /// is human and starts with the letter T; the second starts with O and is
    /// the computer where `vs_ai` is set.
    pub fn new(board_rows: usize, board_columns: usize, vs_ai: bool) -> (game: Self)
        requires
            1 <= board_rows <= MAX_SIDE,
            1 <= board_columns <= MAX_SIDE,
        ensures
            game.wf(),
            game@ == fresh_match(
                GameType::TOOTandOTTO,
                board_rows as int,
                board_columns as int,
                vs_ai,
            ),
    {
        Self { game: BoardGame::new_toot_and_otto(board_rows, board_columns, vs_ai) }
    }

    /// The match, to look at.
    pub fn game(&self) -> (game: &BoardGame)
        ensures
            game@ == self@,
    {
        &self.game
    }

    /// Gives the participant to move the given letter for the next
    /// placement, as `BoardGame::change_disc_type` does.
    pub fn change_disc_type(&mut self, disc_type: DiscType)
        requires
            old(self).wf(),
        ensures
            final(self).wf(),
            final(self)@ == with_letter(old(self)@, disc_type),
    {
        self.game.change_disc_type(disc_type)
    }

    /// Drops the letter of the participant to move into a column, as
    /// `BoardGame::place_disc` does.
    pub fn place_disc(&mut self, column: usize) -> (event: GameEvent)
        requires
            old(self).wf(),
        ensures
            final(self).wf(),
            (final(self)@, event) == placed(old(self)@, column as int),
    {
        proof {
            crate::game::lemma_placed_valid(self@, column as int);
        }
        self.game.place_disc(column)
    }

    /// How the match stands: `Ongoing`, or the event that ended it.
    pub fn check(&self) -> (event: GameEvent)
        ensures
            event == self@.status,
    {
        self.game.check()
    }
}

} // verus!
