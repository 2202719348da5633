//! The record of a finished match, as it is handed on to whoever keeps the
//! history of matches.

use vstd::prelude::*;
use crate::ai::Difficulty;
use crate::game::{is_final, BoardGame, GameEvent, MatchState};
use crate::player::PlayerType;

verus! {

/// What is kept of a finished match.
#[derive(Debug, PartialEq, Eq)]
pub struct HistoryInfo {
    /// The name of the game.
    pub game_type: String,
    /// The name of the participant who moved first.
    pub player1: String,
    /// The name of the participant who moved second.
    pub player2: String,
    /// The name of the winner, or "Draw".
    pub winner: String,
    /// The difficulty of the computer, or "N/A" in a match between humans.
    pub difficulty: String,
    /// When the match was played, as the caller words it.
    pub time_played: String,
}

impl Clone for HistoryInfo {
    /// A second record with the same entries.
    fn clone(&self) -> (copy: Self)
        ensures
            copy.game_type@ == self.game_type@,
            copy.player1@ == self.player1@,
            copy.player2@ == self.player2@,
            copy.winner@ == self.winner@,
            copy.difficulty@ == self.difficulty@,
            copy.time_played@ == self.time_played@,
    {
        HistoryInfo {
            game_type: self.game_type.clone(),
            player1: self.player1.clone(),
            player2: self.player2.clone(),
            winner: self.winner.clone(),
            difficulty: self.difficulty.clone(),
            time_played: self.time_played.clone(),
        }
    }
}

/// The winner's entry in the record of a match that ended with `status`.
pub open spec fn winner_name(status: GameEvent, player1: Seq<char>, player2: Seq<char>) -> Seq<
    char,
> {
    match status {
        GameEvent::Player1Win(_) => player1,
        GameEvent::Player2Win(_) => player2,
        _ => "Draw"@,
    }
}

/// The difficulty's entry in the record of a match.
pub open spec fn difficulty_name(m: MatchState, difficulty: Difficulty) -> Seq<char> {
    if m.player2.player_type == PlayerType::AI {
        match difficulty {
            Difficulty::Easy => "Easy"@,
            Difficulty::Medium => "Medium"@,
            Difficulty::Hard => "Hard"@,
            Difficulty::Insane => "Insane"@,
        }
    } else {
        "N/A"@
    }
}

/// The record of a match, once it is over; `None` while it goes on.
///
/// The record names the game, the two participants as given, the winner or
/// "Draw", the given difficulty where the second participant is the
/// computer, "N/A" where it is not, and the time as given.
pub fn match_record(
    game: &BoardGame,
    player1: &str,
    player2: &str,
    difficulty: Difficulty,
    time_played: &str,
) -> (record: Option<HistoryInfo>)
    ensures
        record.is_some() == is_final(game@.status),
        record.is_some() ==> {
            let r = record.unwrap();
            &&& r.game_type@ == game@.game_type.name()
            &&& r.player1@ == player1@
            &&& r.player2@ == player2@
            &&& r.winner@ == winner_name(game@.status, player1@, player2@)
            &&& r.difficulty@ == difficulty_name(game@, difficulty)
            &&& r.time_played@ == time_played@
        },
{
    let winner = match game.check() {
        GameEvent::Player1Win(_) => String::from_str(player1),
        GameEvent::Player2Win(_) => String::from_str(player2),
        GameEvent::Draw(_) => String::from_str("Draw"),
        _ => {
            return None;
        },
    };
    let level = if game.player2().player_type == PlayerType::AI {
        difficulty.to_string()
    } else {
        String::from_str("N/A")
    };
    Some(
        HistoryInfo {
            game_type: game.game_type().to_string(),
            player1: String::from_str(player1),
            player2: String::from_str(player2),
            winner,
            difficulty: level,
            time_played: String::from_str(time_played),
        },
    )
}

} // verus!
