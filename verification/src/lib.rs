//! Two games on a board into which discs are dropped, and a computer to play
//! them against.
//!
//! In the four-in-a-row game two players drop red and yellow discs in turn,
//! and four discs of one colour in a line win. In the spelling game the
//! players drop the letters T and O; the first player wins with the word
//! TOOT, the second with OTTO.
//!
//! - `grid` is the mathematical model of a board, `board` the board itself.
//! - `game` is a match: whose turn it is, and how a placement ends.
//! - `connect4` and `toot_and_otto` are the two games as types of their own.
//! - `scores` and `search` are the positions as numbers and the minimax
//!   search over them; `ai` is the computer at its four difficulties.
//! - `random` draws the numbers that select among equally good moves.
//! - `playout` estimates a position by playing it out at random.
//! - `history` is the record that is kept of a finished match.

pub mod ai;
pub mod board;
pub mod board_size;
pub mod connect4;
pub mod disc;
pub mod game;
pub mod grid;
pub mod history;
pub mod player;
pub mod playout;
pub mod random;
pub mod scores;
pub mod search;
pub mod toot_and_otto;

pub use crate::ai::{Connect4AI, Difficulty, TootOttoAI};
pub use crate::board::Board;
pub use crate::board_size::BoardSize;
pub use crate::connect4::Connect4;
pub use crate::disc::DiscType;
pub use crate::game::{BoardGame, GameEvent, GameType};
pub use crate::history::HistoryInfo;
pub use crate::player::{Player, PlayerType};
pub use crate::toot_and_otto::TOOTandOTTO;
