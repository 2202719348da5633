//! Estimating a position by playing it out: moves are made at random until
//! the match is over, and the wins are counted.

use vstd::prelude::*;
use crate::ai::Difficulty;
use crate::disc::DiscType;
use crate::game::{
    first_to_move, is_final, lemma_placed_valid, placed, valid_match, BoardGame, GameEvent,
    MatchState,
};
use crate::grid::{
    column_full, columns, dropped, in_grid, lemma_drop_well_formed, lemma_full_iff_no_open_column,
    lemma_landing_row, lemma_open_columns, lemma_total_bound, open_columns, rows, Grid,
};
use crate::random::{draw_below, pick_move, picked};

verus! {

impl Difficulty {
    /// Number of playouts that an estimate of this difficulty runs.
    pub open spec fn playouts(self) -> int {
        match self {
            Difficulty::Easy => 5,
            Difficulty::Medium => 1000,
            _ => 4000,
        }
    }

    /// Number of playouts that an estimate of this difficulty runs: 5 at the
    /// easiest, 1000 at the medium and 4000 at the two hardest difficulties.
    pub fn playout_budget(&self) -> (iterations: usize)
        ensures
            iterations == self.playouts(),
    {
        match self {
            Difficulty::Easy => 5,
            Difficulty::Medium => 1000,
            _ => 4000,
        }
    }
}

/// The column that a draw selects among the columns that are not full.
pub open spec fn drawn_column(m: MatchState, draw: usize) -> int {
    match picked(open_columns(m.grid), draw as int) {
        Some(c) => c as int,
        None => 0,
    }
}

/// The match after it has been played on with the draws from position
/// `from` on: each draw selects the column of the next placement among the
/// columns that are not full, until the match is over or the draws are used
/// up.
pub open spec fn played_out(m: MatchState, draws: Seq<usize>, from: int) -> MatchState
    decreases draws.len() - from,
{
    if from < 0 || from >= draws.len() || m.status != GameEvent::Ongoing {
        m
    } else {
        played_out(placed(m, drawn_column(m, draws[from])).0, draws, from + 1)
    }
}

/// The match ended with a win of the first participant, if `first` is set, or
/// of the second, if it is not.
pub open spec fn won_by(status: GameEvent, first: bool) -> bool {
    if first {
        status is Player1Win
    } else {
        status is Player2Win
    }
}

/// The match after one more placement, in the column that `draw` selects;
/// a match that is over stays as it is.
pub open spec fn played_on(m: MatchState, draw: usize) -> MatchState {
    if m.status != GameEvent::Ongoing {
        m
    } else {
        placed(m, drawn_column(m, draw)).0
    }
}

/// The lists of draws that a vector of playouts holds.
pub open spec fn draws_of(playouts: Vec<Vec<usize>>) -> Seq<Seq<usize>> {
    Seq::new(playouts@.len(), |i: int| playouts@[i]@)
}

/// Number of playouts among the first `upto` of `playouts` that end with a
/// win of the first participant, if `first` is set, or of the second, if it
/// is not. Each playout starts from `m` and follows its list of draws.
pub open spec fn wins_among(m: MatchState, first: bool, playouts: Seq<Seq<usize>>, upto: int) -> nat
    decreases upto,
{
    if upto <= 0 {
        0
    } else {
        wins_among(m, first, playouts, upto - 1) + if won_by(
            played_out(m, playouts[upto - 1], 0).status,
            first,
        ) {
            1nat
        } else {
            0nat
        }
    }
}

/// `playouts` holds `count` lists of draws, and each of them plays the match
/// `m` to its end.
pub open spec fn complete_playouts(m: MatchState, playouts: Seq<Seq<usize>>, count: int) -> bool {
    &&& playouts.len() == count
    &&& forall|i: int|
        0 <= i < playouts.len() ==> is_final(#[trigger] played_out(m, playouts[i], 0).status)
}

/// One more draw at the end of a list plays the match on by one placement
/// from where the list has led.
pub proof fn lemma_played_out_push(m: MatchState, draws: Seq<usize>, draw: usize, from: int)
    requires
        0 <= from <= draws.len(),
    ensures
        played_out(m, draws.push(draw), from) == played_on(played_out(m, draws, from), draw),
    decreases draws.len() - from,
{
    let longer = draws.push(draw);
    if from < draws.len() {
        assert(longer[from] == draws[from]);
        if m.status == GameEvent::Ongoing {
            lemma_played_out_push(
                placed(m, drawn_column(m, draws[from])).0,
                draws,
                draw,
                from + 1,
            );
        }
    } else {
        assert(longer[from] == draw);
        if m.status == GameEvent::Ongoing {
            let next = placed(m, drawn_column(m, draw)).0;
            assert(played_out(next, longer, from + 1) == next);
        }
    }
}

/// The count of wins among the first playouts depends on those playouts
/// alone, and never exceeds their number.
pub proof fn lemma_wins_among(
    m: MatchState,
    first: bool,
    playouts: Seq<Seq<usize>>,
    others: Seq<Seq<usize>>,
    upto: int,
)
    requires
        0 <= upto <= playouts.len(),
        upto <= others.len(),
        forall|i: int| 0 <= i < upto ==> playouts[i] == others[i],
    ensures
        wins_among(m, first, playouts, upto) == wins_among(m, first, others, upto),
        wins_among(m, first, playouts, upto) <= upto,
    decreases upto,
{
    if upto > 0 {
        lemma_wins_among(m, first, playouts, others, upto - 1);
    }
}

/// Every disc of `before` lies in the same cell of `after`, and both boards
/// have the same size.
pub open spec fn keeps_discs(before: Grid, after: Grid) -> bool {
    &&& rows(after) == rows(before)
    &&& columns(after) == columns(before)
    &&& forall|r: int, c: int|
        in_grid(before, r, c) && #[trigger] before[r][c] != DiscType::Empty ==> after[r][c]
            == before[r][c]
}

/// A placement moves no disc: the board after it holds every disc of the
/// board before it, and the participants and the game stay the same.
pub proof fn lemma_placed_keeps_discs(m: MatchState, column: int)
    requires
        valid_match(m),
    ensures
        keeps_discs(m.grid, placed(m, column).0.grid),
        placed(m, column).0.player1 == m.player1,
        placed(m, column).0.player2 == m.player2,
        placed(m, column).0.game_type == m.game_type,
{
    if !is_final(m.status) && 0 <= column < columns(m.grid) && !column_full(m.grid, column) {
        let disc = if first_to_move(m) {
            m.player1.disc_type
        } else {
            m.player2.disc_type
        };
        lemma_landing_row(m.grid, column);
        lemma_drop_well_formed(m.grid, column, disc);
        let h = dropped(m.grid, column, disc);
        assert forall|r: int, c: int|
            in_grid(m.grid, r, c) && #[trigger] m.grid[r][c] != DiscType::Empty implies h[r][c]
                == m.grid[r][c] by {
            assert(m.grid[r].len() == columns(m.grid));
        }
    }
}

/// Plays a match on with the given draws.
///
/// Each draw selects the column of the next placement among the columns that
/// are not full, counted round the list of those columns. The playout stops
/// when the match is over or the draws are used up, and reports how the match
/// then stands.
pub fn play_out(game: &mut BoardGame, draws: &Vec<usize>) -> (event: GameEvent)
    requires
        old(game).wf(),
    ensures
        final(game).wf(),
        final(game)@ == played_out(old(game)@, draws@, 0),
        event == final(game)@.status,
{
    let mut i: usize = 0;
    while i < draws.len()
        invariant
            game.wf(),
            i <= draws@.len(),
            played_out(old(game)@, draws@, 0) == played_out(game@, draws@, i as int),
        decreases draws@.len() - i,
    {
        if game.check() != GameEvent::Ongoing {
            return game.check();
        }
        let open = game.game_board().get_valid_columns();
        let column = match pick_move(&open, draws[i]) {
            Some(c) => c,
            None => 0,
        };
        game.place_disc(column);
        i += 1;
    }
    game.check()
}

/// Plays a match on with moves drawn at random until it is over, and reports
/// how it ended.
///
/// Every move goes into a column that is not full, drawn among those
/// columns. Whatever is drawn, the match ends in a win or a draw, and it ends
/// as `play_out` ends it for some list of draws. No disc that lay on the
/// board is moved, and the participants stay as they were.
pub fn random_playout(game: &mut BoardGame) -> (event: GameEvent)
    requires
        old(game).wf(),
    ensures
        final(game).wf(),
        event == final(game)@.status,
        is_final(event),
        exists|draws: Seq<usize>| final(game)@ == #[trigger] played_out(old(game)@, draws, 0),
        is_final(old(game)@.status) ==> final(game)@ == old(game)@,
        keeps_discs(old(game)@.grid, final(game)@.grid),
        final(game)@.player1 == old(game)@.player1,
        final(game)@.player2 == old(game)@.player2,
        final(game)@.game_type == old(game)@.game_type,
{
    let ghost mut draws: Seq<usize> = Seq::empty();
    loop
        invariant
            game.wf(),
            game@ == played_out(old(game)@, draws, 0),
            is_final(old(game)@.status) ==> game@ == old(game)@,
            keeps_discs(old(game)@.grid, game@.grid),
            game@.player1 == old(game)@.player1,
            game@.player2 == old(game)@.player2,
            game@.game_type == old(game)@.game_type,
        decreases
                if game@.status == GameEvent::Ongoing {
                    1025 - game@.turns
                } else {
                    0
                },
    {
        if game.check() != GameEvent::Ongoing {
            return game.check();
        }
        let open = game.game_board().get_valid_columns();
        proof {
            lemma_total_bound(game@.grid);
            lemma_full_iff_no_open_column(game@.grid);
            lemma_open_columns(game@.grid, columns(game@.grid));
            lemma_placed_valid(game@, open@[0] as int);
        }
        let index = draw_below(open.len());
        let column = open[index];
        proof {
            lemma_placed_keeps_discs(game@, column as int);
        }
        let ghost before = game@;
        game.place_disc(column);
        proof {
            assert(!column_full(before.grid, column as int));
            assert(game@.status == GameEvent::Ongoing ==> game@.turns == before.turns + 1);
            let count = open@.len() as int;
            assert((index as int) % count == index) by (nonlinear_arith)
                requires
                    0 <= index < count,
            ;
            assert(drawn_column(before, index) == column);
            lemma_played_out_push(old(game)@, draws, index, 0);
            draws = draws.push(index);
        }
    }
}

/// Whether a match that ended with `event` was won by the first
/// participant, if `first` is set, or by the second, if it is not.
fn is_win_of(event: GameEvent, first: bool) -> (won: bool)
    ensures
        won == won_by(event, first),
{
    match event {
        GameEvent::Player1Win(_) => first,
        GameEvent::Player2Win(_) => !first,
        _ => false,
    }
}

/// Counts the wins among given playouts: the number of lists of draws in
/// `playouts` with which the match, played on from where it stands, ends with
/// a win of the first participant, if `first` is set, or of the second, if
/// it is not.
pub fn count_wins(game: &BoardGame, first: bool, playouts: &Vec<Vec<usize>>) -> (wins: usize)
    requires
        game.wf(),
    ensures
        wins == wins_among(game@, first, draws_of(*playouts), playouts@.len() as int),
{
    let ghost all = draws_of(*playouts);
    let mut wins: usize = 0;
    let mut k: usize = 0;
    while k < playouts.len()
        invariant
            game.wf(),
            all == draws_of(*playouts),
            k <= playouts@.len(),
            wins <= k,
            wins == wins_among(game@, first, all, k as int),
        decreases playouts@.len() - k,
    {
        let mut trial = game.clone();
        let event = play_out(&mut trial, &playouts[k]);
        assert(all[k as int] == playouts@[k as int]@);
        if is_win_of(event, first) {
            wins += 1;
        }
        k += 1;
    }
    wins
}

/// Estimates a position for one participant: the number of playouts, out of
/// `iterations` random ones from that position, that end with a win of the
/// first participant, if `first` is set, or of the second, if it is not.
///
/// Whatever is drawn, the count is what `count_wins` finds among some
/// `iterations` lists of draws, each of which plays the match to its end. So
/// the count never exceeds `iterations`, and where the match is over already
/// it is `iterations` or 0.
pub fn mc_search(game: &BoardGame, first: bool, iterations: usize) -> (wins: usize)
    requires
        game.wf(),
    ensures
        exists|playouts: Seq<Seq<usize>>| #[trigger]
            complete_playouts(game@, playouts, iterations as int) && wins == wins_among(
                game@,
                first,
                playouts,
                iterations as int,
            ),
        wins <= iterations,
        is_final(game@.status) ==> wins == if won_by(game@.status, first) {
            iterations
        } else {
            0
        },
{
    let ghost mut playouts: Seq<Seq<usize>> = Seq::empty();
    let mut wins: usize = 0;
    let mut k: usize = 0;
    while k < iterations
        invariant
            game.wf(),
            k <= iterations,
            wins <= k,
            complete_playouts(game@, playouts, k as int),
            wins == wins_among(game@, first, playouts, k as int),
            is_final(game@.status) ==> wins == if won_by(game@.status, first) {
                k
            } else {
                0
            },
        decreases iterations - k,
    {
        let mut trial = game.clone();
        let event = random_playout(&mut trial);
        proof {
            let draws = choose|draws: Seq<usize>| trial@ == #[trigger] played_out(game@, draws, 0);
            let longer = playouts.push(draws);
            lemma_wins_among(game@, first, playouts, longer, k as int);
            assert(longer[k as int] == draws);
            assert forall|i: int| 0 <= i < longer.len() implies is_final(
                #[trigger] played_out(game@, longer[i], 0).status,
            ) by {
                if i < k {
                    assert(longer[i] == playouts[i]);
                }
            }
            playouts = longer;
        }
        if is_win_of(event, first) {
            wins += 1;
        }
        k += 1;
    }
    wins
}

} // verus!
