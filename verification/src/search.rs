//! The move search: minimax over the matrix of a position, to a fixed depth,
//! with alpha-beta pruning.
//!
//! `outcome` and `best_upto` say what a position is worth with no pruning at
//! all. `value`, `max_state` and `min_state` compute the same numbers while
//! they skip what cannot matter, and their contracts say so.

use vstd::prelude::*;
use crate::grid::{columns, rows};
use crate::scores::{
    chain_value, check_state, column_open, fill_map, filled, lemma_filled_valid,
    lemma_scores_storage, lemma_value_range, no_column_open, scores_of, valid_scores, win_value,
    Scores,
};

verus! {

/// What a won position is worth to the winner, before the depth penalty.
pub const WIN_SCORE: i64 = 999999;

/// A number beyond every value of a position: the widest bounds of a search.
pub const UNBOUNDED: i64 = 100000000007;

/// The deepest ply a search may be asked for: a board has no more cells.
pub const MAX_PLY: i64 = 1024;

/// The largest size of the value of a position: the reward of a win plus the
/// largest depth penalty.
pub const VALUE_BOUND: i64 = 2048575;

/// What a search needs to know besides the position.
#[derive(Clone, Copy, Debug, PartialEq, Eq, Structural)]
pub struct Rules {
    /// `false` for the four-in-a-row game, `true` for the spelling game.
    pub spelling: bool,
    /// +1 or -1: the maximizing side wins with a line whose total is four
    /// times this number. In the four-in-a-row game it is also the number
    /// that the maximizing side places.
    pub side: i64,
    /// The ply at which positions are no longer searched but estimated.
    pub limit: i64,
}

impl Rules {
    /// The side is +1 or -1 and the limit lies between 0 and `MAX_PLY`.
    pub open spec fn wf(self) -> bool {
        &&& self.side == 1 || self.side == -1
        &&& 0 <= self.limit <= MAX_PLY
    }
}

/// Number of moves to try in a position: one for each column, and in the
/// spelling game one for each column and letter.
pub open spec fn move_count(rules: Rules, s: Scores) -> int {
    if rules.spelling {
        2 * columns(s)
    } else {
        columns(s)
    }
}

/// The column of move `n`. In the spelling game the moves `0..columns` place
/// a T and the moves `columns..2 * columns` an O.
pub open spec fn move_column(s: Scores, n: int) -> int {
    if n < columns(s) {
        n
    } else {
        n - columns(s)
    }
}

/// The number that move `n` places. In the four-in-a-row game it is the
/// mover's own; in the spelling game +1 for a T and -1 for an O.
pub open spec fn move_piece(rules: Rules, s: Scores, n: int, maximizing: bool) -> i64 {
    if rules.spelling {
        if n < columns(s) {
            1i64
        } else {
            -1i64
        }
    } else if maximizing == (rules.side == 1) {
        1i64
    } else {
        -1i64
    }
}

/// Move `n` exists and its column takes another disc.
pub open spec fn playable(rules: Rules, s: Scores, n: int) -> bool {
    0 <= n < move_count(rules, s) && column_open(s, move_column(s, n))
}

/// The position after move `n`.
pub open spec fn after_move(rules: Rules, s: Scores, n: int, maximizing: bool) -> Scores {
    filled(s, move_column(s, n), move_piece(rules, s, n, maximizing))
}

/// Some move among `0..upto` is playable.
pub open spec fn any_playable_upto(rules: Rules, s: Scores, upto: int) -> bool
    decreases upto,
{
    if upto <= 0 {
        false
    } else {
        playable(rules, s, upto - 1) || any_playable_upto(rules, s, upto - 1)
    }
}

/// How many plies of search are left at ply `depth`.
pub open spec fn plies_left(rules: Rules, depth: int) -> nat {
    if depth < rules.limit {
        (rules.limit - depth) as nat
    } else {
        0
    }
}

/// What a position is worth when it is not searched further, seen from the
/// maximizing side at ply `depth`.
///
/// A complete line of the maximizing side is worth `WIN_SCORE`, one of the
/// other side `-WIN_SCORE`; without a complete line the position is worth
/// its chain value, taken with the sign of the maximizing side. The square
/// of the depth is subtracted, so that of two wins the earlier is worth more
/// and of two losses the later.
pub open spec fn estimate(rules: Rules, s: Scores, depth: int) -> int {
    let win = win_value(s, rules.spelling);
    let chain = chain_value(s, rules.spelling);
    if win == 4 * rules.side {
        WIN_SCORE - depth * depth
    } else if win == -4 * rules.side {
        -WIN_SCORE - depth * depth
    } else if rules.side == 1 {
        chain - depth * depth
    } else {
        -chain - depth * depth
    }
}

/// The search ends in a position at ply `depth`: a line is complete, the
/// depth limit is reached, or no column takes another disc.
pub open spec fn search_ends(rules: Rules, s: Scores, depth: int) -> bool {
    win_value(s, rules.spelling) != 0 || depth >= rules.limit || no_column_open(s)
}

/// The minimax value of a position that a move at ply `depth` has led to.
///
/// Where the search ends it is the estimate of the position. Otherwise the
/// other side moves: after a move at an even ply the minimizing side, whose
/// best reply gives the value, and after a move at an odd ply the maximizing
/// side.
pub open spec fn outcome(rules: Rules, s: Scores, depth: int) -> int
    decreases plies_left(rules, depth), 0nat, 0nat,
{
    if search_ends(rules, s, depth) {
        estimate(rules, s, depth)
    } else {
        best_upto(rules, s, depth + 1, depth % 2 != 0, move_count(rules, s))
    }
}

/// The best value that the mover at ply `depth` can reach with one of the
/// moves `0..upto`: the largest outcome for the maximizing side, the
/// smallest for the other. Without a playable move it is `-UNBOUNDED` for the
/// maximizing side and `UNBOUNDED` for the other.
pub open spec fn best_upto(rules: Rules, s: Scores, depth: int, maximizing: bool, upto: int) -> int
    decreases plies_left(rules, depth), 1nat, upto,
{
    if upto <= 0 {
        if maximizing {
            -UNBOUNDED
        } else {
            UNBOUNDED as int
        }
    } else {
        let rest = best_upto(rules, s, depth, maximizing, upto - 1);
        if playable(rules, s, upto - 1) {
            let v = outcome(rules, after_move(rules, s, upto - 1, maximizing), depth);
            if (maximizing && v > rest) || (!maximizing && v < rest) {
                v
            } else {
                rest
            }
        } else {
            rest
        }
    }
}

/// The best value that the mover at ply `depth` can reach with any move.
pub open spec fn best_value(rules: Rules, s: Scores, depth: int, maximizing: bool) -> int {
    best_upto(rules, s, depth, maximizing, move_count(rules, s))
}

/// The playable moves among `0..upto` whose outcome is `target`, in
/// increasing order.
pub open spec fn achievers_upto(
    rules: Rules,
    s: Scores,
    depth: int,
    maximizing: bool,
    target: int,
    upto: int,
) -> Seq<usize>
    decreases upto,
{
    if upto <= 0 {
        Seq::empty()
    } else {
        let rest = achievers_upto(rules, s, depth, maximizing, target, upto - 1);
        if playable(rules, s, upto - 1) && outcome(
            rules,
            after_move(rules, s, upto - 1, maximizing),
            depth,
        ) == target {
            rest.push((upto - 1) as usize)
        } else {
            rest
        }
    }
}

/// The moves that are best for the mover at ply `depth`: the playable moves
/// whose outcome is the best value, in increasing order.
pub open spec fn best_moves(rules: Rules, s: Scores, depth: int, maximizing: bool) -> Seq<usize> {
    achievers_upto(
        rules,
        s,
        depth,
        maximizing,
        best_value(rules, s, depth, maximizing),
        move_count(rules, s),
    )
}

/// Every entry of `moves` is a playable move, and the entries increase.
pub open spec fn playable_moves(rules: Rules, s: Scores, moves: Seq<usize>) -> bool {
    &&& forall|i: int| 0 <= i < moves.len() ==> playable(rules, s, #[trigger] moves[i] as int)
    &&& forall|i: int, j: int| 0 <= i < j < moves.len() ==> moves[i] < moves[j]
}

/// What a search between the bounds `alpha` and `beta` owes: the exact value
/// where it lies between the bounds, the bounds included. Where the exact
/// value lies below `alpha`, a number below `alpha` that is not below the
/// exact value; where it lies above `beta`, a number above `beta` that is not
/// above the exact value.
pub open spec fn agrees(exact: int, alpha: int, beta: int, found: int) -> bool {
    &&& alpha <= exact <= beta ==> found == exact
    &&& exact < alpha ==> exact <= found < alpha
    &&& exact > beta ==> beta < found <= exact
}

/// The position after a playable move is a valid matrix of the same size.
pub proof fn lemma_after_move_valid(rules: Rules, s: Scores, n: int, maximizing: bool)
    requires
        valid_scores(s),
        playable(rules, s, n),
    ensures
        valid_scores(after_move(rules, s, n, maximizing)),
        rows(after_move(rules, s, n, maximizing)) == rows(s),
        columns(after_move(rules, s, n, maximizing)) == columns(s),
{
    lemma_filled_valid(s, move_column(s, n), move_piece(rules, s, n, maximizing));
}

/// The square of a ply lies between 0 and the square of `MAX_PLY`.
pub proof fn lemma_penalty_range(depth: int)
    requires
        0 <= depth <= MAX_PLY,
    ensures
        0 <= depth * depth <= 1048576,
{
    assert(0 <= depth * depth <= 1048576) by (nonlinear_arith)
        requires
            0 <= depth <= 1024,
    ;
}

/// The estimate of a position is at most `VALUE_BOUND` in size.
pub proof fn lemma_estimate_range(rules: Rules, s: Scores, depth: int)
    requires
        rules.wf(),
        valid_scores(s),
        0 <= depth <= MAX_PLY,
    ensures
        -VALUE_BOUND <= estimate(rules, s, depth) <= VALUE_BOUND,
{
    lemma_value_range(s, rules.spelling);
    lemma_penalty_range(depth);
}

/// Where a column is open, some move is playable.
pub proof fn lemma_open_column_playable(rules: Rules, s: Scores, upto: int, c: int)
    requires
        valid_scores(s),
        column_open(s, c),
        c < upto <= move_count(rules, s),
    ensures
        any_playable_upto(rules, s, upto),
    decreases upto,
{
    if upto - 1 > c {
        lemma_open_column_playable(rules, s, upto - 1, c);
    } else {
        assert(playable(rules, s, c));
    }
}

/// The minimax value of a position is at most `VALUE_BOUND` in size.
pub proof fn lemma_outcome_range(rules: Rules, s: Scores, depth: int)
    requires
        rules.wf(),
        valid_scores(s),
        0 <= depth <= MAX_PLY,
    ensures
        -VALUE_BOUND <= outcome(rules, s, depth) <= VALUE_BOUND,
    decreases plies_left(rules, depth), 0nat, 0nat,
{
    if search_ends(rules, s, depth) {
        lemma_estimate_range(rules, s, depth);
    } else {
        let c = choose|c: int| #[trigger] column_open(s, c);
        lemma_open_column_playable(rules, s, move_count(rules, s), c);
        lemma_best_upto_range(rules, s, depth + 1, depth % 2 != 0, move_count(rules, s));
    }
}

/// The best value over some moves is at most `VALUE_BOUND` in size where one
/// of them is playable, and the mover's worst bound where none is.
pub proof fn lemma_best_upto_range(
    rules: Rules,
    s: Scores,
    depth: int,
    maximizing: bool,
    upto: int,
)
    requires
        rules.wf(),
        valid_scores(s),
        0 <= depth <= MAX_PLY,
        upto <= move_count(rules, s),
    ensures
        any_playable_upto(rules, s, upto) ==> -VALUE_BOUND <= best_upto(
            rules,
            s,
            depth,
            maximizing,
            upto,
        ) <= VALUE_BOUND,
        !any_playable_upto(rules, s, upto) ==> best_upto(rules, s, depth, maximizing, upto) == (
        if maximizing {
            -UNBOUNDED
        } else {
            UNBOUNDED as int
        }),
    decreases plies_left(rules, depth), 1nat, upto,
{
    if upto > 0 {
        lemma_best_upto_range(rules, s, depth, maximizing, upto - 1);
        if playable(rules, s, upto - 1) {
            lemma_after_move_valid(rules, s, upto - 1, maximizing);
            lemma_outcome_range(rules, after_move(rules, s, upto - 1, maximizing), depth);
        }
    }
}

/// The best value over more moves is at least as good for the mover as over
/// fewer, and as good as the outcome of each playable move among them.
pub proof fn lemma_best_upto_covers(
    rules: Rules,
    s: Scores,
    depth: int,
    maximizing: bool,
    upto: int,
    n: int,
)
    requires
        0 <= n <= upto,
    ensures
        maximizing ==> best_upto(rules, s, depth, maximizing, n) <= best_upto(
            rules,
            s,
            depth,
            maximizing,
            upto,
        ),
        !maximizing ==> best_upto(rules, s, depth, maximizing, n) >= best_upto(
            rules,
            s,
            depth,
            maximizing,
            upto,
        ),
        n < upto && playable(rules, s, n) && maximizing ==> outcome(
            rules,
            after_move(rules, s, n, maximizing),
            depth,
        ) <= best_upto(rules, s, depth, maximizing, upto),
        n < upto && playable(rules, s, n) && !maximizing ==> outcome(
            rules,
            after_move(rules, s, n, maximizing),
            depth,
        ) >= best_upto(rules, s, depth, maximizing, upto),
    decreases upto - n,
{
    if n < upto {
        lemma_best_upto_covers(rules, s, depth, maximizing, upto, n + 1);
    }
}

/// No move reaches a value better for the mover than the best value.
pub proof fn lemma_no_achiever_beyond(
    rules: Rules,
    s: Scores,
    depth: int,
    maximizing: bool,
    target: int,
    upto: int,
)
    requires
        maximizing ==> target > best_upto(rules, s, depth, maximizing, upto),
        !maximizing ==> target < best_upto(rules, s, depth, maximizing, upto),
    ensures
        achievers_upto(rules, s, depth, maximizing, target, upto) == Seq::<usize>::empty(),
    decreases upto,
{
    if upto > 0 {
        lemma_no_achiever_beyond(rules, s, depth, maximizing, target, upto - 1);
    }
}

/// Every move listed as reaching a value is playable and has that value as
/// its outcome; the moves are listed in increasing order; and every playable
/// move with that outcome is listed.
pub proof fn lemma_achievers(
    rules: Rules,
    s: Scores,
    depth: int,
    maximizing: bool,
    target: int,
    upto: int,
)
    requires
        0 <= upto <= move_count(rules, s),
        valid_scores(s),
    ensures
        forall|i: int|
            0 <= i < achievers_upto(rules, s, depth, maximizing, target, upto).len() ==> {
                let n = #[trigger] achievers_upto(rules, s, depth, maximizing, target, upto)[i];
                &&& n < upto
                &&& playable(rules, s, n as int)
                &&& outcome(rules, after_move(rules, s, n as int, maximizing), depth) == target
            },
        forall|i: int, j: int|
            0 <= i < j < achievers_upto(rules, s, depth, maximizing, target, upto).len()
                ==> achievers_upto(rules, s, depth, maximizing, target, upto)[i] < achievers_upto(
                rules,
                s,
                depth,
                maximizing,
                target,
                upto,
            )[j],
        forall|n: int|
            0 <= n < upto && playable(rules, s, n) && outcome(
                rules,
                after_move(rules, s, n, maximizing),
                depth,
            ) == target ==> achievers_upto(rules, s, depth, maximizing, target, upto).contains(
                n as usize,
            ),
    decreases upto,
{
    if upto > 0 {
        lemma_achievers(rules, s, depth, maximizing, target, upto - 1);
        let rest = achievers_upto(rules, s, depth, maximizing, target, upto - 1);
        let all = achievers_upto(rules, s, depth, maximizing, target, upto);
        if all != rest {
            assert(all == rest.push((upto - 1) as usize));
            assert(all[rest.len() as int] == (upto - 1) as usize);
        }
        assert forall|n: int|
            0 <= n < upto && playable(rules, s, n) && outcome(
                rules,
                after_move(rules, s, n, maximizing),
                depth,
            ) == target implies all.contains(n as usize) by {
            if n < upto - 1 {
                let i = choose|i: int| 0 <= i < rest.len() && rest[i] == n as usize;
                assert(all[i] == n as usize);
            } else {
                assert(all[rest.len() as int] == n as usize);
            }
        }
    }
}

/// Among some moves, one of them playable, some move reaches the best value.
proof fn lemma_best_is_reached(rules: Rules, s: Scores, depth: int, maximizing: bool, upto: int)
    requires
        rules.wf(),
        valid_scores(s),
        0 <= depth <= MAX_PLY,
        0 <= upto <= move_count(rules, s),
        any_playable_upto(rules, s, upto),
    ensures
        achievers_upto(
            rules,
            s,
            depth,
            maximizing,
            best_upto(rules, s, depth, maximizing, upto),
            upto,
        ).len() > 0,
    decreases upto,
{
    let best = best_upto(rules, s, depth, maximizing, upto);
    let rest = best_upto(rules, s, depth, maximizing, upto - 1);
    lemma_best_upto_range(rules, s, depth, maximizing, upto - 1);
    lemma_best_upto_range(rules, s, depth, maximizing, upto);
    if playable(rules, s, upto - 1) && outcome(
        rules,
        after_move(rules, s, upto - 1, maximizing),
        depth,
    ) == best {
    } else {
        if playable(rules, s, upto - 1) {
            lemma_after_move_valid(rules, s, upto - 1, maximizing);
            lemma_outcome_range(rules, after_move(rules, s, upto - 1, maximizing), depth);
        }
        assert(best == rest);
        assert(any_playable_upto(rules, s, upto - 1));
        lemma_best_is_reached(rules, s, depth, maximizing, upto - 1);
    }
}

/// A search always names a move where there is one: in a position with an
/// open column the list of best moves is not empty, and the best value is at
/// most `VALUE_BOUND` in size.
pub proof fn lemma_some_move_is_best(rules: Rules, s: Scores, depth: int, maximizing: bool)
    requires
        rules.wf(),
        valid_scores(s),
        0 <= depth <= MAX_PLY,
        !no_column_open(s),
    ensures
        best_moves(rules, s, depth, maximizing).len() > 0,
        -VALUE_BOUND <= best_value(rules, s, depth, maximizing) <= VALUE_BOUND,
{
    let c = choose|c: int| #[trigger] column_open(s, c);
    lemma_open_column_playable(rules, s, move_count(rules, s), c);
    lemma_best_is_reached(rules, s, depth, maximizing, move_count(rules, s));
    lemma_best_upto_range(rules, s, depth, maximizing, move_count(rules, s));
}

/// No position at ply `depth` is worth more than a win at that ply. A
/// position in which the maximizing side has the line that counts is worth
/// exactly that, and any other position is worth less than a win at ply 0.
pub proof fn lemma_outcome_below_win(rules: Rules, s: Scores, depth: int)
    requires
        rules.wf(),
        valid_scores(s),
        0 <= depth <= MAX_PLY,
    ensures
        outcome(rules, s, depth) <= WIN_SCORE - depth * depth,
        win_value(s, rules.spelling) != 4 * rules.side ==> outcome(rules, s, depth) < WIN_SCORE,
        win_value(s, rules.spelling) == 4 * rules.side ==> outcome(rules, s, depth) == WIN_SCORE
            - depth * depth,
    decreases plies_left(rules, depth), 0nat, 0nat,
{
    lemma_value_range(s, rules.spelling);
    lemma_penalty_range(depth);
    if !search_ends(rules, s, depth) {
        let c = choose|c: int| #[trigger] column_open(s, c);
        lemma_open_column_playable(rules, s, move_count(rules, s), c);
        lemma_best_upto_below_win(rules, s, depth + 1, depth % 2 != 0, move_count(rules, s));
        assert((depth + 1) * (depth + 1) >= depth * depth + 1) by (nonlinear_arith)
            requires
                depth >= 0,
        ;
    }
}

/// The best value over some moves at ply `depth`, one of them playable, is
/// not worth more than a win at that ply.
pub proof fn lemma_best_upto_below_win(
    rules: Rules,
    s: Scores,
    depth: int,
    maximizing: bool,
    upto: int,
)
    requires
        rules.wf(),
        valid_scores(s),
        0 <= depth <= MAX_PLY,
        upto <= move_count(rules, s),
        any_playable_upto(rules, s, upto),
    ensures
        best_upto(rules, s, depth, maximizing, upto) <= WIN_SCORE - depth * depth,
    decreases plies_left(rules, depth), 1nat, upto,
{
    lemma_penalty_range(depth);
    lemma_best_upto_range(rules, s, depth, maximizing, upto - 1);
    if playable(rules, s, upto - 1) {
        lemma_after_move_valid(rules, s, upto - 1, maximizing);
        lemma_outcome_below_win(rules, after_move(rules, s, upto - 1, maximizing), depth);
        lemma_outcome_range(rules, after_move(rules, s, upto - 1, maximizing), depth);
    }
    if any_playable_upto(rules, s, upto - 1) {
        lemma_best_upto_below_win(rules, s, depth, maximizing, upto - 1);
    }
}

/// Whether some column of the position takes another disc.
fn has_open_column(state: &Vec<Vec<i64>>) -> (b: bool)
    requires
        valid_scores(scores_of(*state)),
    ensures
        b == !no_column_open(scores_of(*state)),
{
    proof {
        lemma_scores_storage(*state);
    }
    let ghost s = scores_of(*state);
    let width = state[0].len();
    let mut c: usize = 0;
    while c < width
        invariant
            s == scores_of(*state),
            valid_scores(s),
            state@.len() > 0,
            state@[0]@ == s[0],
            width == columns(s),
            c <= width,
            forall|k: int| k < c ==> !#[trigger] column_open(s, k),
        decreases width - c,
    {
        if state[0][c] == 0 {
            assert(column_open(s, c as int));
            return true;
        }
        c += 1;
    }
    false
}

/// The value of a position that a move at ply `depth` has led to, searched
/// between the bounds `alpha` and `beta`.
///
/// The result is the minimax value of the position where that lies between
/// the bounds. Where it lies below `alpha` the result does too, and where it
/// lies above `beta` the result does too.
pub fn value(rules: Rules, state: &Vec<Vec<i64>>, depth: i64, alpha: i64, beta: i64) -> (v: i64)
    requires
        rules.wf(),
        valid_scores(scores_of(*state)),
        0 <= depth <= MAX_PLY,
        -UNBOUNDED <= alpha <= beta <= UNBOUNDED,
    ensures
        agrees(
            outcome(rules, scores_of(*state), depth as int),
            alpha as int,
            beta as int,
            v as int,
        ),
    decreases plies_left(rules, depth as int), 0nat, 0nat,
{
    proof {
        lemma_value_range(scores_of(*state), rules.spelling);
        lemma_penalty_range(depth as int);
    }
    let (win, chain) = check_state(state, rules.spelling);
    let penalty = depth * depth;
    if win != 0 {
        if (win == 4) == (rules.side == 1) {
            WIN_SCORE - penalty
        } else {
            -WIN_SCORE - penalty
        }
    } else if depth >= rules.limit || !has_open_column(state) {
        if rules.side == 1 {
            chain - penalty
        } else {
            -chain - penalty
        }
    } else if depth % 2 == 0 {
        min_state(rules, state, depth + 1, alpha, beta).0
    } else {
        max_state(rules, state, depth + 1, alpha, beta).0
    }
}

/// The column and the number of move `n`.
fn move_parts(rules: Rules, state: &Vec<Vec<i64>>, n: usize, maximizing: bool) -> (parts: (
    usize,
    i64,
))
    requires
        rules.wf(),
        valid_scores(scores_of(*state)),
        n < move_count(rules, scores_of(*state)),
    ensures
        parts.0 == move_column(scores_of(*state), n as int),
        parts.1 == move_piece(rules, scores_of(*state), n as int, maximizing),
        column_open(scores_of(*state), parts.0 as int) == playable(
            rules,
            scores_of(*state),
            n as int,
        ),
{
    proof {
        lemma_scores_storage(*state);
    }
    let width = state[0].len();
    let column = if n < width {
        n
    } else {
        n - width
    };
    let piece: i64 = if rules.spelling {
        if n < width {
            1
        } else {
            -1
        }
    } else if maximizing == (rules.side == 1) {
        1
    } else {
        -1
    };
    (column, piece)
}

/// Number of moves to try in a position.
fn count_moves(rules: Rules, state: &Vec<Vec<i64>>) -> (count: usize)
    requires
        valid_scores(scores_of(*state)),
    ensures
        count == move_count(rules, scores_of(*state)),
{
    proof {
        lemma_scores_storage(*state);
    }
    if rules.spelling {
        2 * state[0].len()
    } else {
        state[0].len()
    }
}

/// The best value that the maximizing side can reach from a position by a
/// move at ply `depth`, searched between the bounds `alpha` and `beta`, and the moves
/// that reach it.
///
/// The moves are tried in increasing order and the search stops at the first
/// whose value exceeds `beta`. The value returned is the best value of the
/// position where that lies between the bounds; it lies below `alpha`, or
/// above `beta`, where the best value does. Where the best value lies between
/// the bounds, the moves returned are all the best moves, in increasing
/// order; in any case they are playable moves in increasing order.
pub fn max_state(rules: Rules, state: &Vec<Vec<i64>>, depth: i64, alpha: i64, beta: i64) -> (result:
    (i64, Vec<usize>))
    requires
        rules.wf(),
        valid_scores(scores_of(*state)),
        0 <= depth <= MAX_PLY,
        -UNBOUNDED <= alpha <= beta <= UNBOUNDED,
    ensures
        agrees(
            best_value(rules, scores_of(*state), depth as int, true),
            alpha as int,
            beta as int,
            result.0 as int,
        ),
        alpha <= best_value(rules, scores_of(*state), depth as int, true) <= beta ==> result.1@
            == best_moves(rules, scores_of(*state), depth as int, true),
        playable_moves(rules, scores_of(*state), result.1@),
    decreases plies_left(rules, depth as int), 1nat, 0nat,
{
    let ghost s = scores_of(*state);
    let ghost d = depth as int;
    let count = count_moves(rules, state);
    let mut v: i64 = -UNBOUNDED;
    let mut a: i64 = alpha;
    let mut queue: Vec<usize> = Vec::new();
    let mut n: usize = 0;
    while n < count
        invariant
            rules.wf(),
            s == scores_of(*state),
            d == depth as int,
            valid_scores(s),
            0 <= depth <= MAX_PLY,
            count == move_count(rules, s),
            n <= count,
            -UNBOUNDED <= alpha <= a <= beta <= UNBOUNDED,
            -UNBOUNDED <= v <= beta,
            playable_moves(rules, s, queue@),
            forall|i: int| 0 <= i < queue@.len() ==> (#[trigger] queue@[i]) < n,
            a == if v > alpha {
                v
            } else {
                alpha
            },
            best_upto(rules, s, d, true, n as int) >= alpha ==> v == best_upto(
                rules,
                s,
                d,
                true,
                n as int,
            ) && queue@ == achievers_upto(rules, s, d, true, v as int, n as int),
            best_upto(rules, s, d, true, n as int) < alpha ==> best_upto(
                rules,
                s,
                d,
                true,
                n as int,
            ) <= v < alpha,
        decreases count - n,
    {
        let (column, piece) = move_parts(rules, state, n, true);
        let ghost before = best_upto(rules, s, d, true, n as int);
        proof {
            lemma_best_upto_range(rules, s, d, true, n as int);
        }
        match fill_map(state, column, piece) {
            Some(next) => {
                proof {
                    lemma_after_move_valid(rules, s, n as int, true);
                    lemma_outcome_range(rules, after_move(rules, s, n as int, true), d);
                }
                let ghost exact = outcome(rules, after_move(rules, s, n as int, true), d);
                let found = value(rules, &next, depth, a, beta);
                if found > v {
                    proof {
                        if exact >= a {
                            lemma_no_achiever_beyond(rules, s, d, true, exact, n as int);
                        }
                    }
                    v = found;
                    queue = Vec::new();
                    queue.push(n);
                } else if found == v {
                    queue.push(n);
                }
                if v > beta {
                    proof {
                        lemma_best_upto_covers(rules, s, d, true, count as int, n as int + 1);
                    }
                    return (v, queue);
                }
                if v > a {
                    a = v;
                }
            },
            None => {},
        }
        n += 1;
    }
    (v, queue)
}

/// The best value that the minimizing side can reach from a position by a
/// move at ply `depth`, searched between the bounds `alpha` and `beta`, and
/// the moves that reach it.
///
/// The moves are tried in increasing order and the search stops at the first
/// whose value falls below `alpha`. The value returned is the best value of
/// the position where that lies between the bounds; it lies below `alpha`,
/// or above `beta`, where the best value does. Where the best value lies
/// between the bounds, the moves returned are all the best moves, in
/// increasing order; in any case they are playable moves in increasing order.
pub fn min_state(rules: Rules, state: &Vec<Vec<i64>>, depth: i64, alpha: i64, beta: i64) -> (result:
    (i64, Vec<usize>))
    requires
        rules.wf(),
        valid_scores(scores_of(*state)),
        0 <= depth <= MAX_PLY,
        -UNBOUNDED <= alpha <= beta <= UNBOUNDED,
    ensures
        agrees(
            best_value(rules, scores_of(*state), depth as int, false),
            alpha as int,
            beta as int,
            result.0 as int,
        ),
        alpha <= best_value(rules, scores_of(*state), depth as int, false) <= beta ==> result.1@
            == best_moves(rules, scores_of(*state), depth as int, false),
        playable_moves(rules, scores_of(*state), result.1@),
    decreases plies_left(rules, depth as int), 1nat, 0nat,
{
    let ghost s = scores_of(*state);
    let ghost d = depth as int;
    let count = count_moves(rules, state);
    let mut v: i64 = UNBOUNDED;
    let mut b: i64 = beta;
    let mut queue: Vec<usize> = Vec::new();
    let mut n: usize = 0;
    while n < count
        invariant
            rules.wf(),
            s == scores_of(*state),
            d == depth as int,
            valid_scores(s),
            0 <= depth <= MAX_PLY,
            count == move_count(rules, s),
            n <= count,
            -UNBOUNDED <= alpha <= b <= beta <= UNBOUNDED,
            alpha <= v <= UNBOUNDED,
            playable_moves(rules, s, queue@),
            forall|i: int| 0 <= i < queue@.len() ==> (#[trigger] queue@[i]) < n,
            b == if v < beta {
                v
            } else {
                beta
            },
            best_upto(rules, s, d, false, n as int) <= beta ==> v == best_upto(
                rules,
                s,
                d,
                false,
                n as int,
            ) && queue@ == achievers_upto(rules, s, d, false, v as int, n as int),
            best_upto(rules, s, d, false, n as int) > beta ==> beta < v <= best_upto(
                rules,
                s,
                d,
                false,
                n as int,
            ),
        decreases count - n,
    {
        let (column, piece) = move_parts(rules, state, n, false);
        let ghost before = best_upto(rules, s, d, false, n as int);
        proof {
            lemma_best_upto_range(rules, s, d, false, n as int);
        }
        match fill_map(state, column, piece) {
            Some(next) => {
                proof {
                    lemma_after_move_valid(rules, s, n as int, false);
                    lemma_outcome_range(rules, after_move(rules, s, n as int, false), d);
                }
                let ghost exact = outcome(rules, after_move(rules, s, n as int, false), d);
                let found = value(rules, &next, depth, alpha, b);
                if found < v {
                    proof {
                        if exact <= b {
                            lemma_no_achiever_beyond(rules, s, d, false, exact, n as int);
                        }
                    }
                    v = found;
                    queue = Vec::new();
                    queue.push(n);
                } else if found == v {
                    queue.push(n);
                }
                if v < alpha {
                    proof {
                        lemma_best_upto_covers(rules, s, d, false, count as int, n as int + 1);
                    }
                    return (v, queue);
                }
                if v < b {
                    b = v;
                }
            },
            None => {},
        }
        n += 1;
    }
    (v, queue)
}

} // verus!
