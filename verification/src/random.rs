//! The one place where chance enters the library.

use vstd::prelude::*;
use rand::Rng;

verus! {

/// A number below `bound`, drawn at random.
///
/// Trusted: the body calls `gen_range` of the `rand` crate on the generator
/// that `rand::thread_rng` hands out, with the lower end 0 and the upper end
/// `bound`. `rand` documents that the result lies in the range from the lower
/// end, inclusive, to the upper end, exclusive, and that the call panics
/// where the lower end is not below the upper one; hence the `requires`.
/// Nothing is claimed about which number of the range comes out. The
/// generator is seeded from the operating system when a thread first uses
/// it, and `rand` panics there if the system hands out no seed: no argument
/// of this function can rule that out.
#[verifier::external_body]
pub(crate) fn draw_below(bound: usize) -> (index: usize)
    requires
        bound > 0,
    ensures
        index < bound,
{
    rand::thread_rng().gen_range(0, bound)
}

/// The entry of `candidates` that a draw selects: the entry at the position
/// `draw`, counted round the list where `draw` exceeds it; none where the
/// list is empty.
pub open spec fn picked<T>(candidates: Seq<T>, draw: int) -> Option<T> {
    if candidates.len() == 0 {
        None
    } else {
        Some(candidates[draw % (candidates.len() as int)])
    }
}

/// Selects an entry of `candidates` by a number drawn elsewhere.
///
/// With this function a caller that supplies its own numbers makes every
/// selection of a move reproducible.
pub fn pick_move<T: Copy>(candidates: &Vec<T>, draw: usize) -> (chosen: Option<T>)
    ensures
        chosen == picked(candidates@, draw as int),
        chosen.is_some() == (candidates@.len() > 0),
        chosen.is_some() ==> candidates@.contains(chosen.unwrap()),
{
    if candidates.len() == 0 {
        None
    } else {
        Some(candidates[draw % candidates.len()])
    }
}

/// Over the draws from 0 up to the length of the list, the draw `i` selects
/// the `i`-th entry. Where no entry occurs twice, distinct draws select
/// distinct entries, so every entry is selected by exactly one draw, and a
/// draw that is uniform makes the selection uniform.
pub proof fn lemma_each_draw_picks_its_entry<T>(candidates: Seq<T>, i: int, j: int)
    requires
        0 <= i < candidates.len(),
        0 <= j < candidates.len(),
        forall|a: int, b: int|
            0 <= a < b < candidates.len() ==> candidates[a] != candidates[b],
    ensures
        picked(candidates, i) == Some(candidates[i]),
        i != j ==> picked(candidates, i) != picked(candidates, j),
{
    let n = candidates.len() as int;
    assert(i % n == i && j % n == j) by (nonlinear_arith)
        requires
            0 <= i < n,
            0 <= j < n,
    ;
    if i < j {
        assert(candidates[i] != candidates[j]);
    } else if j < i {
        assert(candidates[j] != candidates[i]);
    }
}

} // verus!
