//! How the agent picks one of its legal moves.

use rand::Rng;
use vstd::prelude::*;

verus! {

/// A way of choosing among the candidate moves. The agent never asks with no
/// candidate, and the answer must be one of them.
pub trait ReversiStrategy {
    fn choose_move(&self, valid_moves: &[(i8, i8)]) -> (chosen: (i8, i8))
        requires
            valid_moves@.len() > 0,
        ensures
            valid_moves@.contains(chosen),
    ;
}

/// The baseline: every candidate is equally likely.
pub struct RandomStrategy;

/// Draws an index below `len` with `rand::thread_rng().gen_range(0..len)`.
/// `gen_range` panics on an empty range, hence `len > 0`; it samples from the
/// half-open range, so the index is below `len`. Which index comes is left
/// open, and nothing is proved of this: the generator is taken on trust, and
/// it gives up where the system's source of randomness fails, be it when the
/// thread's generator is first seeded or when it is seeded anew later.
#[verifier::external_body]
fn random_index(len: usize) -> (index: usize)
    requires
        len > 0,
    ensures
        index < len,
{
    rand::thread_rng().gen_range(0..len)
}

/// The candidate at `index`.
pub fn pick(valid_moves: &[(i8, i8)], index: usize) -> (chosen: (i8, i8))
    requires
        index < valid_moves@.len(),
    ensures
        chosen == valid_moves@[index as int],
{
    valid_moves[index]
}

impl ReversiStrategy for RandomStrategy {
    fn choose_move(&self, valid_moves: &[(i8, i8)]) -> (chosen: (i8, i8)) {
        pick(valid_moves, random_index(valid_moves.len()))
    }
}

} // verus!
