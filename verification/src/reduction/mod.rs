//! Reduction method for big cubes: centers, edge pairing and parity algorithms, written as
//! move text.

pub mod centers;
pub mod edges;
pub mod parity;

use vstd::prelude::*;
use crate::state::{Cube, after_turns, moves_turns};
use crate::reduction::centers::{texts, append_words, first_call_succeeds};

verus! {

/// The reduction method: centers, then edges, then parity; returns all moves made.
pub fn solve_reduction(cube: &mut Cube) -> (moves: Vec<String>)
    requires
        old(cube).wf(),
        old(cube).size >= 1,
    ensures
        final(cube).size == old(cube).size,
        final(cube).wf(),
        final(cube).cells() == after_turns(old(cube).cells(), old(cube).size as int, moves_turns(texts(moves@))),
        first_call_succeeds(old(cube).cells(), old(cube).size as int) ==> moves@.len() > 0,
{
    let mut all_moves = centers::solve_centers(cube);
    let ghost n0 = all_moves@.len();
    let e = edges::solve_edges(cube);
    let p = parity::solve_parity(cube);
    proof {
        assert(texts(e@) =~= Seq::<Seq<char>>::empty());
        assert(texts(p@) =~= Seq::<Seq<char>>::empty());
    }
    append_words(&mut all_moves, e);
    assert(texts(all_moves@).len() >= n0);
    append_words(&mut all_moves, p);
    assert(texts(all_moves@).len() >= n0);
    proof {
        assert(texts(all_moves@) =~= texts(all_moves@) + Seq::<Seq<char>>::empty());
    }
    all_moves
}

} // verus!
