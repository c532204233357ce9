//! The NxN reduction solver: centers, edge pairing, parity, and the 3x3 two-phase solution of
//! the reduced cube, turned into slice moves.

use vstd::prelude::*;
use crate::orientation::{FaceMapping, RotationMove};
use crate::nxn::state::{NxNState, Facelet, after_moves, complete, lemma_after_moves_complete, lemma_after_moves_concat};
use crate::nxn::centers::{solve_centers, ready, reachable, bars_applied, bars_recorded, centers_stuck};
use crate::nxn::edges::{pair_edges, all_edges_paired, extend_moves, pairing_stopped};
use crate::nxn::parity::{
    map_to_3x3_string, reduced_text, apply_oll_parity_to_string, apply_pll_parity_to_string, oll_parity_state,
    pll_parity_state, is_solvable_3x3, get_oll_parity_moves, get_pll_parity_moves,
};
use crate::nxn::formulas::{oll_parity_seq, pll_parity_seq};
use crate::kociemba::{SolverTables, solvable_text, solution_of, two_phase_text};
use crate::helpers::{solution_to_moves, optimize_moves, words_moves, optimized};
use crate::text::words;

verus! {

/// The 3x3 text with the chosen parity fixes applied: OLL first, then PLL.
pub open spec fn with_parity(t: Seq<char>, oll: bool, pll: bool) -> Seq<char> {
    let a = if oll {
        oll_parity_state(t)
    } else {
        t
    };
    if pll {
        pll_parity_state(a)
    } else {
        a
    }
}

/// The first parity choice, in the order none, OLL, PLL, both, that makes the text solvable.
pub open spec fn parity_choice(t: Seq<char>) -> Option<(bool, bool)> {
    if solvable_text(with_parity(t, false, false)) {
        Some((false, false))
    } else if solvable_text(with_parity(t, true, false)) {
        Some((true, false))
    } else if solvable_text(with_parity(t, false, true)) {
        Some((false, true))
    } else if solvable_text(with_parity(t, true, true)) {
        Some((true, true))
    } else {
        None
    }
}

/// The parity moves of a choice: the OLL fix, then the PLL fix.
pub open spec fn parity_moves_of(c: (bool, bool), s: int) -> Seq<RotationMove> {
    (if c.0 {
        oll_parity_seq(s)
    } else {
        Seq::empty()
    }) + (if c.1 {
        pll_parity_seq(s)
    } else {
        Seq::empty()
    })
}

/// The moves that finish a reduced cube: the parity moves of the first solvable choice, then the
/// two-phase solution of the fixed 3x3 text as slice moves; none if no choice is solvable or no
/// solution is found.
pub open spec fn finish_moves(fs: Seq<Facelet>, s: int, mapping: FaceMapping) -> Option<Seq<RotationMove>> {
    let t = reduced_text(fs, s);
    match parity_choice(t) {
        None => None,
        Some(c) => match solution_of(with_parity(t, c.0, c.1)) {
            None => None,
            Some(sol) => Some(parity_moves_of(c, s) + words_moves(words(sol), s, mapping, false)),
        },
    }
}

/// Finishes a reduced cube (centers solved, edges paired): tries the parity fixes on the 3x3
/// text in the order none, OLL, PLL, both, applies the moves of the first solvable choice to
/// the state, and solves the fixed text with the two-phase solver. Returns the parity moves
/// followed by the solution as slice moves.
pub fn finish_reduced(state: &mut NxNState, mapping: FaceMapping, table: &SolverTables) -> (r: Option<Vec<RotationMove>>)
    requires
        old(state).valid(),
        old(state).size >= 1,
    ensures
        final(state).size == old(state).size,
        final(state).valid(),
        r is Some <==> finish_moves(old(state).facelets@, old(state).size as int, mapping) is Some,
        r matches Some(ms) ==> ms@ == finish_moves(old(state).facelets@, old(state).size as int, mapping).unwrap(),
        parity_choice(reduced_text(old(state).facelets@, old(state).size as int)) matches Some(c) ==> final(state).facelets@
            == after_moves(old(state).facelets@, parity_moves_of(c, old(state).size as int), old(state).size as int),
        parity_choice(reduced_text(old(state).facelets@, old(state).size as int)) is None ==> final(state).facelets@
            == old(state).facelets@,
{
    let size = state.size;
    let base = map_to_3x3_string(state);
    let ghost t = base@;
    let mut choice: Option<(bool, bool)> = None;
    let mut chosen_text = String::new();
    let mut k: usize = 0;
    while k < 4
        invariant
            k <= 4,
            size == state.size,
            size == old(state).size,
            state.facelets@ == old(state).facelets@,
            t == reduced_text(state.facelets@, size as int),
            base@ == t,
            choice is None ==> (forall|j: int| 0 <= j < k ==> !solvable_text(with_parity(t, #[trigger] combo(j).0, combo(j).1))),
            choice matches Some(c) ==> (parity_choice(t) == Some(c) && chosen_text@ == with_parity(t, c.0, c.1)),
        decreases 4 - k,
    {
        if choice.is_none() {
            let (try_oll, try_pll) = combo_exec(k);
            let mut temp = copy_string(&base);
            if try_oll {
                temp = apply_oll_parity_to_string(temp.as_str());
            }
            if try_pll {
                temp = apply_pll_parity_to_string(temp.as_str());
            }
            if is_solvable_3x3(temp.as_str()) {
                proof {
                    if k >= 1 {
                        assert(!solvable_text(with_parity(t, combo(0).0, combo(0).1)));
                    }
                    if k >= 2 {
                        assert(!solvable_text(with_parity(t, combo(1).0, combo(1).1)));
                    }
                    if k >= 3 {
                        assert(!solvable_text(with_parity(t, combo(2).0, combo(2).1)));
                    }
                }
                choice = Some((try_oll, try_pll));
                chosen_text = temp;
            }
        }
        k = k + 1;
    }
    let (need_oll, need_pll) = match choice {
        Some(c) => c,
        None => {
            proof {
                assert(!solvable_text(with_parity(t, combo(0).0, combo(0).1)));
                assert(!solvable_text(with_parity(t, combo(1).0, combo(1).1)));
                assert(!solvable_text(with_parity(t, combo(2).0, combo(2).1)));
                assert(!solvable_text(with_parity(t, combo(3).0, combo(3).1)));
            }
            return None;
        },
    };
    let mut parity_moves: Vec<RotationMove> = Vec::new();
    if need_oll {
        extend_moves(&mut parity_moves, &get_oll_parity_moves(size));
    }
    if need_pll {
        extend_moves(&mut parity_moves, &get_pll_parity_moves(size));
    }
    proof {
        assert(parity_moves@ =~= parity_moves_of((need_oll, need_pll), size as int));
        crate::nxn::state::lemma_after_moves_in_range(state.facelets@, parity_moves@, size as int);
    }
    state.apply_moves(parity_moves.as_slice());
    let sol = match two_phase_text(chosen_text.as_str(), table) {
        Some(t) => t,
        None => {
            return None;
        },
    };
    let solution_moves = solution_to_moves(sol.as_str(), size as i32, mapping);
    let mut all_moves = parity_moves;
    extend_moves(&mut all_moves, &solution_moves);
    Some(all_moves)
}

/// The four parity choices in the order tried: none, OLL, PLL, both.
pub open spec fn combo(j: int) -> (bool, bool) {
    if j == 0 {
        (false, false)
    } else if j == 1 {
        (true, false)
    } else if j == 2 {
        (false, true)
    } else {
        (true, true)
    }
}

/// Parity choice `k` of the four.
fn combo_exec(k: usize) -> (c: (bool, bool))
    requires
        k < 4,
    ensures
        c == combo(k as int),
{
    if k == 0 {
        (false, false)
    } else if k == 1 {
        (true, false)
    } else if k == 2 {
        (false, true)
    } else {
        (true, true)
    }
}

/// A copy of a text.
fn copy_string(s: &String) -> (r: String)
    ensures
        r@ == s@,
{
    crate::text::string_of(s.as_str())
}

/// Whether the centers step (bars recorded and applied by `steps`, then `cm`) and the edge step
/// (`em`) lead from `fs` to a state with all edges paired.
pub open spec fn reduced_by(
    fs: Seq<Facelet>,
    s: int,
    steps: Seq<(Seq<RotationMove>, Seq<RotationMove>)>,
    cm: Seq<RotationMove>,
    em: Seq<RotationMove>,
) -> bool {
    all_edges_paired(after_moves(fs, bars_applied(steps) + cm + em, s), s)
}

/// Solves an NxN cube by reduction: centers, then edge pairing, then the parity fixes and the
/// two-phase solution of the reduced 3x3; the whole list is simplified by merging turns of the
/// same slice. `None` when a step fails.
pub fn solve_nxn(state: &mut NxNState, mapping: FaceMapping, table: &SolverTables) -> (r: Option<Vec<RotationMove>>)
    requires
        ready(old(state)),
    ensures
        final(state).size == old(state).size,
        r matches Some(ms) ==> exists|steps: Seq<(Seq<RotationMove>, Seq<RotationMove>)>, cm: Seq<RotationMove>, em: Seq<RotationMove>|
            #[trigger] reduced_by(old(state).facelets@, old(state).size as int, steps, cm, em) && finish_moves(
                after_moves(old(state).facelets@, bars_applied(steps) + cm + em, old(state).size as int),
                old(state).size as int,
                mapping,
            ) is Some && ms@ == optimized(
                bars_recorded(steps) + cm + em + finish_moves(
                    after_moves(old(state).facelets@, bars_applied(steps) + cm + em, old(state).size as int),
                    old(state).size as int,
                    mapping,
                ).unwrap(),
            ),
        old(state).size < 3 && all_edges_paired(old(state).facelets@, old(state).size as int) && finish_moves(
            old(state).facelets@,
            old(state).size as int,
            mapping,
        ) is Some ==> (r matches Some(ms) && ms@ == optimized(
            finish_moves(old(state).facelets@, old(state).size as int, mapping).unwrap(),
        )),
        r is None ==> {
            let fs = old(state).facelets@;
            let s = old(state).size as int;
            ||| centers_stuck(final(state).facelets@, s)
            ||| exists|steps: Seq<(Seq<RotationMove>, Seq<RotationMove>)>, tail: Seq<RotationMove>|
                pairing_stopped(#[trigger] after_moves(fs, bars_applied(steps) + tail, s), final(state).facelets@, s)
            ||| exists|steps: Seq<(Seq<RotationMove>, Seq<RotationMove>)>, cm: Seq<RotationMove>, em: Seq<RotationMove>|
                #[trigger] reduced_by(fs, s, steps, cm, em) && finish_moves(after_moves(fs, bars_applied(steps) + cm + em, s), s, mapping)
                    is None
        },
{
    let ghost start = state.facelets@;
    let ghost s = state.size as int;
    let mut all_moves: Vec<RotationMove> = Vec::new();
    let center_moves = match solve_centers(state) {
        Some(m) => m,
        None => {
            return None;
        },
    };
    extend_moves(&mut all_moves, &center_moves);
    let ghost mid = state.facelets@;
    let ghost cstep = choose|steps: Seq<(Seq<RotationMove>, Seq<RotationMove>)>, tail: Seq<RotationMove>|
        center_moves@ == bars_recorded(steps) + tail && mid == #[trigger] after_moves(start, bars_applied(steps) + tail, s);
    let edge_moves = match pair_edges(state) {
        Some(m) => m,
        None => {
            assert(pairing_stopped(after_moves(start, bars_applied(cstep.0) + cstep.1, s), state.facelets@, s));
            return None;
        },
    };
    extend_moves(&mut all_moves, &edge_moves);
    let ghost reduced = state.facelets@;
    proof {
        let ms = choose|ms: Seq<RotationMove>| reduced == #[trigger] after_moves(mid, ms, s);
        crate::nxn::centers::lemma_reach_step(start, mid, ms, s);
        lemma_after_moves_concat(start, bars_applied(cstep.0) + cstep.1, edge_moves@, s);
        assert(reduced == after_moves(start, bars_applied(cstep.0) + cstep.1 + edge_moves@, s));
        assert(all_moves@ == bars_recorded(cstep.0) + cstep.1 + edge_moves@);
        assert(reduced_by(start, s, cstep.0, cstep.1, edge_moves@));
    }
    let tail = match finish_reduced(state, mapping, table) {
        Some(m) => m,
        None => {
            assert(reduced_by(start, s, cstep.0, cstep.1, edge_moves@));
            return None;
        },
    };
    let ghost pre = all_moves@;
    extend_moves(&mut all_moves, &tail);
    let r = optimize_moves(all_moves.as_slice());
    proof {
        assert(finish_moves(reduced, s, mapping) is Some);
        assert(r@ == optimized(pre + finish_moves(reduced, s, mapping).unwrap()));
        if s < 3 && all_edges_paired(start, s) && finish_moves(start, s, mapping) is Some {
            assert(center_moves@.len() == 0);
            assert(mid == start);
            assert(edge_moves@.len() == 0);
            assert(reduced == start);
            assert(pre =~= Seq::<RotationMove>::empty());
            assert(pre + finish_moves(reduced, s, mapping).unwrap() =~= finish_moves(start, s, mapping).unwrap());
        }
    }
    Some(r)
}

} // verus!
