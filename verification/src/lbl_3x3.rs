//! Solving a cube as a 3x3: its corners, edge middles and centers read as a 54-character text
//! and handed to the two-phase solver.

use vstd::prelude::*;
use crate::state::{Color, Cube, at, color_char};
use crate::kociemba::{SolverTables, solve_cube, solution_of};
use crate::text::{push_char, words};

verus! {

/// The storage position of the face at position q of the order U, R, F, D, L, B.
pub open spec fn urfdlb_index(q: int) -> int {
    if q == 0 {
        0
    } else if q == 1 {
        3
    } else if q == 2 {
        4
    } else if q == 3 {
        1
    } else if q == 4 {
        2
    } else {
        5
    }
}

/// Row or column v (0, 1 or 2) of the 3x3 reading of a face of side n: first, middle, last.
pub open spec fn pick(v: int, n: int) -> int {
    if v == 0 {
        0
    } else if v == 1 {
        n / 2
    } else {
        n - 1
    }
}

/// The 3x3 text of the faces: U, R, F, D, L, B, each read row by row at the corners, the
/// middles of the sides and the middle.
pub open spec fn three_text(cells: Seq<Seq<Color>>, n: int) -> Seq<char> {
    Seq::new(54, |k: int| color_char(at(cells, urfdlb_index(k / 9), pick((k % 9) / 3, n), pick(k % 3, n), n)))
}

/// The face at position q of the order U, R, F, D, L, B.
fn urfdlb(q: usize) -> (c: Color)
    requires
        q < 6,
    ensures
        crate::state::face_index(c) == urfdlb_index(q as int),
{
    if q == 0 {
        Color::U
    } else if q == 1 {
        Color::R
    } else if q == 2 {
        Color::F
    } else if q == 3 {
        Color::D
    } else if q == 4 {
        Color::L
    } else {
        Color::B
    }
}

/// Row or column v of the 3x3 reading.
fn pick_exec(v: usize, n: usize) -> (i: usize)
    requires
        v < 3,
        n >= 1,
    ensures
        i as int == pick(v as int, n as int),
        i < n,
{
    if v == 0 {
        0
    } else if v == 1 {
        n / 2
    } else {
        n - 1
    }
}

/// The 54-character 3x3 text of the cube.
pub fn to_3x3_string(cube: &Cube) -> (s: String)
    requires
        cube.wf(),
        cube.size >= 1,
    ensures
        s@ == three_text(cube.cells(), cube.size as int),
{
    let n = cube.size;
    let mut s = String::new();
    let mut q: usize = 0;
    while q < 6
        invariant
            q <= 6,
            n == cube.size,
            n >= 1,
            cube.wf(),
            s@.len() == q * 9,
            forall|k: int| 0 <= k < s@.len() ==> #[trigger] s@[k] == three_text(cube.cells(), n as int)[k],
        decreases 6 - q,
    {
        let f = urfdlb(q);
        let mut v: usize = 0;
        while v < 9
            invariant
                q < 6,
                v <= 9,
                n == cube.size,
                n >= 1,
                cube.wf(),
                crate::state::face_index(f) == urfdlb_index(q as int),
                s@.len() == q * 9 + v,
                forall|k: int| 0 <= k < s@.len() ==> #[trigger] s@[k] == three_text(cube.cells(), n as int)[k],
            decreases 9 - v,
        {
            let r = pick_exec(v / 3, n);
            let c = pick_exec(v % 3, n);
            let col = cube.get_color(f, r, c);
            proof {
                let k = q * 9 + v;
                assert(k / 9 == q as int);
                assert(k % 9 == v as int);
            }
            push_char(&mut s, col.to_char());
            v = v + 1;
        }
        q = q + 1;
    }
    proof {
        assert(s@ =~= three_text(cube.cells(), n as int));
    }
    s
}

/// Solves the cube as a 3x3 with the two-phase solver: the solution's moves, one word each, or
/// no moves when the 3x3 text is no solvable cube or no solution is found.
pub fn solve_3x3(cube: &mut Cube, table: &SolverTables) -> (moves: Vec<String>)
    requires
        old(cube).wf(),
        old(cube).size >= 1,
    ensures
        *final(cube) == *old(cube),
        solution_of(three_text(old(cube).cells(), old(cube).size as int)) matches Some(sol) ==> moves@.map_values(
            |w: String| w@,
        ) == words(sol),
        solution_of(three_text(old(cube).cells(), old(cube).size as int)) is None ==> moves@.len() == 0,
{
    let state_str = to_3x3_string(cube);
    match solve_cube(state_str.as_str(), table) {
        Some(ws) => ws,
        None => Vec::new(),
    }
}

} // verus!
