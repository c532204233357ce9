//! A facelet cube state read from text, turned by physical rotation moves, and the solve flow
//! that hands unsolved states to an external NxN solver.

use vstd::prelude::*;
use crate::orientation::{Face, RotationAxis, RotationMove, Direction, FaceMapping};
use crate::cube::geometry::{face_at, face_idx, flat, lemma_decode, lemma_encode, lemma_nn_bounds, lemma_block_index};
use crate::text::{chars_of, push_char, join_spaced, join_words, words};
use crate::helpers::{
    logical_string_to_physical_moves_any, optimize_moves, physical_move_to_logical_string_any, words_moves,
    optimized, move_text, lemma_words_moves_fit, lemma_optimized_fit,
};
use crate::center_solver::commutator::strings_view;

verus! {

/// The faces in the order of the state text: U, R, F, D, L, B.
pub open spec fn state_face(t: int) -> Face {
    if t == 0 {
        Face::Up
    } else if t == 1 {
        Face::Right
    } else if t == 2 {
        Face::Front
    } else if t == 3 {
        Face::Down
    } else if t == 4 {
        Face::Left
    } else {
        Face::Back
    }
}

/// The face of a state letter: U or W (Up), R, F or G (Front), D or Y (Down), L or O (Left), B.
pub open spec fn letter_face(c: char) -> Option<Face> {
    if c == 'U' || c == 'W' {
        Some(Face::Up)
    } else if c == 'R' {
        Some(Face::Right)
    } else if c == 'F' || c == 'G' {
        Some(Face::Front)
    } else if c == 'D' || c == 'Y' {
        Some(Face::Down)
    } else if c == 'L' || c == 'O' {
        Some(Face::Left)
    } else if c == 'B' {
        Some(Face::Back)
    } else {
        None
    }
}

/// The letter of a face in state text.
pub open spec fn face_char_spec(f: Face) -> char {
    match f {
        Face::Up => 'U',
        Face::Right => 'R',
        Face::Front => 'F',
        Face::Down => 'D',
        Face::Left => 'L',
        Face::Back => 'B',
    }
}

/// A cube state of `size` x `size` faces, stored face by face (U, R, F, D, L, B), each face row
/// by row.
#[derive(Debug, Clone, PartialEq, Eq)]
pub struct CubeState {
    pub size: usize,
    pub faces: Vec<Face>,
}

/// Face index, row and column of a rotation's source facelet, for a quarter turn of slice `k`
/// of an axis (`rev` for counter-clockwise), at target (t, r, c); facelets off the turning
/// slice keep their place.
pub open spec fn state_source(n: int, axis: RotationAxis, k: int, rev: bool, t: int, r: int, c: int) -> (int, int, int) {
    let m = n - 1;
    // face indices: U 0, R 1, F 2, D 3, L 4, B 5
    match axis {
        RotationAxis::X => {
            if t == 0 && c == k {
                if !rev { (2, r, k) } else { (5, m - r, m - k) }
            } else if t == 2 && c == k {
                if !rev { (3, r, k) } else { (0, r, k) }
            } else if t == 3 && c == k {
                if !rev { (5, m - r, m - k) } else { (2, r, k) }
            } else if t == 5 && c == m - k {
                if !rev { (0, m - r, k) } else { (3, m - r, k) }
            } else if k == m && t == 1 {
                turned(t, r, c, m, !rev)
            } else if k != m && k == 0 && t == 4 {
                turned(t, r, c, m, rev)
            } else {
                (t, r, c)
            }
        },
        RotationAxis::Y => {
            if r == k && (t == 2 || t == 1 || t == 5 || t == 4) {
                // F <- R <- B <- L <- F when clockwise, the other way round otherwise
                let s = if !rev {
                    if t == 2 { 1int } else if t == 1 { 5int } else if t == 5 { 4int } else { 2int }
                } else {
                    if t == 2 { 4int } else if t == 4 { 5int } else if t == 5 { 1int } else { 2int }
                };
                (s, k, c)
            } else if k == m && t == 0 {
                turned(t, r, c, m, !rev)
            } else if k != m && k == 0 && t == 3 {
                turned(t, r, c, m, rev)
            } else {
                (t, r, c)
            }
        },
        RotationAxis::Z => {
            if t == 0 && r == m - k {
                if !rev { (4, m - c, m - k) } else { (1, c, k) }
            } else if t == 4 && c == m - k {
                if !rev { (3, k, r) } else { (0, m - k, m - r) }
            } else if t == 3 && r == k {
                if !rev { (1, m - c, k) } else { (4, c, m - k) }
            } else if t == 1 && c == k {
                if !rev { (0, m - k, r) } else { (3, k, m - r) }
            } else if k == m && t == 2 {
                turned(t, r, c, m, !rev)
            } else if k != m && k == 0 && t == 5 {
                turned(t, r, c, m, rev)
            } else {
                (t, r, c)
            }
        },
    }
}

/// The source of (t, r, c) when face t turns a quarter (clockwise when `cw`).
pub open spec fn turned(t: int, r: int, c: int, m: int, cw: bool) -> (int, int, int) {
    if cw { (t, m - c, r) } else { (t, c, m - r) }
}

/// The facelets after a move: each takes the content of its source.
pub open spec fn state_after(g: Seq<Face>, n: int, mv: RotationMove) -> Seq<Face> {
    Seq::new(g.len(), |i: int| {
        let d = (i / (n * n), (i % (n * n)) / n, i % n);
        let s = state_source(n, mv.axis, mv.index as int, mv.direction == Direction::CounterClockwise, d.0, d.1, d.2);
        g[s.0 * (n * n) + s.1 * n + s.2]
    })
}

/// The face turned along with the outer slice `k` (0 or n - 1) of an axis: R, U or F for the
/// last slice of X, Y or Z, and L, D or B for the first (state order U 0, R 1, F 2, D 3, L 4, B 5).
pub open spec fn outer_face(axis: RotationAxis, k: int, n: int) -> int {
    if k == n - 1 {
        match axis {
            RotationAxis::X => 1,
            RotationAxis::Y => 0,
            RotationAxis::Z => 2,
        }
    } else {
        match axis {
            RotationAxis::X => 4,
            RotationAxis::Y => 3,
            RotationAxis::Z => 5,
        }
    }
}

/// A quarter turn of an outer slice turns the outer face with it as a whole: for the last slice
/// the face (R, U or F, each stored as seen from outside) turns clockwise with a clockwise move,
/// so the facelet at (r, c) takes the one at (n-1-c, r); for the first slice the opposite face
/// (L, D or B) turns the other way, so the facelet at (r, c) takes the one at (c, n-1-r). A
/// counterclockwise move turns the face the other way.
pub proof fn lemma_outer_face_turns(g: Seq<Face>, n: int, mv: RotationMove, r: int, c: int)
    requires
        n >= 1,
        g.len() == 6 * n * n,
        mv.index == n - 1 || mv.index == 0,
        0 <= r < n,
        0 <= c < n,
    ensures
        ({
            let m = n - 1;
            let f = outer_face(mv.axis, mv.index as int, n);
            let face_cw = if mv.index == m {
                mv.direction == Direction::Clockwise
            } else {
                mv.direction == Direction::CounterClockwise
            };
            state_after(g, n, mv)[f * (n * n) + r * n + c] == if face_cw {
                g[f * (n * n) + (m - c) * n + r]
            } else {
                g[f * (n * n) + c * n + (m - r)]
            }
        }),
{
    let m = n - 1;
    let f = outer_face(mv.axis, mv.index as int, n);
    lemma_block_index(n, f, r, c);
    lemma_nn_bounds(n);
    assert(f * (n * n) + r * n + c < 6 * n * n) by (nonlinear_arith)
        requires
            0 <= f < 6,
            0 <= r * n + c < n * n;
}

/// Position of facelet (t, r, c) in the state: face t (U 0, R 1, F 2, D 3, L 4, B 5), row r,
/// column c.
pub open spec fn at(n: int, t: int, r: int, c: int) -> int {
    t * (n * n) + r * n + c
}

/// A quarter turn of slice k cycles four lines of facelets around the axis. Clockwise: for X the
/// column k of U takes the one of F, F of D, D of B (upside down, column n-1-k), and B of U; for
/// Y the row k of F takes the one of R, R of B, B of L, and L of F; for Z the row n-1-k of U takes
/// the column n-1-k of L, that column the row k of D, that row the column k of R, and that
/// column the row n-1-k of U. Counterclockwise each line takes the one it gave to clockwise.
pub proof fn lemma_slice_cycle(g: Seq<Face>, n: int, mv: RotationMove, i: int)
    requires
        n >= 1,
        g.len() == 6 * n * n,
        0 <= mv.index < n,
        0 <= i < n,
    ensures
        ({
            let m = n - 1;
            let k = mv.index as int;
            let a = state_after(g, n, mv);
            let cw = mv.direction == Direction::Clockwise;
            match mv.axis {
                RotationAxis::X => if cw {
                    &&& a[at(n, 0, i, k)] == g[at(n, 2, i, k)]
                    &&& a[at(n, 2, i, k)] == g[at(n, 3, i, k)]
                    &&& a[at(n, 3, i, k)] == g[at(n, 5, m - i, m - k)]
                    &&& a[at(n, 5, m - i, m - k)] == g[at(n, 0, i, k)]
                } else {
                    &&& a[at(n, 0, i, k)] == g[at(n, 5, m - i, m - k)]
                    &&& a[at(n, 5, m - i, m - k)] == g[at(n, 3, i, k)]
                    &&& a[at(n, 3, i, k)] == g[at(n, 2, i, k)]
                    &&& a[at(n, 2, i, k)] == g[at(n, 0, i, k)]
                },
                RotationAxis::Y => if cw {
                    &&& a[at(n, 2, k, i)] == g[at(n, 1, k, i)]
                    &&& a[at(n, 1, k, i)] == g[at(n, 5, k, i)]
                    &&& a[at(n, 5, k, i)] == g[at(n, 4, k, i)]
                    &&& a[at(n, 4, k, i)] == g[at(n, 2, k, i)]
                } else {
                    &&& a[at(n, 2, k, i)] == g[at(n, 4, k, i)]
                    &&& a[at(n, 4, k, i)] == g[at(n, 5, k, i)]
                    &&& a[at(n, 5, k, i)] == g[at(n, 1, k, i)]
                    &&& a[at(n, 1, k, i)] == g[at(n, 2, k, i)]
                },
                RotationAxis::Z => if cw {
                    &&& a[at(n, 0, m - k, i)] == g[at(n, 4, m - i, m - k)]
                    &&& a[at(n, 4, m - i, m - k)] == g[at(n, 3, k, m - i)]
                    &&& a[at(n, 3, k, m - i)] == g[at(n, 1, i, k)]
                    &&& a[at(n, 1, i, k)] == g[at(n, 0, m - k, i)]
                } else {
                    &&& a[at(n, 0, m - k, i)] == g[at(n, 1, i, k)]
                    &&& a[at(n, 1, i, k)] == g[at(n, 3, k, m - i)]
                    &&& a[at(n, 3, k, m - i)] == g[at(n, 4, m - i, m - k)]
                    &&& a[at(n, 4, m - i, m - k)] == g[at(n, 0, m - k, i)]
                },
            }
        }),
{
    let m = n - 1;
    let k = mv.index as int;
    lemma_nn_bounds(n);
    assert forall|t: int, r: int, c: int| 0 <= t < 6 && 0 <= r < n && 0 <= c < n implies
        (#[trigger] at(n, t, r, c)) / (n * n) == t && (at(n, t, r, c) % (n * n)) / n == r && at(n, t, r, c) % n == c
        && 0 <= at(n, t, r, c) < 6 * n * n by {
        lemma_block_index(n, t, r, c);
        assert(t * (n * n) + r * n + c < 6 * n * n) by (nonlinear_arith)
            requires
                0 <= t < 6,
                0 <= r * n + c < n * n;
    }
    assert(at(n, 0, i, k) >= 0 && at(n, 2, i, k) >= 0 && at(n, 3, i, k) >= 0 && at(n, 5, m - i, m - k) >= 0);
    assert(at(n, 1, k, i) >= 0 && at(n, 2, k, i) >= 0 && at(n, 4, k, i) >= 0 && at(n, 5, k, i) >= 0);
    assert(at(n, 0, m - k, i) >= 0 && at(n, 4, m - i, m - k) >= 0 && at(n, 3, k, m - i) >= 0 && at(n, 1, i, k) >= 0);
}

/// A quarter turn of slice k leaves every facelet off the turning slice in place: off the four
/// lines it cycles, and off the outer face it turns when k is the first or last slice.
pub proof fn lemma_slice_keeps_rest(g: Seq<Face>, n: int, mv: RotationMove, t: int, r: int, c: int)
    requires
        n >= 1,
        g.len() == 6 * n * n,
        0 <= mv.index < n,
        0 <= t < 6,
        0 <= r < n,
        0 <= c < n,
        ({
            let m = n - 1;
            let k = mv.index as int;
            let on_lines = match mv.axis {
                RotationAxis::X => ((t == 0 || t == 2 || t == 3) && c == k) || (t == 5 && c == m - k),
                RotationAxis::Y => (t == 1 || t == 2 || t == 4 || t == 5) && r == k,
                RotationAxis::Z => (t == 0 && r == m - k) || (t == 4 && c == m - k) || (t == 3 && r == k) || (t == 1 && c == k),
            };
            let on_face = (k == m || k == 0) && t == outer_face(mv.axis, k, n);
            !on_lines && !on_face
        }),
    ensures
        state_after(g, n, mv)[at(n, t, r, c)] == g[at(n, t, r, c)],
{
    lemma_nn_bounds(n);
    lemma_block_index(n, t, r, c);
    assert(t * (n * n) + r * n + c < 6 * n * n) by (nonlinear_arith)
        requires
            0 <= t < 6,
            0 <= r * n + c < n * n;
}

/// The source of a facelet stays on the cube.
proof fn lemma_source_in_range(n: int, axis: RotationAxis, k: int, rev: bool, t: int, r: int, c: int)
    requires
        n >= 1,
        0 <= k < n,
        0 <= t < 6,
        0 <= r < n,
        0 <= c < n,
    ensures
        ({
            let s = state_source(n, axis, k, rev, t, r, c);
            0 <= s.0 < 6 && 0 <= s.1 < n && 0 <= s.2 < n
        }),
{
}

/// The sources of a turn and of the opposite turn of the same slice undo each other.
proof fn lemma_source_undone(n: int, axis: RotationAxis, k: int, rev: bool, t: int, r: int, c: int)
    requires
        n >= 1,
        0 <= k < n,
        0 <= t < 6,
        0 <= r < n,
        0 <= c < n,
    ensures
        ({
            let s = state_source(n, axis, k, !rev, t, r, c);
            state_source(n, axis, k, rev, s.0, s.1, s.2) == (t, r, c)
        }),
{
}

impl CubeState {
    /// The state holds 6 * size^2 facelets.
    pub open spec fn wf(&self) -> bool {
        self.faces@.len() == 6 * self.size * self.size
    }

    /// The face a state letter stands for: U/W, R, F/G, D/Y, L/O, B.
    fn char_to_face(c: char) -> (f: Option<Face>)
        ensures
            f == letter_face(c),
    {
        if c == 'U' || c == 'W' {
            Some(Face::Up)
        } else if c == 'R' {
            Some(Face::Right)
        } else if c == 'F' || c == 'G' {
            Some(Face::Front)
        } else if c == 'D' || c == 'Y' {
            Some(Face::Down)
        } else if c == 'L' || c == 'O' {
            Some(Face::Left)
        } else if c == 'B' {
            Some(Face::Back)
        } else {
            None
        }
    }

    /// The letter of a face.
    fn face_to_char(f: Face) -> (c: char)
        ensures
            c == face_char_spec(f),
    {
        match f {
            Face::Up => 'U',
            Face::Right => 'R',
            Face::Front => 'F',
            Face::Down => 'D',
            Face::Left => 'L',
            Face::Back => 'B',
        }
    }

    /// Reads a state of `size` x `size` faces from text: 6 * size^2 letters (see `letter_face`),
    /// face by face in the order U, R, F, D, L, B, each face row by row. `None` when the text
    /// has another byte length or holds another letter.
    pub fn new(size: usize, state_str: &str) -> (r: Option<Self>)
        requires
            6 * size * size <= usize::MAX,
        ensures
            r is Some <==> state_str.len() == 6 * size * size
                && forall|i: int| 0 <= i < state_str@.len() ==> (#[trigger] letter_face(state_str@[i])) is Some,
            r matches Some(st) ==> st.size == size && st.wf() && st.faces@.len() == state_str@.len()
                && forall|i: int| 0 <= i < st.faces@.len() ==> Some(#[trigger] st.faces@[i]) == letter_face(state_str@[i]),
    {
        proof {
            assert(6 * size * size == 6 * (size * size)) by (nonlinear_arith);
        }
        let expected_len = size * size * 6;
        if state_str.len() != expected_len {
            return None;
        }
        let chars = chars_of(state_str);
        let mut faces: Vec<Face> = Vec::new();
        let mut idx: usize = 0;
        while idx < chars.len()
            invariant
                chars@ == state_str@,
                idx <= chars@.len(),
                faces@.len() == idx,
                forall|i: int| 0 <= i < idx ==> (#[trigger] letter_face(state_str@[i])) is Some,
                forall|i: int| 0 <= i < idx ==> Some(#[trigger] faces@[i]) == letter_face(state_str@[i]),
            decreases chars@.len() - idx,
        {
            match Self::char_to_face(chars[idx]) {
                Some(f) => faces.push(f),
                None => {
                    return None;
                },
            }
            idx = idx + 1;
        }
        proof {
            assert(vstd::utf8::is_ascii_chars(state_str@)) by {
                assert forall|j: int| 0 <= j < state_str@.len() implies '\0' <= #[trigger] state_str@[j] <= '\u{7f}' by {
                    assert(letter_face(state_str@[j]) is Some);
                }
            }
            vstd::utf8::is_ascii_chars_encode_utf8(state_str@);
        }
        Some(CubeState { size, faces })
    }

    /// The state as text: one letter per facelet, face by face (U, R, F, D, L, B), row by row.
    pub fn to_state_str(&self) -> (s: String)
        ensures
            s@ == self.faces@.map_values(|f: Face| face_char_spec(f)),
    {
        let mut s = String::new();
        let mut i: usize = 0;
        while i < self.faces.len()
            invariant
                i <= self.faces@.len(),
                s@ == self.faces@.take(i as int).map_values(|f: Face| face_char_spec(f)),
            decreases self.faces@.len() - i,
        {
            push_char(&mut s, Self::face_to_char(self.faces[i]));
            i = i + 1;
            assert(s@ =~= self.faces@.take(i as int).map_values(|f: Face| face_char_spec(f)));
        }
        assert(self.faces@.take(i as int) =~= self.faces@);
        s
    }

    /// Whether every facelet shows the face it lies on.
    pub fn is_solved(&self) -> (b: bool)
        requires
            self.wf(),
        ensures
            b == forall|i: int| 0 <= i < self.faces@.len() ==> #[trigger] self.faces@[i] == state_face(i / (self.size * self.size)),
    {
        let total = self.faces.len();
        proof {
            assert(self.size * self.size <= 6 * self.size * self.size && 6 * self.size * self.size == 6 * (self.size * self.size))
                by (nonlinear_arith);
        }
        let nn = self.size * self.size;
        let mut i: usize = 0;
        while i < self.faces.len()
            invariant
                self.wf(),
                nn == self.size * self.size,
                total == self.faces@.len(),
                total == 6 * nn,
                i <= self.faces@.len(),
                forall|j: int| 0 <= j < i ==> #[trigger] self.faces@[j] == state_face(j / (self.size * self.size)),
            decreases self.faces@.len() - i,
        {
            let t = i / nn;
            let expected = match t {
                0 => Face::Up,
                1 => Face::Right,
                2 => Face::Front,
                3 => Face::Down,
                4 => Face::Left,
                _ => Face::Back,
            };
            if self.faces[i] != expected {
                return false;
            }
            i = i + 1;
        }
        true
    }

    /// Applies a physical quarter turn of slice `m.index` of `m.axis` (see `state_source`).
    pub fn apply_move(&mut self, m: RotationMove)
        requires
            old(self).wf(),
            0 <= m.index < old(self).size,
        ensures
            final(self).wf(),
            final(self).size == old(self).size,
            final(self).faces@ == state_after(old(self).faces@, old(self).size as int, m),
    {
        let n = self.size;
        let total = self.faces.len();
        proof {
            assert(n * n <= 6 * n * n) by (nonlinear_arith);
        }
        let nn = n * n;
        let k = m.index as usize;
        let rev = m.direction == Direction::CounterClockwise;
        proof {
            lemma_nn_bounds(n as int);
        }
        let mut out: Vec<Face> = Vec::with_capacity(total);
        let mut i: usize = 0;
        while i < total
            invariant
                n >= 1,
                nn >= 1,
                nn == n * n,
                total == 6 * n * n,
                self.faces@.len() == total,
                k == m.index,
                k < n,
                rev == (m.direction == Direction::CounterClockwise),
                i <= total,
                out@.len() == i,
                forall|j: int| 0 <= j < i ==> #[trigger] out@[j] == state_after(self.faces@, n as int, m)[j],
            decreases total - i,
        {
            proof {
                lemma_decode(n as int, i as int);
            }
            let t = i / nn;
            let r = (i % nn) / n;
            let c = i % n;
            let (st, sr, sc) = source_of(n, m.axis, k, rev, t, r, c);
            proof {
                lemma_encode(n as int, face_at(st as int), sr as int, sc as int);
                assert(face_idx(face_at(st as int)) == st);
            }
            out.push(self.faces[st * nn + sr * n + sc]);
            i = i + 1;
        }
        self.faces = out;
        assert(self.faces@ =~= state_after(old(self).faces@, n as int, m));
    }
}

/// The source of (t, r, c) when face t turns a quarter (clockwise when `cw`).
fn turned_src(t: usize, r: usize, c: usize, m: usize, cw: bool) -> (q: (usize, usize, usize))
    requires
        r <= m,
        c <= m,
    ensures
        (q.0 as int, q.1 as int, q.2 as int) == turned(t as int, r as int, c as int, m as int, cw),
{
    if cw { (t, m - c, r) } else { (t, c, m - r) }
}

/// The source of facelet (t, r, c) under a quarter turn (see `state_source`).
fn source_of(n: usize, axis: RotationAxis, k: usize, rev: bool, t: usize, r: usize, c: usize) -> (s: (usize, usize, usize))
    requires
        n >= 1,
        k < n,
        t < 6,
        r < n,
        c < n,
    ensures
        (s.0 as int, s.1 as int, s.2 as int) == state_source(n as int, axis, k as int, rev, t as int, r as int, c as int),
        s.0 < 6,
        s.1 < n,
        s.2 < n,
{
    let m = n - 1;
    match axis {
        RotationAxis::X => {
            if t == 0 && c == k {
                if !rev { (2, r, k) } else { (5, m - r, m - k) }
            } else if t == 2 && c == k {
                if !rev { (3, r, k) } else { (0, r, k) }
            } else if t == 3 && c == k {
                if !rev { (5, m - r, m - k) } else { (2, r, k) }
            } else if t == 5 && c == m - k {
                if !rev { (0, m - r, k) } else { (3, m - r, k) }
            } else if k == m && t == 1 {
                turned_src(t, r, c, m, !rev)
            } else if k != m && k == 0 && t == 4 {
                turned_src(t, r, c, m, rev)
            } else {
                (t, r, c)
            }
        },
        RotationAxis::Y => {
            if r == k && (t == 2 || t == 1 || t == 5 || t == 4) {
                let s: usize = if !rev {
                    if t == 2 { 1 } else if t == 1 { 5 } else if t == 5 { 4 } else { 2 }
                } else {
                    if t == 2 { 4 } else if t == 4 { 5 } else if t == 5 { 1 } else { 2 }
                };
                (s, k, c)
            } else if k == m && t == 0 {
                turned_src(t, r, c, m, !rev)
            } else if k != m && k == 0 && t == 3 {
                turned_src(t, r, c, m, rev)
            } else {
                (t, r, c)
            }
        },
        RotationAxis::Z => {
            if t == 0 && r == m - k {
                if !rev { (4, m - c, m - k) } else { (1, c, k) }
            } else if t == 4 && c == m - k {
                if !rev { (3, k, r) } else { (0, m - k, m - r) }
            } else if t == 3 && r == k {
                if !rev { (1, m - c, k) } else { (4, c, m - k) }
            } else if t == 1 && c == k {
                if !rev { (0, m - k, r) } else { (3, k, m - r) }
            } else if k == m && t == 2 {
                turned_src(t, r, c, m, !rev)
            } else if k != m && k == 0 && t == 5 {
                turned_src(t, r, c, m, rev)
            } else {
                (t, r, c)
            }
        },
    }
}

/// A commutator for three pieces; no generator is defined yet, so it is empty.
pub fn generate_commutator(
    _size: usize,
    _piece_a: (Face, usize, usize),
    _piece_b: (Face, usize, usize),
    _piece_c: (Face, usize, usize),
) -> (moves: Vec<RotationMove>)
    ensures
        moves@.len() == 0,
{
    Vec::new()
}

/// The text reads as a state of the given size.
pub open spec fn valid_state(size: int, s: &str) -> bool {
    &&& s.len() == 6 * size * size
    &&& forall|i: int| 0 <= i < s@.len() ==> (#[trigger] letter_face(s@[i])) is Some
}

/// Every facelet of the text shows the face it lies on.
pub open spec fn solved_state(size: int, s: Seq<char>) -> bool {
    forall|i: int| 0 <= i < s.len() ==> Some(state_face(i / (size * size))) == #[trigger] letter_face(s[i])
}

/// The logical moves that the solver reports for a list of moves in logical text: read into
/// physical moves under the standard mapping, merged, and written back as text.
pub open spec fn reported_moves(size: int, ms: Seq<Seq<char>>) -> Seq<Seq<char>> {
    let mapping = FaceMapping { f_face: Face::Front, d_face: Face::Down, select_d_first: false };
    optimized(words_moves(words(join_spaced(ms)), size, mapping, true)).map_values(|m: RotationMove| move_text(m, size, mapping))
}

/// Whether the external NxN solver is asked for a state: only for a valid state that is not
/// solved.
pub fn needs_daemon(size: usize, state_str: &str) -> (b: bool)
    requires
        6 * size * size <= usize::MAX,
    ensures
        b == (valid_state(size as int, state_str) && !solved_state(size as int, state_str@)),
{
    let state = match CubeState::new(size, state_str) {
        Some(st) => st,
        None => {
            return false;
        },
    };
    proof {
        assert(state.faces@.len() == state_str@.len());
        assert(solved_state(size as int, state_str@) == (forall|i: int| 0 <= i < state.faces@.len() ==>
            #[trigger] state.faces@[i] == state_face(i / (size * size)))) by {
            if solved_state(size as int, state_str@) {
                assert forall|i: int| 0 <= i < state.faces@.len() implies #[trigger] state.faces@[i] == state_face(i / (size * size)) by {
                    assert(Some(state.faces@[i]) == letter_face(state_str@[i]));
                }
            }
            if forall|i: int| 0 <= i < state.faces@.len() ==> #[trigger] state.faces@[i] == state_face(i / (size * size)) {
                assert forall|i: int| 0 <= i < state_str@.len() implies Some(state_face(i / (size * size))) == #[trigger] letter_face(state_str@[i]) by {
                    assert(Some(state.faces@[i]) == letter_face(state_str@[i]));
                }
            }
        }
    }
    !state.is_solved()
}

/// Solves a cube state given as text (see `CubeState::new`): `None` when the text is not a
/// state of that size, no moves when it is solved, and otherwise the moves of `daemon_moves`
/// (the external NxN solver's answer for the state, in logical text), read into physical moves,
/// merged and written back as logical text; no moves when the solver gave no answer.
pub fn solve(size: usize, state_str: &str, daemon_moves: Option<Vec<String>>) -> (r: Option<Vec<String>>)
    requires
        6 * size * size <= usize::MAX,
        size <= i32::MAX,
    ensures
        r is None <==> !valid_state(size as int, state_str),
        valid_state(size as int, state_str) && solved_state(size as int, state_str@) ==> (r matches Some(v) && v@.len() == 0),
        valid_state(size as int, state_str) && !solved_state(size as int, state_str@) ==> (r matches Some(v) && match daemon_moves {
            Some(ms) => if ms@.len() == 0 {
                v@.len() == 0
            } else {
                strings_view(v@) == reported_moves(size as int, strings_view(ms@))
            },
            None => v@.len() == 0,
        }),
{
    let state = match CubeState::new(size, state_str) {
        Some(st) => st,
        None => {
            return None;
        },
    };
    proof {
        assert(state.faces@.len() == state_str@.len());
        assert(solved_state(size as int, state_str@) == (forall|i: int| 0 <= i < state.faces@.len() ==>
            #[trigger] state.faces@[i] == state_face(i / (size * size)))) by {
            if solved_state(size as int, state_str@) {
                assert forall|i: int| 0 <= i < state.faces@.len() implies #[trigger] state.faces@[i] == state_face(i / (size * size)) by {
                    assert(Some(state.faces@[i]) == letter_face(state_str@[i]));
                }
            }
            if forall|i: int| 0 <= i < state.faces@.len() ==> #[trigger] state.faces@[i] == state_face(i / (size * size)) {
                assert forall|i: int| 0 <= i < state_str@.len() implies Some(state_face(i / (size * size))) == #[trigger] letter_face(state_str@[i]) by {
                    assert(Some(state.faces@[i]) == letter_face(state_str@[i]));
                }
            }
        }
    }
    let mut solution: Vec<String> = Vec::new();
    if !state.is_solved() {
        // The first unsolved facelet, for the commutator generator.
        proof {
            assert(state.faces@.len() > 0);
            assert(size >= 1 && size * size <= 6 * size * size) by (nonlinear_arith)
                requires
                    6 * size * size == state.faces@.len(),
                    state.faces@.len() > 0;
            assert(size * size >= 1) by (nonlinear_arith)
                requires
                    size >= 1;
        }
        let nn = size * size;
        let mut target: (Face, usize, usize) = (Face::Up, 0, 0);
        let mut i: usize = 0;
        while i < state.faces.len()
            invariant
                i <= state.faces@.len(),
                size >= 1,
                nn == size * size,
                nn >= 1,
            decreases state.faces@.len() - i,
        {
            let t = i / nn;
            let face = match t {
                0 => Face::Up,
                1 => Face::Right,
                2 => Face::Front,
                3 => Face::Down,
                4 => Face::Left,
                _ => Face::Back,
            };
            if state.faces[i] != face {
                target = (face, (i % nn) / size, i % size);
                break;
            }
            i = i + 1;
        }
        let comm_moves = generate_commutator(size, target, (state.faces[0], target.1, target.2), (Face::Right, 0, 0));
        match daemon_moves {
            Some(ms) => {
                solution = ms;
            },
            None => {},
        }
    }
    if solution.len() > 0 {
        let mapping = FaceMapping::default();
        let text = join_words(&solution);
        let physical = logical_string_to_physical_moves_any(text.as_str(), size as i32, mapping);
        let optimized_moves = optimize_moves(physical.as_slice());
        proof {
            lemma_words_moves_fit(words(text@), size as int, mapping, true);
            lemma_optimized_fit(physical@, size as int);
        }
        let ghost before = solution@;
        let mut out: Vec<String> = Vec::new();
        let mut k: usize = 0;
        while k < optimized_moves.len()
            invariant
                0 <= size <= i32::MAX,
                k <= optimized_moves@.len(),
                crate::helpers::indices_fit(optimized_moves@, size as int),
                mapping == (FaceMapping { f_face: Face::Front, d_face: Face::Down, select_d_first: false }),
                strings_view(out@) == optimized_moves@.take(k as int).map_values(|m: RotationMove| move_text(m, size as int, mapping)),
            decreases optimized_moves@.len() - k,
        {
            let s = physical_move_to_logical_string_any(optimized_moves[k], size as i32, mapping);
            let ghost prev = strings_view(out@);
            out.push(s);
            proof {
                assert(strings_view(out@) =~= prev.push(s@));
                assert(optimized_moves@.take(k + 1).map_values(|m: RotationMove| move_text(m, size as int, mapping))
                    =~= optimized_moves@.take(k as int).map_values(|m: RotationMove| move_text(m, size as int, mapping)).push(
                    move_text(optimized_moves@[k as int], size as int, mapping)));
            }
            k = k + 1;
        }
        proof {
            assert(optimized_moves@.take(k as int) =~= optimized_moves@);
            assert(text@ == join_spaced(before.map_values(|w: String| w@)));
            assert(strings_view(before) =~= before.map_values(|w: String| w@));
        }
        solution = out;
    }
    Some(solution)
}

/// A quarter turn of a slice followed by the opposite turn of the same slice gives every facelet
/// back.
pub proof fn lemma_turn_undone(g: Seq<Face>, n: int, mv: RotationMove)
    requires
        n >= 1,
        g.len() == 6 * n * n,
        0 <= mv.index < n,
    ensures
        state_after(
            state_after(g, n, mv),
            n,
            RotationMove { axis: mv.axis, index: mv.index, direction: crate::orientation::opposite(mv.direction), add_to_history: false },
        ) == g,
{
    let back = RotationMove {
        axis: mv.axis,
        index: mv.index,
        direction: crate::orientation::opposite(mv.direction),
        add_to_history: false,
    };
    let nn = n * n;
    let once = state_after(g, n, mv);
    let twice = state_after(once, n, back);
    let rev = mv.direction == Direction::CounterClockwise;
    assert((back.direction == Direction::CounterClockwise) == !rev);
    assert forall|i: int| 0 <= i < g.len() implies #[trigger] twice[i] == g[i] by {
        lemma_decode(n, i);
        let (t, r, c) = (i / nn, (i % nn) / n, i % n);
        let s = state_source(n, mv.axis, mv.index as int, !rev, t, r, c);
        lemma_source_in_range(n, mv.axis, mv.index as int, !rev, t, r, c);
        lemma_block_index(n, s.0, s.1, s.2);
        let j = s.0 * nn + s.1 * n + s.2;
        assert(0 <= j < g.len()) by (nonlinear_arith)
            requires
                0 <= s.0 < 6,
                0 <= s.1 * n + s.2 < nn,
                j == s.0 * nn + s.1 * n + s.2,
                g.len() == 6 * n * n,
                nn == n * n,
        ;
        lemma_source_undone(n, mv.axis, mv.index as int, rev, t, r, c);
        vstd::arithmetic::div_mod::lemma_fundamental_div_mod(i, nn);
        vstd::arithmetic::div_mod::lemma_fundamental_div_mod(i % nn, n);
        assert(t * nn + r * n + c == i) by (nonlinear_arith)
            requires
                i == nn * (i / nn) + i % nn,
                i % nn == n * ((i % nn) / n) + (i % nn) % n,
                (i % nn) % n == i % n,
                t == i / nn,
                r == (i % nn) / n,
                c == i % n,
        ;
        assert(twice[i] == once[j]);
        assert(once[j] == g[t * nn + r * n + c]);
    }
    assert(twice =~= g);
}

} // verus!
