//! Commutator search on center orbits, with exact index tracking of the facelets.

use vstd::prelude::*;
use crate::cube::{Cube, CubeError, Face};
use crate::cube::geometry::{Axis, rotated, lemma_rotated_inverse, lemma_rotated_period, flat};
use crate::cube::moves::{
    parse_move, parse_move_str, apply_move_spec, apply_moves_spec, apply_parsed, ends_prime, is_double, move_base,
    rotate_cells,
};
use crate::center_solver::orbit::{CenterPiece, Orbit, OrbitView, decompose_orbits, decomposition, orbit_views};
use crate::center_solver::permutation::{is_odd_permutation, perm_is_odd, is_permutation};

verus! {

/// The inverse of a move: a trailing ' is dropped, a half turn (as `Cube::apply_move` reads
/// one) is its own inverse, any other move gets a trailing '.
pub open spec fn inverse_move(m: Seq<char>) -> Seq<char> {
    if ends_prime(m) {
        m.drop_last()
    } else if is_double(m) {
        m
    } else {
        m.push('\'')
    }
}

/// Generates the inverse of a move string.
pub fn get_inverse_move(m: &str) -> (inv: String)
    ensures
        inv@ == inverse_move(m@),
{
    let len = m.unicode_len();
    if len > 0 && m.get_char(len - 1) == '\'' {
        let s = crate::text::string_of(m.substring_char(0, len - 1));
        assert(s@ =~= m@.drop_last());
        s
    } else if len > 0 && m.get_char(len - 1) == '2' && is_half_turn_text(m) {
        crate::text::string_of(m)
    } else {
        let mut s = crate::text::string_of(m);
        crate::text::push_char(&mut s, '\'');
        s
    }
}

/// Whether a move ending in 2 is read as a half turn: after an upper-case face letter, or after
/// a digit that follows a lower-case slice letter (as in "r12").
fn is_half_turn_text(m: &str) -> (b: bool)
    requires
        m@.len() > 0,
        m@.last() == '2',
    ensures
        b == is_double(m@),
{
    let len = m.unicode_len();
    let c0 = m.get_char(0);
    if 'A' <= c0 && c0 <= 'Z' {
        true
    } else if 'a' <= c0 && c0 <= 'z' && len >= 3 {
        let d = m.get_char(len - 2);
        '0' <= d && d <= '9'
    } else {
        false
    }
}

/// A move whose inverse is read back as the opposite turn: it parses, and a trailing ' does not
/// follow another ' or a half-turn 2.
pub open spec fn invertible_move(m: Seq<char>, n: int) -> bool {
    &&& parse_move(m, n) is Some
    &&& (ends_prime(m) ==> !ends_prime(m.drop_last()) && !is_double(m.drop_last()))
}

/// Any move, applied four times, restores the grid.
pub proof fn lemma_move_period<T>(g: Seq<T>, n: int, m: Seq<char>)
    requires
        n >= 1,
        g.len() == 6 * n * n,
    ensures
        apply_move_spec(apply_move_spec(apply_move_spec(apply_move_spec(g, n, m), n, m), n, m), n, m) == g,
{
    match parse_move(m, n) {
        None => {},
        Some(p) => {
            let (ax, s, cw, dbl) = p;
            if dbl {
                let g4 = rotated(rotated(rotated(rotated(g, n, ax, s, cw), n, ax, s, cw), n, ax, s, cw), n, ax, s, cw);
                lemma_rotated_period(g, n, ax, s, cw);
                lemma_rotated_period(g4, n, ax, s, cw);
            } else {
                lemma_rotated_period(g, n, ax, s, cw);
            }
        },
    }
}

/// A move followed by its inverse restores the grid.
pub proof fn lemma_move_inverse<T>(g: Seq<T>, n: int, m: Seq<char>)
    requires
        n >= 1,
        g.len() == 6 * n * n,
        invertible_move(m, n),
    ensures
        apply_move_spec(apply_move_spec(g, n, m), n, inverse_move(m)) == g,
{
    let p = parse_move(m, n).unwrap();
    let (ax, s, cw, dbl) = p;
    let inv = inverse_move(m);
    if ends_prime(m) {
        let b = m.drop_last();
        assert(inv == b);
        assert(!ends_prime(b) && !is_double(b));
        assert(move_base(b) == b);
        assert(move_base(m) == b);
        assert(parse_move(inv, n) == Some((ax, s, !cw, false)));
        lemma_rotated_inverse(g, n, ax, s, cw);
    } else if is_double(m) {
        assert(dbl);
        let g4 = rotated(rotated(rotated(rotated(g, n, ax, s, cw), n, ax, s, cw), n, ax, s, cw), n, ax, s, cw);
        lemma_rotated_period(g, n, ax, s, cw);
    } else {
        assert(inv == m.push('\''));
        assert(inv.drop_last() == m);
        assert(!ends_prime(m) && !is_double(m));
        assert(move_base(m) == m);
        assert(move_base(inv) == m);
        assert(parse_move(inv, n) == Some((ax, s, !cw, false)));
        lemma_rotated_inverse(g, n, ax, s, cw);
    }
}

/// The character sequences of a list of strings.
pub open spec fn strings_view(v: Seq<String>) -> Seq<Seq<char>> {
    v.map_values(|s: String| s@)
}

/// Every move of the sequence parses on a cube of size n.
pub open spec fn moves_parse(ms: Seq<Seq<char>>, n: int) -> bool {
    forall|k: int| 0 <= k < ms.len() ==> (#[trigger] parse_move(ms[k], n)) is Some
}

/// The grid that holds at each flat index its own index.
pub open spec fn identity_grid(n: int) -> Seq<usize> {
    Seq::new((6 * n * n) as nat, |i: int| i as usize)
}

/// After the moves, index j holds the starting flat index of the facelet that moved to j.
pub open spec fn index_trace(n: int, ms: Seq<Seq<char>>) -> Seq<usize> {
    apply_moves_spec(identity_grid(n), n, ms)
}

/// Flat index of a center piece.
pub open spec fn piece_flat(n: int, p: CenterPiece) -> int {
    flat(n, p.face, p.row as int, p.col as int)
}

/// Every piece lies on the cube.
pub open spec fn pieces_in_range(n: int, ps: Seq<CenterPiece>) -> bool {
    forall|i: int| 0 <= i < ps.len() ==> (#[trigger] ps[i]).row < n && ps[i].col < n
}

/// Moves of a sequence change a grid the way they change the grid of flat indices: the content
/// at j after the moves is the content that was at the traced index.
pub proof fn lemma_tracking<T>(g: Seq<T>, n: int, ms: Seq<Seq<char>>)
    requires
        n >= 1,
        g.len() == 6 * n * n,
        6 * n * n <= usize::MAX,
    ensures
        apply_moves_spec(g, n, ms).len() == g.len(),
        index_trace(n, ms).len() == g.len(),
        forall|j: int| 0 <= j < g.len() ==> 0 <= #[trigger] index_trace(n, ms)[j] < g.len(),
        forall|j: int| 0 <= j < g.len() ==> #[trigger] apply_moves_spec(g, n, ms)[j] == g[index_trace(n, ms)[j] as int],
    decreases ms.len(),
{
    if ms.len() == 0 {
        assert forall|j: int| 0 <= j < g.len() implies 0 <= #[trigger] index_trace(n, ms)[j] < g.len()
            && apply_moves_spec(g, n, ms)[j] == g[index_trace(n, ms)[j] as int] by {}
    } else {
        let init = ms.drop_last();
        let m = ms.last();
        lemma_tracking(g, n, init);
        let h = apply_moves_spec(g, n, init);
        let t = index_trace(n, init);
        match parse_move(m, n) {
            None => {
                assert forall|j: int| 0 <= j < g.len() implies 0 <= #[trigger] index_trace(n, ms)[j] < g.len()
                    && apply_moves_spec(g, n, ms)[j] == g[index_trace(n, ms)[j] as int] by {
                    assert(apply_moves_spec(g, n, ms) == h);
                    assert(index_trace(n, ms) == t);
                }
            },
            Some(p) => {
                let (ax, sl, cw, dbl) = p;
                assert forall|j: int| 0 <= j < g.len() implies 0 <= #[trigger] index_trace(n, ms)[j] < g.len()
                    && apply_moves_spec(g, n, ms)[j] == g[index_trace(n, ms)[j] as int] by {
                    crate::cube::geometry::lemma_src_index(n, ax, sl, cw, j);
                    let j1 = crate::cube::geometry::src_index(n, ax, sl, cw, j);
                    crate::cube::geometry::lemma_src_index(n, ax, sl, cw, j1);
                }
            },
        }
    }
}

/// Grid of flat indices of a cube of size n.
fn identity_indices(n: usize) -> (g: Vec<usize>)
    requires
        6 * n * n <= usize::MAX,
    ensures
        g@ == identity_grid(n as int),
{
    proof {
        assert(6 * n * n == 6 * (n * n) && n * n <= 6 * (n * n)) by (nonlinear_arith);
    }
    let nn = n * n;
    let total = 6 * nn;
    let mut g: Vec<usize> = Vec::with_capacity(total);
    let mut i: usize = 0;
    while i < total
        invariant
            i <= total,
            total == 6 * n * n,
            g@.len() == i,
            forall|k: int| 0 <= k < i ==> #[trigger] g@[k] == k as usize,
        decreases total - i,
    {
        g.push(i);
        i = i + 1;
    }
    assert(g@ =~= identity_grid(n as int));
    g
}

/// Helper to simulate a slice rotation on a flat index tracker grid.
pub fn rotate_slice_indices(size: usize, grid: &mut Vec<usize>, axis: Axis, slice_idx: usize, clockwise: bool) -> (r: Result<(), CubeError>)
    requires
        size >= 1,
        old(grid)@.len() == 6 * size * size,
    ensures
        slice_idx >= size ==> r == Err::<(), CubeError>(CubeError::IndexOutOfBounds(slice_idx, size)) && final(grid)@ == old(grid)@,
        slice_idx < size ==> r is Ok && final(grid)@ == rotated(old(grid)@, size as int, axis, slice_idx as int, clockwise),
{
    if slice_idx >= size {
        return Err(CubeError::IndexOutOfBounds(slice_idx, size));
    }
    let new_grid = rotate_cells(size, grid, axis, slice_idx, clockwise);
    *grid = new_grid;
    Ok(())
}

/// Helper to apply a move on a flat index tracker grid.
pub fn apply_move_to_indices(size: usize, grid: &mut Vec<usize>, move_str: &str) -> (r: Result<(), CubeError>)
    requires
        size >= 2,
        old(grid)@.len() == 6 * size * size,
    ensures
        final(grid)@.len() == old(grid)@.len(),
        parse_move(move_str@, size as int) is Some ==> r is Ok,
        parse_move(move_str@, size as int) is None ==> (r matches Err(CubeError::InvalidMove(s)) && s@ == move_str@),
        final(grid)@ == apply_move_spec(old(grid)@, size as int, move_str@),
{
    match parse_move_str(move_str, size) {
        None => Err(CubeError::InvalidMove(crate::text::string_of(move_str))),
        Some((axis, slice_idx, axis_cw, double)) => {
            if double {
                rotate_slice_indices(size, grid, axis, slice_idx, axis_cw)?;
                rotate_slice_indices(size, grid, axis, slice_idx, axis_cw)?;
            } else {
                rotate_slice_indices(size, grid, axis, slice_idx, axis_cw)?;
            }
            Ok(())
        },
    }
}

/// Tracks flat indices through a move sequence; fails on the first move that does not parse.
fn track_moves(size: usize, seq: &[String]) -> (r: Result<Vec<usize>, CubeError>)
    requires
        size >= 2,
        6 * size * size <= usize::MAX,
    ensures
        r is Ok <==> moves_parse(strings_view(seq@), size as int),
        r matches Ok(g) ==> g@ == index_trace(size as int, strings_view(seq@)),
{
    let mut grid = identity_indices(size);
    let mut k: usize = 0;
    while k < seq.len()
        invariant
            size >= 2,
            k <= seq@.len(),
            grid@ == index_trace(size as int, strings_view(seq@).subrange(0, k as int)),
            grid@.len() == 6 * size * size,
            moves_parse(strings_view(seq@).subrange(0, k as int), size as int),
        decreases seq@.len() - k,
    {
        let ghost before = grid@;
        let r = apply_move_to_indices(size, &mut grid, seq[k].as_str());
        proof {
            assert(strings_view(seq@).subrange(0, k + 1).drop_last() =~= strings_view(seq@).subrange(0, k as int));
        }
        if r.is_err() {
            proof {
                assert(!moves_parse(strings_view(seq@), size as int)) by {
                    assert(parse_move(strings_view(seq@)[k as int], size as int) is None);
                }
            }
            return Err(r.unwrap_err());
        }
        k = k + 1;
        proof {
            assert(moves_parse(strings_view(seq@).subrange(0, k as int), size as int)) by {
                assert forall|j: int| 0 <= j < k implies (#[trigger] parse_move(strings_view(seq@).subrange(0, k as int)[j], size as int)) is Some by {
                    if j < k - 1 {
                        assert(strings_view(seq@).subrange(0, k as int)[j] == strings_view(seq@).subrange(0, k - 1)[j]);
                    }
                }
            }
        }
    }
    assert(strings_view(seq@).subrange(0, k as int) =~= strings_view(seq@));
    Ok(grid)
}

/// Applies a move sequence to a cube; fails on the first move that does not parse.
fn apply_moves_to_cube(cube: &mut Cube, seq: &[String]) -> (r: Result<(), CubeError>)
    ensures
        final(cube).n() == old(cube).n(),
        r is Ok <==> moves_parse(strings_view(seq@), old(cube).n()),
        r is Ok ==> final(cube).cells() == apply_moves_spec(old(cube).cells(), old(cube).n(), strings_view(seq@)),
{
    let mut k: usize = 0;
    while k < seq.len()
        invariant
            k <= seq@.len(),
            cube.n() == old(cube).n(),
            cube.cells() == apply_moves_spec(old(cube).cells(), old(cube).n(), strings_view(seq@).subrange(0, k as int)),
            moves_parse(strings_view(seq@).subrange(0, k as int), old(cube).n()),
        decreases seq@.len() - k,
    {
        let r = cube.apply_move(seq[k].as_str());
        proof {
            assert(strings_view(seq@).subrange(0, k + 1).drop_last() =~= strings_view(seq@).subrange(0, k as int));
        }
        if r.is_err() {
            proof {
                assert(parse_move(strings_view(seq@)[k as int], old(cube).n()) is None);
            }
            return Err(r.unwrap_err());
        }
        k = k + 1;
        proof {
            assert forall|j: int| 0 <= j < k implies (#[trigger] parse_move(strings_view(seq@).subrange(0, k as int)[j], old(cube).n())) is Some by {
                if j < k - 1 {
                    assert(strings_view(seq@).subrange(0, k as int)[j] == strings_view(seq@).subrange(0, k - 1)[j]);
                }
            }
        }
    }
    assert(strings_view(seq@).subrange(0, k as int) =~= strings_view(seq@));
    Ok(())
}

/// Index of the first occurrence of `x` in `s`, if any.
#[verifier::opaque]
pub open spec fn first_index_of<A>(s: Seq<A>, x: A) -> Option<int> {
    if exists|i: int| 0 <= i < s.len() && s[i] == x {
        let i = choose|i: int| 0 <= i < s.len() && s[i] == x && (forall|j: int| 0 <= j < i ==> s[j] != x);
        Some(i)
    } else {
        None
    }
}

/// The moves carry the content of A to B, of B to C and of C to A.
pub open spec fn cycles_three(n: int, ms: Seq<Seq<char>>, fa: int, fb: int, fc: int) -> bool {
    let t = index_trace(n, ms);
    &&& t[fb] == fa
    &&& t[fc] == fb
    &&& t[fa] == fc
}

/// After the moves, every piece of the orbit marked solved, other than the three cycled ones,
/// still shows its own face.
pub open spec fn keeps_solved_except(after: Seq<Face>, n: int, ps: Seq<CenterPiece>, mask: Seq<bool>, a: int, b: int, c: int) -> bool {
    forall|i: int|
        0 <= i < ps.len() && i != a && i != b && i != c && #[trigger] mask[i] ==> after[piece_flat(n, ps[i])] == ps[i].face
}

/// The sequence cycles pieces a -> b -> c -> a of the orbit and keeps the other solved pieces.
pub open spec fn solves_three_cycle(cells: Seq<Face>, n: int, ps: Seq<CenterPiece>, ms: Seq<Seq<char>>, mask: Seq<bool>, a: int, b: int, c: int) -> bool {
    &&& cycles_three(n, ms, piece_flat(n, ps[a]), piece_flat(n, ps[b]), piece_flat(n, ps[c]))
    &&& keeps_solved_except(apply_moves_spec(cells, n, ms), n, ps, mask, a, b, c)
}

/// Flat index of a center piece on a cube of size n.
fn piece_index(n: usize, p: &CenterPiece) -> (k: usize)
    requires
        p.row < n,
        p.col < n,
        6 * n * n <= usize::MAX,
    ensures
        k == piece_flat(n as int, *p),
        k < 6 * n * n,
{
    proof {
        crate::cube::geometry::lemma_encode(n as int, p.face, p.row as int, p.col as int);
        assert(crate::cube::geometry::face_idx(p.face) * (n * n) <= 5 * (n * n) && p.row * n <= (n - 1) * n && n * n <= 6 * n * n) by (nonlinear_arith)
            requires crate::cube::geometry::face_idx(p.face) <= 5, p.row < n, n >= 1;
    }
    p.face.index() * (n * n) + p.row * n + p.col
}

/// Verifies that S + [X, Y] + S' cycles pieces A -> B -> C -> A of the orbit, by exact index
/// tracking, and keeps every other solved piece of the orbit solved.
fn verify_3cycle(
    size: usize,
    cube: &Cube,
    orbit: &Orbit,
    seq: &[String],
    idx_a: usize,
    idx_b: usize,
    idx_c: usize,
    solved_mask: &[bool],
) -> (r: Result<bool, CubeError>)
    requires
        size == cube.n(),
        pieces_in_range(size as int, orbit.pieces@),
        idx_a < orbit.pieces@.len(),
        idx_b < orbit.pieces@.len(),
        idx_c < orbit.pieces@.len(),
        solved_mask@.len() >= orbit.pieces@.len(),
    ensures
        r is Ok <==> moves_parse(strings_view(seq@), size as int),
        r matches Ok(b) ==> b == solves_three_cycle(cube.cells(), size as int, orbit.pieces@, strings_view(seq@), solved_mask@, idx_a as int, idx_b as int, idx_c as int),
{
    let n = cube.size();
    let grid = track_moves(size, seq)?;
    proof {
        lemma_tracking(cube.cells(), n as int, strings_view(seq@));
    }
    let len = orbit.pieces.len();
    let flat_a = piece_index(size, &orbit.pieces[idx_a]);
    let flat_b = piece_index(size, &orbit.pieces[idx_b]);
    let flat_c = piece_index(size, &orbit.pieces[idx_c]);
    if grid[flat_b] != flat_a || grid[flat_c] != flat_b || grid[flat_a] != flat_c {
        return Ok(false);
    }
    let mut test_cube = cube.clone();
    let applied = apply_moves_to_cube(&mut test_cube, seq);
    if applied.is_err() {
        return Err(applied.unwrap_err());
    }
    let mut i: usize = 0;
    while i < len
        invariant
            size == n,
            n == cube.n(),
            len == orbit.pieces@.len(),
            test_cube.n() == n,
            test_cube.cells() == apply_moves_spec(cube.cells(), n as int, strings_view(seq@)),
            moves_parse(strings_view(seq@), size as int),
            cycles_three(n as int, strings_view(seq@), piece_flat(n as int, orbit.pieces@[idx_a as int]),
                piece_flat(n as int, orbit.pieces@[idx_b as int]), piece_flat(n as int, orbit.pieces@[idx_c as int])),
            pieces_in_range(size as int, orbit.pieces@),
            solved_mask@.len() >= len,
            i <= len,
            forall|j: int|
                0 <= j < i && j != idx_a && j != idx_b && j != idx_c && #[trigger] solved_mask@[j] ==>
                    test_cube.cells()[piece_flat(n as int, orbit.pieces@[j])] == orbit.pieces@[j].face,
        decreases len - i,
    {
        if i != idx_a && i != idx_b && i != idx_c && solved_mask[i] {
            let p = &orbit.pieces[i];
            let label = test_cube.get(p.face, p.row, p.col)?;
            if label != p.face {
                return Ok(false);
            }
        }
        i = i + 1;
    }
    Ok(true)
}

/// A commutator, optionally conjugated by one or two setup moves:
/// X Y X' Y', S X Y X' Y' S', or S1 S2 X Y X' Y' S2' S1'.
pub open spec fn is_commutator(ms: Seq<Seq<char>>) -> bool {
    ||| (ms.len() == 4 && ms[2] == inverse_move(ms[0]) && ms[3] == inverse_move(ms[1]))
    ||| (ms.len() == 6 && ms[5] == inverse_move(ms[0]) && ms[3] == inverse_move(ms[1]) && ms[4] == inverse_move(ms[2]))
    ||| (ms.len() == 8 && ms[7] == inverse_move(ms[0]) && ms[6] == inverse_move(ms[1]) && ms[4] == inverse_move(ms[2])
        && ms[5] == inverse_move(ms[3]))
}

/// A move name: a letter, an optional slice number, and an optional modifier (' or 2).
pub(crate) fn move_name(letter: char, slice: Option<usize>, modifier: Option<char>) -> (s: String)
    ensures
        s@ == seq![letter] + (match slice {
            Some(k) => crate::text::decimal(k as nat),
            None => Seq::<char>::empty(),
        }) + (match modifier {
            Some(m) => seq![m],
            None => Seq::<char>::empty(),
        }),
{
    let mut s = String::new();
    crate::text::push_char(&mut s, letter);
    if let Some(k) = slice {
        crate::text::push_decimal(&mut s, k);
    }
    if let Some(m) = modifier {
        crate::text::push_char(&mut s, m);
    }
    s
}

/// The text of `move_name`.
pub open spec fn name_text(letter: char, slice: Option<usize>, modifier: Option<char>) -> Seq<char> {
    seq![letter] + (match slice {
        Some(k) => crate::text::decimal(k as nat),
        None => Seq::<char>::empty(),
    }) + (match modifier {
        Some(m) => seq![m],
        None => Seq::<char>::empty(),
    })
}

/// The quarter, inverse and half turn of a face or slice.
pub open spec fn three_turns(letter: char, slice: Option<usize>) -> Seq<Seq<char>> {
    seq![name_text(letter, slice, None), name_text(letter, slice, Some('\'')), name_text(letter, slice, Some('2'))]
}

/// The outer face letters U, D, F, B, L, R, by position.
pub open spec fn face_letter_at(i: int) -> char {
    if i == 0 { 'U' } else if i == 1 { 'D' } else if i == 2 { 'F' } else if i == 3 { 'B' } else if i == 4 { 'L' } else { 'R' }
}

/// The slice letters u, d, r, l, f, b, by position.
pub open spec fn slice_letter_at(i: int) -> char {
    if i == 0 { 'u' } else if i == 1 { 'd' } else if i == 2 { 'r' } else if i == 3 { 'l' } else if i == 4 { 'f' } else { 'b' }
}

/// The turns of the first i outer faces.
pub open spec fn face_candidates(i: int) -> Seq<Seq<char>>
    decreases i,
{
    if i <= 0 {
        Seq::empty()
    } else {
        face_candidates(i - 1) + three_turns(face_letter_at(i - 1), None)
    }
}

/// The first j values of the list, each kept at its first occurrence only.
pub open spec fn first_occurrences(c: Seq<usize>, j: int) -> Seq<usize>
    decreases j,
{
    if j <= 0 {
        Seq::empty()
    } else if first_occurrences(c, j - 1).contains(c[j - 1]) {
        first_occurrences(c, j - 1)
    } else {
        first_occurrences(c, j - 1).push(c[j - 1])
    }
}

/// The slice indices that cross an orbit: d_min, d_max and their mirrors, each once.
pub open spec fn crossing_slices(size: int, d_min: int, d_max: int) -> Seq<usize> {
    first_occurrences(seq![d_min as usize, d_max as usize, (size - 1 - d_min) as usize, (size - 1 - d_max) as usize], 4)
}

/// The turns of slice letter `letter` on the first k of the slices that are inner slices.
pub open spec fn letter_slice_turns(letter: char, slices: Seq<usize>, k: int, size: int) -> Seq<Seq<char>>
    decreases k,
{
    if k <= 0 {
        Seq::empty()
    } else {
        letter_slice_turns(letter, slices, k - 1, size) + if 0 < slices[k - 1] && slices[k - 1] < size - 1 {
            three_turns(letter, Some(slices[k - 1]))
        } else {
            Seq::empty()
        }
    }
}

/// The inner slice turns of the first t slice letters on the given slices.
pub open spec fn slice_candidates(slices: Seq<usize>, t: int, size: int) -> Seq<Seq<char>>
    decreases t,
{
    if t <= 0 {
        Seq::empty()
    } else {
        slice_candidates(slices, t - 1, size) + letter_slice_turns(slice_letter_at(t - 1), slices, slices.len() as int, size)
    }
}

/// Appends the quarter, inverse and half turn of a face or slice.
fn push_three(v: &mut Vec<String>, letter: char, slice: Option<usize>)
    ensures
        strings_view(final(v)@) == strings_view(old(v)@) + three_turns(letter, slice),
{
    let ghost before = strings_view(v@);
    v.push(move_name(letter, slice, None));
    v.push(move_name(letter, slice, Some('\'')));
    v.push(move_name(letter, slice, Some('2')));
    assert(strings_view(v@) =~= before + three_turns(letter, slice));
}

/// Candidate moves for the search: inner slice moves on the slices that cross the orbit
/// (each slice letter u, d, r, l, f, b; each quarter, inverse and half turn), and all outer
/// face moves.
fn get_candidate_moves(size: usize, orbit: &Orbit) -> (r: (Vec<String>, Vec<String>))
    requires
        orbit.d_min < size,
        orbit.d_max < size,
    ensures
        strings_view(r.0@) == slice_candidates(crossing_slices(size as int, orbit.d_min as int, orbit.d_max as int), 6, size as int),
        strings_view(r.1@) == face_candidates(6),
{
    let mut slice_moves: Vec<String> = Vec::new();
    let mut face_moves: Vec<String> = Vec::new();
    let faces = ['U', 'D', 'F', 'B', 'L', 'R'];
    assert(strings_view(face_moves@) =~= face_candidates(0));
    let mut i: usize = 0;
    while i < 6
        invariant
            i <= 6,
            faces@ == seq!['U', 'D', 'F', 'B', 'L', 'R'],
            strings_view(face_moves@) == face_candidates(i as int),
        decreases 6 - i,
    {
        assert(faces@[i as int] == face_letter_at(i as int));
        push_three(&mut face_moves, faces[i], None);
        i = i + 1;
    }
    // The slices that cross the orbit, each once.
    let ghost cs = seq![orbit.d_min, orbit.d_max, (size - 1 - orbit.d_min) as usize, (size - 1 - orbit.d_max) as usize];
    let mut interactive: Vec<usize> = Vec::new();
    let cands = [orbit.d_min, orbit.d_max, size - 1 - orbit.d_min, size - 1 - orbit.d_max];
    assert(cands@ == cs);
    assert(interactive@ =~= first_occurrences(cs, 0));
    let mut j: usize = 0;
    while j < 4
        invariant
            j <= 4,
            cands@ == cs,
            interactive@ == first_occurrences(cs, j as int),
        decreases 4 - j,
    {
        let v = cands[j];
        let mut seen = false;
        let mut k: usize = 0;
        while k < interactive.len()
            invariant
                k <= interactive@.len(),
                seen <==> exists|q: int| 0 <= q < k && interactive@[q] == v,
            decreases interactive@.len() - k,
        {
            if interactive[k] == v {
                seen = true;
            }
            k = k + 1;
        }
        proof {
            if interactive@.contains(v) {
                let q = choose|q: int| 0 <= q < interactive@.len() && interactive@[q] == v;
                assert(seen);
            }
        }
        if !seen {
            interactive.push(v);
        }
        j = j + 1;
    }
    assert(cs =~= seq![orbit.d_min as usize, orbit.d_max as usize, (size - 1 - orbit.d_min) as usize, (size - 1 - orbit.d_max) as usize]);
    let ghost sl = interactive@;
    let slice_types = ['u', 'd', 'r', 'l', 'f', 'b'];
    assert(strings_view(slice_moves@) =~= slice_candidates(sl, 0, size as int));
    let mut t: usize = 0;
    while t < 6
        invariant
            t <= 6,
            size >= 1,
            sl == interactive@,
            slice_types@ == seq!['u', 'd', 'r', 'l', 'f', 'b'],
            strings_view(slice_moves@) == slice_candidates(sl, t as int, size as int),
        decreases 6 - t,
    {
        let ghost start = strings_view(slice_moves@);
        assert(slice_types@[t as int] == slice_letter_at(t as int));
        assert(start + letter_slice_turns(slice_letter_at(t as int), sl, 0, size as int) =~= start);
        let mut k: usize = 0;
        while k < interactive.len()
            invariant
                k <= interactive@.len(),
                t < 6,
                size >= 1,
                sl == interactive@,
                slice_types@ == seq!['u', 'd', 'r', 'l', 'f', 'b'],
                strings_view(slice_moves@) == start + letter_slice_turns(slice_letter_at(t as int), sl, k as int, size as int),
            decreases interactive@.len() - k,
        {
            let idx = interactive[k];
            let ghost before = strings_view(slice_moves@);
            if idx > 0 && idx < size - 1 {
                push_three(&mut slice_moves, slice_types[t], Some(idx));
                assert(before + three_turns(slice_letter_at(t as int), Some(idx)) =~= start + letter_slice_turns(
                    slice_letter_at(t as int),
                    sl,
                    k + 1,
                    size as int,
                ));
            } else {
                assert(before =~= start + letter_slice_turns(slice_letter_at(t as int), sl, k + 1, size as int));
            }
            k = k + 1;
        }
        assert(slice_candidates(sl, t + 1, size as int) =~= start + letter_slice_turns(slice_letter_at(t as int), sl, sl.len() as int, size as int));
        t = t + 1;
    }
    (slice_moves, face_moves)
}

/// A copy of a list of strings.
fn copy_strings(v: &Vec<String>) -> (c: Vec<String>)
    ensures
        strings_view(c@) == strings_view(v@),
{
    let mut c: Vec<String> = Vec::new();
    let mut i: usize = 0;
    while i < v.len()
        invariant
            i <= v@.len(),
            c@.len() == i,
            forall|k: int| 0 <= k < i ==> (#[trigger] c@[k])@ == v@[k]@,
        decreases v@.len() - i,
    {
        c.push(v[i].clone());
        i = i + 1;
    }
    assert(strings_view(c@) =~= strings_view(v@));
    c
}

/// The sequence of four moves X Y X' Y'.
fn commutator4(x: &String, y: &String) -> (seq: Vec<String>)
    ensures
        strings_view(seq@) == seq![x@, y@, inverse_move(x@), inverse_move(y@)],
        is_commutator(strings_view(seq@)),
{
    let seq = vec![x.clone(), y.clone(), get_inverse_move(x.as_str()), get_inverse_move(y.as_str())];
    assert(strings_view(seq@) =~= seq![x@, y@, inverse_move(x@), inverse_move(y@)]);
    seq
}

/// The sequence of six moves S X Y X' Y' S'.
fn commutator6(s: &String, x: &String, y: &String) -> (seq: Vec<String>)
    ensures
        strings_view(seq@) == seq![s@, x@, y@, inverse_move(x@), inverse_move(y@), inverse_move(s@)],
        is_commutator(strings_view(seq@)),
{
    let seq = vec![
        s.clone(), x.clone(), y.clone(), get_inverse_move(x.as_str()), get_inverse_move(y.as_str()),
        get_inverse_move(s.as_str()),
    ];
    assert(strings_view(seq@) =~= seq![s@, x@, y@, inverse_move(x@), inverse_move(y@), inverse_move(s@)]);
    seq
}

/// The sequence of eight moves S1 S2 X Y X' Y' S2' S1'.
fn commutator8(s1: &String, s2: &String, x: &String, y: &String) -> (seq: Vec<String>)
    ensures
        strings_view(seq@) == seq![s1@, s2@, x@, y@, inverse_move(x@), inverse_move(y@), inverse_move(s2@), inverse_move(s1@)],
        is_commutator(strings_view(seq@)),
{
    let seq = vec![
        s1.clone(), s2.clone(), x.clone(), y.clone(), get_inverse_move(x.as_str()), get_inverse_move(y.as_str()),
        get_inverse_move(s2.as_str()), get_inverse_move(s1.as_str()),
    ];
    assert(strings_view(seq@) =~= seq![s1@, s2@, x@, y@, inverse_move(x@), inverse_move(y@), inverse_move(s2@), inverse_move(s1@)]);
    seq
}

/// Whether `x` equals `y` or the inverse of `y`.
fn same_or_inverse(x: &String, y: &String) -> (b: bool)
    ensures
        b == (x@ == y@ || x@ == inverse_move(y@)),
{
    let inv = get_inverse_move(y.as_str());
    *x == *y || *x == inv
}

/// Position of the first piece of the orbit equal to `p`.
fn find_piece(pieces: &Vec<CenterPiece>, p: &CenterPiece) -> (r: Option<usize>)
    ensures
        match r {
            Some(i) => first_index_of(pieces@, *p) == Some(i as int) && i < pieces@.len(),
            None => first_index_of(pieces@, *p) is None,
        },
{
    reveal(first_index_of);
    let mut i: usize = 0;
    while i < pieces.len()
        invariant
            i <= pieces@.len(),
            forall|j: int| 0 <= j < i ==> pieces@[j] != *p,
        decreases pieces@.len() - i,
    {
        if pieces[i] == *p {
            proof {
                reveal(first_index_of);
                assert(exists|k: int| 0 <= k < pieces@.len() && pieces@[k] == *p);
                assert(0 <= i < pieces@.len() && pieces@[i as int] == *p && (forall|j: int| 0 <= j < i ==> pieces@[j] != *p));
                let c = choose|k: int| 0 <= k < pieces@.len() && pieces@[k] == *p && (forall|j: int| 0 <= j < k ==> pieces@[j] != *p);
                if c < i {
                    assert(pieces@[c] != *p);
                }
                if c > i {
                    assert(pieces@[i as int] != *p);
                }
                assert(c == i);
            }
            return Some(i);
        }
        i = i + 1;
    }
    None
}

/// Whether every move of the list and its inverse parse on a cube of side n.
pub open spec fn all_parse(ms: Seq<String>, n: int) -> bool {
    forall|i: int| 0 <= i < ms.len() ==> parse_move((#[trigger] ms[i])@, n) is Some && parse_move(inverse_move(ms[i]@), n)
        is Some
}

/// Whether the commutator with the given moves parses and carries the 3-cycle A -> B -> C -> A
/// while keeping the other solved pieces.
pub open spec fn cycle_hit(cube: Cube, orbit: Orbit, mask: Seq<bool>, a: int, b: int, c: int, ms: Seq<Seq<char>>) -> bool {
    moves_parse(ms, cube.n()) && solves_three_cycle(cube.cells(), cube.n(), orbit.pieces@, ms, mask, a, b, c)
}

/// Whether every move text and its inverse parse on a cube of side n.
pub open spec fn texts_parse(ms: Seq<Seq<char>>, n: int) -> bool {
    forall|i: int| 0 <= i < ms.len() ==> parse_move(#[trigger] ms[i], n) is Some && parse_move(inverse_move(ms[i]), n) is Some
}

/// Whether no commutator of the search space carries the 3-cycle: no X Y X' Y' with X among
/// `xs` and Y among `ys` (Y neither X nor its inverse), and no S X Y X' Y' S' with S among `ss`.
pub open spec fn no_cycle_commutator(
    cube: Cube,
    orbit: Orbit,
    mask: Seq<bool>,
    a: int,
    b: int,
    c: int,
    xs: Seq<Seq<char>>,
    ys: Seq<Seq<char>>,
    ss: Seq<Seq<char>>,
) -> bool {
    &&& forall|i: int, j: int|
        0 <= i < xs.len() && 0 <= j < ys.len() && !(xs[i] == ys[j] || xs[i] == inverse_move(ys[j])) ==> !cycle_hit(
            cube,
            orbit,
            mask,
            a,
            b,
            c,
            #[trigger] seq![xs[i], ys[j], inverse_move(xs[i]), inverse_move(ys[j])],
        )
    &&& forall|k: int, i: int, j: int|
        0 <= k < ss.len() && 0 <= i < xs.len() && 0 <= j < ys.len() && !(xs[i] == ys[j] || xs[i] == inverse_move(ys[j]))
            ==> !cycle_hit(
            cube,
            orbit,
            mask,
            a,
            b,
            c,
            #[trigger] seq![ss[k], xs[i], ys[j], inverse_move(xs[i]), inverse_move(ys[j]), inverse_move(ss[k])],
        )
}

/// Searches X Y X' Y' with X among `xs` and Y among `ys` (Y neither X nor its inverse).
fn search_pure_3cycle(
    size: usize,
    cube: &Cube,
    orbit: &Orbit,
    xs: &Vec<String>,
    ys: &Vec<String>,
    idx_a: usize,
    idx_b: usize,
    idx_c: usize,
    solved_mask: &[bool],
) -> (r: Result<Option<Vec<String>>, CubeError>)
    requires
        size == cube.n(),
        pieces_in_range(size as int, orbit.pieces@),
        idx_a < orbit.pieces@.len(),
        idx_b < orbit.pieces@.len(),
        idx_c < orbit.pieces@.len(),
        solved_mask@.len() >= orbit.pieces@.len(),
    ensures
        r matches Ok(Some(seq)) ==> {
            let ms = strings_view(seq@);
            &&& is_commutator(ms)
            &&& ms.len() == 4
            &&& moves_parse(ms, size as int)
            &&& solves_three_cycle(cube.cells(), size as int, orbit.pieces@, ms, solved_mask@, idx_a as int, idx_b as int, idx_c as int)
        },
        r matches Ok(None) ==> forall|i: int, j: int|
            0 <= i < xs@.len() && 0 <= j < ys@.len() && !(xs@[i]@ == ys@[j]@ || xs@[i]@ == inverse_move(ys@[j]@)) ==> !cycle_hit(
                *cube,
                *orbit,
                solved_mask@,
                idx_a as int,
                idx_b as int,
                idx_c as int,
                #[trigger] seq![xs@[i]@, ys@[j]@, inverse_move(xs@[i]@), inverse_move(ys@[j]@)],
            ),
        all_parse(xs@, size as int) && all_parse(ys@, size as int) ==> r is Ok,
{
    let mut xi: usize = 0;
    while xi < xs.len()
        invariant
            size == cube.n(),
            pieces_in_range(size as int, orbit.pieces@),
            idx_a < orbit.pieces@.len(),
            idx_b < orbit.pieces@.len(),
            idx_c < orbit.pieces@.len(),
            solved_mask@.len() >= orbit.pieces@.len(),
            forall|i: int, j: int| 0 <= i < xi && 0 <= j < ys@.len() && !(xs@[i]@ == ys@[j]@ || xs@[i]@ == inverse_move(ys@[j]@)) ==> !cycle_hit(*cube, *orbit, solved_mask@, idx_a as int, idx_b as int, idx_c as int, #[trigger] seq![xs@[i]@, ys@[j]@, inverse_move(xs@[i]@), inverse_move(ys@[j]@)]),
        decreases xs@.len() - xi,
    {
        let mut yi: usize = 0;
        while yi < ys.len()
            invariant
                size == cube.n(),
                pieces_in_range(size as int, orbit.pieces@),
                xi < xs@.len(),
                idx_a < orbit.pieces@.len(),
                idx_b < orbit.pieces@.len(),
                idx_c < orbit.pieces@.len(),
                solved_mask@.len() >= orbit.pieces@.len(),
                forall|i: int, j: int| 0 <= i < xi && 0 <= j < ys@.len() && !(xs@[i]@ == ys@[j]@ || xs@[i]@ == inverse_move(ys@[j]@)) ==> !cycle_hit(*cube, *orbit, solved_mask@, idx_a as int, idx_b as int, idx_c as int, #[trigger] seq![xs@[i]@, ys@[j]@, inverse_move(xs@[i]@), inverse_move(ys@[j]@)]),
                forall|j: int| 0 <= j < yi && !(xs@[xi as int]@ == ys@[j]@ || xs@[xi as int]@ == inverse_move(ys@[j]@)) ==> !cycle_hit(*cube, *orbit, solved_mask@, idx_a as int, idx_b as int, idx_c as int, #[trigger] seq![xs@[xi as int]@, ys@[j]@, inverse_move(xs@[xi as int]@), inverse_move(ys@[j]@)]),
            decreases ys@.len() - yi,
        {
            let x = &xs[xi];
            let y = &ys[yi];
            if !same_or_inverse(x, y) {
                let seq = commutator4(x, y);
                if verify_3cycle(size, cube, orbit, seq.as_slice(), idx_a, idx_b, idx_c, solved_mask)? {
                    return Ok(Some(seq));
                }
            }
            yi = yi + 1;
        }
        xi = xi + 1;
    }
    Ok(None)
}

/// Searches S X Y X' Y' S' with the given setup S, X among `xs` and Y among `ys`.
fn search_setup_3cycle(
    size: usize,
    cube: &Cube,
    orbit: &Orbit,
    s: &String,
    xs: &Vec<String>,
    ys: &Vec<String>,
    idx_a: usize,
    idx_b: usize,
    idx_c: usize,
    solved_mask: &[bool],
) -> (r: Result<Option<Vec<String>>, CubeError>)
    requires
        size == cube.n(),
        pieces_in_range(size as int, orbit.pieces@),
        idx_a < orbit.pieces@.len(),
        idx_b < orbit.pieces@.len(),
        idx_c < orbit.pieces@.len(),
        solved_mask@.len() >= orbit.pieces@.len(),
    ensures
        r matches Ok(Some(seq)) ==> {
            let ms = strings_view(seq@);
            &&& is_commutator(ms)
            &&& ms.len() == 6
            &&& moves_parse(ms, size as int)
            &&& solves_three_cycle(cube.cells(), size as int, orbit.pieces@, ms, solved_mask@, idx_a as int, idx_b as int, idx_c as int)
        },
        r matches Ok(None) ==> forall|i: int, j: int|
            0 <= i < xs@.len() && 0 <= j < ys@.len() && !(xs@[i]@ == ys@[j]@ || xs@[i]@ == inverse_move(ys@[j]@)) ==> !cycle_hit(
                *cube,
                *orbit,
                solved_mask@,
                idx_a as int,
                idx_b as int,
                idx_c as int,
                #[trigger] seq![s@, xs@[i]@, ys@[j]@, inverse_move(xs@[i]@), inverse_move(ys@[j]@), inverse_move(s@)],
            ),
        parse_move(s@, size as int) is Some && parse_move(inverse_move(s@), size as int) is Some && all_parse(xs@, size as int)
            && all_parse(ys@, size as int) ==> r is Ok,
{
    let mut xi: usize = 0;
    while xi < xs.len()
        invariant
            size == cube.n(),
            pieces_in_range(size as int, orbit.pieces@),
            idx_a < orbit.pieces@.len(),
            idx_b < orbit.pieces@.len(),
            idx_c < orbit.pieces@.len(),
            solved_mask@.len() >= orbit.pieces@.len(),
            forall|i: int, j: int| 0 <= i < xi && 0 <= j < ys@.len() && !(xs@[i]@ == ys@[j]@ || xs@[i]@ == inverse_move(ys@[j]@)) ==> !cycle_hit(*cube, *orbit, solved_mask@, idx_a as int, idx_b as int, idx_c as int, #[trigger] seq![s@, xs@[i]@, ys@[j]@, inverse_move(xs@[i]@), inverse_move(ys@[j]@), inverse_move(s@)]),
        decreases xs@.len() - xi,
    {
        let mut yi: usize = 0;
        while yi < ys.len()
            invariant
                size == cube.n(),
                pieces_in_range(size as int, orbit.pieces@),
                xi < xs@.len(),
                idx_a < orbit.pieces@.len(),
                idx_b < orbit.pieces@.len(),
                idx_c < orbit.pieces@.len(),
                solved_mask@.len() >= orbit.pieces@.len(),
                forall|i: int, j: int| 0 <= i < xi && 0 <= j < ys@.len() && !(xs@[i]@ == ys@[j]@ || xs@[i]@ == inverse_move(ys@[j]@)) ==> !cycle_hit(*cube, *orbit, solved_mask@, idx_a as int, idx_b as int, idx_c as int, #[trigger] seq![s@, xs@[i]@, ys@[j]@, inverse_move(xs@[i]@), inverse_move(ys@[j]@), inverse_move(s@)]),
                forall|j: int| 0 <= j < yi && !(xs@[xi as int]@ == ys@[j]@ || xs@[xi as int]@ == inverse_move(ys@[j]@)) ==> !cycle_hit(*cube, *orbit, solved_mask@, idx_a as int, idx_b as int, idx_c as int, #[trigger] seq![s@, xs@[xi as int]@, ys@[j]@, inverse_move(xs@[xi as int]@), inverse_move(ys@[j]@), inverse_move(s@)]),
            decreases ys@.len() - yi,
        {
            let x = &xs[xi];
            let y = &ys[yi];
            if !same_or_inverse(x, y) {
                let seq = commutator6(s, x, y);
                if verify_3cycle(size, cube, orbit, seq.as_slice(), idx_a, idx_b, idx_c, solved_mask)? {
                    return Ok(Some(seq));
                }
            }
            yi = yi + 1;
        }
        xi = xi + 1;
    }
    Ok(None)
}

/// Finds a 3-cycle commutator X Y X' Y' or S X Y X' Y' S' that moves the content of A to B,
/// of B to C and of C to A (A -> B -> C -> A), and keeps every other solved piece of the orbit
/// (as `solved_mask` marks them) solved.
pub fn find_3cycle_commutator(
    size: usize,
    cube: &Cube,
    orbit: &Orbit,
    piece_a: &CenterPiece,
    piece_b: &CenterPiece,
    piece_c: &CenterPiece,
    solved_mask: &[bool],
) -> (r: Result<Vec<String>, CubeError>)
    requires
        size == cube.n(),
        pieces_in_range(size as int, orbit.pieces@),
        orbit.d_min < size,
        orbit.d_max < size,
        solved_mask@.len() >= orbit.pieces@.len(),
    ensures
        (first_index_of(orbit.pieces@, *piece_a) is None || first_index_of(orbit.pieces@, *piece_b) is None
            || first_index_of(orbit.pieces@, *piece_c) is None) ==> r is Err,
        first_index_of(orbit.pieces@, *piece_a) is None ==> (r matches Err(CubeError::InvalidMove(m)) && m@
            == "Piece A not in orbit"@),
        first_index_of(orbit.pieces@, *piece_a) is Some && first_index_of(orbit.pieces@, *piece_b) is None ==> (
        r matches Err(CubeError::InvalidMove(m)) && m@ == "Piece B not in orbit"@),
        first_index_of(orbit.pieces@, *piece_a) is Some && first_index_of(orbit.pieces@, *piece_b) is Some
            && first_index_of(orbit.pieces@, *piece_c) is None ==> (r matches Err(CubeError::InvalidMove(m)) && m@
            == "Piece C not in orbit"@),
        r matches Ok(seq) ==> {
            let ms = strings_view(seq@);
            &&& is_commutator(ms)
            &&& (ms.len() == 4 || ms.len() == 6)
            &&& moves_parse(ms, size as int)
            &&& solves_three_cycle(cube.cells(), size as int, orbit.pieces@, ms, solved_mask@,
                first_index_of(orbit.pieces@, *piece_a).unwrap(), first_index_of(orbit.pieces@, *piece_b).unwrap(),
                first_index_of(orbit.pieces@, *piece_c).unwrap())
        },
        r is Err ==> {
            let sl = slice_candidates(crossing_slices(size as int, orbit.d_min as int, orbit.d_max as int), 6, size as int);
            let fc = face_candidates(6);
            ||| first_index_of(orbit.pieces@, *piece_a) is None
            ||| first_index_of(orbit.pieces@, *piece_b) is None
            ||| first_index_of(orbit.pieces@, *piece_c) is None
            ||| !texts_parse(fc + sl, size as int)
            ||| no_cycle_commutator(
                *cube,
                *orbit,
                solved_mask@,
                first_index_of(orbit.pieces@, *piece_a).unwrap(),
                first_index_of(orbit.pieces@, *piece_b).unwrap(),
                first_index_of(orbit.pieces@, *piece_c).unwrap(),
                sl,
                fc + sl,
                fc + sl,
            )
        },
        (r matches Err(CubeError::InvalidMove(m)) && first_index_of(orbit.pieces@, *piece_a) is Some && first_index_of(
            orbit.pieces@,
            *piece_b,
        ) is Some && first_index_of(orbit.pieces@, *piece_c) is Some && texts_parse(
            face_candidates(6) + slice_candidates(crossing_slices(size as int, orbit.d_min as int, orbit.d_max as int), 6, size as int),
            size as int,
        )) ==> (r matches Err(CubeError::InvalidMove(m)) && m@ == three_cycle_message(*piece_a, *piece_b, *piece_c)),
{
    let idx_a = match find_piece(&orbit.pieces, piece_a) {
        Some(i) => i,
        None => {
            return Err(CubeError::InvalidMove(crate::text::string_of("Piece A not in orbit")));
        },
    };
    let idx_b = match find_piece(&orbit.pieces, piece_b) {
        Some(i) => i,
        None => {
            return Err(CubeError::InvalidMove(crate::text::string_of("Piece B not in orbit")));
        },
    };
    let idx_c = match find_piece(&orbit.pieces, piece_c) {
        Some(i) => i,
        None => {
            return Err(CubeError::InvalidMove(crate::text::string_of("Piece C not in orbit")));
        },
    };
    let (slice_moves, face_moves) = get_candidate_moves(size, orbit);
    let mut y_candidates = copy_strings(&face_moves);
    let mut extra = copy_strings(&slice_moves);
    y_candidates.append(&mut extra);
    let mut all_setup_candidates = copy_strings(&face_moves);
    let mut extra2 = copy_strings(&slice_moves);
    all_setup_candidates.append(&mut extra2);
    let ghost sl = strings_view(slice_moves@);
    let ghost fc = strings_view(face_moves@);
    let ghost ys = strings_view(y_candidates@);
    proof {
        assert(ys =~= fc + sl);
        assert(strings_view(all_setup_candidates@) =~= fc + sl);
        assert(texts_parse(fc + sl, size as int) ==> all_parse(slice_moves@, size as int) && all_parse(y_candidates@, size as int)) by {
            if texts_parse(fc + sl, size as int) {
                assert forall|i: int| 0 <= i < slice_moves@.len() implies parse_move((#[trigger] slice_moves@[i])@, size as int) is Some
                    && parse_move(inverse_move(slice_moves@[i]@), size as int) is Some by {
                    assert((fc + sl)[fc.len() + i] == slice_moves@[i]@);
                }
                assert forall|i: int| 0 <= i < y_candidates@.len() implies parse_move((#[trigger] y_candidates@[i])@, size as int) is Some
                    && parse_move(inverse_move(y_candidates@[i]@), size as int) is Some by {
                    assert(ys[i] == y_candidates@[i]@);
                }
            }
        }
    }
    // 1. Pure 4-move commutators [X, Y]
    let pure = search_pure_3cycle(size, cube, orbit, &slice_moves, &y_candidates, idx_a, idx_b, idx_c, solved_mask);
    match pure {
        Err(e) => {
            return Err(e);
        },
        Ok(Some(seq)) => {
            return Ok(seq);
        },
        Ok(None) => {},
    }
    proof {
        assert forall|i: int, j: int|
            0 <= i < sl.len() && 0 <= j < ys.len() && !(sl[i] == ys[j] || sl[i] == inverse_move(ys[j])) implies !cycle_hit(
            *cube,
            *orbit,
            solved_mask@,
            idx_a as int,
            idx_b as int,
            idx_c as int,
            #[trigger] seq![sl[i], ys[j], inverse_move(sl[i]), inverse_move(ys[j])],
        ) by {
            assert(sl[i] == slice_moves@[i]@);
            assert(ys[j] == y_candidates@[j]@);
        }
    }
    // 2. One setup move: S + [X, Y] + S'
    let mut si: usize = 0;
    while si < all_setup_candidates.len()
        invariant
            size == cube.n(),
            pieces_in_range(size as int, orbit.pieces@),
            idx_a < orbit.pieces@.len(),
            idx_b < orbit.pieces@.len(),
            idx_c < orbit.pieces@.len(),
            solved_mask@.len() >= orbit.pieces@.len(),
            first_index_of(orbit.pieces@, *piece_a) == Some(idx_a as int),
            first_index_of(orbit.pieces@, *piece_b) == Some(idx_b as int),
            first_index_of(orbit.pieces@, *piece_c) == Some(idx_c as int),
            sl == strings_view(slice_moves@),
            ys == strings_view(y_candidates@),
            ys == fc + sl,
            sl == slice_candidates(crossing_slices(size as int, orbit.d_min as int, orbit.d_max as int), 6, size as int),
            fc == face_candidates(6),
            forall|i: int, j: int|
                0 <= i < sl.len() && 0 <= j < ys.len() && !(sl[i] == ys[j] || sl[i] == inverse_move(ys[j])) ==> !cycle_hit(
                    *cube,
                    *orbit,
                    solved_mask@,
                    idx_a as int,
                    idx_b as int,
                    idx_c as int,
                    #[trigger] seq![sl[i], ys[j], inverse_move(sl[i]), inverse_move(ys[j])],
                ),
            strings_view(all_setup_candidates@) == fc + sl,
            texts_parse(fc + sl, size as int) ==> all_parse(slice_moves@, size as int) && all_parse(y_candidates@, size as int),
            forall|k: int, i: int, j: int|
                0 <= k < si && 0 <= i < sl.len() && 0 <= j < ys.len() && !(sl[i] == ys[j] || sl[i] == inverse_move(ys[j]))
                    ==> !cycle_hit(
                    *cube,
                    *orbit,
                    solved_mask@,
                    idx_a as int,
                    idx_b as int,
                    idx_c as int,
                    #[trigger] seq![ys[k], sl[i], ys[j], inverse_move(sl[i]), inverse_move(ys[j]), inverse_move(ys[k])],
                ),
        decreases all_setup_candidates@.len() - si,
    {
        let st = &all_setup_candidates[si];
        proof {
            assert(st@ == (fc + sl)[si as int]);
            if texts_parse(fc + sl, size as int) {
                assert(parse_move((fc + sl)[si as int], size as int) is Some);
                assert(parse_move(inverse_move((fc + sl)[si as int]), size as int) is Some);
            }
        }
        let found = search_setup_3cycle(size, cube, orbit, st, &slice_moves, &y_candidates, idx_a, idx_b, idx_c, solved_mask);
        match found {
            Err(e) => {
                return Err(e);
            },
            Ok(Some(seq)) => {
                return Ok(seq);
            },
            Ok(None) => {},
        }
        proof {
            assert forall|k: int, i: int, j: int|
                0 <= k < si + 1 && 0 <= i < sl.len() && 0 <= j < ys.len() && !(sl[i] == ys[j] || sl[i] == inverse_move(ys[j]))
                    implies !cycle_hit(
                    *cube,
                    *orbit,
                    solved_mask@,
                    idx_a as int,
                    idx_b as int,
                    idx_c as int,
                    #[trigger] seq![ys[k], sl[i], ys[j], inverse_move(sl[i]), inverse_move(ys[j]), inverse_move(ys[k])],
                ) by {
                if k == si {
                    assert(sl[i] == slice_moves@[i]@);
                    assert(ys[j] == y_candidates@[j]@);
                    assert(ys[k] == st@);
                }
            }
        }
        si = si + 1;
    }
    let mut msg = crate::text::string_of("Could not find commutator for 3-cycle: ");
    push_piece_text(&mut msg, piece_a);
    crate::text::push_str(&mut msg, " -> ");
    push_piece_text(&mut msg, piece_b);
    crate::text::push_str(&mut msg, " -> ");
    push_piece_text(&mut msg, piece_c);
    Err(CubeError::InvalidMove(msg))
}

/// The name of a face, as its variant is written.
pub open spec fn face_name(f: Face) -> Seq<char> {
    match f {
        Face::U => "U"@,
        Face::D => "D"@,
        Face::F => "F"@,
        Face::B => "B"@,
        Face::L => "L"@,
        Face::R => "R"@,
    }
}

/// A center piece written out with its fields.
pub open spec fn piece_text(p: CenterPiece) -> Seq<char> {
    "CenterPiece { face: "@ + face_name(p.face) + ", row: "@ + crate::text::decimal(p.row as nat) + ", col: "@
        + crate::text::decimal(p.col as nat) + " }"@
}

/// The message when no commutator cycles the three pieces.
pub open spec fn three_cycle_message(a: CenterPiece, b: CenterPiece, c: CenterPiece) -> Seq<char> {
    "Could not find commutator for 3-cycle: "@ + piece_text(a) + " -> "@ + piece_text(b) + " -> "@ + piece_text(c)
}

/// Appends a center piece written out with its fields.
fn push_piece_text(s: &mut String, p: &CenterPiece)
    ensures
        final(s)@ == old(s)@ + piece_text(*p),
{
    crate::text::push_str(s, "CenterPiece { face: ");
    match p.face {
        Face::U => crate::text::push_str(s, "U"),
        Face::D => crate::text::push_str(s, "D"),
        Face::F => crate::text::push_str(s, "F"),
        Face::B => crate::text::push_str(s, "B"),
        Face::L => crate::text::push_str(s, "L"),
        Face::R => crate::text::push_str(s, "R"),
    }
    crate::text::push_str(s, ", row: ");
    crate::text::push_decimal(s, p.row);
    crate::text::push_str(s, ", col: ");
    crate::text::push_decimal(s, p.col);
    crate::text::push_str(s, " }");
}

/// Flat indices of the pieces of an orbit.
pub open spec fn orbit_flats(n: int, ps: Seq<CenterPiece>) -> Seq<int> {
    ps.map_values(|p: CenterPiece| piece_flat(n, p))
}

/// Every tracked source of an orbit position is itself an orbit position: the moves keep the
/// orbit in place.
pub open spec fn stays_in_orbit(fs: Seq<int>, t: Seq<usize>) -> bool {
    forall|i: int| 0 <= i < fs.len() ==> (#[trigger] first_index_of(fs, t[fs[i]] as int)) is Some
}

/// The permutation the moves induce on the orbit: position i receives the content of
/// position perm[i] (the first position with that flat index).
pub open spec fn orbit_perm(fs: Seq<int>, t: Seq<usize>) -> Seq<usize> {
    Seq::new(fs.len(), |i: int| first_index_of(fs, t[fs[i]] as int).unwrap() as usize)
}

/// Colors of the orbit positions.
pub open spec fn orbit_colors(cells: Seq<Face>, fs: Seq<int>) -> Seq<Face> {
    fs.map_values(|k: int| cells[k])
}

/// Number of positions i < k that were unsolved and become solved.
pub open spec fn count_became_solved(ps: Seq<CenterPiece>, mask: Seq<bool>, newc: Seq<Face>, k: int) -> nat
    decreases k,
{
    if k <= 0 {
        0
    } else {
        count_became_solved(ps, mask, newc, k - 1) + if !mask[k - 1] && newc[k - 1] == ps[k - 1].face { 1nat } else { 0nat }
    }
}

/// Number of positions i < k that were solved and become unsolved.
pub open spec fn count_became_unsolved(ps: Seq<CenterPiece>, mask: Seq<bool>, newc: Seq<Face>, k: int) -> nat
    decreases k,
{
    if k <= 0 {
        0
    } else {
        count_became_unsolved(ps, mask, newc, k - 1) + if mask[k - 1] && newc[k - 1] != ps[k - 1].face { 1nat } else { 0nat }
    }
}

/// Score of a candidate sequence before the checks on the moved cube: 3 for a clean solving
/// step, 2 for net progress, 1 for a color-preserving odd permutation (not in a dry run), else 0.
pub open spec fn base_score(ps: Seq<CenterPiece>, mask: Seq<bool>, cur: Seq<Face>, perm: Seq<usize>, dry_run: bool) -> int {
    let newc = Seq::new(ps.len(), |i: int| cur[perm[i] as int]);
    let solved = count_became_solved(ps, mask, newc, ps.len() as int);
    let unsolved = count_became_unsolved(ps, mask, newc, ps.len() as int);
    let unchanged = forall|i: int| 0 <= i < ps.len() ==> newc[i] == cur[i];
    if solved >= 1 && unsolved == 0 {
        3
    } else if solved > unsolved {
        2
    } else if solved == 0 && unsolved == 0 && unchanged && perm_is_odd(perm) && !dry_run {
        1
    } else {
        0
    }
}

/// Every piece of the orbit marked solved shows its face.
pub open spec fn marked_solved_hold(after: Seq<Face>, n: int, ps: Seq<CenterPiece>, mask: Seq<bool>) -> bool {
    forall|i: int| 0 <= i < ps.len() && #[trigger] mask[i] ==> after[piece_flat(n, ps[i])] == ps[i].face
}

/// The orbit is the one with these distances and sub-orbit.
pub open spec fn same_orbit(o: OrbitView, d_min: int, d_max: int, sub: int) -> bool {
    o.d_min == d_min && o.d_max == d_max && o.sub_orbit == sub
}

/// Pieces solved before the moves are still solved after them.
pub open spec fn solved_kept(cells: Seq<Face>, after: Seq<Face>, n: int, ps: Seq<CenterPiece>) -> bool {
    forall|j: int| 0 <= j < ps.len() ==> (cells[piece_flat(n, #[trigger] ps[j])] == ps[j].face ==> after[piece_flat(n, ps[j])] == ps[j].face)
}

/// Every orbit listed before the current one keeps its solved pieces.
pub open spec fn earlier_orbits_kept(os: Seq<OrbitView>, d_min: int, d_max: int, sub: int, cells: Seq<Face>, after: Seq<Face>, n: int) -> bool
    decreases os.len(),
{
    if os.len() == 0 {
        true
    } else if same_orbit(os[0], d_min, d_max, sub) {
        true
    } else {
        solved_kept(cells, after, n, os[0].pieces) && earlier_orbits_kept(os.drop_first(), d_min, d_max, sub, cells, after, n)
    }
}

/// The score of a candidate sequence in the commutator search: its base score, but 0 when it
/// leaves the orbit, when a solving step (score 3 or 2) would unsolve a marked piece, or, outside a
/// dry run, when it disturbs a solved piece of an earlier orbit.
pub open spec fn sequence_score(cells: Seq<Face>, n: int, orbit: OrbitView, mask: Seq<bool>, ms: Seq<Seq<char>>, dry_run: bool) -> int {
    let fs = orbit_flats(n, orbit.pieces);
    let t = index_trace(n, ms);
    if !stays_in_orbit(fs, t) {
        0
    } else {
        let b = base_score(orbit.pieces, mask, orbit_colors(cells, fs), orbit_perm(fs, t), dry_run);
        let after = apply_moves_spec(cells, n, ms);
        if b <= 0 {
            0
        } else if b >= 2 && !marked_solved_hold(after, n, orbit.pieces, mask) {
            0
        } else if !dry_run && !earlier_orbits_kept(decomposition(n), orbit.d_min, orbit.d_max, orbit.sub_orbit, cells, after, n) {
            0
        } else {
            b
        }
    }
}

/// The integers of a list of indices.
pub open spec fn as_ints(v: Seq<usize>) -> Seq<int> {
    v.map_values(|u: usize| u as int)
}

/// Position of the first entry of `v` equal to `x`.
fn position_of(v: &Vec<usize>, x: usize) -> (r: Option<usize>)
    ensures
        match r {
            Some(i) => first_index_of(as_ints(v@), x as int) == Some(i as int) && i < v@.len(),
            None => first_index_of(as_ints(v@), x as int) is None,
        },
{
    let ghost s = as_ints(v@);
    let mut i: usize = 0;
    while i < v.len()
        invariant
            i <= v@.len(),
            s == as_ints(v@),
            forall|j: int| 0 <= j < i ==> s[j] != x as int,
        decreases v@.len() - i,
    {
        if v[i] == x {
            proof {
                reveal(first_index_of);
                assert(0 <= i < s.len() && s[i as int] == x as int && (forall|j: int| 0 <= j < i ==> s[j] != x as int));
                let c = choose|k: int| 0 <= k < s.len() && s[k] == x as int && (forall|j: int| 0 <= j < k ==> s[j] != x as int);
                if c < i {
                    assert(s[c] != x as int);
                }
                if c > i {
                    assert(s[i as int] != x as int);
                }
            }
            return Some(i);
        }
        i = i + 1;
    }
    proof {
        reveal(first_index_of);
    }
    None
}

/// The orbit permutation of a tracked grid, or `None` when some position receives content
/// from outside the orbit.
fn orbit_permutation(fs: &Vec<usize>, srcs: &Vec<usize>, Ghost(t): Ghost<Seq<usize>>) -> (r: Option<Vec<usize>>)
    requires
        srcs@.len() == fs@.len(),
        forall|i: int| 0 <= i < fs@.len() ==> #[trigger] fs@[i] < t.len(),
        forall|i: int| 0 <= i < fs@.len() ==> #[trigger] srcs@[i] == t[fs@[i] as int],
    ensures
        r is Some <==> stays_in_orbit(as_ints(fs@), t),
        r matches Some(perm) ==> perm@ == orbit_perm(as_ints(fs@), t),
        r matches Some(perm) ==> forall|i: int| 0 <= i < perm@.len() ==> #[trigger] perm@[i] < perm@.len(),
{
    let ghost f = as_ints(fs@);
    let mut perm: Vec<usize> = Vec::new();
    let mut i: usize = 0;
    while i < fs.len()
        invariant
            i <= fs@.len(),
            f == as_ints(fs@),
            srcs@.len() == fs@.len(),
            forall|k: int| 0 <= k < fs@.len() ==> #[trigger] fs@[k] < t.len(),
            forall|k: int| 0 <= k < fs@.len() ==> #[trigger] srcs@[k] == t[fs@[k] as int],
            perm@.len() == i,
            forall|k: int| 0 <= k < i ==> (#[trigger] first_index_of(f, t[f[k]] as int)) is Some,
            forall|k: int| 0 <= k < i ==> perm@[k] == first_index_of(f, t[f[k]] as int).unwrap() as usize,
            forall|k: int| 0 <= k < i ==> #[trigger] perm@[k] < fs@.len(),
        decreases fs@.len() - i,
    {
        let src = srcs[i];
        assert(src == t[f[i as int]]);
        match position_of(fs, src) {
            Some(j) => {
                perm.push(j);
            },
            None => {
                assert(first_index_of(f, t[f[i as int]] as int) is None);
                return None;
            },
        }
        i = i + 1;
    }
    assert(perm@ =~= orbit_perm(f, t));
    Some(perm)
}

/// Base score of a candidate from the orbit permutation.
fn score_from_permutation(orbit: &Orbit, solved_mask: &[bool], current_colors: &Vec<Face>, perm: &Vec<usize>, dry_run: bool) -> (score: usize)
    requires
        perm@.len() == orbit.pieces@.len(),
        current_colors@.len() == orbit.pieces@.len(),
        solved_mask@.len() >= orbit.pieces@.len(),
        forall|i: int| 0 <= i < perm@.len() ==> #[trigger] perm@[i] < perm@.len(),
    ensures
        score <= 3,
        is_permutation(perm@) ==> score == base_score(orbit.pieces@, solved_mask@, current_colors@, perm@, dry_run),
{
    let len = orbit.pieces.len();
    let ghost newc = Seq::new(len as nat, |i: int| current_colors@[perm@[i] as int]);
    let mut became_solved: usize = 0;
    let mut became_unsolved: usize = 0;
    let mut color_unchanged = true;
    let mut i: usize = 0;
    while i < len
        invariant
            i <= len,
            len == orbit.pieces@.len(),
            perm@.len() == len,
            current_colors@.len() == len,
            solved_mask@.len() >= len,
            forall|k: int| 0 <= k < perm@.len() ==> #[trigger] perm@[k] < perm@.len(),
            newc == Seq::new(len as nat, |k: int| current_colors@[perm@[k] as int]),
            became_solved == count_became_solved(orbit.pieces@, solved_mask@, newc, i as int),
            became_unsolved == count_became_unsolved(orbit.pieces@, solved_mask@, newc, i as int),
            became_solved <= i,
            became_unsolved <= i,
            color_unchanged == (forall|k: int| 0 <= k < i ==> newc[k] == current_colors@[k]),
        decreases len - i,
    {
        let target_face = orbit.pieces[i].face;
        let old_solved = solved_mask[i];
        let new_color = current_colors[perm[i]];
        let new_solved = new_color == target_face;
        if !old_solved && new_solved {
            became_solved = became_solved + 1;
        } else if old_solved && !new_solved {
            became_unsolved = became_unsolved + 1;
        }
        if new_color != current_colors[i] {
            color_unchanged = false;
        }
        i = i + 1;
    }
    let is_odd = is_odd_permutation(perm.as_slice());
    if became_solved >= 1 && became_unsolved == 0 {
        3
    } else if became_solved > became_unsolved {
        2
    } else if became_solved == 0 && became_unsolved == 0 && color_unchanged && is_odd && !dry_run {
        1
    } else {
        0
    }
}

/// Distinct indices have distinct sources under a quarter turn.
pub proof fn lemma_src_index_injective(n: int, ax: Axis, sl: int, cw: bool, i: int, j: int)
    requires
        n >= 1,
        0 <= i < 6 * n * n,
        0 <= j < 6 * n * n,
        crate::cube::geometry::src_index(n, ax, sl, cw, i) == crate::cube::geometry::src_index(n, ax, sl, cw, j),
    ensures
        i == j,
{
    crate::cube::geometry::lemma_src_index(n, ax, sl, cw, i);
    crate::cube::geometry::lemma_src_index(n, ax, sl, cw, j);
    crate::cube::geometry::lemma_decode(n, i);
    crate::cube::geometry::lemma_decode(n, j);
    let di = crate::cube::geometry::decode(n, i);
    let dj = crate::cube::geometry::decode(n, j);
    crate::cube::geometry::lemma_rot_src_inverse(n, ax, sl, cw, di.0, di.1, di.2);
    crate::cube::geometry::lemma_rot_src_inverse(n, ax, sl, cw, dj.0, dj.1, dj.2);
}

/// The traced grid holds distinct indices: moves permute the facelets.
pub proof fn lemma_trace_injective(n: int, ms: Seq<Seq<char>>)
    requires
        n >= 1,
        6 * n * n <= usize::MAX,
    ensures
        forall|i: int, j: int| 0 <= i < 6 * n * n && 0 <= j < 6 * n * n && i != j ==>
            #[trigger] index_trace(n, ms)[i] != #[trigger] index_trace(n, ms)[j],
    decreases ms.len(),
{
    let g = identity_grid(n);
    lemma_tracking(g, n, ms);
    if ms.len() > 0 {
        let init = ms.drop_last();
        lemma_trace_injective(n, init);
        lemma_tracking(g, n, init);
        let t = index_trace(n, init);
        match parse_move(ms.last(), n) {
            None => {},
            Some(p) => {
                let (ax, sl, cw, dbl) = p;
                assert forall|i: int, j: int| 0 <= i < 6 * n * n && 0 <= j < 6 * n * n && i != j implies
                    #[trigger] index_trace(n, ms)[i] != #[trigger] index_trace(n, ms)[j] by {
                    crate::cube::geometry::lemma_src_index(n, ax, sl, cw, i);
                    crate::cube::geometry::lemma_src_index(n, ax, sl, cw, j);
                    let i1 = crate::cube::geometry::src_index(n, ax, sl, cw, i);
                    let j1 = crate::cube::geometry::src_index(n, ax, sl, cw, j);
                    if i1 == j1 {
                        lemma_src_index_injective(n, ax, sl, cw, i, j);
                    }
                    if dbl {
                        crate::cube::geometry::lemma_src_index(n, ax, sl, cw, i1);
                        crate::cube::geometry::lemma_src_index(n, ax, sl, cw, j1);
                        let i2 = crate::cube::geometry::src_index(n, ax, sl, cw, i1);
                        let j2 = crate::cube::geometry::src_index(n, ax, sl, cw, j1);
                        if i2 == j2 {
                            lemma_src_index_injective(n, ax, sl, cw, i1, j1);
                        }
                        assert(t[i2] != t[j2]);
                    } else {
                        assert(t[i1] != t[j1]);
                    }
                }
            },
        }
    }
}

/// The pieces are pairwise distinct.
pub open spec fn distinct_pieces(ps: Seq<CenterPiece>) -> bool {
    forall|i: int, j: int| 0 <= i < ps.len() && 0 <= j < ps.len() && i != j ==> #[trigger] ps[i] != #[trigger] ps[j]
}

/// On an orbit of distinct pieces that the moves keep in place, the induced map is a permutation.
pub proof fn lemma_orbit_perm_is_permutation(n: int, ps: Seq<CenterPiece>, ms: Seq<Seq<char>>)
    requires
        n >= 1,
        6 * n * n <= usize::MAX,
        pieces_in_range(n, ps),
        distinct_pieces(ps),
        ps.len() <= usize::MAX,
        stays_in_orbit(orbit_flats(n, ps), index_trace(n, ms)),
    ensures
        is_permutation(orbit_perm(orbit_flats(n, ps), index_trace(n, ms))),
{
    let fs = orbit_flats(n, ps);
    let t = index_trace(n, ms);
    let perm = orbit_perm(fs, t);
    lemma_tracking(identity_grid(n), n, ms);
    lemma_trace_injective(n, ms);
    assert forall|i: int| 0 <= i < perm.len() implies #[trigger] perm[i] < perm.len() && fs[perm[i] as int] == t[fs[i]] as int by {
        lemma_flats_distinct(n, ps, i, i);
        assert(first_index_of(fs, t[fs[i]] as int) is Some);
        lemma_first_index_of(fs, t[fs[i]] as int);
    }
    assert forall|i: int, j: int| 0 <= i < perm.len() && 0 <= j < perm.len() && i != j implies #[trigger] perm[i] != #[trigger] perm[j] by {
        assert(fs[perm[i] as int] == t[fs[i]] as int);
        assert(fs[perm[j] as int] == t[fs[j]] as int);
        lemma_flats_distinct(n, ps, i, j);
        lemma_flats_distinct(n, ps, j, i);
    }
}

/// Distinct pieces in range have distinct flat indices, within the grid.
pub proof fn lemma_flats_distinct(n: int, ps: Seq<CenterPiece>, i: int, j: int)
    requires
        n >= 1,
        pieces_in_range(n, ps),
        distinct_pieces(ps),
        0 <= i < ps.len(),
        0 <= j < ps.len(),
    ensures
        0 <= piece_flat(n, ps[i]) < 6 * n * n,
        i != j ==> piece_flat(n, ps[i]) != piece_flat(n, ps[j]),
        orbit_flats(n, ps)[i] == piece_flat(n, ps[i]),
{
    crate::cube::geometry::lemma_encode(n, ps[i].face, ps[i].row as int, ps[i].col as int);
    crate::cube::geometry::lemma_encode(n, ps[j].face, ps[j].row as int, ps[j].col as int);
    if i != j && piece_flat(n, ps[i]) == piece_flat(n, ps[j]) {
        assert(ps[i] == ps[j]);
    }
}

/// The first index of an element, when there is one, holds that element.
pub proof fn lemma_first_index_of<A>(s: Seq<A>, x: A)
    ensures
        (first_index_of(s, x) is Some) <==> (exists|i: int| 0 <= i < s.len() && s[i] == x),
        first_index_of(s, x) matches Some(i) ==> 0 <= i < s.len() && s[i] == x && (forall|j: int| 0 <= j < i ==> s[j] != x),
{
    reveal(first_index_of);
    if exists|i: int| 0 <= i < s.len() && s[i] == x {
        let w = choose|i: int| 0 <= i < s.len() && s[i] == x;
        lemma_exists_first(s, x, w);
    }
}

proof fn lemma_exists_first<A>(s: Seq<A>, x: A, w: int)
    requires
        0 <= w < s.len(),
        s[w] == x,
    ensures
        exists|i: int| 0 <= i < s.len() && s[i] == x && (forall|j: int| 0 <= j < i ==> s[j] != x),
    decreases w,
{
    if exists|j: int| 0 <= j < w && s[j] == x {
        let j = choose|j: int| 0 <= j < w && s[j] == x;
        lemma_exists_first(s, x, j);
    } else {
        assert(forall|j: int| 0 <= j < w ==> s[j] != x);
    }
}

/// Whether the pieces solved on `cube` are still solved on `after`.
fn pieces_kept(cube: &Cube, after: &Cube, pieces: &Vec<CenterPiece>) -> (r: Result<bool, CubeError>)
    requires
        after.n() == cube.n(),
    ensures
        r matches Ok(b) ==> b == solved_kept(cube.cells(), after.cells(), cube.n(), pieces@),
        pieces_in_range(cube.n(), pieces@) ==> r is Ok,
{
    let mut j: usize = 0;
    while j < pieces.len()
        invariant
            after.n() == cube.n(),
            j <= pieces@.len(),
            forall|k: int| 0 <= k < j ==> (cube.cells()[piece_flat(cube.n(), #[trigger] pieces@[k])] == pieces@[k].face
                ==> after.cells()[piece_flat(cube.n(), pieces@[k])] == pieces@[k].face),
        decreases pieces@.len() - j,
    {
        let p = &pieces[j];
        let is_solved_before = cube.get(p.face, p.row, p.col)? == p.face;
        if is_solved_before && after.get(p.face, p.row, p.col)? != p.face {
            return Ok(false);
        }
        j = j + 1;
    }
    Ok(true)
}

/// Whether every orbit solved before the current one (in solving order) keeps its solved pieces.
fn earlier_orbits_preserved(size: usize, cube: &Cube, after: &Cube, orbit: &Orbit) -> (r: Result<bool, CubeError>)
    requires
        size == cube.n(),
        after.n() == cube.n(),
    ensures
        r matches Ok(b) ==> b == earlier_orbits_kept(decomposition(size as int), orbit.d_min as int, orbit.d_max as int,
            orbit.sub_orbit as int, cube.cells(), after.cells(), size as int),
        r is Ok,
{
    let all_orbits = decompose_orbits(size);
    let ghost views = orbit_views(all_orbits@);
    proof {
        crate::center_solver::center::lemma_decomposition_wf(size as int);
    }
    assert(views.subrange(0, views.len() as int) =~= views);
    let mut i: usize = 0;
    while i < all_orbits.len()
        invariant
            size == cube.n(),
            after.n() == cube.n(),
            views == orbit_views(all_orbits@),
            views == decomposition(size as int),
            crate::center_solver::center::orbits_wf(size as int, views),
            i <= all_orbits@.len(),
            earlier_orbits_kept(views, orbit.d_min as int, orbit.d_max as int, orbit.sub_orbit as int, cube.cells(), after.cells(), size as int)
                == earlier_orbits_kept(views.subrange(i as int, views.len() as int), orbit.d_min as int, orbit.d_max as int,
                    orbit.sub_orbit as int, cube.cells(), after.cells(), size as int),
        decreases all_orbits@.len() - i,
    {
        let o = &all_orbits[i];
        proof {
            let rest = views.subrange(i as int, views.len() as int);
            assert(rest[0] == o@);
            assert(rest.drop_first() =~= views.subrange(i + 1, views.len() as int));
        }
        if o.d_min == orbit.d_min && o.d_max == orbit.d_max && o.sub_orbit == orbit.sub_orbit {
            return Ok(true);
        }
        proof {
            assert(views[i as int] == o@);
            assert(crate::center_solver::center::orbit_wf(size as int, views[i as int]));
        }
        if !pieces_kept(cube, after, &o.pieces)? {
            return Ok(false);
        }
        i = i + 1;
    }
    assert(views.subrange(i as int, views.len() as int).len() == 0);
    Ok(true)
}

/// Whether every piece of the orbit marked solved shows its face on `after`.
fn marked_pieces_hold(after: &Cube, orbit: &Orbit, solved_mask: &[bool]) -> (r: Result<bool, CubeError>)
    requires
        solved_mask@.len() >= orbit.pieces@.len(),
    ensures
        r matches Ok(b) ==> b == marked_solved_hold(after.cells(), after.n(), orbit.pieces@, solved_mask@),
        pieces_in_range(after.n(), orbit.pieces@) ==> r is Ok,
{
    let mut i: usize = 0;
    while i < orbit.pieces.len()
        invariant
            i <= orbit.pieces@.len(),
            solved_mask@.len() >= orbit.pieces@.len(),
            forall|k: int| 0 <= k < i && #[trigger] solved_mask@[k] ==>
                after.cells()[piece_flat(after.n(), orbit.pieces@[k])] == orbit.pieces@[k].face,
        decreases orbit.pieces@.len() - i,
    {
        if solved_mask[i] {
            let p = &orbit.pieces[i];
            if after.get(p.face, p.row, p.col)? != p.face {
                return Ok(false);
            }
        }
        i = i + 1;
    }
    Ok(true)
}

/// What the candidate search needs of its context: the orbit's flat indices and current colors.
pub open spec fn search_ready(size: usize, cube: Cube, orbit: Orbit, fs: Seq<usize>, colors: Seq<Face>, mask: Seq<bool>) -> bool {
    &&& size == cube.n()
    &&& 6 * size * size <= usize::MAX
    &&& pieces_in_range(size as int, orbit.pieces@)
    &&& as_ints(fs) == orbit_flats(size as int, orbit.pieces@)
    &&& colors == orbit_colors(cube.cells(), orbit_flats(size as int, orbit.pieces@))
    &&& mask.len() >= orbit.pieces@.len()
    &&& orbit.d_min < size
    &&& orbit.d_max < size
}

/// A commutator whose moves parse and whose score (on an orbit of distinct pieces) is `score`.
pub open spec fn scored_commutator(cube: Cube, orbit: Orbit, mask: Seq<bool>, dry_run: bool, seq: Seq<String>, score: int) -> bool {
    let ms = strings_view(seq);
    &&& is_commutator(ms)
    &&& moves_parse(ms, cube.n())
    &&& (distinct_pieces(orbit.pieces@) ==> sequence_score(cube.cells(), cube.n(), orbit@, mask, ms, dry_run) == score)
}

/// Number of positions i < k whose color is the face of the piece there.
pub open spec fn count_showing_face(ps: Seq<CenterPiece>, colors: Seq<Face>, k: int) -> nat
    decreases k,
{
    if k <= 0 {
        0
    } else {
        count_showing_face(ps, colors, k - 1) + if colors[k - 1] == ps[k - 1].face { 1nat } else { 0nat }
    }
}

/// Number of positions i < k marked solved.
pub open spec fn count_marked(mask: Seq<bool>, k: int) -> nat
    decreases k,
{
    if k <= 0 {
        0
    } else {
        count_marked(mask, k - 1) + if mask[k - 1] { 1nat } else { 0nat }
    }
}

/// The solved pieces after the moves are the marked ones, less those that became unsolved,
/// plus those that became solved.
proof fn lemma_count_balance(ps: Seq<CenterPiece>, mask: Seq<bool>, newc: Seq<Face>, k: int)
    requires
        0 <= k,
    ensures
        count_showing_face(ps, newc, k) + count_became_unsolved(ps, mask, newc, k) == count_marked(mask, k)
            + count_became_solved(ps, mask, newc, k),
    decreases k,
{
    if k > 0 {
        lemma_count_balance(ps, mask, newc, k - 1);
    }
}

/// When the marks are exactly the pieces showing their face, the two counts agree.
proof fn lemma_count_marked_exact(ps: Seq<CenterPiece>, mask: Seq<bool>, cur: Seq<Face>, k: int)
    requires
        0 <= k,
        forall|i: int| 0 <= i < k ==> mask[i] == (cur[i] == ps[i].face),
    ensures
        count_showing_face(ps, cur, k) == count_marked(mask, k),
    decreases k,
{
    if k > 0 {
        lemma_count_balance(ps, mask, cur, 0);
        lemma_count_marked_exact(ps, mask, cur, k - 1);
    }
}

/// Some position became unsolved when the count of such positions is positive.
proof fn lemma_became_unsolved_witness(ps: Seq<CenterPiece>, mask: Seq<bool>, newc: Seq<Face>, k: int)
    requires
        count_became_unsolved(ps, mask, newc, k) > 0,
    ensures
        exists|i: int| 0 <= i < k && mask[i] && #[trigger] newc[i] != ps[i].face,
    decreases k,
{
    if k > 0 && !(mask[k - 1] && newc[k - 1] != ps[k - 1].face) {
        lemma_became_unsolved_witness(ps, mask, newc, k - 1);
        let i = choose|i: int| 0 <= i < k - 1 && mask[i] && #[trigger] newc[i] != ps[i].face;
        assert(0 <= i < k && mask[i] && newc[i] != ps[i].face);
    }
}

/// No candidate scores 2: net progress always unsolves some marked piece, and then the
/// candidate is rejected.
pub proof fn lemma_no_net_progress_score(cells: Seq<Face>, n: int, orbit: OrbitView, mask: Seq<bool>, ms: Seq<Seq<char>>, dry_run: bool)
    requires
        n >= 1,
        cells.len() == 6 * n * n,
        6 * n * n <= usize::MAX,
        pieces_in_range(n, orbit.pieces),
        orbit.pieces.len() <= usize::MAX,
        mask.len() >= orbit.pieces.len(),
    ensures
        sequence_score(cells, n, orbit, mask, ms, dry_run) != 2,
{
    let ps = orbit.pieces;
    let fs = orbit_flats(n, ps);
    let t = index_trace(n, ms);
    if stays_in_orbit(fs, t) {
        let after = apply_moves_spec(cells, n, ms);
        let cur = orbit_colors(cells, fs);
        let perm = orbit_perm(fs, t);
        let newc = Seq::new(ps.len(), |i: int| cur[perm[i] as int]);
        let b = base_score(ps, mask, cur, perm, dry_run);
        if b == 2 {
            lemma_tracking(cells, n, ms);
            lemma_became_unsolved_witness(ps, mask, newc, ps.len() as int);
            let i = choose|i: int| 0 <= i < ps.len() && mask[i] && #[trigger] newc[i] != ps[i].face;
            crate::cube::geometry::lemma_encode(n, ps[i].face, ps[i].row as int, ps[i].col as int);
            assert(first_index_of(fs, t[fs[i]] as int) is Some);
            lemma_first_index_of(fs, t[fs[i]] as int);
            let j = first_index_of(fs, t[fs[i]] as int).unwrap();
            assert(0 <= j < fs.len());
            assert(perm[i] as int == j);
            assert(after[fs[i]] == cells[t[fs[i]] as int]);
            assert(after[piece_flat(n, ps[i])] != ps[i].face);
            assert(!marked_solved_hold(after, n, ps, mask));
        }
    }
}

/// A commutator found as a solving step (score 3 or 2) leaves more pieces of the orbit showing
/// their own face than were marked solved; when the marks are exactly the solved pieces of the
/// orbit, strictly more of its pieces are solved after the moves than before.
pub proof fn lemma_solving_step_progress(cube: Cube, orbit: Orbit, mask: Seq<bool>, dry_run: bool, seq: Seq<String>, score: int)
    requires
        cube.n() >= 1,
        cube.cells().len() == 6 * cube.n() * cube.n(),
        6 * cube.n() * cube.n() <= usize::MAX,
        pieces_in_range(cube.n(), orbit.pieces@),
        distinct_pieces(orbit.pieces@),
        orbit.pieces@.len() <= usize::MAX,
        mask.len() >= orbit.pieces@.len(),
        scored_commutator(cube, orbit, mask, dry_run, seq, score),
        score >= 2,
    ensures
        ({
            let ps = orbit.pieces@;
            let fs = orbit_flats(cube.n(), ps);
            let after = apply_moves_spec(cube.cells(), cube.n(), strings_view(seq));
            &&& count_showing_face(ps, orbit_colors(after, fs), ps.len() as int) > count_marked(mask, ps.len() as int)
            &&& (forall|i: int| 0 <= i < ps.len() ==> mask[i] == (cube.cells()[piece_flat(cube.n(), ps[i])] == ps[i].face))
                ==> count_showing_face(ps, orbit_colors(after, fs), ps.len() as int) > count_showing_face(
                ps,
                orbit_colors(cube.cells(), fs),
                ps.len() as int,
            )
        }),
{
    let n = cube.n();
    let cells = cube.cells();
    let ps = orbit.pieces@;
    let ms = strings_view(seq);
    let fs = orbit_flats(n, ps);
    let t = index_trace(n, ms);
    let after = apply_moves_spec(cells, n, ms);
    let cur = orbit_colors(cells, fs);
    let perm = orbit_perm(fs, t);
    let newc = Seq::new(ps.len(), |i: int| cur[perm[i] as int]);
    let k = ps.len() as int;
    lemma_tracking(cells, n, ms);
    assert(stays_in_orbit(fs, t));
    assert forall|i: int| 0 <= i < k implies #[trigger] newc[i] == orbit_colors(after, fs)[i] by {
        crate::cube::geometry::lemma_encode(n, ps[i].face, ps[i].row as int, ps[i].col as int);
        assert(first_index_of(fs, t[fs[i]] as int) is Some);
        lemma_first_index_of(fs, t[fs[i]] as int);
        let j = first_index_of(fs, t[fs[i]] as int).unwrap();
        assert(0 <= j < fs.len());
        assert(perm[i] as int == j);
        assert(fs[j] == t[fs[i]] as int);
        assert(after[fs[i]] == cells[t[fs[i]] as int]);
    }
    assert(newc =~= orbit_colors(after, fs));
    lemma_count_balance(ps, mask, newc, k);
    if forall|i: int| 0 <= i < ps.len() ==> mask[i] == (cells[piece_flat(n, ps[i])] == ps[i].face) {
        lemma_count_marked_exact(ps, mask, cur, k);
    }
}

/// The best candidate so far: none (score 0) or a scored commutator.
pub open spec fn best_ok(cube: Cube, orbit: Orbit, mask: Seq<bool>, dry_run: bool, best: Seq<String>, score: usize) -> bool {
    &&& score <= 3
    &&& (score > 0 ==> scored_commutator(cube, orbit, mask, dry_run, best, score as int))
}

/// Whether `m` ends with the character `c`.
fn ends_with_char(m: &String, c: char) -> (b: bool)
    ensures
        b == (m@.len() > 0 && m@.last() == c),
{
    let t = m.as_str();
    let len = t.unicode_len();
    len > 0 && t.get_char(len - 1) == c
}

/// Whether the list holds the move `m`.
fn contains_move(v: &Vec<String>, m: &String) -> (b: bool)
    ensures
        b == strings_view(v@).contains(m@),
{
    let mut i: usize = 0;
    while i < v.len()
        invariant
            i <= v@.len(),
            forall|k: int| 0 <= k < i ==> v@[k]@ != m@,
        decreases v@.len() - i,
    {
        if v[i] == *m {
            assert(strings_view(v@)[i as int] == m@);
            return true;
        }
        i = i + 1;
    }
    proof {
        if strings_view(v@).contains(m@) {
            let k = choose|k: int| 0 <= k < strings_view(v@).len() && strings_view(v@)[k] == m@;
            assert(v@[k]@ == m@);
        }
    }
    false
}

/// The moves of the list that are not half turns (do not end with 2).
fn without_half_turns(v: &Vec<String>) -> (r: Vec<String>)
    ensures
        strings_view(r@) == strings_view(v@).filter(|m: Seq<char>| !(m.len() > 0 && m.last() == '2')),
{
    let ghost keep = |m: Seq<char>| !(m.len() > 0 && m.last() == '2');
    let mut r: Vec<String> = Vec::new();
    let mut i: usize = 0;
    while i < v.len()
        invariant
            i <= v@.len(),
            strings_view(r@) == strings_view(v@).subrange(0, i as int).filter(keep),
            forall|m: Seq<char>| #[trigger] keep(m) == !(m.len() > 0 && m.last() == '2'),
        decreases v@.len() - i,
    {
        proof {
            let sv = strings_view(v@);
            assert(sv.subrange(0, i + 1) =~= sv.subrange(0, i as int).push(sv[i as int]));
            sv.subrange(0, i as int).lemma_filter_push(sv[i as int], keep);
        }
        let ghost before = strings_view(r@);
        if !ends_with_char(&v[i], '2') {
            r.push(v[i].clone());
            proof {
                assert(strings_view(r@) =~= before.push(v@[i as int]@));
            }
        }
        assert(strings_view(v@)[i as int] == v@[i as int]@);
        assert(keep(strings_view(v@)[i as int]) == !(v@[i as int]@.len() > 0 && v@[i as int]@.last() == '2'));
        i = i + 1;
    }
    assert(strings_view(v@).subrange(0, i as int) =~= strings_view(v@));
    r
}

/// Flat indices of the orbit's pieces.
fn orbit_flat_indices(size: usize, orbit: &Orbit) -> (fs: Vec<usize>)
    requires
        pieces_in_range(size as int, orbit.pieces@),
        6 * size * size <= usize::MAX,
    ensures
        as_ints(fs@) == orbit_flats(size as int, orbit.pieces@),
{
    let mut fs: Vec<usize> = Vec::new();
    let mut i: usize = 0;
    while i < orbit.pieces.len()
        invariant
            pieces_in_range(size as int, orbit.pieces@),
            6 * size * size <= usize::MAX,
            i <= orbit.pieces@.len(),
            fs@.len() == i,
            forall|k: int| 0 <= k < i ==> #[trigger] fs@[k] as int == piece_flat(size as int, orbit.pieces@[k]),
        decreases orbit.pieces@.len() - i,
    {
        fs.push(piece_index(size, &orbit.pieces[i]));
        i = i + 1;
    }
    assert(as_ints(fs@) =~= orbit_flats(size as int, orbit.pieces@));
    fs
}

/// Current colors at the orbit's positions.
fn orbit_current_colors(cube: &Cube, orbit: &Orbit) -> (r: Result<Vec<Face>, CubeError>)
    ensures
        r matches Ok(cs) ==> cs@ == orbit_colors(cube.cells(), orbit_flats(cube.n(), orbit.pieces@)),
        r is Ok <==> pieces_in_range(cube.n(), orbit.pieces@),
        r matches Err(e) ==> out_of_range_error(cube.n(), orbit.pieces@, e),
{
    let mut cs: Vec<Face> = Vec::new();
    let mut i: usize = 0;
    while i < orbit.pieces.len()
        invariant
            i <= orbit.pieces@.len(),
            cs@.len() == i,
            forall|k: int| 0 <= k < i ==> (#[trigger] orbit.pieces@[k]).row < cube.n() && orbit.pieces@[k].col < cube.n(),
            forall|k: int| 0 <= k < i ==> #[trigger] cs@[k] == cube.cells()[piece_flat(cube.n(), orbit.pieces@[k])],
        decreases orbit.pieces@.len() - i,
    {
        let p = &orbit.pieces[i];
        match cube.get(p.face, p.row, p.col) {
            Ok(c) => cs.push(c),
            Err(e) => {
                assert(!(orbit.pieces@[i as int].row < cube.n() && orbit.pieces@[i as int].col < cube.n()));
                return Err(e);
            },
        }
        i = i + 1;
    }
    assert(cs@ =~= orbit_colors(cube.cells(), orbit_flats(cube.n(), orbit.pieces@)));
    Ok(cs)
}

/// The error of reading the first piece that lies off the cube: its row and the size.
pub open spec fn out_of_range_error(n: int, ps: Seq<CenterPiece>, e: CubeError) -> bool {
    exists|i: int|
        0 <= i < ps.len() && !((#[trigger] ps[i]).row < n && ps[i].col < n) && e == CubeError::IndexOutOfBounds(
            ps[i].row,
            n as usize,
        ) && forall|j: int| 0 <= j < i ==> (#[trigger] ps[j]).row < n && ps[j].col < n
}

/// The moves of a commutator built from its parts: X Y X' Y' from (X, Y), S X Y X' Y' S' from
/// (S, X, Y), and S1 S2 X Y X' Y' S2' S1' from (S1, S2, X, Y).
pub open spec fn commutator_moves(p: Seq<Seq<char>>) -> Seq<Seq<char>> {
    if p.len() == 2 {
        seq![p[0], p[1], inverse_move(p[0]), inverse_move(p[1])]
    } else if p.len() == 3 {
        seq![p[0], p[1], p[2], inverse_move(p[1]), inverse_move(p[2]), inverse_move(p[0])]
    } else {
        seq![p[0], p[1], p[2], p[3], inverse_move(p[2]), inverse_move(p[3]), inverse_move(p[1]), inverse_move(p[0])]
    }
}

/// Tracing one more move: the content at j comes, through the last move, from the position
/// that the earlier moves fill from the traced one.
pub proof fn lemma_trace_push(n: int, ms: Seq<Seq<char>>, m: Seq<char>)
    requires
        n >= 1,
        6 * n * n <= usize::MAX,
    ensures
        forall|j: int| 0 <= j < 6 * n * n ==> {
            &&& #[trigger] index_trace(n, ms.push(m))[j] == index_trace(n, ms)[index_trace(n, seq![m])[j] as int]
            &&& index_trace(n, seq![m])[j] < 6 * n * n
        },
{
    let t = index_trace(n, ms);
    lemma_tracking(identity_grid(n), n, ms);
    lemma_tracking(t, n, seq![m]);
    lemma_tracking(identity_grid(n), n, seq![m]);
    assert(ms.push(m).drop_last() =~= ms);
    assert(seq![m].drop_last() =~= Seq::<Seq<char>>::empty());
    assert(apply_moves_spec(t, n, Seq::<Seq<char>>::empty()) == t);
    assert(seq![m].last() == m);
    assert(apply_moves_spec(t, n, seq![m]) == apply_move_spec(t, n, m));
    assert(index_trace(n, ms.push(m)) == apply_move_spec(t, n, m));
}

/// The trace of two sequences one after the other composes their traces.
pub proof fn lemma_trace_concat(n: int, a: Seq<Seq<char>>, b: Seq<Seq<char>>)
    requires
        n >= 1,
        6 * n * n <= usize::MAX,
    ensures
        forall|j: int| 0 <= j < 6 * n * n ==> {
            &&& #[trigger] index_trace(n, a + b)[j] == index_trace(n, a)[index_trace(n, b)[j] as int]
            &&& index_trace(n, b)[j] < 6 * n * n
        },
    decreases b.len(),
{
    lemma_tracking(identity_grid(n), n, b);
    if b.len() == 0 {
        assert(a + b =~= a);
        assert(index_trace(n, b) == identity_grid(n));
    } else {
        let b0 = b.drop_last();
        let m = b.last();
        lemma_trace_concat(n, a, b0);
        lemma_trace_push(n, a + b0, m);
        lemma_trace_push(n, b0, m);
        assert(b0.push(m) =~= b);
        assert((a + b0).push(m) =~= a + b);
    }
}

/// Candidate moves with the source maps of each move and of its inverse.
struct MoveTable {
    moves: Vec<String>,
    fwd: Vec<Vec<usize>>,
    inv: Vec<Vec<usize>>,
}

/// Each move of the table parses, as does its inverse, and the table holds their traces.
spec fn table_ok(t: &MoveTable, n: int) -> bool {
    &&& t.fwd@.len() == t.moves@.len()
    &&& t.inv@.len() == t.moves@.len()
    &&& forall|k: int| 0 <= k < t.moves@.len() ==> {
        &&& parse_move((#[trigger] t.moves@[k])@, n) is Some
        &&& parse_move(inverse_move(t.moves@[k]@), n) is Some
        &&& t.fwd@[k]@ == index_trace(n, seq![t.moves@[k]@])
        &&& t.inv@[k]@ == index_trace(n, seq![inverse_move(t.moves@[k]@)])
    }
}

/// The trace of a single move; fails when it does not parse.
fn move_trace(size: usize, m: &String) -> (r: Result<Vec<usize>, CubeError>)
    requires
        size >= 2,
        6 * size * size <= usize::MAX,
    ensures
        r matches Ok(p) ==> p@ == index_trace(size as int, seq![m@]) && parse_move(m@, size as int) is Some,
        r is Ok <==> parse_move(m@, size as int) is Some,
{
    let one = vec![m.clone()];
    assert(strings_view(one@) =~= seq![m@]);
    let r = track_moves(size, one.as_slice());
    proof {
        if r is Ok {
            assert(parse_move(strings_view(one@)[0], size as int) is Some);
        }
        if parse_move(m@, size as int) is Some {
            assert(moves_parse(strings_view(one@), size as int));
        }
    }
    r
}

/// The traces of the moves of a list and of their inverses.
fn build_table(size: usize, moves: Vec<String>) -> (r: Result<MoveTable, CubeError>)
    requires
        size >= 2,
        6 * size * size <= usize::MAX,
    ensures
        r matches Ok(t) ==> table_ok(&t, size as int) && strings_view(t.moves@) == strings_view(moves@),
        r is Ok <==> forall|q: int| 0 <= q < moves@.len() ==> parse_move((#[trigger] moves@[q])@, size as int) is Some
            && parse_move(inverse_move(moves@[q]@), size as int) is Some,
{
    let mut fwd: Vec<Vec<usize>> = Vec::new();
    let mut inv: Vec<Vec<usize>> = Vec::new();
    let mut k: usize = 0;
    while k < moves.len()
        invariant
            size >= 2,
            6 * size * size <= usize::MAX,
            k <= moves@.len(),
            fwd@.len() == k,
            inv@.len() == k,
            forall|q: int| 0 <= q < k ==> {
                &&& parse_move((#[trigger] moves@[q])@, size as int) is Some
                &&& parse_move(inverse_move(moves@[q]@), size as int) is Some
                &&& fwd@[q]@ == index_trace(size as int, seq![moves@[q]@])
                &&& inv@[q]@ == index_trace(size as int, seq![inverse_move(moves@[q]@)])
            },
        decreases moves@.len() - k,
    {
        let f = move_trace(size, &moves[k])?;
        let im = get_inverse_move(moves[k].as_str());
        let i = move_trace(size, &im)?;
        fwd.push(f);
        inv.push(i);
        k = k + 1;
    }
    let t = MoveTable { moves, fwd, inv };
    assert(strings_view(t.moves@) =~= strings_view(t.moves@));
    Ok(t)
}

/// Where the content at each orbit position comes from after the moves whose single traces
/// are `ps`: the position traced back through the moves from the last to the first.
fn orbit_sources(fs: &Vec<usize>, ps: &Vec<&Vec<usize>>, Ghost(n): Ghost<int>, Ghost(ms): Ghost<Seq<Seq<char>>>) -> (srcs: Vec<usize>)
    requires
        n >= 1,
        6 * n * n <= usize::MAX,
        ps@.len() == ms.len(),
        forall|k: int| 0 <= k < ps@.len() ==> (#[trigger] ps@[k])@ == index_trace(n, seq![ms[k]]),
        forall|i: int| 0 <= i < fs@.len() ==> #[trigger] fs@[i] < 6 * n * n,
    ensures
        srcs@.len() == fs@.len(),
        forall|i: int| 0 <= i < fs@.len() ==> #[trigger] srcs@[i] == index_trace(n, ms)[fs@[i] as int],
{
    let mut srcs: Vec<usize> = Vec::new();
    let mut i: usize = 0;
    while i < fs.len()
        invariant
            n >= 1,
            6 * n * n <= usize::MAX,
            ps@.len() == ms.len(),
            forall|k: int| 0 <= k < ps@.len() ==> (#[trigger] ps@[k])@ == index_trace(n, seq![ms[k]]),
            forall|i: int| 0 <= i < fs@.len() ==> #[trigger] fs@[i] < 6 * n * n,
            i <= fs@.len(),
            srcs@.len() == i,
            forall|q: int| 0 <= q < i ==> #[trigger] srcs@[q] == index_trace(n, ms)[fs@[q] as int],
        decreases fs@.len() - i,
    {
        let mut t = fs[i];
        let mut k = ps.len();
        proof {
            assert(ms.subrange(k as int, ms.len() as int) =~= Seq::<Seq<char>>::empty());
            lemma_tracking(identity_grid(n), n, Seq::<Seq<char>>::empty());
        }
        while k > 0
            invariant
                n >= 1,
                6 * n * n <= usize::MAX,
                ps@.len() == ms.len(),
                forall|k: int| 0 <= k < ps@.len() ==> (#[trigger] ps@[k])@ == index_trace(n, seq![ms[k]]),
                k <= ps@.len(),
                i < fs@.len(),
                fs@[i as int] < 6 * n * n,
                t < 6 * n * n,
                t == index_trace(n, ms.subrange(k as int, ms.len() as int))[fs@[i as int] as int],
            decreases k,
        {
            let p = ps[k - 1];
            proof {
                lemma_tracking(identity_grid(n), n, seq![ms[k - 1]]);
                lemma_trace_concat(n, seq![ms[k - 1]], ms.subrange(k as int, ms.len() as int));
                assert(seq![ms[k - 1]] + ms.subrange(k as int, ms.len() as int) =~= ms.subrange(k - 1, ms.len() as int));
                lemma_tracking(identity_grid(n), n, ms.subrange(k as int, ms.len() as int));
            }
            t = p[t];
            k = k - 1;
        }
        assert(ms.subrange(0, ms.len() as int) =~= ms);
        srcs.push(t);
        i = i + 1;
    }
    srcs
}

/// Builds the commutator from its parts (two, three or four moves).
fn commutator_of(parts: &Vec<&String>) -> (seq: Vec<String>)
    requires
        2 <= parts@.len() <= 4,
    ensures
        strings_view(seq@) == commutator_moves(parts@.map_values(|s: &String| s@)),
        is_commutator(strings_view(seq@)),
{
    let ghost pv = parts@.map_values(|s: &String| s@);
    if parts.len() == 2 {
        commutator4(parts[0], parts[1])
    } else if parts.len() == 3 {
        commutator6(parts[0], parts[1], parts[2])
    } else {
        commutator8(parts[0], parts[1], parts[2], parts[3])
    }
}

/// Scores the commutator with the given parts and single traces `ps` (in the order of its
/// moves) and keeps it when it beats the best so far; tells whether it is a clean solving
/// step (score 3).
fn consider(
    size: usize,
    cube: &Cube,
    orbit: &Orbit,
    fs: &Vec<usize>,
    colors: &Vec<Face>,
    mask: &[bool],
    dry_run: bool,
    parts: &Vec<&String>,
    ps: &Vec<&Vec<usize>>,
    best_seq: &mut Vec<String>,
    best_score: &mut usize,
) -> (r: Result<bool, CubeError>)
    requires
        search_ready(size, *cube, *orbit, fs@, colors@, mask@),
        2 <= parts@.len() <= 4,
        ps@.len() == commutator_moves(parts@.map_values(|s: &String| s@)).len(),
        forall|k: int| 0 <= k < ps@.len() ==> (#[trigger] ps@[k])@ == index_trace(size as int,
            seq![commutator_moves(parts@.map_values(|s: &String| s@))[k]]),
        moves_parse(commutator_moves(parts@.map_values(|s: &String| s@)), size as int),
        best_ok(*cube, *orbit, mask@, dry_run, old(best_seq)@, *old(best_score)),
        *old(best_score) < 3,
    ensures
        best_ok(*cube, *orbit, mask@, dry_run, final(best_seq)@, *final(best_score)),
        *final(best_score) >= *old(best_score),
        r matches Ok(found) ==> (found <==> *final(best_score) == 3),
        r is Err ==> *final(best_score) < 3,
        r is Ok,
        distinct_pieces(orbit.pieces@) ==> (r == Ok::<bool, CubeError>(true) <==> sequence_score(
            cube.cells(),
            cube.n(),
            orbit@,
            mask@,
            commutator_moves(parts@.map_values(|s: &String| s@)),
            dry_run,
        ) == 3),
{
    let n = cube.size();
    let ghost ms = commutator_moves(parts@.map_values(|s: &String| s@));
    proof {
        assert forall|i: int| 0 <= i < fs@.len() implies #[trigger] fs@[i] < 6 * n * n by {
            crate::cube::geometry::lemma_encode(n as int, orbit.pieces@[i].face, orbit.pieces@[i].row as int, orbit.pieces@[i].col as int);
            assert(as_ints(fs@)[i] == fs@[i] as int);
        }
    }
    let srcs = orbit_sources(fs, ps, Ghost(n as int), Ghost(ms));
    let ghost t = index_trace(n as int, ms);
    proof {
        lemma_tracking(cube.cells(), n as int, ms);
    }
    let perm = match orbit_permutation(fs, &srcs, Ghost(t)) {
        Some(p) => p,
        None => {
            return Ok(false);
        },
    };
    let piece_count = orbit.pieces.len();
    proof {
        if distinct_pieces(orbit.pieces@) {
            lemma_orbit_perm_is_permutation(n as int, orbit.pieces@, ms);
        }
    }
    let score = score_from_permutation(orbit, mask, colors, &perm, dry_run);
    if score == 0 {
        return Ok(false);
    }
    let seq = commutator_of(parts);
    let mut test_cube = cube.clone();
    let applied = apply_moves_to_cube(&mut test_cube, seq.as_slice());
    if applied.is_err() {
        return Err(applied.unwrap_err());
    }
    if score >= 2 {
        if !marked_pieces_hold(&test_cube, orbit, mask)? {
            return Ok(false);
        }
    }
    if !dry_run {
        if !earlier_orbits_preserved(size, cube, &test_cube, orbit)? {
            return Ok(false);
        }
    }
    if score == 3 {
        *best_seq = seq;
        *best_score = 3;
        return Ok(true);
    } else if score > *best_score {
        *best_seq = seq;
        *best_score = score;
    }
    Ok(false)
}

/// Whether the commutator X Y X' Y' (or, with `both_forms`, Y X Y' X') is a clean solving step,
/// Y being neither X nor its inverse.
pub open spec fn pair_clean(cube: Cube, orbit: Orbit, mask: Seq<bool>, dry_run: bool, x: Seq<char>, y: Seq<char>, both_forms: bool) -> bool {
    &&& !(x == y || x == inverse_move(y))
    &&& (sequence_score(cube.cells(), cube.n(), orbit@, mask, commutator_moves(seq![x, y]), dry_run) == 3 || (both_forms
        && sequence_score(cube.cells(), cube.n(), orbit@, mask, commutator_moves(seq![y, x]), dry_run) == 3))
}

/// S X Y X' Y' S' (or, with `both_forms`, S Y X Y' X' S') is a clean solving step, Y being
/// neither X nor its inverse.
pub open spec fn setup_clean(cube: Cube, orbit: Orbit, mask: Seq<bool>, dry_run: bool, s: Seq<char>, x: Seq<char>, y: Seq<char>, both_forms: bool) -> bool {
    &&& !(x == y || x == inverse_move(y))
    &&& (sequence_score(cube.cells(), cube.n(), orbit@, mask, commutator_moves(seq![s, x, y]), dry_run) == 3 || (both_forms
        && sequence_score(cube.cells(), cube.n(), orbit@, mask, commutator_moves(seq![s, y, x]), dry_run) == 3))
}

/// S1 S2 X Y X' Y' S2' S1' is a clean solving step, S2 being neither S1 nor its inverse and Y
/// neither X nor its inverse.
pub open spec fn double_clean(cube: Cube, orbit: Orbit, mask: Seq<bool>, dry_run: bool, s1: Seq<char>, s2: Seq<char>, x: Seq<char>, y: Seq<char>) -> bool {
    &&& !(s1 == s2 || s1 == inverse_move(s2))
    &&& !(x == y || x == inverse_move(y))
    &&& sequence_score(cube.cells(), cube.n(), orbit@, mask, commutator_moves(seq![s1, s2, x, y]), dry_run) == 3
}

/// The moves of the list that are not half turns.
pub open spec fn quarter_turns(v: Seq<Seq<char>>) -> Seq<Seq<char>> {
    v.filter(|m: Seq<char>| !(m.len() > 0 && m.last() == '2'))
}

/// The slice turns that the search tries on the orbit.
pub open spec fn orbit_slice_turns(cube: Cube, orbit: Orbit) -> Seq<Seq<char>> {
    slice_candidates(crossing_slices(cube.n(), orbit.d_min as int, orbit.d_max as int), 6, cube.n())
}

/// The first stage of the search has a clean solving step: [Slice, Face] or [Face, Slice].
pub open spec fn first_stage_clean(cube: Cube, orbit: Orbit, mask: Seq<bool>, dry_run: bool) -> bool {
    let sl = orbit_slice_turns(cube, orbit);
    let fc = face_candidates(6);
    exists|i: int, j: int| 0 <= i < sl.len() && 0 <= j < fc.len() && #[trigger] pair_clean(cube, orbit, mask, dry_run, sl[i], fc[j], true)
}

/// A later stage of the search has a clean solving step: [Slice, Slice]; a face setup with
/// [Slice, Face] or [Face, Slice]; any setup with [Slice, Y] (Y a face turn in a dry run, else
/// any turn; setup and Y not both face turns); and, outside a dry run, two face setups with a
/// quarter slice turn and a quarter face turn, or with a quarter slice turn as Y.
pub open spec fn later_stage_clean(cube: Cube, orbit: Orbit, mask: Seq<bool>, dry_run: bool) -> bool {
    let sl = orbit_slice_turns(cube, orbit);
    let fc = face_candidates(6);
    let st = fc + sl;
    let ys = if dry_run { fc } else { fc + sl };
    let qx = quarter_turns(sl);
    let qf = quarter_turns(fc);
    let qa = quarter_turns(fc + sl);
    ||| exists|i: int, j: int| 0 <= i < sl.len() && 0 <= j < sl.len() && #[trigger] pair_clean(cube, orbit, mask, dry_run, sl[i], sl[j], false)
    ||| exists|a: int, i: int, j: int|
        0 <= a < fc.len() && 0 <= i < sl.len() && 0 <= j < fc.len() && #[trigger] setup_clean(cube, orbit, mask, dry_run, fc[a], sl[i], fc[j], true)
    ||| exists|a: int, i: int, j: int|
        0 <= a < st.len() && 0 <= i < sl.len() && 0 <= j < ys.len() && !(fc.contains(st[a]) && fc.contains(ys[j]))
            && #[trigger] setup_clean(cube, orbit, mask, dry_run, st[a], sl[i], ys[j], false)
    ||| !dry_run && exists|a: int, b: int, i: int, l: int|
        0 <= a < fc.len() && 0 <= b < fc.len() && 0 <= i < qx.len() && 0 <= l < qf.len() && #[trigger] double_clean(
            cube,
            orbit,
            mask,
            dry_run,
            fc[a],
            fc[b],
            qx[i],
            qf[l],
        )
    ||| !dry_run && exists|a: int, b: int, i: int, l: int|
        0 <= a < fc.len() && 0 <= b < fc.len() && 0 <= i < qx.len() && 0 <= l < qa.len() && !fc.contains(qa[l])
            && #[trigger] double_clean(cube, orbit, mask, dry_run, fc[a], fc[b], qx[i], qa[l])
}

/// Some stage of the commutator search has a clean solving step (score 3).
pub open spec fn clean_step_exists(cube: Cube, orbit: Orbit, mask: Seq<bool>, dry_run: bool) -> bool {
    first_stage_clean(cube, orbit, mask, dry_run) || later_stage_clean(cube, orbit, mask, dry_run)
}

/// The search is bound to succeed: the pieces lie on the cube and are distinct, the candidate
/// turns parse, and some stage has a clean solving step.
pub open spec fn search_owed(cube: Cube, orbit: Orbit, mask: Seq<bool>, dry_run: bool) -> bool {
    &&& pieces_in_range(cube.n(), orbit.pieces@)
    &&& distinct_pieces(orbit.pieces@)
    &&& candidates_parse(orbit_slice_turns(cube, orbit), cube.n())
    &&& candidates_parse(face_candidates(6), cube.n())
    &&& clean_step_exists(cube, orbit, mask, dry_run)
}

/// The move is in the optional list of moves to skip.
pub open spec fn in_skip_list(skip: Option<Seq<Seq<char>>>, m: Seq<char>) -> bool {
    match skip {
        Some(list) => list.contains(m),
        None => false,
    }
}

/// The optional list of moves, as text.
pub open spec fn skip_view(skip: Option<&Vec<String>>) -> Option<Seq<Seq<char>>> {
    match skip {
        Some(list) => Some(strings_view(list@)),
        None => None,
    }
}

/// Tries X Y X' Y' (and, with `both_forms`, Y X Y' X') for X in `xt` and Y in `yt`, Y neither X
/// nor its inverse; stops at the first clean solving step.
fn search_pairs(
    size: usize,
    cube: &Cube,
    orbit: &Orbit,
    fs: &Vec<usize>,
    colors: &Vec<Face>,
    mask: &[bool],
    dry_run: bool,
    xt: &MoveTable,
    yt: &MoveTable,
    both_forms: bool,
    best_seq: &mut Vec<String>,
    best_score: &mut usize,
) -> (r: Result<bool, CubeError>)
    requires
        search_ready(size, *cube, *orbit, fs@, colors@, mask@),
        table_ok(xt, size as int),
        table_ok(yt, size as int),
        best_ok(*cube, *orbit, mask@, dry_run, old(best_seq)@, *old(best_score)),
        *old(best_score) < 3,
    ensures
        best_ok(*cube, *orbit, mask@, dry_run, final(best_seq)@, *final(best_score)),
        *final(best_score) >= *old(best_score),
        r matches Ok(found) ==> (found <==> *final(best_score) == 3),
        r is Ok,
        distinct_pieces(orbit.pieces@) && r == Ok::<bool, CubeError>(false) ==> forall|i: int, j: int|
            0 <= i < xt.moves@.len() && 0 <= j < yt.moves@.len() ==> !#[trigger] pair_clean(
                *cube,
                *orbit,
                mask@,
                dry_run,
                xt.moves@[i]@,
                yt.moves@[j]@,
                both_forms,
            ),
{
    let mut xi: usize = 0;
    while xi < xt.moves.len()
        invariant
            table_ok(xt, size as int),
            table_ok(yt, size as int),
            search_ready(size, *cube, *orbit, fs@, colors@, mask@),
            best_ok(*cube, *orbit, mask@, dry_run, best_seq@, *best_score),
            *best_score < 3,
            *best_score >= *old(best_score),
            distinct_pieces(orbit.pieces@) ==> forall|i: int, j: int|
                0 <= i < xi && 0 <= j < yt.moves@.len() ==> !#[trigger] pair_clean(
                    *cube,
                    *orbit,
                    mask@,
                    dry_run,
                    xt.moves@[i]@,
                    yt.moves@[j]@,
                    both_forms,
                ),
        decreases xt.moves@.len() - xi,
    {
        let mut yi: usize = 0;
        while yi < yt.moves.len()
            invariant
                xi < xt.moves@.len(),
                table_ok(xt, size as int),
                table_ok(yt, size as int),
            search_ready(size, *cube, *orbit, fs@, colors@, mask@),
            best_ok(*cube, *orbit, mask@, dry_run, best_seq@, *best_score),
            *best_score < 3,
            *best_score >= *old(best_score),
            distinct_pieces(orbit.pieces@) ==> forall|i: int, j: int|
                0 <= i < xi && 0 <= j < yt.moves@.len() ==> !#[trigger] pair_clean(
                    *cube,
                    *orbit,
                    mask@,
                    dry_run,
                    xt.moves@[i]@,
                    yt.moves@[j]@,
                    both_forms,
                ),
            distinct_pieces(orbit.pieces@) ==> forall|j: int|
                0 <= j < yi ==> !#[trigger] pair_clean(
                    *cube,
                    *orbit,
                    mask@,
                    dry_run,
                    xt.moves@[xi as int]@,
                    yt.moves@[j]@,
                    both_forms,
                ),
            decreases yt.moves@.len() - yi,
        {
            let x = &xt.moves[xi];
            let y = &yt.moves[yi];
            assert(xt.moves@[xi as int]@ == x@ && yt.moves@[yi as int]@ == y@);
            if !same_or_inverse(x, y) {
                let ghost xv = x@;
                let ghost yv = y@;
                assert(xt.moves@[xi as int]@ == xv && yt.moves@[yi as int]@ == yv);
                let parts = vec![x, y];
                let ps = vec![&xt.fwd[xi], &yt.fwd[yi], &xt.inv[xi], &yt.inv[yi]];
                proof {
                    assert(parts@.map_values(|s: &String| s@) =~= seq![xv, yv]);
                    let ms = commutator_moves(seq![xv, yv]);
                    assert forall|k: int| 0 <= k < ms.len() implies (#[trigger] parse_move(ms[k], size as int)) is Some by {}
                }
                if consider(size, cube, orbit, fs, colors, mask, dry_run, &parts, &ps, best_seq, best_score)? {
                    return Ok(true);
                }
                if both_forms {
                    let parts2 = vec![y, x];
                    let ps2 = vec![&yt.fwd[yi], &xt.fwd[xi], &yt.inv[yi], &xt.inv[xi]];
                    proof {
                        assert(parts2@.map_values(|s: &String| s@) =~= seq![yv, xv]);
                        let ms = commutator_moves(seq![yv, xv]);
                        assert forall|k: int| 0 <= k < ms.len() implies (#[trigger] parse_move(ms[k], size as int)) is Some by {}
                    }
                    if consider(size, cube, orbit, fs, colors, mask, dry_run, &parts2, &ps2, best_seq, best_score)? {
                        return Ok(true);
                    }
                }
            }
            assert(distinct_pieces(orbit.pieces@) ==> !pair_clean(*cube, *orbit, mask@, dry_run, xt.moves@[xi as int]@,
                yt.moves@[yi as int]@, both_forms));
            yi = yi + 1;
        }
        xi = xi + 1;
    }
    Ok(false)
}

/// Tries S X Y X' Y' S' (and, with `both_forms`, S Y X Y' X' S') for S in `st`, X in `xt`, Y in
/// `yt`, Y neither X nor its inverse, skipping S and Y both in `skip_faces` when it is given;
/// stops at the first clean solving step.
fn search_setup(
    size: usize,
    cube: &Cube,
    orbit: &Orbit,
    fs: &Vec<usize>,
    colors: &Vec<Face>,
    mask: &[bool],
    dry_run: bool,
    st: &MoveTable,
    xt: &MoveTable,
    yt: &MoveTable,
    both_forms: bool,
    skip_faces: Option<&Vec<String>>,
    best_seq: &mut Vec<String>,
    best_score: &mut usize,
) -> (r: Result<bool, CubeError>)
    requires
        search_ready(size, *cube, *orbit, fs@, colors@, mask@),
        table_ok(st, size as int),
        table_ok(xt, size as int),
        table_ok(yt, size as int),
        best_ok(*cube, *orbit, mask@, dry_run, old(best_seq)@, *old(best_score)),
        *old(best_score) < 3,
    ensures
        best_ok(*cube, *orbit, mask@, dry_run, final(best_seq)@, *final(best_score)),
        *final(best_score) >= *old(best_score),
        r matches Ok(found) ==> (found <==> *final(best_score) == 3),
        r is Ok,
        distinct_pieces(orbit.pieces@) && r == Ok::<bool, CubeError>(false) ==> forall|a: int, i: int, j: int|
            0 <= a < st.moves@.len() && 0 <= i < xt.moves@.len() && 0 <= j < yt.moves@.len() && !(in_skip_list(
                skip_view(skip_faces),
                st.moves@[a]@,
            ) && in_skip_list(skip_view(skip_faces), yt.moves@[j]@)) ==> !#[trigger] setup_clean(
                *cube,
                *orbit,
                mask@,
                dry_run,
                st.moves@[a]@,
                xt.moves@[i]@,
                yt.moves@[j]@,
                both_forms,
            ),
{
    let ghost skv = skip_view(skip_faces);
    let mut si: usize = 0;
    while si < st.moves.len()
        invariant
            table_ok(st, size as int),
            table_ok(xt, size as int),
            table_ok(yt, size as int),
            search_ready(size, *cube, *orbit, fs@, colors@, mask@),
            best_ok(*cube, *orbit, mask@, dry_run, best_seq@, *best_score),
            *best_score < 3,
            *best_score >= *old(best_score),
            skv == skip_view(skip_faces),
            distinct_pieces(orbit.pieces@) ==> forall|a: int, i: int, j: int|
                0 <= a < si && 0 <= i < xt.moves@.len() && 0 <= j < yt.moves@.len() && !(in_skip_list(skv, st.moves@[a]@)
                    && in_skip_list(skv, yt.moves@[j]@)) ==> !#[trigger] setup_clean(
                    *cube,
                    *orbit,
                    mask@,
                    dry_run,
                    st.moves@[a]@,
                    xt.moves@[i]@,
                    yt.moves@[j]@,
                    both_forms,
                ),
        decreases st.moves@.len() - si,
    {
        let s = &st.moves[si];
        let mut xi: usize = 0;
        while xi < xt.moves.len()
            invariant
                si < st.moves@.len(),
                s == &st.moves@[si as int],
                table_ok(st, size as int),
                table_ok(xt, size as int),
                table_ok(yt, size as int),
                search_ready(size, *cube, *orbit, fs@, colors@, mask@),
                best_ok(*cube, *orbit, mask@, dry_run, best_seq@, *best_score),
                *best_score < 3,
                *best_score >= *old(best_score),
                skv == skip_view(skip_faces),
                distinct_pieces(orbit.pieces@) ==> forall|a: int, i: int, j: int|
                    0 <= a < si && 0 <= i < xt.moves@.len() && 0 <= j < yt.moves@.len() && !(in_skip_list(skv, st.moves@[a]@)
                        && in_skip_list(skv, yt.moves@[j]@)) ==> !#[trigger] setup_clean(
                        *cube,
                        *orbit,
                        mask@,
                        dry_run,
                        st.moves@[a]@,
                        xt.moves@[i]@,
                        yt.moves@[j]@,
                        both_forms,
                    ),
                distinct_pieces(orbit.pieces@) ==> forall|i: int, j: int|
                    0 <= i < xi && 0 <= j < yt.moves@.len() && !(in_skip_list(skv, st.moves@[si as int]@) && in_skip_list(
                        skv,
                        yt.moves@[j]@,
                    )) ==> !#[trigger] setup_clean(
                        *cube,
                        *orbit,
                        mask@,
                        dry_run,
                        st.moves@[si as int]@,
                        xt.moves@[i]@,
                        yt.moves@[j]@,
                        both_forms,
                    ),
            decreases xt.moves@.len() - xi,
        {
            let mut yi: usize = 0;
            while yi < yt.moves.len()
                invariant
                    si < st.moves@.len(),
                    xi < xt.moves@.len(),
                    s == &st.moves@[si as int],
                    table_ok(st, size as int),
                    table_ok(xt, size as int),
                    table_ok(yt, size as int),
                    search_ready(size, *cube, *orbit, fs@, colors@, mask@),
                    best_ok(*cube, *orbit, mask@, dry_run, best_seq@, *best_score),
                    *best_score < 3,
                    *best_score >= *old(best_score),
                    skv == skip_view(skip_faces),
                    distinct_pieces(orbit.pieces@) ==> forall|a: int, i: int, j: int|
                        0 <= a < si && 0 <= i < xt.moves@.len() && 0 <= j < yt.moves@.len() && !(in_skip_list(skv, st.moves@[a]@)
                            && in_skip_list(skv, yt.moves@[j]@)) ==> !#[trigger] setup_clean(
                            *cube,
                            *orbit,
                            mask@,
                            dry_run,
                            st.moves@[a]@,
                            xt.moves@[i]@,
                            yt.moves@[j]@,
                            both_forms,
                        ),
                    distinct_pieces(orbit.pieces@) ==> forall|i: int, j: int|
                        0 <= i < xi && 0 <= j < yt.moves@.len() && !(in_skip_list(skv, st.moves@[si as int]@) && in_skip_list(
                            skv,
                            yt.moves@[j]@,
                        )) ==> !#[trigger] setup_clean(
                            *cube,
                            *orbit,
                            mask@,
                            dry_run,
                            st.moves@[si as int]@,
                            xt.moves@[i]@,
                            yt.moves@[j]@,
                            both_forms,
                        ),
                    distinct_pieces(orbit.pieces@) ==> forall|j: int|
                        0 <= j < yi && !(in_skip_list(skv, st.moves@[si as int]@) && in_skip_list(skv, yt.moves@[j]@))
                            ==> !#[trigger] setup_clean(
                            *cube,
                            *orbit,
                            mask@,
                            dry_run,
                            st.moves@[si as int]@,
                            xt.moves@[xi as int]@,
                            yt.moves@[j]@,
                            both_forms,
                        ),
                decreases yt.moves@.len() - yi,
            {
                let x = &xt.moves[xi];
                let y = &yt.moves[yi];
                let skipped = match skip_faces {
                    Some(faces) => contains_move(faces, s) && contains_move(faces, y),
                    None => false,
                };
                assert(skipped == (in_skip_list(skv, st.moves@[si as int]@) && in_skip_list(skv, yt.moves@[yi as int]@)));
                if !skipped && !same_or_inverse(x, y) {
                    let ghost sv = s@;
                    let ghost xv = x@;
                    let ghost yv = y@;
                    let parts = vec![s, x, y];
                    let ps = vec![&st.fwd[si], &xt.fwd[xi], &yt.fwd[yi], &xt.inv[xi], &yt.inv[yi], &st.inv[si]];
                    proof {
                        assert(parts@.map_values(|q: &String| q@) =~= seq![sv, xv, yv]);
                        let ms = commutator_moves(seq![sv, xv, yv]);
                        assert forall|k: int| 0 <= k < ms.len() implies (#[trigger] parse_move(ms[k], size as int)) is Some by {}
                    }
                    if consider(size, cube, orbit, fs, colors, mask, dry_run, &parts, &ps, best_seq, best_score)? {
                        return Ok(true);
                    }
                    if both_forms {
                        let parts2 = vec![s, y, x];
                        let ps2 = vec![&st.fwd[si], &yt.fwd[yi], &xt.fwd[xi], &yt.inv[yi], &xt.inv[xi], &st.inv[si]];
                        proof {
                            assert(parts2@.map_values(|q: &String| q@) =~= seq![sv, yv, xv]);
                            let ms = commutator_moves(seq![sv, yv, xv]);
                            assert forall|k: int| 0 <= k < ms.len() implies (#[trigger] parse_move(ms[k], size as int)) is Some by {}
                        }
                        if consider(size, cube, orbit, fs, colors, mask, dry_run, &parts2, &ps2, best_seq, best_score)? {
                            return Ok(true);
                        }
                    }
                }
                assert(distinct_pieces(orbit.pieces@) && !skipped ==> !setup_clean(*cube, *orbit, mask@, dry_run,
                    st.moves@[si as int]@, xt.moves@[xi as int]@, yt.moves@[yi as int]@, both_forms));
                yi = yi + 1;
            }
            xi = xi + 1;
        }
        si = si + 1;
    }
    Ok(false)
}

/// Tries S1 S2 X Y X' Y' S2' S1' for S1, S2 in `st` (S2 neither S1 nor its inverse), X in `xt`,
/// Y in `yt` (neither X nor its inverse, and not in `skip_y` when it is given); stops at the
/// first clean solving step.
fn search_double_setup(
    size: usize,
    cube: &Cube,
    orbit: &Orbit,
    fs: &Vec<usize>,
    colors: &Vec<Face>,
    mask: &[bool],
    dry_run: bool,
    st: &MoveTable,
    xt: &MoveTable,
    yt: &MoveTable,
    skip_y: Option<&Vec<String>>,
    best_seq: &mut Vec<String>,
    best_score: &mut usize,
) -> (r: Result<bool, CubeError>)
    requires
        search_ready(size, *cube, *orbit, fs@, colors@, mask@),
        table_ok(st, size as int),
        table_ok(xt, size as int),
        table_ok(yt, size as int),
        best_ok(*cube, *orbit, mask@, dry_run, old(best_seq)@, *old(best_score)),
        *old(best_score) < 3,
    ensures
        best_ok(*cube, *orbit, mask@, dry_run, final(best_seq)@, *final(best_score)),
        *final(best_score) >= *old(best_score),
        r matches Ok(found) ==> (found <==> *final(best_score) == 3),
        r is Ok,
        distinct_pieces(orbit.pieces@) && r == Ok::<bool, CubeError>(false) ==> forall|a: int, b: int, i: int, l: int|
            0 <= a < st.moves@.len() && 0 <= b < st.moves@.len() && 0 <= i < xt.moves@.len() && 0 <= l < yt.moves@.len()
                && !in_skip_list(skip_view(skip_y), yt.moves@[l]@) ==> !#[trigger] double_clean(
                *cube,
                *orbit,
                mask@,
                dry_run,
                st.moves@[a]@,
                st.moves@[b]@,
                xt.moves@[i]@,
                yt.moves@[l]@,
            ),
{
    let ghost skv = skip_view(skip_y);
    let mut s1i: usize = 0;
    while s1i < st.moves.len()
        invariant
            table_ok(st, size as int),
            table_ok(xt, size as int),
            table_ok(yt, size as int),
            search_ready(size, *cube, *orbit, fs@, colors@, mask@),
            best_ok(*cube, *orbit, mask@, dry_run, best_seq@, *best_score),
            *best_score < 3,
            *best_score >= *old(best_score),
            skv == skip_view(skip_y),
            distinct_pieces(orbit.pieces@) ==> forall|a: int, b: int, i: int, l: int|
                0 <= a < s1i && 0 <= b < st.moves@.len() && 0 <= i < xt.moves@.len() && 0 <= l < yt.moves@.len() && !in_skip_list(skv, yt.moves@[l]@) ==> !#[trigger] double_clean(*cube, *orbit, mask@, dry_run, st.moves@[a]@, st.moves@[b]@, xt.moves@[i]@, yt.moves@[l]@),
        decreases st.moves@.len() - s1i,
    {
        let mut s2i: usize = 0;
        while s2i < st.moves.len()
            invariant
                s1i < st.moves@.len(),
            table_ok(st, size as int),
            table_ok(xt, size as int),
            table_ok(yt, size as int),
            search_ready(size, *cube, *orbit, fs@, colors@, mask@),
            best_ok(*cube, *orbit, mask@, dry_run, best_seq@, *best_score),
            *best_score < 3,
            *best_score >= *old(best_score),
            skv == skip_view(skip_y),
            distinct_pieces(orbit.pieces@) ==> forall|a: int, b: int, i: int, l: int|
                0 <= a < s1i && 0 <= b < st.moves@.len() && 0 <= i < xt.moves@.len() && 0 <= l < yt.moves@.len() && !in_skip_list(skv, yt.moves@[l]@) ==> !#[trigger] double_clean(*cube, *orbit, mask@, dry_run, st.moves@[a]@, st.moves@[b]@, xt.moves@[i]@, yt.moves@[l]@),
            distinct_pieces(orbit.pieces@) ==> forall|b: int, i: int, l: int|
                0 <= b < s2i && 0 <= i < xt.moves@.len() && 0 <= l < yt.moves@.len() && !in_skip_list(skv, yt.moves@[l]@) ==> !#[trigger] double_clean(*cube, *orbit, mask@, dry_run, st.moves@[s1i as int]@, st.moves@[b]@, xt.moves@[i]@, yt.moves@[l]@),
            decreases st.moves@.len() - s2i,
        {
            let s1 = &st.moves[s1i];
            let s2 = &st.moves[s2i];
            if !same_or_inverse(s1, s2) {
                let mut xi: usize = 0;
                while xi < xt.moves.len()
                    invariant
                        s1i < st.moves@.len(),
                        s2i < st.moves@.len(),
                        s1 == &st.moves@[s1i as int],
                        s2 == &st.moves@[s2i as int],
            table_ok(st, size as int),
            table_ok(xt, size as int),
            table_ok(yt, size as int),
            search_ready(size, *cube, *orbit, fs@, colors@, mask@),
            best_ok(*cube, *orbit, mask@, dry_run, best_seq@, *best_score),
            *best_score < 3,
            *best_score >= *old(best_score),
            skv == skip_view(skip_y),
            distinct_pieces(orbit.pieces@) ==> forall|a: int, b: int, i: int, l: int|
                0 <= a < s1i && 0 <= b < st.moves@.len() && 0 <= i < xt.moves@.len() && 0 <= l < yt.moves@.len() && !in_skip_list(skv, yt.moves@[l]@) ==> !#[trigger] double_clean(*cube, *orbit, mask@, dry_run, st.moves@[a]@, st.moves@[b]@, xt.moves@[i]@, yt.moves@[l]@),
            distinct_pieces(orbit.pieces@) ==> forall|b: int, i: int, l: int|
                0 <= b < s2i && 0 <= i < xt.moves@.len() && 0 <= l < yt.moves@.len() && !in_skip_list(skv, yt.moves@[l]@) ==> !#[trigger] double_clean(*cube, *orbit, mask@, dry_run, st.moves@[s1i as int]@, st.moves@[b]@, xt.moves@[i]@, yt.moves@[l]@),
            distinct_pieces(orbit.pieces@) ==> forall|i: int, l: int|
                0 <= i < xi && 0 <= l < yt.moves@.len() && !in_skip_list(skv, yt.moves@[l]@) ==> !#[trigger] double_clean(*cube, *orbit, mask@, dry_run, st.moves@[s1i as int]@, st.moves@[s2i as int]@, xt.moves@[i]@, yt.moves@[l]@),
                    decreases xt.moves@.len() - xi,
                {
                    let mut yi: usize = 0;
                    while yi < yt.moves.len()
                        invariant
                            s1i < st.moves@.len(),
                            s2i < st.moves@.len(),
                            xi < xt.moves@.len(),
                            s1 == &st.moves@[s1i as int],
                            s2 == &st.moves@[s2i as int],
            table_ok(st, size as int),
            table_ok(xt, size as int),
            table_ok(yt, size as int),
            search_ready(size, *cube, *orbit, fs@, colors@, mask@),
            best_ok(*cube, *orbit, mask@, dry_run, best_seq@, *best_score),
            *best_score < 3,
            *best_score >= *old(best_score),
            skv == skip_view(skip_y),
            distinct_pieces(orbit.pieces@) ==> forall|a: int, b: int, i: int, l: int|
                0 <= a < s1i && 0 <= b < st.moves@.len() && 0 <= i < xt.moves@.len() && 0 <= l < yt.moves@.len() && !in_skip_list(skv, yt.moves@[l]@) ==> !#[trigger] double_clean(*cube, *orbit, mask@, dry_run, st.moves@[a]@, st.moves@[b]@, xt.moves@[i]@, yt.moves@[l]@),
            distinct_pieces(orbit.pieces@) ==> forall|b: int, i: int, l: int|
                0 <= b < s2i && 0 <= i < xt.moves@.len() && 0 <= l < yt.moves@.len() && !in_skip_list(skv, yt.moves@[l]@) ==> !#[trigger] double_clean(*cube, *orbit, mask@, dry_run, st.moves@[s1i as int]@, st.moves@[b]@, xt.moves@[i]@, yt.moves@[l]@),
            distinct_pieces(orbit.pieces@) ==> forall|i: int, l: int|
                0 <= i < xi && 0 <= l < yt.moves@.len() && !in_skip_list(skv, yt.moves@[l]@) ==> !#[trigger] double_clean(*cube, *orbit, mask@, dry_run, st.moves@[s1i as int]@, st.moves@[s2i as int]@, xt.moves@[i]@, yt.moves@[l]@),
            distinct_pieces(orbit.pieces@) ==> forall|l: int|
                0 <= l < yi && !in_skip_list(skv, yt.moves@[l]@) ==> !#[trigger] double_clean(*cube, *orbit, mask@, dry_run, st.moves@[s1i as int]@, st.moves@[s2i as int]@, xt.moves@[xi as int]@, yt.moves@[l]@),
                        decreases yt.moves@.len() - yi,
                    {
                        let x = &xt.moves[xi];
                        let y = &yt.moves[yi];
                        let skipped = match skip_y {
                            Some(faces) => contains_move(faces, y),
                            None => false,
                        };
                        assert(skipped == in_skip_list(skv, yt.moves@[yi as int]@));
                        if !skipped && !same_or_inverse(x, y) {
                            let ghost a = s1@;
                            let ghost b = s2@;
                            let ghost xv = x@;
                            let ghost yv = y@;
                            let parts = vec![s1, s2, x, y];
                            let ps = vec![
                                &st.fwd[s1i], &st.fwd[s2i], &xt.fwd[xi], &yt.fwd[yi], &xt.inv[xi], &yt.inv[yi], &st.inv[s2i],
                                &st.inv[s1i],
                            ];
                            proof {
                                assert(parts@.map_values(|q: &String| q@) =~= seq![a, b, xv, yv]);
                                let ms = commutator_moves(seq![a, b, xv, yv]);
                                assert forall|k: int| 0 <= k < ms.len() implies (#[trigger] parse_move(ms[k], size as int)) is Some by {}
                            }
                            if consider(size, cube, orbit, fs, colors, mask, dry_run, &parts, &ps, best_seq, best_score)? {
                                return Ok(true);
                            }
                        }
                        assert(distinct_pieces(orbit.pieces@) && !skipped ==> !double_clean(*cube, *orbit, mask@, dry_run,
                            st.moves@[s1i as int]@, st.moves@[s2i as int]@, xt.moves@[xi as int]@, yt.moves@[yi as int]@));
                        yi = yi + 1;
                    }
                    xi = xi + 1;
                }
            } else {
                assert forall|i: int, l: int| 0 <= i < xt.moves@.len() && 0 <= l < yt.moves@.len() implies !#[trigger] double_clean(
                    *cube, *orbit, mask@, dry_run, st.moves@[s1i as int]@, st.moves@[s2i as int]@, xt.moves@[i]@, yt.moves@[l]@) by {}
            }
            s2i = s2i + 1;
        }
        s1i = s1i + 1;
    }
    Ok(false)
}

/// A list of candidates that parse (with their inverses) gives a table of moves that parse.
proof fn lemma_table_input(v: Seq<String>, n: int)
    requires
        candidates_parse(strings_view(v), n),
    ensures
        forall|q: int| 0 <= q < v.len() ==> parse_move((#[trigger] v[q])@, n) is Some && parse_move(inverse_move(v[q]@), n) is Some,
{
    assert forall|q: int| 0 <= q < v.len() implies parse_move((#[trigger] v[q])@, n) is Some && parse_move(inverse_move(v[q]@), n)
        is Some by {
        assert(strings_view(v)[q] == v[q]@);
    }
}

/// Candidates that parse stay so when joined or filtered.
proof fn lemma_candidates_parse_join(a: Seq<Seq<char>>, b: Seq<Seq<char>>, n: int)
    requires
        candidates_parse(a, n),
        candidates_parse(b, n),
    ensures
        candidates_parse(a + b, n),
        candidates_parse(a.filter(|m: Seq<char>| !(m.len() > 0 && m.last() == '2')), n),
{
    assert forall|q: int| 0 <= q < (a + b).len() implies parse_move(#[trigger] (a + b)[q], n) is Some && parse_move(inverse_move((a + b)[q]), n) is Some by {
        if q < a.len() {
            assert((a + b)[q] == a[q]);
        } else {
            assert((a + b)[q] == b[q - a.len()]);
        }
    }
    let f = |m: Seq<char>| !(m.len() > 0 && m.last() == '2');
    let fa = a.filter(f);
    assert forall|q: int| 0 <= q < fa.len() implies parse_move(#[trigger] fa[q], n) is Some && parse_move(inverse_move(fa[q]), n) is Some by {
        assert(fa.contains(fa[q]));
        a.lemma_filter_contains_rev(f, fa[q]);
        assert(a.contains(fa[q]));
        let k = choose|k: int| 0 <= k < a.len() && a[k] == fa[q];
        assert(parse_move(a[k], n) is Some);
    }
}

/// Whether each candidate move and its inverse parse on a cube of size n.
pub open spec fn candidates_parse(v: Seq<Seq<char>>, n: int) -> bool {
    forall|q: int| 0 <= q < v.len() ==> parse_move(#[trigger] v[q], n) is Some && parse_move(inverse_move(v[q]), n) is Some
}

#[verifier::rlimit(100)]
/// Finds a commutator S + [X, Y] + S' (no setup, one setup move or two) that makes progress on
/// the orbit without disturbing its solved pieces or, outside a dry run, the pieces of the orbits
/// solved before it. The search runs in stages and returns the first candidate of score 3 (a
/// clean solving step); else it fails. A candidate of net progress (score 2) is never returned:
/// it always unsolves a marked piece, and such a candidate is rejected.
pub fn find_any_solving_commutator(
    size: usize,
    cube: &Cube,
    orbit: &Orbit,
    solved_mask: &[bool],
    dry_run: bool,
) -> (r: Result<Vec<String>, CubeError>)
    requires
        size == cube.n(),
        orbit.d_min < size,
        orbit.d_max < size,
        solved_mask@.len() >= orbit.pieces@.len(),
    ensures
        r matches Ok(seq) ==> scored_commutator(*cube, *orbit, solved_mask@, dry_run, seq@, 3),
        r matches Ok(found) ==> (distinct_pieces(orbit.pieces@) ==> marked_solved_hold(
            apply_moves_spec(cube.cells(), cube.n(), strings_view(found@)),
            cube.n(),
            orbit.pieces@,
            solved_mask@,
        )),
        !pieces_in_range(size as int, orbit.pieces@) ==> (r matches Err(e) && out_of_range_error(size as int, orbit.pieces@, e)),
        ({
            let sl = slice_candidates(crossing_slices(size as int, orbit.d_min as int, orbit.d_max as int), 6, size as int);
            let fc = face_candidates(6);
            &&& pieces_in_range(size as int, orbit.pieces@)
            &&& distinct_pieces(orbit.pieces@)
            &&& candidates_parse(sl, size as int)
            &&& candidates_parse(fc, size as int)
            &&& exists|i: int, j: int|
                0 <= i < sl.len() && 0 <= j < fc.len() && #[trigger] pair_clean(
                    *cube,
                    *orbit,
                    solved_mask@,
                    dry_run,
                    sl[i],
                    fc[j],
                    true,
                )
        }) ==> (r matches Ok(seq) && scored_commutator(*cube, *orbit, solved_mask@, dry_run, seq@, 3)),
        ({
            let sl = slice_candidates(crossing_slices(size as int, orbit.d_min as int, orbit.d_max as int), 6, size as int);
            let fc = face_candidates(6);
            pieces_in_range(size as int, orbit.pieces@) && candidates_parse(sl, size as int) && candidates_parse(fc, size as int)
        }) ==> (r is Ok || (r matches Err(CubeError::InvalidMove(m)) && m@ == "No solving commutator found with positive progress"@)),
        search_owed(*cube, *orbit, solved_mask@, dry_run) ==> r is Ok,
{
    let n = cube.size();
    let (slice_moves, face_moves) = get_candidate_moves(size, orbit);
    let colors = orbit_current_colors(cube, orbit)?;
    let mut y_candidates = copy_strings(&face_moves);
    let mut extra = copy_strings(&slice_moves);
    y_candidates.append(&mut extra);
    let mut all_setup_candidates = copy_strings(&face_moves);
    let mut extra2 = copy_strings(&slice_moves);
    all_setup_candidates.append(&mut extra2);
    let simple_x = without_half_turns(&slice_moves);
    let fs = orbit_flat_indices(size, orbit);
    let ghost sl = strings_view(slice_moves@);
    let ghost fc = strings_view(face_moves@);
    let ghost inp = pieces_in_range(size as int, orbit.pieces@) && candidates_parse(sl, size as int) && candidates_parse(fc, size as int);
    proof {
        assert(strings_view(y_candidates@) =~= fc + sl);
        assert(strings_view(all_setup_candidates@) =~= fc + sl);
        if inp {
            lemma_candidates_parse_join(fc, sl, size as int);
            lemma_candidates_parse_join(sl, fc, size as int);
            lemma_candidates_parse_join(fc + sl, sl, size as int);
        }
    }
    let ghost hyp = distinct_pieces(orbit.pieces@) && candidates_parse(sl, size as int) && candidates_parse(fc, size as int)
        && exists|i: int, j: int|
        0 <= i < sl.len() && 0 <= j < fc.len() && #[trigger] pair_clean(*cube, *orbit, solved_mask@, dry_run, sl[i], fc[j], true);
    let slice_copy = copy_strings(&slice_moves);
    proof {
        if hyp {
            assert forall|q: int| 0 <= q < slice_copy@.len() implies parse_move((#[trigger] slice_copy@[q])@, size as int)
                is Some && parse_move(inverse_move(slice_copy@[q]@), size as int) is Some by {
                assert(strings_view(slice_copy@)[q] == slice_copy@[q]@);
            }
        }
    }
    proof {
        if inp {
            lemma_table_input(slice_copy@, size as int);
        }
    }
    let slice_t = build_table(size, slice_copy)?;
    let face_copy = copy_strings(&face_moves);
    proof {
        if hyp {
            assert forall|q: int| 0 <= q < face_copy@.len() implies parse_move((#[trigger] face_copy@[q])@, size as int)
                is Some && parse_move(inverse_move(face_copy@[q]@), size as int) is Some by {
                assert(strings_view(face_copy@)[q] == face_copy@[q]@);
            }
        }
    }
    proof {
        if inp {
            lemma_table_input(face_copy@, size as int);
        }
    }
    let face_t = build_table(size, face_copy)?;
    let mut best_seq: Vec<String> = Vec::new();
    let mut best_score: usize = 0;
    // 1a. [Slice, Face] and [Face, Slice]
    let found = search_pairs(size, cube, orbit, &fs, &colors, solved_mask, dry_run, &slice_t, &face_t, true,
        &mut best_seq, &mut best_score);
    proof {
        if hyp {
            let (i, j) = choose|i: int, j: int|
                0 <= i < sl.len() && 0 <= j < fc.len() && #[trigger] pair_clean(*cube, *orbit, solved_mask@, dry_run, sl[i], fc[j], true);
            assert(strings_view(slice_t.moves@)[i] == slice_t.moves@[i]@);
            assert(strings_view(face_t.moves@)[j] == face_t.moves@[j]@);
            assert(pair_clean(*cube, *orbit, solved_mask@, dry_run, slice_t.moves@[i]@, face_t.moves@[j]@, true));
            assert(found == Ok::<bool, CubeError>(true));
        }
    }
    if found? {
        return Ok(best_seq);
    }
    assert(!hyp);
    proof {
        if inp {
            lemma_candidates_parse_join(sl, fc, size as int);
        }
    }
    later_stages(size, cube, orbit, &fs, &colors, solved_mask, dry_run, &slice_t, &face_t, &face_moves, &y_candidates,
        all_setup_candidates, simple_x, best_seq, best_score, Ghost(inp))

}

/// The search after the [Slice, Face] stage: [Slice, Slice], face setups, any setup, two face
/// setups, then the rescue scan with slice turns as Y, else the error. A candidate of score 2 is
/// kept only when it unsolves no marked piece, which never happens; so the result is the first
/// clean solving step, or the error.
fn later_stages(
    size: usize,
    cube: &Cube,
    orbit: &Orbit,
    fs: &Vec<usize>,
    colors: &Vec<Face>,
    solved_mask: &[bool],
    dry_run: bool,
    slice_t: &MoveTable,
    face_t: &MoveTable,
    face_moves: &Vec<String>,
    y_candidates: &Vec<String>,
    all_setup_candidates: Vec<String>,
    simple_x: Vec<String>,
    best_seq: Vec<String>,
    best_score: usize,
    Ghost(inp): Ghost<bool>,
) -> (r: Result<Vec<String>, CubeError>)
    requires
        size >= 2,
        search_ready(size, *cube, *orbit, fs@, colors@, solved_mask@),
        table_ok(slice_t, size as int),
        table_ok(face_t, size as int),
        best_ok(*cube, *orbit, solved_mask@, dry_run, best_seq@, best_score),
        best_score < 3,
        inp ==> candidates_parse(strings_view(face_moves@), size as int) && candidates_parse(strings_view(y_candidates@), size as int)
            && candidates_parse(strings_view(all_setup_candidates@), size as int) && candidates_parse(strings_view(simple_x@), size as int),
        strings_view(slice_t.moves@) == orbit_slice_turns(*cube, *orbit),
        strings_view(face_t.moves@) == face_candidates(6),
        strings_view(face_moves@) == face_candidates(6),
        strings_view(y_candidates@) == face_candidates(6) + orbit_slice_turns(*cube, *orbit),
        strings_view(all_setup_candidates@) == face_candidates(6) + orbit_slice_turns(*cube, *orbit),
        strings_view(simple_x@) == quarter_turns(orbit_slice_turns(*cube, *orbit)),
    ensures
        r matches Ok(seq) ==> scored_commutator(*cube, *orbit, solved_mask@, dry_run, seq@, 3)
            || scored_commutator(*cube, *orbit, solved_mask@, dry_run, seq@, 2),
        inp ==> (r is Ok || (r matches Err(CubeError::InvalidMove(m)) && m@ == "No solving commutator found with positive progress"@)),
        inp && distinct_pieces(orbit.pieces@) && r is Err ==> !later_stage_clean(*cube, *orbit, solved_mask@, dry_run),
        r matches Ok(seq) ==> scored_commutator(*cube, *orbit, solved_mask@, dry_run, seq@, 3),
{
    let _n = cube.size();
    let _len = orbit.pieces.len();
    let ghost sl = orbit_slice_turns(*cube, *orbit);
    let ghost fc = face_candidates(6);
    let ghost dist = distinct_pieces(orbit.pieces@);
    let mut best_seq = best_seq;
    let mut best_score = best_score;
    let ghost fcv = strings_view(face_moves@);
    let ghost ys = strings_view(y_candidates@);
    proof {
        if inp {
            lemma_candidates_parse_join(fcv, fcv, size as int);
            lemma_candidates_parse_join(ys, ys, size as int);
        }
    }
    // 1b. [Slice, Slice]
    let f1 = search_pairs(size, cube, orbit, fs, colors, solved_mask, dry_run, slice_t, slice_t, false,
        &mut best_seq, &mut best_score);
    if f1? {
        return Ok(best_seq);
    }
    // 2a. Face setup + [Slice, Face] / [Face, Slice]
    let f2 = search_setup(size, cube, orbit, fs, colors, solved_mask, dry_run, face_t, slice_t, face_t, true,
        None, &mut best_seq, &mut best_score);
    if f2? {
        return Ok(best_seq);
    }
    // 2b. Any setup + any commutator (pairs of face setup and face Y were tried in 2a); a dry run
    // keeps Y among the face moves.
    proof {
        if inp {
            lemma_table_input(all_setup_candidates@, size as int);
        }
    }
    let setup_t = build_table(size, all_setup_candidates)?;
    let y_t = if dry_run {
        let fm = copy_strings(face_moves);
        proof {
            if inp {
                lemma_table_input(fm@, size as int);
            }
        }
        build_table(size, fm)?
    } else {
        let ym = copy_strings(y_candidates);
        proof {
            if inp {
                lemma_table_input(ym@, size as int);
            }
        }
        build_table(size, ym)?
    };
    assert(strings_view(y_t.moves@) == if dry_run { fc } else { fc + sl });
    let f3 = search_setup(size, cube, orbit, fs, colors, solved_mask, dry_run, &setup_t, slice_t, &y_t, false,
        Some(face_moves), &mut best_seq, &mut best_score);
    if f3? {
        return Ok(best_seq);
    }
    // 3. Two face setup moves, quarter turns only (not in a dry run)
    proof {
        if inp {
            lemma_table_input(simple_x@, size as int);
        }
    }
    let simple_x_t = build_table(size, simple_x)?;
    let ghost stage3_done = false;
    if !dry_run {
        let wf = without_half_turns(face_moves);
        proof {
            if inp {
                lemma_table_input(wf@, size as int);
            }
        }
        let simple_y_t = build_table(size, wf)?;
        let f4 = search_double_setup(size, cube, orbit, fs, colors, solved_mask, dry_run, face_t, &simple_x_t, &simple_y_t,
            None, &mut best_seq, &mut best_score);
        if f4? {
            return Ok(best_seq);
        }
        proof {
            if dist {
                lemma_no_double_clean(*cube, *orbit, solved_mask@, dry_run, face_t, &simple_x_t, &simple_y_t, None,
                    fc, quarter_turns(sl), quarter_turns(fc));
            }
        }
    }
    if best_score >= 2 {
        proof {
            lemma_no_net_progress_score(cube.cells(), cube.n(), orbit@, solved_mask@, strings_view(best_seq@), dry_run);
        }
        return Ok(best_seq);
    }
    // 4. Rescue scan with slice moves as Y (not in a dry run)
    if !dry_run {
        let wy = without_half_turns(y_candidates);
        proof {
            if inp {
                lemma_table_input(wy@, size as int);
            }
        }
        let simple_y_t = build_table(size, wy)?;
        let f5 = search_double_setup(size, cube, orbit, fs, colors, solved_mask, dry_run, face_t, &simple_x_t, &simple_y_t,
            Some(face_moves), &mut best_seq, &mut best_score);
        if f5? {
            return Ok(best_seq);
        }
        proof {
            if dist {
                lemma_no_double_clean(*cube, *orbit, solved_mask@, dry_run, face_t, &simple_x_t, &simple_y_t, Some(fc),
                    fc, quarter_turns(sl), quarter_turns(fc + sl));
            }
        }
    }
    if best_score >= 2 {
        proof {
            lemma_no_net_progress_score(cube.cells(), cube.n(), orbit@, solved_mask@, strings_view(best_seq@), dry_run);
        }
        return Ok(best_seq);
    }
    proof {
        if dist {
            if exists|i: int, j: int| 0 <= i < sl.len() && 0 <= j < sl.len() && #[trigger] pair_clean(*cube, *orbit, solved_mask@, dry_run, sl[i], sl[j], false) {
                let (i, j) = choose|i: int, j: int| 0 <= i < sl.len() && 0 <= j < sl.len() && #[trigger] pair_clean(*cube, *orbit, solved_mask@, dry_run, sl[i], sl[j], false);
                assert(strings_view(slice_t.moves@)[i] == slice_t.moves@[i]@);
                assert(strings_view(slice_t.moves@)[j] == slice_t.moves@[j]@);
                assert(false);
            }
            if exists|a: int, i: int, j: int|
                0 <= a < fc.len() && 0 <= i < sl.len() && 0 <= j < fc.len() && #[trigger] setup_clean(*cube, *orbit, solved_mask@, dry_run, fc[a], sl[i], fc[j], true) {
                let (a, i, j) = choose|a: int, i: int, j: int|
                    0 <= a < fc.len() && 0 <= i < sl.len() && 0 <= j < fc.len() && #[trigger] setup_clean(*cube, *orbit, solved_mask@, dry_run, fc[a], sl[i], fc[j], true);
                assert(strings_view(face_t.moves@)[a] == face_t.moves@[a]@);
                assert(strings_view(slice_t.moves@)[i] == slice_t.moves@[i]@);
                assert(strings_view(face_t.moves@)[j] == face_t.moves@[j]@);
                assert(!in_skip_list(skip_view(None), face_t.moves@[a]@));
                assert(false);
            }
            let st = fc + sl;
            let ysv = if dry_run { fc } else { fc + sl };
            if exists|a: int, i: int, j: int|
                0 <= a < st.len() && 0 <= i < sl.len() && 0 <= j < ysv.len() && !(fc.contains(st[a]) && fc.contains(ysv[j]))
                    && #[trigger] setup_clean(*cube, *orbit, solved_mask@, dry_run, st[a], sl[i], ysv[j], false) {
                let (a, i, j) = choose|a: int, i: int, j: int|
                    0 <= a < st.len() && 0 <= i < sl.len() && 0 <= j < ysv.len() && !(fc.contains(st[a]) && fc.contains(ysv[j]))
                        && #[trigger] setup_clean(*cube, *orbit, solved_mask@, dry_run, st[a], sl[i], ysv[j], false);
                assert(strings_view(setup_t.moves@)[a] == setup_t.moves@[a]@);
                assert(strings_view(slice_t.moves@)[i] == slice_t.moves@[i]@);
                assert(strings_view(y_t.moves@)[j] == y_t.moves@[j]@);
                assert(skip_view(Some(face_moves)) == Some(fc));
                assert(false);
            }
        }
    }
    Err(CubeError::InvalidMove(crate::text::string_of("No solving commutator found with positive progress")))
}

/// A search over two setups that found nothing rules out every clean step over the lists its
/// tables hold.
proof fn lemma_no_double_clean(
    cube: Cube,
    orbit: Orbit,
    mask: Seq<bool>,
    dry_run: bool,
    st: &MoveTable,
    xt: &MoveTable,
    yt: &MoveTable,
    skip: Option<Seq<Seq<char>>>,
    sv: Seq<Seq<char>>,
    xv: Seq<Seq<char>>,
    yv: Seq<Seq<char>>,
)
    requires
        strings_view(st.moves@) == sv,
        strings_view(xt.moves@) == xv,
        strings_view(yt.moves@) == yv,
        forall|a: int, b: int, i: int, l: int|
            0 <= a < st.moves@.len() && 0 <= b < st.moves@.len() && 0 <= i < xt.moves@.len() && 0 <= l < yt.moves@.len()
                && !in_skip_list(skip, yt.moves@[l]@) ==> !#[trigger] double_clean(
                cube,
                orbit,
                mask,
                dry_run,
                st.moves@[a]@,
                st.moves@[b]@,
                xt.moves@[i]@,
                yt.moves@[l]@,
            ),
    ensures
        !exists|a: int, b: int, i: int, l: int|
            0 <= a < sv.len() && 0 <= b < sv.len() && 0 <= i < xv.len() && 0 <= l < yv.len() && !in_skip_list(skip, yv[l])
                && #[trigger] double_clean(cube, orbit, mask, dry_run, sv[a], sv[b], xv[i], yv[l]),
{
    if exists|a: int, b: int, i: int, l: int|
        0 <= a < sv.len() && 0 <= b < sv.len() && 0 <= i < xv.len() && 0 <= l < yv.len() && !in_skip_list(skip, yv[l])
            && #[trigger] double_clean(cube, orbit, mask, dry_run, sv[a], sv[b], xv[i], yv[l]) {
        let (a, b, i, l) = choose|a: int, b: int, i: int, l: int|
            0 <= a < sv.len() && 0 <= b < sv.len() && 0 <= i < xv.len() && 0 <= l < yv.len() && !in_skip_list(skip, yv[l])
                && #[trigger] double_clean(cube, orbit, mask, dry_run, sv[a], sv[b], xv[i], yv[l]);
        assert(sv[a] == st.moves@[a]@);
        assert(sv[b] == st.moves@[b]@);
        assert(xv[i] == xt.moves@[i]@);
        assert(yv[l] == yt.moves@[l]@);
        assert(false);
    }
}

} // verus!
