//! Parity fixes written directly on 54-character 3x3 state strings.

use vstd::prelude::*;
use crate::text::{chars_of, string_from_chars, push_char};
use crate::orientation::{Face, IVec3, RotationMove, face_letter, face_letter_spec};
use crate::nxn::state::{
    NxNState, Facelet, face_order, face_order_spec, logical_coord, ivec_spec, find_facelet, state_text, sticker_char,
};
use crate::nxn::formulas::{get_oll_parity_fix, get_pll_parity_fix, oll_parity_seq, pll_parity_seq};
use crate::cube::geometry::lemma_block_index;
use crate::kociemba::{is_solvable_text, solvable_text};

verus! {

/// The state with the stickers at `i` and `j` exchanged.
pub open spec fn swap_stickers(s: Seq<char>, i: int, j: int) -> Seq<char> {
    s.update(i, s[j]).update(j, s[i])
}

/// OLL parity on a 3x3 state: the UF edge (stickers 7 on U and 19 on F) flipped; other texts
/// than 54 characters unchanged.
pub open spec fn oll_parity_state(s: Seq<char>) -> Seq<char> {
    if s.len() == 54 { swap_stickers(s, 7, 19) } else { s }
}

/// PLL parity on a 3x3 state: the UF and UB edges swapped (stickers 1 and 7 on U, 19 on F and
/// 46 on B); other texts than 54 characters unchanged.
pub open spec fn pll_parity_state(s: Seq<char>) -> Seq<char> {
    if s.len() == 54 { swap_stickers(swap_stickers(s, 1, 7), 19, 46) } else { s }
}

/// Exchanges two characters of the list.
fn swap_chars(cs: &mut Vec<char>, i: usize, j: usize)
    requires
        i < old(cs)@.len(),
        j < old(cs)@.len(),
    ensures
        final(cs)@ == swap_stickers(old(cs)@, i as int, j as int),
{
    let a = cs[i];
    let b = cs[j];
    cs.set(i, b);
    cs.set(j, a);
}

/// Applies OLL parity (flips the UF edge) directly to a 54-character 3x3 state string.
pub fn apply_oll_parity_to_string(s: &str) -> (r: String)
    ensures
        r@ == oll_parity_state(s@),
{
    let mut chars = chars_of(s);
    if chars.len() == 54 {
        swap_chars(&mut chars, 7, 19);
    }
    string_from_chars(&chars)
}

/// Applies PLL parity (swaps the UF and UB edges) directly to a 54-character 3x3 state string.
pub fn apply_pll_parity_to_string(s: &str) -> (r: String)
    ensures
        r@ == pll_parity_state(s@),
{
    let mut chars = chars_of(s);
    if chars.len() == 54 {
        swap_chars(&mut chars, 1, 7);
        swap_chars(&mut chars, 19, 46);
    }
    string_from_chars(&chars)
}

/// Row or column `v` (0, 1 or 2) of the reduced 3x3 face read on an NxN face: 0 is the first,
/// 2 the last, and 1 the middle for the center of an odd cube, else the second.
pub open spec fn reduced_index(v: int, is_center: bool, s: int) -> int {
    if v == 0 {
        0
    } else if v == 2 {
        s - 1
    } else if is_center && s % 2 == 1 {
        s / 2
    } else {
        1
    }
}

/// The last sticker of the list on `face` at cubie `coord`.
pub open spec fn find_last_facelet(fs: Seq<Facelet>, face: Face, coord: IVec3) -> Option<Facelet>
    decreases fs.len(),
{
    if fs.len() == 0 {
        None
    } else if fs.last().coord == coord && fs.last().face == face {
        Some(fs.last())
    } else {
        find_last_facelet(fs.drop_last(), face, coord)
    }
}

/// The letter at row `r`, column `c` of the reduced face at storage position `q`: the color of
/// the last sticker found there, or a space.
pub open spec fn reduced_char(fs: Seq<Facelet>, q: int, r: int, c: int, s: int) -> char {
    let face = face_order_spec(q);
    let center = r == 1 && c == 1;
    let coord = ivec_spec(logical_coord(face, reduced_index(r, center, s), reduced_index(c, center, s), s));
    match find_last_facelet(fs, face, coord) {
        Some(f) => face_letter_spec(f.color),
        None => ' ',
    }
}

/// No two stickers of the list lie on the same face at the same cubie.
pub open spec fn stickers_unique(fs: Seq<Facelet>) -> bool {
    forall|i: int, j: int|
        0 <= i < j < fs.len() ==> !(#[trigger] fs[i].face == fs[j].face && #[trigger] fs[j].coord == fs[i].coord)
}

/// The first sticker found on a face at a cubie is one of the list that lies there; none is
/// found when no sticker lies there.
proof fn lemma_find_first_index(fs: Seq<Facelet>, face: Face, coord: IVec3)
    ensures
        find_facelet(fs, face, coord) matches Some(x) ==> exists|i: int|
            0 <= i < fs.len() && fs[i] == x && #[trigger] fs[i].face == face && fs[i].coord == coord,
        find_facelet(fs, face, coord) is None ==> forall|i: int| 0 <= i < fs.len() ==> !(#[trigger] fs[i].face == face && fs[i].coord == coord),
    decreases fs.len(),
{
    if fs.len() > 0 && !(fs[0].coord == coord && fs[0].face == face) {
        let t = fs.drop_first();
        lemma_find_first_index(t, face, coord);
        if find_facelet(t, face, coord) is Some {
            let i = choose|i: int| 0 <= i < t.len() && t[i] == find_facelet(t, face, coord).unwrap() && #[trigger] t[i].face == face
                && t[i].coord == coord;
            assert(fs[i + 1] == t[i]);
        } else {
            assert forall|i: int| 0 <= i < fs.len() implies !(#[trigger] fs[i].face == face && fs[i].coord == coord) by {
                if i > 0 {
                    assert(fs[i] == t[i - 1]);
                }
            }
        }
    } else if fs.len() > 0 {
        assert(fs[0].face == face);
    }
}

/// The last sticker found on a face at a cubie is one of the list that lies there; none is
/// found when no sticker lies there.
proof fn lemma_find_last_index(fs: Seq<Facelet>, face: Face, coord: IVec3)
    ensures
        find_last_facelet(fs, face, coord) matches Some(x) ==> exists|i: int|
            0 <= i < fs.len() && fs[i] == x && #[trigger] fs[i].face == face && fs[i].coord == coord,
        find_last_facelet(fs, face, coord) is None ==> forall|i: int| 0 <= i < fs.len() ==> !(#[trigger] fs[i].face == face && fs[i].coord == coord),
    decreases fs.len(),
{
    if fs.len() > 0 && !(fs.last().coord == coord && fs.last().face == face) {
        let t = fs.drop_last();
        lemma_find_last_index(t, face, coord);
        if find_last_facelet(t, face, coord) is Some {
            let i = choose|i: int| 0 <= i < t.len() && t[i] == find_last_facelet(t, face, coord).unwrap() && #[trigger] t[i].face == face
                && t[i].coord == coord;
            assert(fs[i] == t[i]);
        } else {
            assert forall|i: int| 0 <= i < fs.len() implies !(#[trigger] fs[i].face == face && fs[i].coord == coord) by {
                if i < fs.len() - 1 {
                    assert(fs[i] == t[i]);
                }
            }
        }
    } else if fs.len() > 0 {
        assert(fs[fs.len() - 1].face == face);
    }
}

/// With no two stickers at the same place, the first and the last sticker found at a place are
/// the same.
proof fn lemma_find_first_last(fs: Seq<Facelet>, face: Face, coord: IVec3)
    requires
        stickers_unique(fs),
    ensures
        find_last_facelet(fs, face, coord) == find_facelet(fs, face, coord),
{
    lemma_find_first_index(fs, face, coord);
    lemma_find_last_index(fs, face, coord);
    if find_facelet(fs, face, coord) is Some && find_last_facelet(fs, face, coord) is Some {
        let i = choose|i: int| 0 <= i < fs.len() && fs[i] == find_facelet(fs, face, coord).unwrap() && #[trigger] fs[i].face == face
            && fs[i].coord == coord;
        let j = choose|j: int| 0 <= j < fs.len() && fs[j] == find_last_facelet(fs, face, coord).unwrap() && #[trigger] fs[j].face == face
            && fs[j].coord == coord;
        if i < j {
            assert(!(fs[i].face == fs[j].face && fs[j].coord == fs[i].coord));
        } else if j < i {
            assert(!(fs[j].face == fs[i].face && fs[i].coord == fs[j].coord));
        }
    }
}

/// The reduced 3x3 text takes its letters from the NxN state text, each face row by row: the
/// letter at row r, column c of reduced face q is the one at row reduced_index(r), column
/// reduced_index(c) of face q of the NxN text (the middle row and column pick the center of an
/// odd cube for the center sticker, else the second row or column).
pub proof fn lemma_reduced_reads_state_text(fs: Seq<Facelet>, s: int, q: int, r: int, c: int)
    requires
        s >= 2,
        stickers_unique(fs),
        0 <= q < 6,
        0 <= r < 3,
        0 <= c < 3,
    ensures
        ({
            let center = r == 1 && c == 1;
            reduced_text(fs, s)[q * 9 + r * 3 + c] == state_text(fs, s)[q * (s * s) + reduced_index(r, center, s) * s
                + reduced_index(c, center, s)]
        }),
{
    let center = r == 1 && c == 1;
    let rr = reduced_index(r, center, s);
    let cc = reduced_index(c, center, s);
    assert(0 <= rr < s && 0 <= cc < s);
    let k = q * 9 + r * 3 + c;
    assert(k / 9 == q && (k % 9) / 3 == r && k % 3 == c);
    lemma_block_index(s, q, rr, cc);
    assert(q * (s * s) + rr * s + cc < 6 * (s * s)) by (nonlinear_arith)
        requires
            0 <= q < 6,
            0 <= rr * s + cc < s * s;
    let face = face_order_spec(q);
    lemma_find_first_last(fs, face, ivec_spec(logical_coord(face, rr, cc, s)));
}

/// The reduced face shows the NxN face's corners at its corners, its edge stickers next to the
/// corners (row or column 1) at its edges, and, on an odd cube, the NxN center at its center (the
/// sticker at row 1, column 1 otherwise).
pub proof fn lemma_reduced_corners(fs: Seq<Facelet>, s: int, q: int)
    requires
        s >= 2,
        stickers_unique(fs),
        0 <= q < 6,
    ensures
        ({
            let rt = reduced_text(fs, s);
            let st = state_text(fs, s);
            let b = q * (s * s);
            let mid = if s % 2 == 1 { s / 2 } else { 1 };
            &&& rt[q * 9] == st[b]
            &&& rt[q * 9 + 2] == st[b + (s - 1)]
            &&& rt[q * 9 + 6] == st[b + (s - 1) * s]
            &&& rt[q * 9 + 8] == st[b + (s - 1) * s + (s - 1)]
            &&& rt[q * 9 + 1] == st[b + 1]
            &&& rt[q * 9 + 3] == st[b + s]
            &&& rt[q * 9 + 5] == st[b + s + (s - 1)]
            &&& rt[q * 9 + 7] == st[b + (s - 1) * s + 1]
            &&& rt[q * 9 + 4] == st[b + mid * s + mid]
        }),
{
    lemma_reduced_reads_state_text(fs, s, q, 0, 0);
    lemma_reduced_reads_state_text(fs, s, q, 0, 2);
    lemma_reduced_reads_state_text(fs, s, q, 2, 0);
    lemma_reduced_reads_state_text(fs, s, q, 2, 2);
    lemma_reduced_reads_state_text(fs, s, q, 0, 1);
    lemma_reduced_reads_state_text(fs, s, q, 1, 0);
    lemma_reduced_reads_state_text(fs, s, q, 1, 2);
    lemma_reduced_reads_state_text(fs, s, q, 2, 1);
    lemma_reduced_reads_state_text(fs, s, q, 1, 1);
}

/// On a 3x3 state the reduced text is the state text itself.
pub proof fn lemma_reduced_text_of_three(fs: Seq<Facelet>)
    requires
        stickers_unique(fs),
    ensures
        reduced_text(fs, 3) == state_text(fs, 3),
{
    assert forall|k: int| 0 <= k < 54 implies #[trigger] reduced_text(fs, 3)[k] == state_text(fs, 3)[k] by {
        let q = k / 9;
        let r = (k % 9) / 3;
        let c = k % 3;
        lemma_reduced_reads_state_text(fs, 3, q, r, c);
        assert(k == q * 9 + r * 3 + c);
    }
    assert(state_text(fs, 3).len() == 54);
    assert(reduced_text(fs, 3) =~= state_text(fs, 3));
}

/// The 54-character 3x3 text of a reduced NxN state.
pub open spec fn reduced_text(fs: Seq<Facelet>, s: int) -> Seq<char> {
    Seq::new(54, |k: int| reduced_char(fs, k / 9, (k % 9) / 3, k % 3, s))
}

/// Row or column of the NxN face that stands for row or column `v` of the reduced face.
fn reduced_index_of(v: usize, is_center: bool, size: usize) -> (i: usize)
    requires
        v < 3,
        size >= 1,
    ensures
        i as int == reduced_index(v as int, is_center, size as int),
        i < size || (v == 1 && size == 1 && i == 1),
{
    if v == 0 {
        0
    } else if v == 2 {
        size - 1
    } else if is_center && size % 2 == 1 {
        size / 2
    } else {
        1
    }
}

/// The last sticker on `face` at cubie `coord`.
fn find_last(state: &NxNState, face: Face, coord: IVec3) -> (r: Option<Facelet>)
    ensures
        r == find_last_facelet(state.facelets@, face, coord),
{
    let mut i: usize = state.facelets.len();
    assert(state.facelets@.subrange(0, i as int) =~= state.facelets@);
    while i > 0
        invariant
            i <= state.facelets@.len(),
            find_last_facelet(state.facelets@, face, coord) == find_last_facelet(
                state.facelets@.subrange(0, i as int),
                face,
                coord,
            ),
        decreases i,
    {
        let f = state.facelets[i - 1];
        let ghost pre = state.facelets@.subrange(0, i as int);
        assert(pre.last() == f);
        if f.coord == coord && f.face == face {
            return Some(f);
        }
        assert(pre.drop_last() =~= state.facelets@.subrange(0, i - 1));
        i = i - 1;
    }
    None
}

/// The 54-character 3x3 text of an NxN state whose centers are solved and edges paired: the
/// corners, the first wing of each edge (the middle one on odd cubes) and one center of each face,
/// faces in the order Up, Right, Front, Down, Left, Back.
pub fn map_to_3x3_string(state: &NxNState) -> (t: String)
    requires
        1 <= state.size <= i32::MAX,
    ensures
        t@ == reduced_text(state.facelets@, state.size as int),
{
    let size = state.size;
    let mut result = String::new();
    let mut q: usize = 0;
    while q < 6
        invariant
            q <= 6,
            size == state.size,
            1 <= size <= i32::MAX,
            result@.len() == q * 9,
            forall|k: int| 0 <= k < result@.len() ==> #[trigger] result@[k] == reduced_text(state.facelets@, size as int)[k],
        decreases 6 - q,
    {
        let face = face_order(q);
        let mut r3: usize = 0;
        while r3 < 3
            invariant
                q < 6,
                r3 <= 3,
                size == state.size,
                1 <= size <= i32::MAX,
                face == face_order_spec(q as int),
                result@.len() == q * 9 + r3 * 3,
                forall|k: int| 0 <= k < result@.len() ==> #[trigger] result@[k] == reduced_text(state.facelets@, size as int)[k],
            decreases 3 - r3,
        {
            let mut c3: usize = 0;
            while c3 < 3
                invariant
                    q < 6,
                    r3 < 3,
                    c3 <= 3,
                    size == state.size,
                    1 <= size <= i32::MAX,
                    face == face_order_spec(q as int),
                    result@.len() == q * 9 + r3 * 3 + c3,
                    forall|k: int| 0 <= k < result@.len() ==> #[trigger] result@[k] == reduced_text(state.facelets@, size as int)[k],
                decreases 3 - c3,
            {
                let is_center = r3 == 1 && c3 == 1;
                let r_n = reduced_index_of(r3, is_center, size);
                let c_n = reduced_index_of(c3, is_center, size);
                let coord = NxNState::get_logical_coord(face, r_n, c_n, size).unwrap();
                let ch = match find_last(state, face, coord) {
                    Some(f) => face_letter(f.color),
                    None => ' ',
                };
                proof {
                    lemma_block_index(3, q as int, r3 as int, c3 as int);
                }
                push_char(&mut result, ch);
                c3 = c3 + 1;
            }
            r3 = r3 + 1;
        }
        q = q + 1;
    }
    proof {
        assert(result@ =~= reduced_text(state.facelets@, size as int));
    }
    result
}

/// The moves that fix OLL parity (a flipped composite edge).
pub fn get_oll_parity_moves(size: usize) -> (v: Vec<RotationMove>)
    requires
        size <= i32::MAX,
    ensures
        v@ == oll_parity_seq(size as int),
{
    get_oll_parity_fix(size)
}

/// The moves that fix PLL parity (two swapped composite edges).
pub fn get_pll_parity_moves(size: usize) -> (v: Vec<RotationMove>)
    requires
        size <= i32::MAX,
    ensures
        v@ == pll_parity_seq(size as int),
{
    get_pll_parity_fix(size)
}

/// Whether a 54-character 3x3 state is a cube that kewb reads and accepts in cubie form.
pub fn is_solvable_3x3(state_str: &str) -> (b: bool)
    ensures
        b == solvable_text(state_str@),
{
    is_solvable_text(state_str)
}

/// Applying the OLL parity swap twice, or the PLL parity swap twice, gives the state back.
pub proof fn lemma_parity_swaps_involutive(s: Seq<char>)
    ensures
        oll_parity_state(oll_parity_state(s)) == s,
        pll_parity_state(pll_parity_state(s)) == s,
{
    if s.len() == 54 {
        assert(oll_parity_state(oll_parity_state(s)) =~= s);
        assert(pll_parity_state(pll_parity_state(s)) =~= s);
    }
}

} // verus!
