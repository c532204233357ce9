//! Center commutators of the reduction method.

use vstd::prelude::*;
use crate::state::{Color, Cube, after_turns, moves_turns, move_ok, face_index, lemma_after_turns_concat, lemma_moves_turns_concat};
use crate::text::is_ws;
use crate::text::{decimal, push_decimal, push_str, split_words, words};

verus! {

/// The center commutator for a piece on U at column `c1` and a piece on F at row `r2`:
/// "{c1+1}R' {r2+1}D {c1+1}R {r2+1}D'" (counted from 1); no moves for other pairs of faces.
pub open spec fn center_commutator(f1: Color, c1: int, f2: Color, r2: int) -> Seq<char> {
    if f1 == Color::U && f2 == Color::F {
        decimal((c1 + 1) as nat) + "R' "@ + decimal((r2 + 1) as nat) + "D "@ + decimal((c1 + 1) as nat) + "R "@
            + decimal((r2 + 1) as nat) + "D'"@
    } else {
        Seq::empty()
    }
}

/// A standard 3-cycle center commutator macro.
pub fn get_center_commutator(f1: Color, _r1: usize, c1: usize, f2: Color, r2: usize, _c2: usize) -> (s: String)
    requires
        c1 < usize::MAX,
        r2 < usize::MAX,
    ensures
        s@ == center_commutator(f1, c1 as int, f2, r2 as int),
{
    let mut s = String::new();
    if f1 == Color::U && f2 == Color::F {
        push_decimal(&mut s, c1 + 1);
        push_str(&mut s, "R' ");
        push_decimal(&mut s, r2 + 1);
        push_str(&mut s, "D ");
        push_decimal(&mut s, c1 + 1);
        push_str(&mut s, "R ");
        push_decimal(&mut s, r2 + 1);
        push_str(&mut s, "D'");
    }
    s
}

/// The texts of a list of strings.
pub open spec fn texts(v: Seq<String>) -> Seq<Seq<char>> {
    v.map_values(|w: String| w@)
}

/// The faces in the order the solver visits them: U, D, L, R, F, B.
pub open spec fn face_at_spec(i: int) -> Color {
    if i == 0 {
        Color::U
    } else if i == 1 {
        Color::D
    } else if i == 2 {
        Color::L
    } else if i == 3 {
        Color::R
    } else if i == 4 {
        Color::F
    } else {
        Color::B
    }
}

/// The faces in the order the solver visits them: U, D, L, R, F, B.
fn face_at(i: usize) -> (c: Color)
    requires
        i < 6,
    ensures
        c == face_at_spec(i as int),
{
    if i == 0 {
        Color::U
    } else if i == 1 {
        Color::D
    } else if i == 2 {
        Color::L
    } else if i == 3 {
        Color::R
    } else if i == 4 {
        Color::F
    } else {
        Color::B
    }
}

/// Whether every move of the list can be applied to the cube.
fn all_can_apply(cube: &Cube, ws: &Vec<String>) -> (b: bool)
    ensures
        b == all_ok(texts(ws@), cube.size as int),
{
    let mut i: usize = 0;
    while i < ws.len()
        invariant
            i <= ws@.len(),
            forall|k: int| 0 <= k < i ==> move_ok(#[trigger] texts(ws@)[k], cube.size as int),
        decreases ws@.len() - i,
    {
        if !cube.can_apply(ws[i].as_str()) {
            assert(!move_ok(texts(ws@)[i as int], cube.size as int));
            return false;
        }
        i = i + 1;
    }
    true
}

/// Appends the moves of `extra`.
pub(crate) fn append_words(all: &mut Vec<String>, extra: Vec<String>)
    ensures
        texts(final(all)@) == texts(old(all)@) + texts(extra@),
{
    let mut extra = extra;
    let ghost e = extra@;
    let mut rev: Vec<String> = Vec::new();
    while extra.len() > 0
        invariant
            extra@.len() + rev@.len() == e.len(),
            forall|k: int| 0 <= k < extra@.len() ==> #[trigger] extra@[k] == e[k],
            forall|k: int| 0 <= k < rev@.len() ==> #[trigger] rev@[k] == e[e.len() - 1 - k],
        decreases extra@.len(),
    {
        let w = extra.pop().unwrap();
        rev.push(w);
    }
    let ghost start = all@;
    while rev.len() > 0
        invariant
            rev@.len() <= e.len(),
            forall|k: int| 0 <= k < rev@.len() ==> #[trigger] rev@[k] == e[e.len() - 1 - k],
            all@ == start + e.subrange(0, e.len() - rev@.len()),
        decreases rev@.len(),
    {
        let w = rev.pop().unwrap();
        proof {
            assert(e.subrange(0, e.len() - rev@.len()) =~= e.subrange(0, e.len() - rev@.len() - 1).push(w));
        }
        all.push(w);
    }
    proof {
        assert(e.subrange(0, e.len() as int) =~= e);
        assert(texts(all@) =~= texts(old(all)@) + texts(e));
    }
}

/// Whether every move of the list can be applied to a cube of side n.
pub open spec fn all_ok(ws: Seq<Seq<char>>, n: int) -> bool {
    forall|k: int| 0 <= k < ws.len() ==> move_ok(#[trigger] ws[k], n)
}

/// Whether the inner sticker (r, c) of F shows `target`.
pub open spec fn f_hit(cells: Seq<Seq<Color>>, n: int, target: Color, r: int, c: int) -> bool {
    1 <= r < n - 1 && 1 <= c < n - 1 && cells[face_index(Color::F)][r * n + c] == target
}

/// Whether (r, c) is the first inner sticker of F, row by row, that shows `target`.
pub open spec fn first_f_hit(cells: Seq<Seq<Color>>, n: int, target: Color, r: int, c: int) -> bool {
    &&& f_hit(cells, n, target, r, c)
    &&& forall|r2: int, c2: int| (r2 < r || (r2 == r && c2 < c)) ==> !#[trigger] f_hit(cells, n, target, r2, c2)
}

/// The moves of a commutator text.
pub open spec fn comm_words(c1: int, r2: int) -> Seq<Seq<char>> {
    words(center_commutator(Color::U, c1, Color::F, r2))
}

/// The commutator text of a U and an F piece is not empty and ends in a quote.
proof fn lemma_comm_text(c1: int, r2: int)
    requires
        c1 >= 0,
        r2 >= 0,
    ensures
        center_commutator(Color::U, c1, Color::F, r2).len() > 0,
        !is_ws(center_commutator(Color::U, c1, Color::F, r2).last()),
{
    reveal_strlit("D'");
    let t = center_commutator(Color::U, c1, Color::F, r2);
    let pre = decimal((c1 + 1) as nat) + "R' "@ + decimal((r2 + 1) as nat) + "D "@ + decimal((c1 + 1) as nat) + "R "@
        + decimal((r2 + 1) as nat);
    assert(t == pre + "D'"@);
    assert(t.last() == '\'');
}

/// A text whose last character is not blank holds a word.
proof fn lemma_words_nonempty(s: Seq<char>)
    requires
        s.len() > 0,
        !is_ws(s.last()),
    ensures
        words(s).len() > 0,
    decreases s.len(),
{
    if s.len() >= 2 && !is_ws(s[s.len() - 2]) {
        lemma_words_nonempty(s.drop_last());
    }
}

/// Finds a sticker of the target color on another face for which a commutator exists, applies
/// it and returns its moves. Only pieces of F going to U have a commutator.
fn find_and_move_center(cube: &mut Cube, target_face: Color, target_r: usize, target_c: usize) -> (r: Option<Vec<String>>)
    requires
        old(cube).wf(),
        old(cube).size >= 1,
        target_c < old(cube).size,
    ensures
        final(cube).size == old(cube).size,
        final(cube).wf(),
        r is None ==> final(cube).cells() == old(cube).cells(),
        r matches Some(ws) ==> final(cube).cells() == after_turns(old(cube).cells(), old(cube).size as int, moves_turns(texts(ws@))),
        r matches Some(ws) ==> texts(ws@).len() > 0 && target_face == Color::U && exists|r2: int, c2: int|
            #[trigger] first_f_hit(old(cube).cells(), old(cube).size as int, Color::U, r2, c2) && texts(ws@) == comm_words(
                target_c as int,
                r2,
            ),
        r is None <==> (target_face != Color::U || (forall|r2: int, c2: int|
            !#[trigger] f_hit(old(cube).cells(), old(cube).size as int, Color::U, r2, c2)) || exists|r2: int, c2: int|
            #[trigger] first_f_hit(old(cube).cells(), old(cube).size as int, Color::U, r2, c2) && !all_ok(
                comm_words(target_c as int, r2),
                old(cube).size as int,
            )),
{
    let ghost c0 = cube.cells();
    let ghost n = cube.size as int;
    let size = cube.size;
    let mut fi: usize = 0;
    while fi < 6
        invariant
            fi <= 6,
            size == cube.size,
            size == old(cube).size,
            n == size,
            c0 == old(cube).cells(),
            cube.wf(),
            size >= 1,
            target_c < size,
            cube.cells() == old(cube).cells(),
            target_face == Color::U && fi > 4 ==> forall|r2: int, c2: int| !#[trigger] f_hit(c0, n, Color::U, r2, c2),
        decreases 6 - fi,
    {
        let f = face_at(fi);
        if f != target_face {
            let mut r: usize = 1;
            while r < size - 1
                invariant
                    1 <= r <= size,
                    r == 1 || r <= size - 1,
                    fi < 6,
                    f == face_at_spec(fi as int),
                    size == cube.size,
                    size == old(cube).size,
                    n == size,
                    c0 == old(cube).cells(),
                    cube.wf(),
                    target_c < size,
                    cube.cells() == old(cube).cells(),
                    target_face == Color::U && f == Color::F ==> forall|r2: int, c2: int|
                        r2 < r ==> !#[trigger] f_hit(c0, n, Color::U, r2, c2),
                    target_face == Color::U && fi > 4 ==> forall|r2: int, c2: int| !#[trigger] f_hit(c0, n, Color::U, r2, c2),
                decreases size - r,
            {
                let mut c: usize = 1;
                while c < size - 1
                    invariant
                        1 <= c <= size,
                        c == 1 || c <= size - 1,
                        1 <= r < size - 1,
                        fi < 6,
                        f == face_at_spec(fi as int),
                        size == cube.size,
                        size == old(cube).size,
                        n == size,
                        c0 == old(cube).cells(),
                        cube.wf(),
                        target_c < size,
                        cube.cells() == old(cube).cells(),
                        target_face == Color::U && f == Color::F ==> forall|r2: int, c2: int|
                            (r2 < r || (r2 == r && c2 < c)) ==> !#[trigger] f_hit(c0, n, Color::U, r2, c2),
                        target_face == Color::U && fi > 4 ==> forall|r2: int, c2: int| !#[trigger] f_hit(c0, n, Color::U, r2, c2),
                    decreases size - c,
                {
                    if cube.get_color(f, r, c) == target_face {
                        let m = get_center_commutator(target_face, target_r, target_c, f, r, c);
                        if m.as_str().unicode_len() > 0 {
                            assert(target_face == Color::U && f == Color::F);
                            assert(first_f_hit(c0, n, Color::U, r as int, c as int));
                            let ws = split_words(m.as_str());
                            assert(texts(ws@) =~= words(m@));
                            if !all_can_apply(cube, &ws) {
                                return None;
                            }
                            proof {
                                lemma_comm_text(target_c as int, r as int);
                                lemma_words_nonempty(m@);
                                assert forall|r2: int, c2: int| #[trigger] first_f_hit(c0, n, Color::U, r2, c2) implies r2
                                    == r && c2 == c by {
                                    assert(first_f_hit(c0, n, Color::U, r as int, c as int));
                                    if r2 < r || (r2 == r && c2 < c) {
                                    } else if r2 > r || (r2 == r && c2 > c) {
                                        assert(!f_hit(c0, n, Color::U, r as int, c as int));
                                    }
                                }
                            }
                            cube.apply_moves(m.as_str());
                            return Some(ws);
                        }
                    }
                    proof {
                        if target_face == Color::U && f == Color::F {
                            lemma_comm_text(target_c as int, r as int);
                        }
                    }
                    c = c + 1;
                }
                r = r + 1;
            }
        }
        fi = fi + 1;
    }
    None
}

/// Whether (r, c) is the first inner sticker of U, row by row, that does not show U.
pub open spec fn first_non_u(cells: Seq<Seq<Color>>, n: int, r: int, c: int) -> bool {
    &&& 1 <= r < n - 1 && 1 <= c < n - 1
    &&& cells[face_index(Color::U)][r * n + c] != Color::U
    &&& forall|r2: int, c2: int|
        1 <= r2 < n - 1 && 1 <= c2 < n - 1 && (r2 < r || (r2 == r && c2 < c)) ==> #[trigger] cells[face_index(
            Color::U,
        )][r2 * n + c2] == Color::U
}

/// Whether the first commutator of the U pass is found and can be applied: U has an inner
/// sticker of another color, F has an inner U sticker, and the commutator between the first of
/// each fits the cube.
pub open spec fn first_call_succeeds(cells: Seq<Seq<Color>>, n: int) -> bool {
    exists|r: int, c: int, r2: int, c2: int|
        #[trigger] first_non_u(cells, n, r, c) && #[trigger] first_f_hit(cells, n, Color::U, r2, c2) && all_ok(
            comm_words(c, r2),
            n,
        )
}

/// Brings a sticker of the face's color to every inner position of the face that lacks one,
/// where a commutator exists.
fn solve_single_face_centers(cube: &mut Cube, face: Color) -> (moves: Vec<String>)
    requires
        old(cube).wf(),
        old(cube).size >= 1,
    ensures
        final(cube).size == old(cube).size,
        final(cube).wf(),
        final(cube).cells() == after_turns(old(cube).cells(), old(cube).size as int, moves_turns(texts(moves@))),
        face != Color::U ==> moves@.len() == 0 && final(cube).cells() == old(cube).cells(),
        face == Color::U && first_call_succeeds(old(cube).cells(), old(cube).size as int) ==> moves@.len() > 0,
{
    let size = cube.size;
    let ghost c0 = cube.cells();
    let ghost n = size as int;
    let mut moves: Vec<String> = Vec::new();
    let mut r: usize = 1;
    proof {
        assert(texts(moves@) =~= Seq::<Seq<char>>::empty());
    }
    while r < size - 1
        invariant
            1 <= r <= size,
            size == cube.size,
            n == size,
            size >= 1,
            cube.wf(),
            c0 == old(cube).cells(),
            cube.cells() == after_turns(c0, n, moves_turns(texts(moves@))),
            face != Color::U ==> moves@.len() == 0 && cube.cells() == c0,
            moves@.len() == 0 ==> cube.cells() == c0,
            face == Color::U && moves@.len() == 0 && first_call_succeeds(c0, n) ==> forall|r2: int, c2: int|
                1 <= r2 < r && 1 <= c2 < n - 1 ==> #[trigger] c0[face_index(Color::U)][r2 * n + c2] == Color::U,
        decreases size - r,
    {
        let mut c: usize = 1;
        while c < size - 1
            invariant
                1 <= c <= size,
                1 <= r < size - 1,
                size == cube.size,
                n == size,
                size >= 1,
                cube.wf(),
                c0 == old(cube).cells(),
                cube.cells() == after_turns(c0, n, moves_turns(texts(moves@))),
                face != Color::U ==> moves@.len() == 0 && cube.cells() == c0,
                moves@.len() == 0 ==> cube.cells() == c0,
                face == Color::U && moves@.len() == 0 && first_call_succeeds(c0, n) ==> forall|r2: int, c2: int|
                    1 <= r2 < n - 1 && 1 <= c2 < n - 1 && (r2 < r || (r2 == r && c2 < c)) ==> #[trigger] c0[face_index(
                        Color::U,
                    )][r2 * n + c2] == Color::U,
            decreases size - c,
        {
            if cube.get_color(face, r, c) != face {
                let ghost mid = cube.cells();
                let ghost before = texts(moves@);
                proof {
                    if face == Color::U && moves@.len() == 0 && first_call_succeeds(c0, n) {
                        let (ra, ca, rb, cb) = choose|ra: int, ca: int, rb: int, cb: int|
                            #[trigger] first_non_u(c0, n, ra, ca) && #[trigger] first_f_hit(c0, n, Color::U, rb, cb)
                                && all_ok(comm_words(ca, rb), n);
                        assert(1 <= r < n - 1 && 1 <= c < n - 1);
                        assert(c0[face_index(Color::U)][r * n + c] != Color::U);
                        assert(first_non_u(c0, n, r as int, c as int));
                        if ra < r || (ra == r && ca < c) {
                            assert(c0[face_index(Color::U)][ra * n + ca] == Color::U);
                        } else if ra > r || (ra == r && ca > c) {
                            assert(c0[face_index(Color::U)][r * n + c] == Color::U);
                        }
                        assert(ra == r && ca == c);
                    }
                }
                match find_and_move_center(cube, face, r, c) {
                    Some(m) => {
                        let ghost mt = texts(m@);
                        append_words(&mut moves, m);
                        proof {
                            lemma_moves_turns_concat(before, mt);
                            lemma_after_turns_concat(c0, n, moves_turns(before), moves_turns(mt));
                        }
                    },
                    None => {},
                }
            }
            c = c + 1;
        }
        r = r + 1;
    }
    moves
}

/// Solves the centers face by face (U, D, L, R, F, B) with center commutators and returns the
/// moves made.
pub fn solve_centers(cube: &mut Cube) -> (moves: Vec<String>)
    requires
        old(cube).wf(),
        old(cube).size >= 1,
    ensures
        final(cube).size == old(cube).size,
        final(cube).wf(),
        final(cube).cells() == after_turns(old(cube).cells(), old(cube).size as int, moves_turns(texts(moves@))),
        first_call_succeeds(old(cube).cells(), old(cube).size as int) ==> moves@.len() > 0,
{
    let ghost c0 = cube.cells();
    let ghost n = cube.size as int;
    let mut moves: Vec<String> = Vec::new();
    proof {
        assert(texts(moves@) =~= Seq::<Seq<char>>::empty());
    }
    let mut i: usize = 0;
    while i < 6
        invariant
            i <= 6,
            cube.size as int == n,
            cube.size >= 1,
            cube.wf(),
            c0 == old(cube).cells(),
            cube.cells() == after_turns(c0, n, moves_turns(texts(moves@))),
            i == 0 ==> cube.cells() == c0,
            i >= 1 && first_call_succeeds(c0, n) ==> moves@.len() > 0,
        decreases 6 - i,
    {
        let ghost before = texts(moves@);
        let m = solve_single_face_centers(cube, face_at(i));
        let ghost mt = texts(m@);
        let ghost old_len = moves@.len();
        append_words(&mut moves, m);
        assert(texts(moves@).len() == before.len() + mt.len());
        proof {
            lemma_moves_turns_concat(before, mt);
            lemma_after_turns_concat(c0, n, moves_turns(before), moves_turns(mt));
        }
        i = i + 1;
    }
    moves
}

} // verus!
