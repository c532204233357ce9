//! Facelet states of an NxN cube: each sticker with the coordinate of its cubie, the face it
//! currently lies on, and its color.
//!
//! Cubie coordinates run from 0 to size - 1 on each axis: x from Left to Right, y from Down to
//! Up, z from Back to Front. A quarter turn rotates the cubies of one slice about the center of
//! the cube, and the stickers with them.

use vstd::prelude::*;
use crate::orientation::{
    Face, RotationAxis, Direction, RotationMove, IVec3, vec_of, normal_spec, face_with_normal,
    face_letter_spec, face_letter, opposite,
};
use crate::text::push_char;
use crate::cube::geometry::lemma_block_index;

verus! {

/// The storage order of the faces: Up, Right, Front, Down, Left, Back.
pub open spec fn face_order_spec(i: int) -> Face {
    if i == 0 {
        Face::Up
    } else if i == 1 {
        Face::Right
    } else if i == 2 {
        Face::Front
    } else if i == 3 {
        Face::Down
    } else if i == 4 {
        Face::Left
    } else {
        Face::Back
    }
}

/// The face at position `i` of the storage order.
pub fn face_order(i: usize) -> (f: Face)
    requires
        i < 6,
    ensures
        f == face_order_spec(i as int),
{
    if i == 0 {
        Face::Up
    } else if i == 1 {
        Face::Right
    } else if i == 2 {
        Face::Front
    } else if i == 3 {
        Face::Down
    } else if i == 4 {
        Face::Left
    } else {
        Face::Back
    }
}

/// The cubie coordinate of the sticker at (row, column) of a face, rows and columns read with
/// the face in front of the viewer (Up seen with Back at the top, Down with Front at the top).
pub open spec fn logical_coord(face: Face, r: int, c: int, s: int) -> (int, int, int) {
    match face {
        Face::Up => (c, s - 1, r),
        Face::Down => (c, 0, s - 1 - r),
        Face::Right => (s - 1, s - 1 - r, s - 1 - c),
        Face::Left => (0, s - 1 - r, c),
        Face::Front => (c, s - 1 - r, s - 1),
        Face::Back => (s - 1 - c, s - 1 - r, 0),
    }
}

/// The vector with the given components, as `i32`.
pub open spec fn ivec_spec(v: (int, int, int)) -> IVec3 {
    IVec3 { x: v.0 as i32, y: v.1 as i32, z: v.2 as i32 }
}

/// All three components lie in `i32`.
pub open spec fn fits_i32(v: (int, int, int)) -> bool {
    i32::MIN <= v.0 <= i32::MAX && i32::MIN <= v.1 <= i32::MAX && i32::MIN <= v.2 <= i32::MAX
}

/// A sticker: the coordinate of its cubie, the face it lies on, and its color.
#[derive(Debug, Clone, Copy, PartialEq, Eq, Structural)]
pub struct Facelet {
    pub coord: IVec3,
    pub face: Face,
    pub color: Face,
}

/// The stickers of an NxN cube.
pub struct NxNState {
    pub size: usize,
    pub facelets: Vec<Facelet>,
}

/// The sticker of the solved cube at row `r`, column `c` of the face at storage position `q`.
pub open spec fn home_facelet(q: int, r: int, c: int, s: int) -> Facelet {
    let f = face_order_spec(q);
    Facelet { coord: ivec_spec(logical_coord(f, r, c, s)), face: f, color: f }
}

/// The stickers of the solved cube: face by face in storage order, row by row.
pub open spec fn solved_facelets(s: int) -> Seq<Facelet> {
    Seq::new((6 * (s * s)) as nat, |k: int| home_facelet(k / (s * s), (k % (s * s)) / s, k % s, s))
}

/// Whether the cubie at `c` lies in the slice that the move turns.
pub open spec fn on_slice(c: IVec3, m: RotationMove) -> bool {
    match m.axis {
        RotationAxis::X => c.x == m.index,
        RotationAxis::Y => c.y == m.index,
        RotationAxis::Z => c.z == m.index,
    }
}

/// A quarter turn of `v` about an axis, clockwise being the negative sense of rotation. With
/// `k == 0` this is the rotation of a vector; with `k == size - 1` that of a cubie coordinate
/// about the center of the cube (a component that becomes minus `a` becomes `k - a`).
pub open spec fn turn_vec(v: (int, int, int), axis: RotationAxis, dir: Direction, k: int) -> (int, int, int) {
    match (axis, dir) {
        (RotationAxis::X, Direction::CounterClockwise) => (v.0, k - v.2, v.1),
        (RotationAxis::X, Direction::Clockwise) => (v.0, v.2, k - v.1),
        (RotationAxis::Y, Direction::CounterClockwise) => (v.2, v.1, k - v.0),
        (RotationAxis::Y, Direction::Clockwise) => (k - v.2, v.1, v.0),
        (RotationAxis::Z, Direction::CounterClockwise) => (k - v.1, v.0, v.2),
        (RotationAxis::Z, Direction::Clockwise) => (v.1, k - v.0, v.2),
    }
}

/// The face a sticker lies on after the turn: the face of the turned normal (the same face if
/// the turned normal were no face normal).
pub open spec fn turned_face(f: Face, m: RotationMove) -> Face {
    match face_with_normal(turn_vec(normal_spec(f), m.axis, m.direction, 0)) {
        Some(g) => g,
        None => f,
    }
}

/// A cubie coordinate after the move: turned if it lies in the slice, else unchanged.
pub open spec fn rotate_coord_spec(c: IVec3, m: RotationMove, s: int) -> IVec3 {
    if on_slice(c, m) {
        ivec_spec(turn_vec(vec_of(c), m.axis, m.direction, s - 1))
    } else {
        c
    }
}

/// Whether the turned coordinate of `c` fits in `i32` (always so for coordinates in range).
pub open spec fn coord_fits(c: IVec3, m: RotationMove, s: int) -> bool {
    on_slice(c, m) ==> fits_i32(turn_vec(vec_of(c), m.axis, m.direction, s - 1))
}

/// A sticker after the move.
pub open spec fn turned_facelet(f: Facelet, m: RotationMove, s: int) -> Facelet {
    if on_slice(f.coord, m) {
        Facelet { coord: rotate_coord_spec(f.coord, m, s), face: turned_face(f.face, m), color: f.color }
    } else {
        f
    }
}

/// The stickers after the move.
pub open spec fn after_move(fs: Seq<Facelet>, m: RotationMove, s: int) -> Seq<Facelet> {
    Seq::new(fs.len(), |i: int| turned_facelet(fs[i], m, s))
}

/// Whether every turned coordinate of the move fits in `i32`.
pub open spec fn move_fits(fs: Seq<Facelet>, m: RotationMove, s: int) -> bool {
    forall|i: int| 0 <= i < fs.len() ==> #[trigger] coord_fits(fs[i].coord, m, s)
}

/// The stickers after the moves, in order.
pub open spec fn after_moves(fs: Seq<Facelet>, ms: Seq<RotationMove>, s: int) -> Seq<Facelet>
    decreases ms.len(),
{
    if ms.len() == 0 {
        fs
    } else {
        after_move(after_moves(fs, ms.drop_last(), s), ms.last(), s)
    }
}

/// Whether every turned coordinate along the moves fits in `i32`.
pub open spec fn moves_fit(fs: Seq<Facelet>, ms: Seq<RotationMove>, s: int) -> bool
    decreases ms.len(),
{
    if ms.len() == 0 {
        true
    } else {
        moves_fit(fs, ms.drop_last(), s) && move_fits(after_moves(fs, ms.drop_last(), s), ms.last(), s)
    }
}

/// Every cubie coordinate lies in 0 .. s.
pub open spec fn coords_in_range(fs: Seq<Facelet>, s: int) -> bool {
    forall|i: int|
        0 <= i < fs.len() ==> 0 <= #[trigger] fs[i].coord.x < s && 0 <= fs[i].coord.y < s && 0 <= fs[i].coord.z < s
}

/// The first sticker of the list on `face` at cubie `coord`.
pub open spec fn find_facelet(fs: Seq<Facelet>, face: Face, coord: IVec3) -> Option<Facelet>
    decreases fs.len(),
{
    if fs.len() == 0 {
        None
    } else if fs[0].coord == coord && fs[0].face == face {
        Some(fs[0])
    } else {
        find_facelet(fs.drop_first(), face, coord)
    }
}

/// The letter of the color shown at (row, column) of a face, or a space if no sticker is there.
pub open spec fn sticker_char(fs: Seq<Facelet>, face: Face, r: int, c: int, s: int) -> char {
    match find_facelet(fs, face, ivec_spec(logical_coord(face, r, c, s))) {
        Some(f) => face_letter_spec(f.color),
        None => ' ',
    }
}

/// The text of the stickers: face by face in storage order, row by row.
pub open spec fn state_text(fs: Seq<Facelet>, s: int) -> Seq<char> {
    Seq::new((6 * (s * s)) as nat, |k: int| sticker_char(fs, face_order_spec(k / (s * s)), (k % (s * s)) / s, k % s, s))
}

/// Dropping a first sticker that does not match leaves the search result unchanged.
proof fn lemma_find_step(fs: Seq<Facelet>, i: int, face: Face, coord: IVec3)
    requires
        0 <= i < fs.len(),
        !(fs[i].coord == coord && fs[i].face == face),
    ensures
        find_facelet(fs.subrange(i, fs.len() as int), face, coord) == find_facelet(
            fs.subrange(i + 1, fs.len() as int),
            face,
            coord,
        ),
{
    assert(fs.subrange(i, fs.len() as int).drop_first() =~= fs.subrange(i + 1, fs.len() as int));
}

/// The turned coordinate of a coordinate in range is in range.
pub proof fn lemma_turn_in_range(c: IVec3, m: RotationMove, s: int)
    requires
        s <= i32::MAX,
        0 <= c.x < s,
        0 <= c.y < s,
        0 <= c.z < s,
    ensures
        coord_fits(c, m, s),
        0 <= rotate_coord_spec(c, m, s).x < s,
        0 <= rotate_coord_spec(c, m, s).y < s,
        0 <= rotate_coord_spec(c, m, s).z < s,
{
}

/// A move keeps every coordinate in range.
pub proof fn lemma_after_move_in_range(fs: Seq<Facelet>, m: RotationMove, s: int)
    requires
        s <= i32::MAX,
        coords_in_range(fs, s),
    ensures
        move_fits(fs, m, s),
        coords_in_range(after_move(fs, m, s), s),
{
    assert forall|i: int| 0 <= i < fs.len() implies #[trigger] coord_fits(fs[i].coord, m, s) by {
        lemma_turn_in_range(fs[i].coord, m, s);
    }
    let a = after_move(fs, m, s);
    assert forall|i: int| 0 <= i < a.len() implies 0 <= #[trigger] a[i].coord.x < s && 0 <= a[i].coord.y < s
        && 0 <= a[i].coord.z < s by {
        lemma_turn_in_range(fs[i].coord, m, s);
    }
}

/// Moves keep every coordinate in range, and every turned coordinate fits in `i32`.
pub proof fn lemma_after_moves_in_range(fs: Seq<Facelet>, ms: Seq<RotationMove>, s: int)
    requires
        s <= i32::MAX,
        coords_in_range(fs, s),
    ensures
        moves_fit(fs, ms, s),
        coords_in_range(after_moves(fs, ms, s), s),
        after_moves(fs, ms, s).len() == fs.len(),
    decreases ms.len(),
{
    if ms.len() > 0 {
        lemma_after_moves_in_range(fs, ms.drop_last(), s);
        lemma_after_move_in_range(after_moves(fs, ms.drop_last(), s), ms.last(), s);
    }
}

/// Applying moves one after the other is applying their concatenation.
pub proof fn lemma_after_moves_concat(fs: Seq<Facelet>, a: Seq<RotationMove>, b: Seq<RotationMove>, s: int)
    ensures
        after_moves(fs, a + b, s) == after_moves(after_moves(fs, a, s), b, s),
        moves_fit(fs, a + b, s) == (moves_fit(fs, a, s) && moves_fit(after_moves(fs, a, s), b, s)),
    decreases b.len(),
{
    if b.len() == 0 {
        assert(a + b =~= a);
    } else {
        lemma_after_moves_concat(fs, a, b.drop_last(), s);
        assert((a + b).drop_last() =~= a + b.drop_last());
        assert((a + b).last() == b.last());
    }
}

/// A quarter turn of a sticker followed by the opposite turn of the same slice gives it back.
pub proof fn lemma_turn_back(f: Facelet, m: RotationMove, s: int)
    requires
        coord_fits(f.coord, m, s),
    ensures
        ({
            let back = RotationMove { axis: m.axis, index: m.index, direction: opposite(m.direction), add_to_history: false };
            turned_facelet(turned_facelet(f, m, s), back, s) == f
        }),
{
}

impl NxNState {
    /// A state whose size fits in `i32` and whose cubie coordinates all lie in 0 .. size.
    pub open spec fn valid(&self) -> bool {
        self.size <= i32::MAX && coords_in_range(self.facelets@, self.size as int)
    }

    /// The cubie coordinate of the sticker at (row, column) of a face.
    pub fn get_logical_coord(face: Face, row: usize, col: usize, size: usize) -> (r: Option<IVec3>)
        requires
            size <= i32::MAX,
            row <= i32::MAX,
            col <= i32::MAX,
        ensures
            r == Some(ivec_spec(logical_coord(face, row as int, col as int, size as int))),
            vec_of(r.unwrap()) == logical_coord(face, row as int, col as int, size as int),
    {
        let s = size as i32;
        let r = row as i32;
        let c = col as i32;
        match face {
            Face::Up => Some(IVec3::new(c, s - 1, r)),
            Face::Down => Some(IVec3::new(c, 0, s - 1 - r)),
            Face::Right => Some(IVec3::new(s - 1, s - 1 - r, s - 1 - c)),
            Face::Left => Some(IVec3::new(0, s - 1 - r, c)),
            Face::Front => Some(IVec3::new(c, s - 1 - r, s - 1)),
            Face::Back => Some(IVec3::new(s - 1 - c, s - 1 - r, 0)),
        }
    }

    /// The solved cube of the given size.
    pub fn new(size: usize) -> (st: NxNState)
        requires
            size <= i32::MAX,
        ensures
            st.size == size,
            st.facelets@ == solved_facelets(size as int),
    {
        let ghost s = size as int;
        let mut facelets: Vec<Facelet> = Vec::new();
        let mut q: usize = 0;
        while q < 6
            invariant
                q <= 6,
                s == size,
                size <= i32::MAX,
                facelets@.len() == q * (s * s),
                forall|k: int| 0 <= k < facelets@.len() ==> #[trigger] facelets@[k] == solved_facelets(s)[k],
            decreases 6 - q,
        {
            let face = face_order(q);
            let mut row: usize = 0;
            while row < size
                invariant
                    q < 6,
                    row <= size,
                    s == size,
                    size <= i32::MAX,
                    face == face_order_spec(q as int),
                    facelets@.len() == q * (s * s) + row * s,
                    forall|k: int| 0 <= k < facelets@.len() ==> #[trigger] facelets@[k] == solved_facelets(s)[k],
                decreases size - row,
            {
                let mut col: usize = 0;
                while col < size
                    invariant
                        q < 6,
                        row < size,
                        col <= size,
                        s == size,
                        size <= i32::MAX,
                        face == face_order_spec(q as int),
                        facelets@.len() == q * (s * s) + row * s + col,
                        forall|k: int| 0 <= k < facelets@.len() ==> #[trigger] facelets@[k] == solved_facelets(s)[k],
                    decreases size - col,
                {
                    let coord = Self::get_logical_coord(face, row, col, size).unwrap();
                    proof {
                        lemma_block_index(s, q as int, row as int, col as int);
                        assert(q * (s * s) + row * s + col < 6 * (s * s)) by (nonlinear_arith)
                            requires
                                q < 6,
                                0 <= row * s + col < s * s,
                        ;
                    }
                    facelets.push(Facelet { coord, face, color: face });
                    col = col + 1;
                }
                proof {
                    assert(q * (s * s) + row * s + s == q * (s * s) + (row + 1) * s) by (nonlinear_arith);
                }
                row = row + 1;
            }
            proof {
                assert(q * (s * s) + s * s == (q + 1) * (s * s)) by (nonlinear_arith);
            }
            q = q + 1;
        }
        NxNState { size, facelets }
    }

    /// The first sticker on `face` at cubie `coord`.
    pub(crate) fn find(&self, face: Face, coord: IVec3) -> (r: Option<Facelet>)
        ensures
            r == find_facelet(self.facelets@, face, coord),
    {
        let mut i: usize = 0;
        assert(self.facelets@.subrange(0, self.facelets@.len() as int) =~= self.facelets@);
        while i < self.facelets.len()
            invariant
                i <= self.facelets@.len(),
                find_facelet(self.facelets@, face, coord) == find_facelet(
                    self.facelets@.subrange(i as int, self.facelets@.len() as int),
                    face,
                    coord,
                ),
            decreases self.facelets@.len() - i,
        {
            let f = self.facelets[i];
            if f.coord == coord && f.face == face {
                let ghost rest = self.facelets@.subrange(i as int, self.facelets@.len() as int);
                assert(rest[0] == f);
                return Some(f);
            }
            proof {
                lemma_find_step(self.facelets@, i as int, face, coord);
            }
            i = i + 1;
        }
        proof {
            assert(self.facelets@.subrange(i as int, self.facelets@.len() as int).len() == 0);
        }
        None
    }

    /// The stickers as text: face by face in the order Up, Right, Front, Down, Left, Back, row
    /// by row, one color letter each (a space where no sticker is found).
    pub fn to_string_rep(&self) -> (t: String)
        requires
            self.size <= i32::MAX,
        ensures
            t@ == state_text(self.facelets@, self.size as int),
    {
        let size = self.size;
        let ghost s = size as int;
        let mut result = String::new();
        let mut q: usize = 0;
        while q < 6
            invariant
                q <= 6,
                s == size,
                size == self.size,
                size <= i32::MAX,
                result@.len() == q * (s * s),
                forall|k: int| 0 <= k < result@.len() ==> #[trigger] result@[k] == state_text(self.facelets@, s)[k],
            decreases 6 - q,
        {
            let face = face_order(q);
            let mut row: usize = 0;
            while row < size
                invariant
                    q < 6,
                    row <= size,
                    s == size,
                    size == self.size,
                    size <= i32::MAX,
                    face == face_order_spec(q as int),
                    result@.len() == q * (s * s) + row * s,
                    forall|k: int| 0 <= k < result@.len() ==> #[trigger] result@[k] == state_text(self.facelets@, s)[k],
                decreases size - row,
            {
                let mut col: usize = 0;
                while col < size
                    invariant
                        q < 6,
                        row < size,
                        col <= size,
                        s == size,
                        size == self.size,
                        size <= i32::MAX,
                        face == face_order_spec(q as int),
                        result@.len() == q * (s * s) + row * s + col,
                        forall|k: int| 0 <= k < result@.len() ==> #[trigger] result@[k] == state_text(self.facelets@, s)[k],
                    decreases size - col,
                {
                    let coord = Self::get_logical_coord(face, row, col, size).unwrap();
                    let ch = match self.find(face, coord) {
                        Some(f) => face_letter(f.color),
                        None => ' ',
                    };
                    proof {
                        lemma_block_index(s, q as int, row as int, col as int);
                        assert(q * (s * s) + row * s + col < 6 * (s * s)) by (nonlinear_arith)
                            requires
                                q < 6,
                                0 <= row * s + col < s * s,
                        ;
                    }
                    push_char(&mut result, ch);
                    col = col + 1;
                }
                proof {
                    assert(q * (s * s) + row * s + s == q * (s * s) + (row + 1) * s) by (nonlinear_arith);
                }
                row = row + 1;
            }
            proof {
                assert(q * (s * s) + s * s == (q + 1) * (s * s)) by (nonlinear_arith);
            }
            q = q + 1;
        }
        proof {
            assert(result@ =~= state_text(self.facelets@, s));
        }
        result
    }

    /// Turns one slice a quarter turn: every sticker on a cubie of the slice moves with it, and
    /// the face it lies on turns with it.
    pub fn apply_move(&mut self, m: RotationMove)
        requires
            old(self).size <= i32::MAX,
            move_fits(old(self).facelets@, m, old(self).size as int),
        ensures
            final(self).size == old(self).size,
            final(self).facelets@ == after_move(old(self).facelets@, m, old(self).size as int),
    {
        let size_i32 = self.size as i32;
        let ghost s = self.size as int;
        let ghost fs = self.facelets@;
        let mut i: usize = 0;
        while i < self.facelets.len()
            invariant
                i <= self.facelets@.len(),
                self.facelets@.len() == fs.len(),
                self.size as int == s,
                size_i32 as int == s,
                move_fits(fs, m, s),
                forall|j: int| 0 <= j < i ==> #[trigger] self.facelets@[j] == turned_facelet(fs[j], m, s),
                forall|j: int| i <= j < fs.len() ==> #[trigger] self.facelets@[j] == fs[j],
            decreases fs.len() - i,
        {
            let f = self.facelets[i];
            if m.is_cubie_at_slice(f.coord) {
                assert(coord_fits(fs[i as int].coord, m, s));
                let coord = rotate_coord(f.coord, m, size_i32);
                let face = turn_face(f.face, m);
                self.facelets.set(i, Facelet { coord, face, color: f.color });
            }
            i = i + 1;
        }
        proof {
            assert(self.facelets@ =~= after_move(fs, m, s));
        }
    }

    /// Applies the moves in order.
    pub fn apply_moves(&mut self, moves: &[RotationMove])
        requires
            old(self).size <= i32::MAX,
            moves_fit(old(self).facelets@, moves@, old(self).size as int),
        ensures
            final(self).size == old(self).size,
            final(self).facelets@ == after_moves(old(self).facelets@, moves@, old(self).size as int),
    {
        let ghost s = self.size as int;
        let ghost fs = self.facelets@;
        let mut k: usize = 0;
        while k < moves.len()
            invariant
                k <= moves@.len(),
                self.size as int == s,
                s <= i32::MAX,
                moves_fit(fs, moves@, s),
                self.facelets@ == after_moves(fs, moves@.subrange(0, k as int), s),
            decreases moves@.len() - k,
        {
            proof {
                let pre = moves@.subrange(0, k as int);
                let one = moves@.subrange(k as int, k as int + 1);
                let rest = moves@.subrange(k as int + 1, moves@.len() as int);
                assert(moves@ =~= pre + one + rest);
                lemma_after_moves_concat(fs, pre + one, rest, s);
                lemma_after_moves_concat(fs, pre, one, s);
                assert(moves@.subrange(0, k as int + 1) =~= pre + one);
                assert(one.drop_last() =~= Seq::<RotationMove>::empty());
                assert(one.last() == moves@[k as int]);
            }
            self.apply_move(moves[k]);
            proof {
                let pre = moves@.subrange(0, k as int);
                let one = moves@.subrange(k as int, k as int + 1);
                assert(one.drop_last() =~= Seq::<RotationMove>::empty());
                assert(after_moves(self.facelets@, Seq::<RotationMove>::empty(), s) == self.facelets@);
                lemma_after_moves_concat(fs, pre, one, s);
                assert(moves@.subrange(0, k as int + 1) =~= pre + one);
            }
            k = k + 1;
        }
        proof {
            assert(moves@.subrange(0, moves@.len() as int) =~= moves@);
        }
    }
}

/// A copy with the same size and stickers.
impl Clone for NxNState {
    fn clone(&self) -> (r: Self)
        ensures
            r.size == self.size,
            r.facelets@ == self.facelets@,
    {
        let mut facelets: Vec<Facelet> = Vec::new();
        let mut i: usize = 0;
        while i < self.facelets.len()
            invariant
                i <= self.facelets@.len(),
                facelets@ == self.facelets@.subrange(0, i as int),
            decreases self.facelets@.len() - i,
        {
            facelets.push(self.facelets[i]);
            i = i + 1;
        }
        proof {
            assert(facelets@ =~= self.facelets@);
        }
        NxNState { size: self.size, facelets }
    }
}

/// A cubie coordinate after the move: turned about the center of the cube if it lies in the
/// slice, else unchanged.
pub fn rotate_coord(coord: IVec3, m: RotationMove, size: i32) -> (r: IVec3)
    requires
        coord_fits(coord, m, size as int),
    ensures
        r == rotate_coord_spec(coord, m, size as int),
        on_slice(coord, m) ==> vec_of(r) == turn_vec(vec_of(coord), m.axis, m.direction, size - 1),
{
    if !m.is_cubie_at_slice(coord) {
        return coord;
    }
    let k = size as i64 - 1;
    let (x, y, z) = (coord.x as i64, coord.y as i64, coord.z as i64);
    let (nx, ny, nz) = match (m.axis, m.direction) {
        (RotationAxis::X, Direction::CounterClockwise) => (x, k - z, y),
        (RotationAxis::X, Direction::Clockwise) => (x, z, k - y),
        (RotationAxis::Y, Direction::CounterClockwise) => (z, y, k - x),
        (RotationAxis::Y, Direction::Clockwise) => (k - z, y, x),
        (RotationAxis::Z, Direction::CounterClockwise) => (k - y, x, z),
        (RotationAxis::Z, Direction::Clockwise) => (y, k - x, z),
    };
    IVec3::new(nx as i32, ny as i32, nz as i32)
}

/// The face a sticker lies on after turning with its cubie.
fn turn_face(f: Face, m: RotationMove) -> (g: Face)
    ensures
        g == turned_face(f, m),
{
    let n = f.normal();
    let (x, y, z) = (n.x, n.y, n.z);
    let (nx, ny, nz) = match (m.axis, m.direction) {
        (RotationAxis::X, Direction::CounterClockwise) => (x, -z, y),
        (RotationAxis::X, Direction::Clockwise) => (x, z, -y),
        (RotationAxis::Y, Direction::CounterClockwise) => (z, y, -x),
        (RotationAxis::Y, Direction::Clockwise) => (-z, y, x),
        (RotationAxis::Z, Direction::CounterClockwise) => (-y, x, z),
        (RotationAxis::Z, Direction::Clockwise) => (y, -x, z),
    };
    match Face::from_normal(IVec3::new(nx, ny, nz)) {
        Some(g) => g,
        None => f,
    }
}

/// A move followed by the opposite turn of the same slice restores every sticker.
pub proof fn lemma_move_undone(fs: Seq<Facelet>, m: RotationMove, s: int)
    requires
        move_fits(fs, m, s),
    ensures
        ({
            let back = RotationMove { axis: m.axis, index: m.index, direction: opposite(m.direction), add_to_history: false };
            after_move(after_move(fs, m, s), back, s) == fs
        }),
{
    let back = RotationMove { axis: m.axis, index: m.index, direction: opposite(m.direction), add_to_history: false };
    assert forall|i: int| 0 <= i < fs.len() implies #[trigger] after_move(after_move(fs, m, s), back, s)[i] == fs[i] by {
        assert(coord_fits(fs[i].coord, m, s));
        lemma_turn_back(fs[i], m, s);
    }
    assert(after_move(after_move(fs, m, s), back, s) =~= fs);
}

/// Whether the coordinate lies on the surface of a cube of size s.
pub open spec fn on_surface(c: IVec3, s: int) -> bool {
    0 <= c.x < s && 0 <= c.y < s && 0 <= c.z < s && (c.x == 0 || c.x == s - 1 || c.y == 0 || c.y == s - 1
        || c.z == 0 || c.z == s - 1)
}

/// Whether some sticker lies on the cubie at `c`.
pub open spec fn covers(fs: Seq<Facelet>, c: IVec3) -> bool {
    exists|i: int| 0 <= i < fs.len() && #[trigger] fs[i].coord == c
}

/// Every surface cubie carries a sticker.
pub open spec fn complete(fs: Seq<Facelet>, s: int) -> bool {
    forall|c: IVec3| on_surface(c, s) ==> #[trigger] covers(fs, c)
}

/// The first sticker on the cubie at `c`, on any face.
pub open spec fn find_coord(fs: Seq<Facelet>, c: IVec3) -> Option<Facelet>
    decreases fs.len(),
{
    if fs.len() == 0 {
        None
    } else if fs[0].coord == c {
        Some(fs[0])
    } else {
        find_coord(fs.drop_first(), c)
    }
}

/// A covered cubie is found.
pub proof fn lemma_find_coord_some(fs: Seq<Facelet>, c: IVec3)
    requires
        covers(fs, c),
    ensures
        find_coord(fs, c) is Some,
        find_coord(fs, c).unwrap().coord == c,
    decreases fs.len(),
{
    if fs[0].coord != c {
        let i = choose|i: int| 0 <= i < fs.len() && #[trigger] fs[i].coord == c;
        assert(fs.drop_first()[i - 1].coord == c);
        lemma_find_coord_some(fs.drop_first(), c);
    }
}

/// A move keeps every surface cubie covered.
pub proof fn lemma_after_move_complete(fs: Seq<Facelet>, m: RotationMove, s: int)
    requires
        1 <= s <= i32::MAX,
        coords_in_range(fs, s),
        complete(fs, s),
    ensures
        complete(after_move(fs, m, s), s),
{
    let back = RotationMove { axis: m.axis, index: m.index, direction: opposite(m.direction), add_to_history: false };
    let a = after_move(fs, m, s);
    assert forall|t: IVec3| on_surface(t, s) implies #[trigger] covers(a, t) by {
        let p = rotate_coord_spec(t, back, s);
        assert(on_surface(p, s));
        assert(covers(fs, p));
        let i = choose|i: int| 0 <= i < fs.len() && #[trigger] fs[i].coord == p;
        assert(a[i].coord == t);
    }
}

/// Moves keep every surface cubie covered.
pub proof fn lemma_after_moves_complete(fs: Seq<Facelet>, ms: Seq<RotationMove>, s: int)
    requires
        1 <= s <= i32::MAX,
        coords_in_range(fs, s),
        complete(fs, s),
    ensures
        complete(after_moves(fs, ms, s), s),
    decreases ms.len(),
{
    if ms.len() > 0 {
        lemma_after_moves_complete(fs, ms.drop_last(), s);
        lemma_after_moves_in_range(fs, ms.drop_last(), s);
        lemma_after_move_complete(after_moves(fs, ms.drop_last(), s), ms.last(), s);
    }
}

/// The solved cube covers every surface cubie and keeps its coordinates in range.
pub proof fn lemma_solved_complete(s: int)
    requires
        1 <= s <= i32::MAX,
    ensures
        complete(solved_facelets(s), s),
        coords_in_range(solved_facelets(s), s),
{
    let fs = solved_facelets(s);
    assert forall|i: int| 0 <= i < fs.len() implies 0 <= #[trigger] fs[i].coord.x < s && 0 <= fs[i].coord.y < s
        && 0 <= fs[i].coord.z < s by {
        lemma_decode_scan(s, i);
    }
    assert forall|t: IVec3| on_surface(t, s) implies #[trigger] covers(fs, t) by {
        let (q, r, c) = surface_position(t, s);
        lemma_block_index(s, q, r, c);
        assert(q * (s * s) + r * s + c < 6 * (s * s)) by (nonlinear_arith)
            requires
                0 <= q < 6,
                0 <= r * s + c < s * s,
        ;
        let k = q * (s * s) + r * s + c;
        assert(fs[k].coord == t);
    }
}

/// Index k of the solved layout decodes to a face position, row and column in range.
proof fn lemma_decode_scan(s: int, k: int)
    requires
        1 <= s,
        0 <= k < 6 * (s * s),
    ensures
        0 <= k / (s * s) < 6,
        0 <= (k % (s * s)) / s < s,
        0 <= k % s < s,
{
    let nn = s * s;
    assert(nn >= 1) by (nonlinear_arith)
        requires
            s >= 1,
            nn == s * s,
    ;
    vstd::arithmetic::div_mod::lemma_fundamental_div_mod(k, nn);
    vstd::arithmetic::div_mod::lemma_mod_pos_bound(k, nn);
    let q = k / nn;
    let rem = k % nn;
    assert(0 <= q < 6) by (nonlinear_arith)
        requires
            k == nn * q + rem,
            0 <= rem < nn,
            0 <= k < 6 * nn,
    ;
    vstd::arithmetic::div_mod::lemma_fundamental_div_mod(rem, s);
    vstd::arithmetic::div_mod::lemma_mod_pos_bound(rem, s);
    assert(0 <= rem / s < s) by (nonlinear_arith)
        requires
            rem == s * (rem / s) + rem % s,
            0 <= rem % s < s,
            0 <= rem < nn,
            nn == s * s,
    ;
    vstd::arithmetic::div_mod::lemma_mod_pos_bound(k, s);
}

/// A face, row and column whose sticker lies on a given surface cubie.
pub open spec fn surface_position(t: IVec3, s: int) -> (int, int, int) {
    let (x, y, z) = (t.x as int, t.y as int, t.z as int);
    if y == s - 1 {
        (0, z, x)
    } else if x == s - 1 {
        (1, s - 1 - y, s - 1 - z)
    } else if z == s - 1 {
        (2, s - 1 - y, x)
    } else if y == 0 {
        (3, s - 1 - z, x)
    } else if x == 0 {
        (4, s - 1 - y, z)
    } else {
        (5, s - 1 - y, s - 1 - x)
    }
}

/// A copy of the state with the moves applied.
pub(crate) fn simulate(state: &NxNState, moves: &Vec<RotationMove>) -> (r: NxNState)
    requires
        state.valid(),
    ensures
        r.size == state.size,
        r.facelets@ == after_moves(state.facelets@, moves@, state.size as int),
        r.valid(),
        1 <= state.size && complete(state.facelets@, state.size as int) ==> complete(r.facelets@, r.size as int),
{
    let mut sim = state.clone();
    proof {
        lemma_after_moves_in_range(state.facelets@, moves@, state.size as int);
        if 1 <= state.size && complete(state.facelets@, state.size as int) {
            lemma_after_moves_complete(state.facelets@, moves@, state.size as int);
        }
    }
    sim.apply_moves(moves.as_slice());
    sim
}

} // verus!
