//! Center solving of the reduction method: Left, Right, Down and Back are built bar by bar
//! (pieces moved into a bar on a working face, the bar inserted into its face), then the last
//! two centers, Up and Front, are solved orbit by orbit with their exchange commutators.

use vstd::prelude::*;
use crate::orientation::{Direction, Face, IVec3, RotationAxis, RotationMove};
use crate::nxn::state::{
    NxNState, Facelet, after_moves, coords_in_range, complete, covers, find_coord, on_surface,
    rotate_coord, face_order, face_order_spec, logical_coord, ivec_spec, lemma_turn_in_range,
    lemma_after_moves_in_range, lemma_after_moves_complete, lemma_after_moves_concat, lemma_find_coord_some,
    simulate, rotate_coord_spec,
};
use crate::nxn::edges::{track, in_cube, extend_moves};
use crate::nxn::orbit::{get_orbits, orbits_spec, Orbit, scan_coord, scan_is_middle, scan_len, inner};
use crate::nxn::formulas::{get_center_l2c_mid, get_center_l2c_left, get_center_l2c_right, turn, cw, ccw, m_turn, u_turn, l_turn, r_turn};
use crate::cube::geometry::lemma_block_index;

verus! {

/// The cubies of the center stickers among the first k scanned positions (the middle sticker of
/// an odd cube left out).
pub open spec fn center_coords_upto(s: int, k: int) -> Seq<IVec3>
    decreases k,
{
    if k <= 0 {
        Seq::empty()
    } else if scan_is_middle(s, k - 1) {
        center_coords_upto(s, k - 1)
    } else {
        center_coords_upto(s, k - 1).push(scan_coord(s, k - 1))
    }
}

/// The cubies of all center stickers, face by face (Up, Right, Front, Down, Left, Back) and row
/// by row, without the middle sticker of an odd cube.
pub fn get_center_coords(size: usize) -> (v: Vec<IVec3>)
    requires
        1 <= size <= i32::MAX,
    ensures
        v@ == center_coords_upto(size as int, scan_len(size as int)),
{
    let mut coords: Vec<IVec3> = Vec::new();
    if size < 3 {
        return coords;
    }
    let ghost s = size as int;
    let ghost n = s - 2;
    let mut q: usize = 0;
    while q < 6
        invariant
            q <= 6,
            s == size,
            3 <= size <= i32::MAX,
            n == s - 2,
            coords@ == center_coords_upto(s, q * (n * n)),
        decreases 6 - q,
    {
        let face = face_order(q);
        let mut row: usize = 1;
        while row < size - 1
            invariant
                q < 6,
                1 <= row <= size - 1,
                s == size,
                3 <= size <= i32::MAX,
                n == s - 2,
                face == face_order_spec(q as int),
                coords@ == center_coords_upto(s, q * (n * n) + (row - 1) * n),
            decreases size - row,
        {
            let mut col: usize = 1;
            while col < size - 1
                invariant
                    q < 6,
                    1 <= row < size - 1,
                    1 <= col <= size - 1,
                    s == size,
                    3 <= size <= i32::MAX,
                    n == s - 2,
                    face == face_order_spec(q as int),
                    coords@ == center_coords_upto(s, q * (n * n) + (row - 1) * n + (col - 1)),
                decreases size - col,
            {
                proof {
                    lemma_block_index(n, q as int, row - 1, col - 1);
                    assert(q * (n * n) + (row - 1) * n + (col - 1) < 6 * (n * n)) by (nonlinear_arith)
                        requires
                            0 <= q < 6,
                            0 <= (row - 1) * n + (col - 1) < n * n,
                    ;
                }
                if !(size % 2 == 1 && row == size / 2 && col == size / 2) {
                    let coord = NxNState::get_logical_coord(face, row, col, size).unwrap();
                    coords.push(coord);
                }
                col = col + 1;
            }
            proof {
                assert(q * (n * n) + (row - 1) * n + n == q * (n * n) + row * n) by (nonlinear_arith);
            }
            row = row + 1;
        }
        proof {
            assert(row - 1 == n);
            assert(q * (n * n) + n * n == (q + 1) * (n * n)) by (nonlinear_arith);
        }
        q = q + 1;
    }
    coords
}

/// A state that the center solver works on: coordinates in range, every surface cubie covered.
pub open spec fn ready(st: &NxNState) -> bool {
    &&& st.valid()
    &&& st.size >= 1
    &&& complete(st.facelets@, st.size as int)
}

/// Whether `now` is `start` after some moves.
pub open spec fn reachable(start: Seq<Facelet>, now: Seq<Facelet>, s: int) -> bool {
    exists|ms: Seq<RotationMove>| now == #[trigger] after_moves(start, ms, s)
}

/// Reachability is kept by further moves.
pub proof fn lemma_reach_step(start: Seq<Facelet>, mid: Seq<Facelet>, ms: Seq<RotationMove>, s: int)
    requires
        reachable(start, mid, s),
    ensures
        reachable(start, after_moves(mid, ms, s), s),
{
    let ms1 = choose|ms1: Seq<RotationMove>| mid == #[trigger] after_moves(start, ms1, s);
    lemma_after_moves_concat(start, ms1, ms, s);
    assert(after_moves(mid, ms, s) == after_moves(start, ms1 + ms, s));
}

/// Every state is reachable from itself.
proof fn lemma_reach_self(fs: Seq<Facelet>, s: int)
    ensures
        reachable(fs, fs, s),
{
    assert(after_moves(fs, Seq::<RotationMove>::empty(), s) == fs);
}

/// Applies the moves to the state, which stays ready and reachable from `start`.
fn apply_tracked(state: &mut NxNState, moves: &Vec<RotationMove>, Ghost(start): Ghost<Seq<Facelet>>)
    requires
        ready(old(state)),
        reachable(start, old(state).facelets@, old(state).size as int),
    ensures
        ready(final(state)),
        final(state).size == old(state).size,
        final(state).facelets@ == after_moves(old(state).facelets@, moves@, old(state).size as int),
        reachable(start, final(state).facelets@, final(state).size as int),
{
    proof {
        lemma_after_moves_in_range(state.facelets@, moves@, state.size as int);
        lemma_after_moves_complete(state.facelets@, moves@, state.size as int);
        lemma_reach_step(start, state.facelets@, moves@, state.size as int);
    }
    state.apply_moves(moves.as_slice());
}

/// A copy of a list of moves.
fn copy_moves(v: &Vec<RotationMove>) -> (r: Vec<RotationMove>)
    ensures
        r@ == v@,
{
    let mut r: Vec<RotationMove> = Vec::new();
    extend_moves(&mut r, v);
    assert(r@ =~= v@);
    r
}

/// The first sticker on the cubie at `coord`, on any face.
fn find_by_coord(state: &NxNState, coord: IVec3) -> (r: Option<Facelet>)
    ensures
        r == find_coord(state.facelets@, coord),
{
    let mut i: usize = 0;
    assert(state.facelets@.subrange(0, state.facelets@.len() as int) =~= state.facelets@);
    while i < state.facelets.len()
        invariant
            i <= state.facelets@.len(),
            find_coord(state.facelets@, coord) == find_coord(
                state.facelets@.subrange(i as int, state.facelets@.len() as int),
                coord,
            ),
        decreases state.facelets@.len() - i,
    {
        let f = state.facelets[i];
        let ghost rest = state.facelets@.subrange(i as int, state.facelets@.len() as int);
        assert(rest[0] == f);
        if f.coord == coord {
            return Some(f);
        }
        assert(rest.drop_first() =~= state.facelets@.subrange(i as int + 1, state.facelets@.len() as int));
        i = i + 1;
    }
    proof {
        assert(state.facelets@.subrange(i as int, state.facelets@.len() as int).len() == 0);
    }
    None
}

/// The color of the sticker found at a face coordinate.
pub open spec fn color_at_spec(fs: Seq<Facelet>, face: Face, row: int, col: int, s: int) -> Face {
    find_coord(fs, ivec_spec(logical_coord(face, row, col, s))).unwrap().color
}

/// The color on the cubie at a face coordinate of a ready state.
fn color_at(state: &NxNState, face: Face, row: usize, col: usize) -> (c: Face)
    requires
        ready(state),
        row < state.size,
        col < state.size,
    ensures
        c == color_at_spec(state.facelets@, face, row as int, col as int, state.size as int),
        find_coord(state.facelets@, ivec_spec(logical_coord(face, row as int, col as int, state.size as int))) is Some,
{
    let coord = NxNState::get_logical_coord(face, row, col, state.size).unwrap();
    proof {
        assert(on_surface(coord, state.size as int));
        assert(covers(state.facelets@, coord));
        lemma_find_coord_some(state.facelets@, coord);
    }
    find_by_coord(state, coord).unwrap().color
}

/// The face whose outer layer holds the cubie: Left, Right, Down, Up, Back, Front in that order of
/// tests; none for an inner cubie.
pub open spec fn face_of_coord(c: IVec3, s: int) -> Option<Face> {
    if c.x == 0 {
        Some(Face::Left)
    } else if c.x == s - 1 {
        Some(Face::Right)
    } else if c.y == 0 {
        Some(Face::Down)
    } else if c.y == s - 1 {
        Some(Face::Up)
    } else if c.z == 0 {
        Some(Face::Back)
    } else if c.z == s - 1 {
        Some(Face::Front)
    } else {
        None
    }
}

/// The face whose outer layer holds the cubie, if any.
fn get_face_of_coord(coord: IVec3, size: i32) -> (f: Option<Face>)
    requires
        size >= 1,
    ensures
        f == face_of_coord(coord, size as int),
{
    if coord.x == 0 {
        Some(Face::Left)
    } else if coord.x == size - 1 {
        Some(Face::Right)
    } else if coord.y == 0 {
        Some(Face::Down)
    } else if coord.y == size - 1 {
        Some(Face::Up)
    } else if coord.z == 0 {
        Some(Face::Back)
    } else if coord.z == size - 1 {
        Some(Face::Front)
    } else {
        None
    }
}

/// The column of `face` that the cubie at `coord` lies in, as the bars of that face count them.
pub open spec fn bar_column(coord: IVec3, s: int, face: Face) -> int {
    match face {
        Face::Up => coord.x as int,
        Face::Down => coord.x as int,
        Face::Left => coord.z as int,
        Face::Right => s - 1 - coord.z,
        Face::Front => coord.x as int,
        Face::Back => s - 1 - coord.x,
    }
}

/// Whether the sticker at `coord` on `face` lies in a bar already built, left of `current_col`.
fn is_in_solved_bar(coord: IVec3, size: usize, face: Face, current_col: usize) -> (b: bool)
    requires
        size <= i32::MAX,
        in_cube(coord, size as int),
    ensures
        b == (bar_column(coord, size as int, face) < current_col),
{
    let s = size as i32;
    let col = match face {
        Face::Up => coord.x,
        Face::Down => coord.x,
        Face::Left => coord.z,
        Face::Right => s - 1 - coord.z,
        Face::Front => coord.x,
        Face::Back => s - 1 - coord.x,
    };
    (col as usize) < current_col
}

/// The first of the orbits that holds the cubie; empty where none does.
pub open spec fn first_orbit_with(os: Seq<Seq<IVec3>>, c: IVec3) -> Seq<IVec3>
    decreases os.len(),
{
    if os.len() == 0 {
        Seq::empty()
    } else if os[0].contains(c) {
        os[0]
    } else {
        first_orbit_with(os.drop_first(), c)
    }
}

/// The orbit that holds the cubie, or none.
fn get_orbit_of_coord(coord: IVec3, size: usize) -> (v: Vec<IVec3>)
    requires
        1 <= size <= i32::MAX,
    ensures
        v@ == first_orbit_with(orbits_spec(size as int), coord),
{
    let orbits = get_orbits(size);
    let ghost ov = orbits@.map_values(|o: Orbit| o.positions@);
    let mut i: usize = 0;
    proof {
        assert(ov.subrange(0, ov.len() as int) =~= ov);
    }
    while i < orbits.len()
        invariant
            i <= orbits@.len(),
            ov == orbits@.map_values(|o: Orbit| o.positions@),
            ov == orbits_spec(size as int),
            first_orbit_with(ov, coord) == first_orbit_with(ov.subrange(i as int, ov.len() as int), coord),
        decreases orbits@.len() - i,
    {
        let ghost rest = ov.subrange(i as int, ov.len() as int);
        assert(rest[0] == orbits@[i as int].positions@);
        if contains_coord(&orbits[i].positions, coord) {
            return copy_coords(&orbits[i].positions);
        }
        assert(rest.drop_first() =~= ov.subrange(i as int + 1, ov.len() as int));
        i = i + 1;
    }
    proof {
        assert(ov.subrange(i as int, ov.len() as int).len() == 0);
    }
    Vec::new()
}

/// A copy of a list of coordinates.
fn copy_coords(v: &Vec<IVec3>) -> (r: Vec<IVec3>)
    ensures
        r@ == v@,
{
    let mut r: Vec<IVec3> = Vec::new();
    let mut i: usize = 0;
    while i < v.len()
        invariant
            i <= v@.len(),
            r@ == v@.subrange(0, i as int),
        decreases v@.len() - i,
    {
        r.push(v[i]);
        proof {
            assert(v@.subrange(0, i as int + 1) =~= v@.subrange(0, i as int).push(v@[i as int]));
        }
        i = i + 1;
    }
    proof {
        assert(v@.subrange(0, v@.len() as int) =~= v@);
    }
    r
}

/// Whether the coordinate is in the list.
fn contains_coord(v: &Vec<IVec3>, c: IVec3) -> (b: bool)
    ensures
        b == v@.contains(c),
{
    let mut i: usize = 0;
    while i < v.len()
        invariant
            i <= v@.len(),
            forall|j: int| 0 <= j < i ==> v@[j] != c,
        decreases v@.len() - i,
    {
        if v[i] == c {
            assert(v@[i as int] == c);
            return true;
        }
        i = i + 1;
    }
    false
}

/// Whether the face is in the list.
fn contains_face(v: &Vec<Face>, f: Face) -> (b: bool)
    ensures
        b == v@.contains(f),
{
    let mut i: usize = 0;
    while i < v.len()
        invariant
            i <= v@.len(),
            forall|j: int| 0 <= j < i ==> v@[j] != f,
        decreases v@.len() - i,
    {
        if v[i] == f {
            assert(v@[i as int] == f);
            return true;
        }
        i = i + 1;
    }
    false
}

/// The axis of the outer layer of a face.
pub open spec fn outer_axis(face: Face) -> RotationAxis {
    match face {
        Face::Left | Face::Right => RotationAxis::X,
        Face::Down | Face::Up => RotationAxis::Y,
        Face::Back | Face::Front => RotationAxis::Z,
    }
}

/// The index of the outer layer of a face: 0 for Left, Down and Back, `s - 1` for the others.
pub open spec fn outer_index(face: Face, s: int) -> int {
    match face {
        Face::Left | Face::Down | Face::Back => 0,
        Face::Right | Face::Up | Face::Front => s - 1,
    }
}

/// The outer layer of a face.
fn outer_of(face: Face, size: usize) -> (r: (RotationAxis, i32))
    requires
        size <= i32::MAX,
    ensures
        r.0 == outer_axis(face),
        r.1 == outer_index(face, size as int),
{
    let s = size as i32;
    match face {
        Face::Left => (RotationAxis::X, 0),
        Face::Right => (RotationAxis::X, s - 1),
        Face::Down => (RotationAxis::Y, 0),
        Face::Up => (RotationAxis::Y, s - 1),
        Face::Back => (RotationAxis::Z, 0),
        Face::Front => (RotationAxis::Z, s - 1),
    }
}

/// A layer turned clockwise, then counterclockwise.
pub open spec fn turn_pair(axis: RotationAxis, index: int) -> Seq<RotationMove> {
    seq![turn(axis, index, cw()), turn(axis, index, ccw())]
}

/// The outer turns of the first q faces of the storage order that are not solved.
pub open spec fn outer_generators(s: int, solved: Seq<Face>, q: int) -> Seq<RotationMove>
    decreases q,
{
    if q <= 0 {
        Seq::empty()
    } else if solved.contains(face_order_spec(q - 1)) {
        outer_generators(s, solved, q - 1)
    } else {
        outer_generators(s, solved, q - 1) + turn_pair(
            outer_axis(face_order_spec(q - 1)),
            outer_index(face_order_spec(q - 1), s),
        )
    }
}

/// The turns of the inner slices 1 .. k - 1 of an axis.
pub open spec fn slice_generators(axis: RotationAxis, k: int) -> Seq<RotationMove>
    decreases k,
{
    if k <= 1 {
        Seq::empty()
    } else {
        slice_generators(axis, k - 1) + turn_pair(axis, k - 1)
    }
}

/// The axis at position a of X, Y, Z.
pub open spec fn axis_at(a: int) -> RotationAxis {
    if a == 0 {
        RotationAxis::X
    } else if a == 1 {
        RotationAxis::Y
    } else {
        RotationAxis::Z
    }
}

/// The inner slice turns of the first a axes.
pub open spec fn all_slice_generators(s: int, a: int) -> Seq<RotationMove>
    decreases a,
{
    if a <= 0 {
        Seq::empty()
    } else {
        all_slice_generators(s, a - 1) + slice_generators(axis_at(a - 1), s - 1)
    }
}

/// The safe turns: the outer turns of the faces not solved, then every inner slice.
pub open spec fn safe_generators(s: int, solved: Seq<Face>) -> Seq<RotationMove> {
    outer_generators(s, solved, 6) + all_slice_generators(s, 3)
}

/// The turns that keep solved faces: the outer turns of unsolved faces (storage order, each
/// clockwise and counterclockwise), then every inner slice of X, Y and Z both ways.
fn get_safe_generators(size: usize, solved: &Vec<Face>, _target_face: Face) -> (moves: Vec<RotationMove>)
    requires
        1 <= size <= i32::MAX,
    ensures
        moves@ == safe_generators(size as int, solved@),
{
    let ghost s = size as int;
    let mut moves: Vec<RotationMove> = Vec::new();
    let mut q: usize = 0;
    while q < 6
        invariant
            q <= 6,
            s == size,
            1 <= size <= i32::MAX,
            moves@ == outer_generators(s, solved@, q as int),
        decreases 6 - q,
    {
        let face = face_order(q);
        if !contains_face(solved, face) {
            let (axis, index) = outer_of(face, size);
            moves.push(RotationMove { axis, index, direction: Direction::Clockwise, add_to_history: true });
            moves.push(RotationMove { axis, index, direction: Direction::CounterClockwise, add_to_history: true });
            assert(moves@ =~= outer_generators(s, solved@, q as int + 1));
        }
        q = q + 1;
    }
    let ghost outer = moves@;
    let mut a: usize = 0;
    while a < 3
        invariant
            a <= 3,
            s == size,
            1 <= size <= i32::MAX,
            moves@ == outer + all_slice_generators(s, a as int),
        decreases 3 - a,
    {
        let axis = if a == 0 {
            RotationAxis::X
        } else if a == 1 {
            RotationAxis::Y
        } else {
            RotationAxis::Z
        };
        let ghost before = moves@;
        let mut index: i32 = 1;
        while index < size as i32 - 1
            invariant
                1 <= index <= s - 1 || (index == 1 && s <= 2),
                s == size,
                1 <= size <= i32::MAX,
                axis == axis_at(a as int),
                moves@ == before + slice_generators(axis, index as int),
            decreases size - index,
        {
            moves.push(RotationMove { axis, index, direction: Direction::Clockwise, add_to_history: true });
            moves.push(RotationMove { axis, index, direction: Direction::CounterClockwise, add_to_history: true });
            assert(moves@ =~= before + slice_generators(axis, index as int + 1));
            index = index + 1;
        }
        proof {
            assert(slice_generators(axis, index as int) == slice_generators(axis, s - 1)) by {
                if s <= 2 {
                    assert(slice_generators(axis, s - 1) == Seq::<RotationMove>::empty());
                }
            }
            assert(moves@ =~= outer + all_slice_generators(s, a as int + 1));
        }
        a = a + 1;
    }
    moves
}

/// Whether some entry of the layer, from index `from` on, has reached `c`.
pub open spec fn in_layer(l: Seq<(Vec<RotationMove>, IVec3)>, from: int, c: IVec3) -> bool {
    exists|i: int| from <= i < l.len() && #[trigger] l[i].1 == c
}

/// An entry pushed onto a layer is in it, and so are the entries already there.
proof fn lemma_in_layer_push(l: Seq<(Vec<RotationMove>, IVec3)>, x: (Vec<RotationMove>, IVec3))
    ensures
        in_layer(l.push(x), 0, x.1),
        forall|c: IVec3| in_layer(l, 0, c) ==> #[trigger] in_layer(l.push(x), 0, c),
{
    assert(l.push(x)[l.len() as int].1 == x.1);
    assert forall|c: IVec3| in_layer(l, 0, c) implies #[trigger] in_layer(l.push(x), 0, c) by {
        let i = choose|i: int| 0 <= i < l.len() && #[trigger] l[i].1 == c;
        assert(l.push(x)[i].1 == c);
    }
}

/// An entry from `from` on is the one at `from` or one after it.
proof fn lemma_in_layer_step(l: Seq<(Vec<RotationMove>, IVec3)>, from: int)
    requires
        0 <= from < l.len(),
    ensures
        forall|c: IVec3| #[trigger] in_layer(l, from, c) ==> l[from].1 == c || in_layer(l, from + 1, c),
{
    assert forall|c: IVec3| #[trigger] in_layer(l, from, c) implies l[from].1 == c || in_layer(l, from + 1, c) by {
        let i = choose|i: int| from <= i < l.len() && #[trigger] l[i].1 == c;
        if i > from {
            assert(l[i].1 == c);
        }
    }
}

/// A set of cubie positions that holds `src` and every position one generator turn away from
/// its members holds every position that generator turns carry `src` to.
proof fn lemma_closed(src: IVec3, t: Seq<RotationMove>, gens: Seq<RotationMove>, done: Set<IVec3>, s: int)
    requires
        done.contains(src),
        forall|c: IVec3, j: int|
            done.contains(c) && 0 <= j < gens.len() ==> done.contains(#[trigger] rotate_coord_spec(c, gens[j], s)),
        over_gens(t, gens),
    ensures
        done.contains(track(src, t, s)),
    decreases t.len(),
{
    if t.len() > 0 {
        let t1 = t.drop_last();
        assert(over_gens(t1, gens)) by {
            assert forall|k: int| 0 <= k < t1.len() implies gens.contains(#[trigger] t1[k]) by {
                assert(t1[k] == t[k]);
            }
        }
        lemma_closed(src, t1, gens, done, s);
        assert(gens.contains(t[t.len() - 1]));
        let j = choose|j: int| 0 <= j < gens.len() && gens[j] == t.last();
        assert(done.contains(rotate_coord_spec(track(src, t1, s), gens[j], s)));
    }
}

/// Breadth-first search (up to five safe turns) for turns that carry the cubie at `src` to `dest`.
fn move_piece_to_pos(state: &NxNState, src: IVec3, dest: IVec3, solved: &Vec<Face>, target_face: Face) -> (r: Option<
    Vec<RotationMove>,
>)
    requires
        1 <= state.size <= i32::MAX,
        in_cube(src, state.size as int),
    ensures
        r matches Some(ms) ==> track(src, ms@, state.size as int) == dest,
        src == dest ==> (r matches Some(ms) && ms@.len() == 0),
        r is None ==> forall|t: Seq<RotationMove>|
            #[trigger] over_gens(t, safe_generators(state.size as int, solved@)) && t.len() <= 5 ==> track(
                src,
                t,
                state.size as int,
            ) != dest,
{
    let size = state.size;
    let s = size as i32;
    let ghost sz = size as int;
    let generators = get_safe_generators(size, solved, target_face);
    let mut layer: Vec<(Vec<RotationMove>, IVec3)> = vec![(Vec::new(), src)];
    let mut visited: Vec<IVec3> = vec![src];
    let mut depth: usize = 0;
    let ghost mut done: Set<IVec3> = Set::empty();
    let ghost mut expanded: Set<IVec3> = Set::empty();
    proof {
        assert(layer@[0].0@ =~= Seq::<RotationMove>::empty());
        assert(visited@[0] == src);
        assert(layer@[0].1 == src);
        assert(in_layer(layer@, 0, src));
        assert forall|c: IVec3| visited@.contains(c) implies done.contains(c) || in_layer(layer@, 0, c) by {
            let i = choose|i: int| 0 <= i < visited@.len() && visited@[i] == c;
            assert(i == 0);
        }
        assert forall|t: Seq<RotationMove>|
            #[trigger] over_gens(t, generators@) && t.len() <= 0 implies visited@.contains(track(src, t, sz)) by {
            assert(track(src, t, sz) == src);
        }
    }
    while layer.len() > 0
        invariant
            s as int == sz,
            size as int == sz,
            size == state.size,
            1 <= sz <= i32::MAX,
            generators@ == safe_generators(sz, solved@),
            depth <= 6,
            depth == 6 ==> layer@.len() == 0,
            src == dest ==> depth == 0 && layer@.len() >= 1 && layer@[0].1 == src,
            forall|i: int| 0 <= i < layer@.len() ==> in_cube(#[trigger] layer@[i].1, sz),
            forall|i: int| 0 <= i < layer@.len() ==> (#[trigger] layer@[i]).0@.len() == depth,
            forall|i: int| 0 <= i < layer@.len() ==> #[trigger] layer@[i].1 == track(src, layer@[i].0@, sz),
            forall|c: IVec3| done.contains(c) ==> c != dest,
            forall|c: IVec3, j: int|
                expanded.contains(c) && 0 <= j < generators@.len() ==> visited@.contains(
                    #[trigger] rotate_coord_spec(c, generators@[j], sz),
                ),
            forall|c: IVec3| visited@.contains(c) ==> done.contains(c) || in_layer(layer@, 0, c),
            forall|t: Seq<RotationMove>|
                #[trigger] over_gens(t, generators@) && t.len() <= depth && t.len() <= 5 ==> visited@.contains(
                    track(src, t, sz),
                ),
            depth <= 5 ==> forall|c: IVec3| #[trigger] expanded.contains(c) <==> done.contains(c),
            forall|c: IVec3| done.contains(c) ==> visited@.contains(c),
            forall|i: int| 0 <= i < layer@.len() ==> visited@.contains(#[trigger] layer@[i].1),
        decreases 6 - depth,
    {
        let mut next: Vec<(Vec<RotationMove>, IVec3)> = Vec::new();
        let mut li: usize = 0;
        let ghost d = depth as int;
        proof {
            assert forall|t: Seq<RotationMove>|
                #[trigger] over_gens(t, generators@) && t.len() <= d && t.len() <= 5 implies done.contains(
                    track(src, t, sz),
                ) || in_layer(layer@, 0, track(src, t, sz)) by {
                assert(visited@.contains(track(src, t, sz)));
            }
        }
        while li < layer.len()
            invariant
                li <= layer@.len(),
                d == depth,
                s as int == sz,
                size as int == sz,
                size == state.size,
                1 <= sz <= i32::MAX,
                generators@ == safe_generators(sz, solved@),
                depth <= 5,
                src == dest ==> depth == 0 && li == 0 && layer@.len() >= 1 && layer@[0].1 == src,
                forall|i: int| 0 <= i < layer@.len() ==> in_cube(#[trigger] layer@[i].1, sz),
                forall|i: int| 0 <= i < layer@.len() ==> (#[trigger] layer@[i]).0@.len() == depth,
                forall|i: int| 0 <= i < layer@.len() ==> #[trigger] layer@[i].1 == track(src, layer@[i].0@, sz),
                forall|i: int| 0 <= i < next@.len() ==> in_cube(#[trigger] next@[i].1, sz),
                forall|i: int| 0 <= i < next@.len() ==> (#[trigger] next@[i]).0@.len() == depth + 1,
                forall|i: int| 0 <= i < next@.len() ==> #[trigger] next@[i].1 == track(src, next@[i].0@, sz),
                depth == 5 ==> next@.len() == 0,
                forall|c: IVec3| done.contains(c) ==> c != dest,
                forall|c: IVec3, j: int|
                    expanded.contains(c) && 0 <= j < generators@.len() ==> visited@.contains(
                        #[trigger] rotate_coord_spec(c, generators@[j], sz),
                    ),
                forall|c: IVec3|
                    visited@.contains(c) ==> done.contains(c) || in_layer(layer@, li as int, c) || in_layer(next@, 0, c),
                forall|t: Seq<RotationMove>|
                    #[trigger] over_gens(t, generators@) && t.len() <= depth && t.len() <= 5 ==> done.contains(
                        track(src, t, sz),
                    ) || in_layer(layer@, li as int, track(src, t, sz)),
                depth < 5 ==> forall|c: IVec3| #[trigger] expanded.contains(c) <==> done.contains(c),
                forall|c: IVec3| done.contains(c) ==> visited@.contains(c),
                forall|i: int| 0 <= i < layer@.len() ==> visited@.contains(#[trigger] layer@[i].1),
                forall|i: int| 0 <= i < next@.len() ==> visited@.contains(#[trigger] next@[i].1),
            decreases layer@.len() - li,
        {
            let moves = &layer[li].0;
            let curr = layer[li].1;
            if curr == dest {
                return Some(copy_moves(moves));
            }
            proof {
                lemma_in_layer_step(layer@, li as int);
                done = done.insert(curr);
            }
            if depth < 5 {
                let mut g: usize = 0;
                while g < generators.len()
                    invariant
                        g <= generators@.len(),
                        li < layer@.len(),
                        s as int == sz,
                        1 <= sz <= i32::MAX,
                        depth < 5,
                        moves@ == layer@[li as int].0@,
                        moves@.len() == depth,
                        curr == track(src, moves@, sz),
                        curr == layer@[li as int].1,
                        in_cube(curr, sz),
                        forall|i: int| 0 <= i < next@.len() ==> in_cube(#[trigger] next@[i].1, sz),
                        forall|i: int| 0 <= i < next@.len() ==> (#[trigger] next@[i]).0@.len() == depth + 1,
                        forall|i: int| 0 <= i < next@.len() ==> #[trigger] next@[i].1 == track(src, next@[i].0@, sz),
                        forall|c: IVec3, j: int|
                            expanded.contains(c) && 0 <= j < generators@.len() ==> visited@.contains(
                                #[trigger] rotate_coord_spec(c, generators@[j], sz),
                            ),
                        forall|j: int| 0 <= j < g ==> visited@.contains(#[trigger] rotate_coord_spec(curr, generators@[j], sz)),
                        forall|c: IVec3|
                            visited@.contains(c) ==> done.contains(c) || in_layer(layer@, li + 1, c) || in_layer(next@, 0, c),
                        forall|c: IVec3| done.contains(c) ==> visited@.contains(c),
                        forall|i: int| 0 <= i < layer@.len() ==> visited@.contains(#[trigger] layer@[i].1),
                        forall|i: int| 0 <= i < next@.len() ==> visited@.contains(#[trigger] next@[i].1),
                    decreases generators@.len() - g,
                {
                    let m = generators[g];
                    proof {
                        lemma_turn_in_range(curr, m, sz);
                    }
                    let nxt = rotate_coord(curr, m, s);
                    let ghost old_v = visited@;
                    if !contains_coord(&visited, nxt) {
                        visited.push(nxt);
                        proof {
                            assert forall|x: IVec3| old_v.contains(x) implies visited@.contains(x) by {
                                assert(visited@ == old_v.push(nxt));
                                vstd::seq_lib::lemma_seq_contains_after_push(old_v, nxt, x);
                            }
                            assert(visited@.contains(nxt)) by {
                                assert(visited@[old_v.len() as int] == nxt);
                            }
                        }
                        let mut next_moves = copy_moves(moves);
                        next_moves.push(m);
                        proof {
                            assert(next_moves@.drop_last() =~= moves@);
                        }
                        let ghost old_next = next@;
                        next.push((next_moves, nxt));
                        proof {
                            lemma_in_layer_push(old_next, (next_moves, nxt));
                        }
                    }
                    proof {
                        assert(nxt == rotate_coord_spec(curr, generators@[g as int], sz));
                        assert(visited@.contains(rotate_coord_spec(curr, generators@[g as int], sz)));
                        assert forall|c: IVec3, j: int|
                            expanded.contains(c) && 0 <= j < generators@.len() implies visited@.contains(
                                #[trigger] rotate_coord_spec(c, generators@[j], sz),
                            ) by {
                            assert(old_v.contains(rotate_coord_spec(c, generators@[j], sz)));
                        }
                        assert forall|j: int| 0 <= j < g + 1 implies visited@.contains(
                            #[trigger] rotate_coord_spec(curr, generators@[j], sz),
                        ) by {
                            if j < g {
                                assert(old_v.contains(rotate_coord_spec(curr, generators@[j], sz)));
                            }
                        }
                    }
                    g = g + 1;
                }
                proof {
                    expanded = expanded.insert(curr);
                }
            }
            li = li + 1;
        }
        proof {
            assert forall|c: IVec3| !in_layer(layer@, layer@.len() as int, c) by {}
            if d < 5 {
                assert forall|t: Seq<RotationMove>|
                    #[trigger] over_gens(t, generators@) && t.len() <= d + 1 && t.len() <= 5 implies visited@.contains(
                        track(src, t, sz),
                    ) by {
                    if t.len() == d + 1 {
                        let t1 = t.drop_last();
                        assert(over_gens(t1, generators@)) by {
                            assert forall|k: int| 0 <= k < t1.len() implies generators@.contains(#[trigger] t1[k]) by {
                                assert(t1[k] == t[k]);
                            }
                        }
                        assert(done.contains(track(src, t1, sz)));
                        assert(generators@.contains(t[t.len() - 1]));
                        let j = choose|j: int| 0 <= j < generators@.len() && generators@[j] == t.last();
                        assert(expanded.contains(track(src, t1, sz)));
                        assert(visited@.contains(rotate_coord_spec(track(src, t1, sz), generators@[j], sz)));
                    } else {
                        assert(done.contains(track(src, t, sz)));
                    }
                }
            } else {
                assert forall|t: Seq<RotationMove>|
                    #[trigger] over_gens(t, generators@) && t.len() <= d + 1 && t.len() <= 5 implies visited@.contains(
                        track(src, t, sz),
                    ) by {
                    assert(done.contains(track(src, t, sz)));
                }
            }
        }
        layer = next;
        depth = depth + 1;
    }
    proof {
        assert forall|c: IVec3| visited@.contains(c) implies done.contains(c) by {
            assert(!in_layer(layer@, 0, c));
        }
        assert forall|t: Seq<RotationMove>|
            #[trigger] over_gens(t, safe_generators(sz, solved@)) && t.len() <= 5 implies track(src, t, sz) != dest by {
            assert(over_gens(t, generators@));
            if depth == 6 {
                assert(visited@.contains(track(src, t, sz)));
                assert(done.contains(track(src, t, sz)));
            } else {
                assert(over_gens(Seq::<RotationMove>::empty(), generators@));
                assert(track(src, Seq::<RotationMove>::empty(), sz) == src);
                assert(visited@.contains(src));
                assert forall|c: IVec3, j: int|
                    done.contains(c) && 0 <= j < generators@.len() implies done.contains(
                        #[trigger] rotate_coord_spec(c, generators@[j], sz),
                    ) by {
                    assert(expanded.contains(c));
                }
                lemma_closed(src, t, generators@, done, sz);
                assert(done.contains(track(src, t, sz)));
            }
        }
    }
    None
}

/// The middle sticker of an odd cube, which no bar holds.
pub open spec fn is_middle(s: int, row: int, col: int) -> bool {
    s % 2 == 1 && row == s / 2 && col == s / 2
}

/// Whether the inner stickers of column `col` of `face` (the middle one aside) show `color`.
pub open spec fn column_holds(fs: Seq<Facelet>, s: int, face: Face, color: Face, col: int) -> bool {
    forall|row: int|
        1 <= row < s - 1 && !is_middle(s, row, col) ==> #[trigger] color_at_spec(fs, face, row, col, s) == color
}

/// Whether the inner stickers of the face (the middle one aside) show its color.
pub open spec fn face_solved(fs: Seq<Facelet>, s: int, f: Face) -> bool {
    forall|row: int, col: int|
        1 <= row < s - 1 && 1 <= col < s - 1 && !is_middle(s, row, col) ==> #[trigger] color_at_spec(fs, f, row, col, s)
            == f
}

/// Whether the bar of column `col` stands on the target face, the solved faces are solved and
/// the bars of columns 1 .. col - 1 stand.
pub open spec fn bar_placed(fs: Seq<Facelet>, s: int, target: Face, col: int, solved: Seq<Face>) -> bool {
    &&& column_holds(fs, s, target, target, col)
    &&& forall|k: int| 0 <= k < solved.len() ==> face_solved(fs, s, #[trigger] solved[k])
    &&& forall|c: int| 1 <= c < col ==> #[trigger] column_holds(fs, s, target, target, c)
}

/// Whether a bar of `target_face` color stands at column `target_col` of `target_face`, the solved
/// faces are still solved, and the bars left of it still stand.
fn bar_in_place(test_state: &NxNState, target_face: Face, target_col: usize, solved: &Vec<Face>) -> (b: bool)
    requires
        ready(test_state),
        target_col < test_state.size,
    ensures
        b == bar_placed(test_state.facelets@, test_state.size as int, target_face, target_col as int, solved@),
{
    let size = test_state.size;
    let ghost fs = test_state.facelets@;
    let ghost s = size as int;
    let mut row: usize = 1;
    while row + 1 < size
        invariant
            1 <= row <= size,
            row == 1 || row + 1 <= size,
            size == test_state.size,
            fs == test_state.facelets@,
            s == size,
            ready(test_state),
            target_col < size,
            forall|r: int|
                1 <= r < row && !is_middle(s, r, target_col as int) ==> #[trigger] color_at_spec(
                    fs,
                    target_face,
                    r,
                    target_col as int,
                    s,
                ) == target_face,
        decreases size - row,
    {
        if !(size % 2 == 1 && row == size / 2 && target_col == size / 2) {
            if color_at(test_state, target_face, row, target_col) != target_face {
                return false;
            }
        }
        row = row + 1;
    }
    assert(column_holds(fs, s, target_face, target_face, target_col as int));
    let mut k: usize = 0;
    while k < solved.len()
        invariant
            k <= solved@.len(),
            size == test_state.size,
            fs == test_state.facelets@,
            s == size,
            ready(test_state),
            target_col < size,
            column_holds(fs, s, target_face, target_face, target_col as int),
            forall|j: int| 0 <= j < k ==> face_solved(fs, s, #[trigger] solved@[j]),
        decreases solved@.len() - k,
    {
        let sf = solved[k];
        let mut row: usize = 1;
        while row + 1 < size
            invariant
                k < solved@.len(),
                sf == solved@[k as int],
                1 <= row <= size,
                row == 1 || row + 1 <= size,
                size == test_state.size,
                fs == test_state.facelets@,
                s == size,
                ready(test_state),
                forall|r: int, c: int|
                    1 <= r < row && 1 <= c < s - 1 && !is_middle(s, r, c) ==> #[trigger] color_at_spec(fs, sf, r, c, s)
                        == sf,
            decreases size - row,
        {
            let mut col: usize = 1;
            while col + 1 < size
                invariant
                    1 <= col <= size,
                    col == 1 || col + 1 <= size,
                    1 <= row,
                    row + 1 < size,
                    k < solved@.len(),
                    sf == solved@[k as int],
                    size == test_state.size,
                    fs == test_state.facelets@,
                    s == size,
                    ready(test_state),
                    forall|r: int, c: int|
                        1 <= r < row && 1 <= c < s - 1 && !is_middle(s, r, c) ==> #[trigger] color_at_spec(fs, sf, r, c, s)
                            == sf,
                    forall|c: int|
                        1 <= c < col && !is_middle(s, row as int, c) ==> #[trigger] color_at_spec(fs, sf, row as int, c, s)
                            == sf,
                decreases size - col,
            {
                if !(size % 2 == 1 && row == size / 2 && col == size / 2) {
                    if color_at(test_state, sf, row, col) != sf {
                        assert(color_at_spec(fs, sf, row as int, col as int, s) != sf);
                        assert(!face_solved(fs, s, sf));
                        assert(solved@[k as int] == sf);
                        assert(!bar_placed(fs, s, target_face, target_col as int, solved@));
                        return false;
                    }
                }
                col = col + 1;
            }
            row = row + 1;
        }
        assert(face_solved(fs, s, sf));
        k = k + 1;
    }
    let mut prev_col: usize = 1;
    while prev_col < target_col
        invariant
            1 <= prev_col,
            prev_col == 1 || prev_col <= target_col,
            target_col < size,
            size == test_state.size,
            fs == test_state.facelets@,
            s == size,
            ready(test_state),
            column_holds(fs, s, target_face, target_face, target_col as int),
            forall|j: int| 0 <= j < solved@.len() ==> face_solved(fs, s, #[trigger] solved@[j]),
            forall|c: int| 1 <= c < prev_col ==> #[trigger] column_holds(fs, s, target_face, target_face, c),
        decreases target_col - prev_col,
    {
        let mut row: usize = 1;
        while row + 1 < size
            invariant
                1 <= row <= size,
                row == 1 || row + 1 <= size,
                1 <= prev_col < target_col < size,
                size == test_state.size,
                fs == test_state.facelets@,
                s == size,
                ready(test_state),
                forall|r: int|
                    1 <= r < row && !is_middle(s, r, prev_col as int) ==> #[trigger] color_at_spec(
                        fs,
                        target_face,
                        r,
                        prev_col as int,
                        s,
                    ) == target_face,
            decreases size - row,
        {
            if !(size % 2 == 1 && row == size / 2 && prev_col == size / 2) {
                if color_at(test_state, target_face, row, prev_col) != target_face {
                    assert(!column_holds(fs, s, target_face, target_face, prev_col as int));
                    assert(!bar_placed(fs, s, target_face, target_col as int, solved@));
                    return false;
                }
            }
            row = row + 1;
        }
        assert(column_holds(fs, s, target_face, target_face, prev_col as int));
        prev_col = prev_col + 1;
    }
    true
}

/// Whether every move of the sequence is one of the generators.
pub open spec fn over_gens(t: Seq<RotationMove>, gens: Seq<RotationMove>) -> bool {
    forall|k: int| 0 <= k < t.len() ==> gens.contains(#[trigger] t[k])
}

/// Whether the bar stands (see `bar_placed`) after the moves.
pub open spec fn placed_after(
    fs: Seq<Facelet>,
    s: int,
    ms: Seq<RotationMove>,
    target: Face,
    col: int,
    solved: Seq<Face>,
) -> bool {
    bar_placed(after_moves(fs, ms, s), s, target, col, solved)
}

/// Whether no `rem` generator turns after `pre` make the bar stand.
pub open spec fn none_after(
    fs: Seq<Facelet>,
    s: int,
    pre: Seq<RotationMove>,
    rem: int,
    gens: Seq<RotationMove>,
    target: Face,
    col: int,
    solved: Seq<Face>,
) -> bool {
    forall|t: Seq<RotationMove>|
        #[trigger] over_gens(t, gens) && t.len() == rem ==> !placed_after(fs, s, pre + t, target, col, solved)
}

/// The sequences of exactly `remaining` more generator turns after `prefix`, in order, tried
/// until one places the bar.
fn insert_search(
    state: &NxNState,
    prefix: &mut Vec<RotationMove>,
    remaining: usize,
    generators: &Vec<RotationMove>,
    target_face: Face,
    target_col: usize,
    solved: &Vec<Face>,
) -> (r: Option<Vec<RotationMove>>)
    requires
        ready(state),
        target_col < state.size,
    ensures
        final(prefix)@ == old(prefix)@,
        r matches Some(ms) ==> {
            &&& ms@.len() == old(prefix)@.len() + remaining
            &&& ms@.subrange(0, old(prefix)@.len() as int) == old(prefix)@
            &&& over_gens(ms@.subrange(old(prefix)@.len() as int, ms@.len() as int), generators@)
            &&& placed_after(state.facelets@, state.size as int, ms@, target_face, target_col as int, solved@)
        },
        r is None ==> none_after(
            state.facelets@,
            state.size as int,
            old(prefix)@,
            remaining as int,
            generators@,
            target_face,
            target_col as int,
            solved@,
        ),
    decreases remaining,
{
    let ghost fs = state.facelets@;
    let ghost s = state.size as int;
    if remaining == 0 {
        let test_state = simulate(state, prefix);
        if bar_in_place(&test_state, target_face, target_col, solved) {
            let ms = copy_moves(prefix);
            proof {
                assert(ms@.subrange(0, ms@.len() as int) =~= ms@);
                assert(ms@.subrange(ms@.len() as int, ms@.len() as int) =~= Seq::<RotationMove>::empty());
            }
            return Some(ms);
        }
        proof {
            assert forall|t: Seq<RotationMove>| #[trigger] over_gens(t, generators@) && t.len() == 0 implies !placed_after(
                fs,
                s,
                prefix@ + t,
                target_face,
                target_col as int,
                solved@,
            ) by {
                assert(prefix@ + t =~= prefix@);
            }
        }
        return None;
    }
    let ghost start = prefix@;
    let mut g: usize = 0;
    while g < generators.len()
        invariant
            g <= generators@.len(),
            prefix@ == start,
            start == old(prefix)@,
            fs == state.facelets@,
            s == state.size,
            ready(state),
            target_col < state.size,
            remaining > 0,
            forall|j: int|
                0 <= j < g ==> none_after(
                    fs,
                    s,
                    start.push(#[trigger] generators@[j]),
                    remaining - 1,
                    generators@,
                    target_face,
                    target_col as int,
                    solved@,
                ),
        decreases generators@.len() - g,
    {
        prefix.push(generators[g]);
        let r = insert_search(state, prefix, remaining - 1, generators, target_face, target_col, solved);
        prefix.pop();
        assert(prefix@ =~= start);
        match r {
            Some(ms) => {
                proof {
                    let n = start.len() as int;
                    assert(ms@.subrange(0, n + 1) == start.push(generators@[g as int]));
                    assert(ms@.subrange(0, n) =~= ms@.subrange(0, n + 1).subrange(0, n));
                    let tail = ms@.subrange(n, ms@.len() as int);
                    let tail1 = ms@.subrange(n + 1, ms@.len() as int);
                    assert forall|k: int| 0 <= k < tail.len() implies generators@.contains(#[trigger] tail[k]) by {
                        if k == 0 {
                            assert(tail[0] == ms@.subrange(0, n + 1)[n]);
                            assert(generators@[g as int] == tail[0]);
                        } else {
                            assert(tail[k] == tail1[k - 1]);
                        }
                    }
                }
                return Some(ms);
            },
            None => {},
        }
        g = g + 1;
    }
    proof {
        assert forall|t: Seq<RotationMove>| #[trigger] over_gens(t, generators@) && t.len() == remaining implies !placed_after(
            fs,
            s,
            start + t,
            target_face,
            target_col as int,
            solved@,
        ) by {
            assert(generators@.contains(t[0]));
            let j = choose|j: int| 0 <= j < generators@.len() && generators@[j] == t[0];
            assert(none_after(fs, s, start.push(generators@[j]), remaining - 1, generators@, target_face, target_col as int, solved@));
            let rest = t.drop_first();
            assert(over_gens(rest, generators@)) by {
                assert forall|k: int| 0 <= k < rest.len() implies generators@.contains(#[trigger] rest[k]) by {
                    assert(rest[k] == t[k + 1]);
                }
            }
            assert(start + t =~= start.push(generators@[j]) + rest);
        }
    }
    None
}

/// Breadth-first search (up to four safe turns) for turns that insert the bar built on the
/// working face into column `target_col` of the target face while keeping the solved faces and
/// the bars already built.
fn insert_bar_to_target(state: &NxNState, _working_face: Face, target_face: Face, target_col: usize, solved: &Vec<Face>) -> (r:
    Option<Vec<RotationMove>>)
    requires
        ready(state),
        target_col < state.size,
    ensures
        r matches Some(ms) ==> {
            &&& ms@.len() <= 4
            &&& over_gens(ms@, safe_generators(state.size as int, solved@))
            &&& placed_after(state.facelets@, state.size as int, ms@, target_face, target_col as int, solved@)
        },
        r is None ==> forall|t: Seq<RotationMove>|
            #[trigger] over_gens(t, safe_generators(state.size as int, solved@)) && t.len() <= 4 ==> !placed_after(
                state.facelets@,
                state.size as int,
                t,
                target_face,
                target_col as int,
                solved@,
            ),
{
    let generators = get_safe_generators(state.size, solved, target_face);
    let mut prefix: Vec<RotationMove> = Vec::new();
    let mut depth: usize = 0;
    while depth <= 4
        invariant
            ready(state),
            target_col < state.size,
            prefix@ == Seq::<RotationMove>::empty(),
            generators@ == safe_generators(state.size as int, solved@),
            depth <= 5,
            forall|d: int|
                0 <= d < depth ==> #[trigger] none_after(
                    state.facelets@,
                    state.size as int,
                    Seq::<RotationMove>::empty(),
                    d,
                    generators@,
                    target_face,
                    target_col as int,
                    solved@,
                ),
        decreases 5 - depth,
    {
        let r = insert_search(state, &mut prefix, depth, &generators, target_face, target_col, solved);
        match r {
            Some(ms) => {
                proof {
                    assert(ms@.subrange(0, ms@.len() as int) =~= ms@);
                }
                return Some(ms);
            },
            None => {},
        }
        depth = depth + 1;
    }
    proof {
        assert forall|t: Seq<RotationMove>|
            #[trigger] over_gens(t, generators@) && t.len() <= 4 implies !placed_after(
                state.facelets@,
                state.size as int,
                t,
                target_face,
                target_col as int,
                solved@,
            ) by {
            assert(none_after(state.facelets@, state.size as int, Seq::<RotationMove>::empty(), t.len() as int, generators@, target_face, target_col as int, solved@));
            assert(Seq::<RotationMove>::empty() + t =~= t);
        }
    }
    None
}

/// Builds a bar of `target_color` at column 1 of the working face, one piece after another: each
/// missing piece is brought from a sticker of its orbit that is not on a solved face, not already
/// in place and not in a bar already built, with safe turns. The moves are applied and returned.
/// Facelet `f` may be brought to the bar slot `dest` of the working face `w`: it shows the target
/// color, lies in the orbit of `dest`, is on no solved face, is not at `dest` on `w`, and is not in
/// a bar of the target face already solved (columns before `col`).
pub open spec fn bar_source(f: Facelet, s: int, w: Face, t: Face, solved: Seq<Face>, col: int, dest: IVec3) -> bool {
    &&& f.color == t
    &&& first_orbit_with(orbits_spec(s), dest).contains(f.coord)
    &&& !solved.contains(f.face)
    &&& !(f.face == w && f.coord == dest)
    &&& !(f.face == t && bar_column(f.coord, s, t) < col)
}

/// No sequence of at most five safe turns carries the cubie at `src` to `dest`.
pub open spec fn no_short_path(s: int, src: IVec3, dest: IVec3, solved: Seq<Face>) -> bool {
    forall|t: Seq<RotationMove>| #[trigger] over_gens(t, safe_generators(s, solved)) && t.len() <= 5 ==> track(src, t, s) != dest
}

/// Building the bar on face `w` is stuck at row `row`: its slot does not show the target color,
/// and either no facelet may be brought there, or the first one (in the facelet list) cannot be
/// carried there in five safe turns.
pub open spec fn bar_row_stuck(fs: Seq<Facelet>, s: int, w: Face, t: Face, solved: Seq<Face>, col: int, row: int) -> bool {
    let dest = ivec_spec(logical_coord(w, row, 1, s));
    &&& 1 <= row < s - 1
    &&& !(s % 2 == 1 && row == s / 2 && 1 == s / 2)
    &&& !(find_coord(fs, dest) matches Some(f) && f.color == t)
    &&& ((forall|i: int| 0 <= i < fs.len() ==> !#[trigger] bar_source(fs[i], s, w, t, solved, col, dest)) || exists|i: int|
        0 <= i < fs.len() && #[trigger] bar_source(fs[i], s, w, t, solved, col, dest) && (forall|j: int|
            0 <= j < i ==> !#[trigger] bar_source(fs[j], s, w, t, solved, col, dest)) && no_short_path(s, fs[i].coord, dest, solved))
}

fn form_bar_on_working_face(
    state: &mut NxNState,
    target_color: Face,
    working_face: Face,
    target_col_idx: usize,
    solved_faces: &Vec<Face>,
    Ghost(start): Ghost<Seq<Facelet>>,
) -> (r: Option<Vec<RotationMove>>)
    requires
        ready(old(state)),
        reachable(start, old(state).facelets@, old(state).size as int),
    ensures
        ready(final(state)),
        final(state).size == old(state).size,
        reachable(start, final(state).facelets@, final(state).size as int),
        r matches Some(ms) ==> final(state).facelets@ == after_moves(old(state).facelets@, ms@, old(state).size as int),
        old(state).size < 3 ==> (r matches Some(ms) && ms@.len() == 0) && final(state).facelets@ == old(state).facelets@,
        r is None ==> exists|row: int| #[trigger] bar_row_stuck(
            final(state).facelets@,
            final(state).size as int,
            working_face,
            target_color,
            solved_faces@,
            target_col_idx as int,
            row,
        ),
{
    let mut all_moves: Vec<RotationMove> = Vec::new();
    let size = state.size;
    let bar_col: usize = 1;
    let ghost fs0 = state.facelets@;
    let ghost sz = size as int;
    proof {
        assert(after_moves(fs0, all_moves@, sz) == fs0);
    }
    let mut row: usize = 1;
    while row + 1 < size
        invariant
            1 <= row <= size,
            row == 1 || row + 1 <= size,
            row == 1 ==> all_moves@.len() == 0,
            bar_col == 1,
            size == state.size,
            size == old(state).size,
            sz == size,
            fs0 == old(state).facelets@,
            state.facelets@ == after_moves(fs0, all_moves@, sz),
            ready(state),
            reachable(start, state.facelets@, size as int),
        decreases size - row,
    {
        if !(size % 2 == 1 && row == size / 2 && bar_col == size / 2) {
            let dest = NxNState::get_logical_coord(working_face, row, bar_col, size).unwrap();
            let in_place = match find_by_coord(state, dest) {
                Some(f) => f.color == target_color,
                None => false,
            };
            if !in_place {
                let orbit = get_orbit_of_coord(dest, size);
                let ghost fsn = state.facelets@;
                let ghost sv = solved_faces@;
                let ghost tc = target_col_idx as int;
                let mut src_pos: Option<IVec3> = None;
                let mut i: usize = 0;
                while i < state.facelets.len()
                    invariant_except_break
                        src_pos is None,
                    invariant
                        i <= state.facelets@.len(),
                        size == state.size,
                        ready(state),
                        fsn == state.facelets@,
                        orbit@ == first_orbit_with(orbits_spec(size as int), dest),
                        sv == solved_faces@,
                        tc == target_col_idx,
                        src_pos matches Some(c) ==> in_cube(c, size as int),
                        src_pos is None ==> forall|j: int| 0 <= j < i ==> !#[trigger] bar_source(fsn[j], size as int, working_face,
                            target_color, sv, tc, dest),
                        src_pos matches Some(c) ==> exists|k: int| 0 <= k < fsn.len() && #[trigger] bar_source(fsn[k], size as int,
                            working_face, target_color, sv, tc, dest) && (forall|j: int| 0 <= j < k ==> !#[trigger] bar_source(
                            fsn[j],
                            size as int,
                            working_face,
                            target_color,
                            sv,
                            tc,
                            dest,
                        )) && fsn[k].coord == c,
                    ensures
                        size == state.size,
                        ready(state),
                        fsn == state.facelets@,
                        src_pos matches Some(c) ==> in_cube(c, size as int),
                        src_pos is None ==> forall|j: int| 0 <= j < fsn.len() ==> !#[trigger] bar_source(fsn[j], size as int,
                            working_face, target_color, sv, tc, dest),
                        src_pos matches Some(c) ==> exists|k: int| 0 <= k < fsn.len() && #[trigger] bar_source(fsn[k], size as int,
                            working_face, target_color, sv, tc, dest) && (forall|j: int| 0 <= j < k ==> !#[trigger] bar_source(
                            fsn[j],
                            size as int,
                            working_face,
                            target_color,
                            sv,
                            tc,
                            dest,
                        )) && fsn[k].coord == c,
                    decreases state.facelets@.len() - i,
                {
                    let f = state.facelets[i];
                    assert(in_cube(f.coord, size as int));
                    if f.color == target_color && contains_coord(&orbit, f.coord) && !contains_face(solved_faces, f.face)
                        && !(f.face == working_face && f.coord == dest) && !(f.face == target_color && is_in_solved_bar(
                        f.coord,
                        size,
                        target_color,
                        target_col_idx,
                    )) {
                        assert(bar_source(fsn[i as int], size as int, working_face, target_color, sv, tc, dest));
                        assert(fsn[i as int].coord == f.coord);
                        src_pos = Some(f.coord);
                        break;
                    }
                    i = i + 1;
                }
                let src = match src_pos {
                    Some(c) => c,
                    None => {
                        assert(bar_row_stuck(state.facelets@, size as int, working_face, target_color, solved_faces@,
                            target_col_idx as int, row as int));
                        return None;
                    },
                };
                let moves = match move_piece_to_pos(state, src, dest, solved_faces, target_color) {
                    Some(m) => m,
                    None => {
                        assert(no_short_path(size as int, src, dest, solved_faces@));
                        assert(bar_row_stuck(state.facelets@, size as int, working_face, target_color, solved_faces@,
                            target_col_idx as int, row as int));
                        return None;
                    },
                };
                let ghost before = all_moves@;
                apply_tracked(state, &moves, Ghost(start));
                extend_moves(&mut all_moves, &moves);
                proof {
                    lemma_after_moves_concat(fs0, before, moves@, sz);
                }
            }
        }
        row = row + 1;
    }
    proof {
        if sz < 3 {
            assert(all_moves@ =~= Seq::<RotationMove>::empty());
        }
    }
    Some(all_moves)
}

/// The moves recorded and applied for two lists of columns, one after the other.
pub proof fn lemma_bars_concat(a: Seq<(Seq<RotationMove>, Seq<RotationMove>)>, b: Seq<(Seq<RotationMove>, Seq<RotationMove>)>)
    ensures
        bars_recorded(a + b) == bars_recorded(a) + bars_recorded(b),
        bars_applied(a + b) == bars_applied(a) + bars_applied(b),
    decreases b.len(),
{
    if b.len() == 0 {
        assert(a + b =~= a);
        assert(bars_recorded(b) =~= Seq::<RotationMove>::empty());
        assert(bars_applied(b) =~= Seq::<RotationMove>::empty());
        assert(bars_recorded(a) + bars_recorded(b) =~= bars_recorded(a));
        assert(bars_applied(a) + bars_applied(b) =~= bars_applied(a));
    } else {
        lemma_bars_concat(a, b.drop_last());
        assert((a + b).drop_last() =~= a + b.drop_last());
        assert((a + b).last() == b.last());
        let x = b.last();
        assert(bars_recorded(a + b) =~= bars_recorded(a) + bars_recorded(b.drop_last()) + x.0 + x.1);
        assert(bars_recorded(a) + bars_recorded(b) =~= bars_recorded(a) + (bars_recorded(b.drop_last()) + x.0 + x.1));
        assert(bars_applied(a + b) =~= bars_applied(a) + bars_applied(b.drop_last()) + x.0 + x.0 + x.1);
        assert(bars_applied(a) + bars_applied(b) =~= bars_applied(a) + (bars_applied(b.drop_last()) + x.0 + x.0 + x.1));
    }
}

/// The moves recorded for the columns done: for each, the bar moves, then the insertion.
pub open spec fn bars_recorded(steps: Seq<(Seq<RotationMove>, Seq<RotationMove>)>) -> Seq<RotationMove>
    decreases steps.len(),
{
    if steps.len() == 0 {
        Seq::empty()
    } else {
        bars_recorded(steps.drop_last()) + steps.last().0 + steps.last().1
    }
}

/// The moves applied for the columns done: for each, the bar moves (applied as the bar is built,
/// then once more), then the insertion.
pub open spec fn bars_applied(steps: Seq<(Seq<RotationMove>, Seq<RotationMove>)>) -> Seq<RotationMove>
    decreases steps.len(),
{
    if steps.len() == 0 {
        Seq::empty()
    } else {
        bars_applied(steps.drop_last()) + steps.last().0 + steps.last().0 + steps.last().1
    }
}

/// No sequence of at most four safe turns inserts the bar of column `col` into the target face.
pub open spec fn no_insertion(fs: Seq<Facelet>, s: int, target: Face, col: int, solved: Seq<Face>) -> bool {
    forall|t: Seq<RotationMove>| #[trigger] over_gens(t, safe_generators(s, solved)) && t.len() <= 4 ==> !placed_after(
        fs,
        s,
        t,
        target,
        col,
        solved,
    )
}

/// Solving the target face is stuck in state `fs`: no working face is left, or building a bar on a
/// working face (not the target, not solved) is stuck at some row of some column, or the bar of
/// some column cannot be inserted.
pub open spec fn face_step_stuck(fs: Seq<Facelet>, s: int, target: Face, solved: Seq<Face>) -> bool {
    ||| (forall|w: int| 0 <= w < 6 ==> working_order_spec(w) == target || solved.contains(#[trigger] working_order_spec(w)))
    ||| exists|col: int, w: Face, row: int|
        1 <= col < s - 1 && w != target && !solved.contains(w) && #[trigger] bar_row_stuck(fs, s, w, target, solved, col, row)
    ||| exists|col: int| 1 <= col < s - 1 && #[trigger] no_insertion(fs, s, target, col, solved)
}

/// Solves the target face column by column: for each column a bar is built on the first
/// unsolved working face among Up, Front, Down, Back, Left, Right, then inserted. The bar's
/// moves, applied while the bar is built, are applied once more before the insertion; each is
/// recorded once.
fn solve_face_with_bars(state: &mut NxNState, target_face: Face, solved_faces: &Vec<Face>, Ghost(start): Ghost<Seq<Facelet>>) -> (r:
    Option<Vec<RotationMove>>)
    requires
        ready(old(state)),
        reachable(start, old(state).facelets@, old(state).size as int),
    ensures
        ready(final(state)),
        final(state).size == old(state).size,
        reachable(start, final(state).facelets@, final(state).size as int),
        old(state).size < 3 ==> (r matches Some(ms) && ms@.len() == 0) && final(state).facelets@ == old(state).facelets@,
        r matches Some(ms) ==> exists|steps: Seq<(Seq<RotationMove>, Seq<RotationMove>)>|
            ms@ == #[trigger] bars_recorded(steps) && final(state).facelets@ == after_moves(
                old(state).facelets@,
                bars_applied(steps),
                old(state).size as int,
            ),
        r is None ==> face_step_stuck(final(state).facelets@, final(state).size as int, target_face, solved_faces@),
{
    let mut all_moves: Vec<RotationMove> = Vec::new();
    let size = state.size;
    let mut col_idx: usize = 1;
    let ghost mut steps: Seq<(Seq<RotationMove>, Seq<RotationMove>)> = Seq::empty();
    let ghost fs0 = state.facelets@;
    let ghost sz = size as int;
    proof {
        assert(after_moves(fs0, all_moves@, sz) == fs0);
    }
    while col_idx + 1 < size
        invariant
            1 <= col_idx <= size,
            col_idx == 1 || col_idx + 1 <= size,
            col_idx == 1 ==> all_moves@.len() == 0 && state.facelets@ == fs0,
            size == state.size,
            size == old(state).size,
            sz == size,
            fs0 == old(state).facelets@,
            all_moves@ == bars_recorded(steps),
            state.facelets@ == after_moves(fs0, bars_applied(steps), sz),
            ready(state),
            reachable(start, state.facelets@, size as int),
        decreases size - col_idx,
    {
        let mut working: Option<Face> = None;
        let mut w: usize = 0;
        while w < 6
            invariant_except_break
                working is None,
            invariant
                w <= 6,
                working is None ==> forall|w2: int| 0 <= w2 < w ==> working_order_spec(w2) == target_face || solved_faces@.contains(
                    #[trigger] working_order_spec(w2),
                ),
                working matches Some(f) ==> f != target_face && !solved_faces@.contains(f),
            ensures
                working is None ==> forall|w2: int| 0 <= w2 < 6 ==> working_order_spec(w2) == target_face || solved_faces@.contains(
                    #[trigger] working_order_spec(w2),
                ),
                working matches Some(f) ==> f != target_face && !solved_faces@.contains(f),
            decreases 6 - w,
        {
            let f = working_order(w);
            if f != target_face && !contains_face(solved_faces, f) {
                working = Some(f);
                break;
            }
            w = w + 1;
        }
        let working_face = match working {
            Some(f) => f,
            None => {
                return None;
            },
        };
        let moves = match form_bar_on_working_face(state, target_face, working_face, col_idx, solved_faces, Ghost(start)) {
            Some(m) => m,
            None => {
                proof {
                    let row = choose|row: int| #[trigger] bar_row_stuck(state.facelets@, size as int, working_face, target_face,
                        solved_faces@, col_idx as int, row);
                    assert(bar_row_stuck(state.facelets@, size as int, working_face, target_face, solved_faces@, col_idx as int, row));
                }
                return None;
            },
        };
        let ghost bar = moves@;
        apply_tracked(state, &moves, Ghost(start));
        extend_moves(&mut all_moves, &moves);
        let moves = match insert_bar_to_target(state, working_face, target_face, col_idx, solved_faces) {
            Some(m) => m,
            None => {
                assert(no_insertion(state.facelets@, size as int, target_face, col_idx as int, solved_faces@));
                return None;
            },
        };
        let ghost ins = moves@;
        apply_tracked(state, &moves, Ghost(start));
        extend_moves(&mut all_moves, &moves);
        proof {
            let ap = bars_applied(steps);
            lemma_after_moves_concat(fs0, ap, bar, sz);
            lemma_after_moves_concat(fs0, ap + bar, bar, sz);
            lemma_after_moves_concat(fs0, ap + bar + bar, ins, sz);
            let st2 = steps.push((bar, ins));
            assert(st2.drop_last() =~= steps);
            assert(bars_applied(st2) == ap + bar + bar + ins);
            assert(all_moves@ =~= bars_recorded(st2));
            steps = st2;
        }
        col_idx = col_idx + 1;
    }
    proof {
        if sz < 3 {
            assert(all_moves@ =~= Seq::<RotationMove>::empty());
        }
        assert(all_moves@ == bars_recorded(steps));
    }
    Some(all_moves)
}

/// The working faces in order of preference: Up, Front, Down, Back, Left, Right.
pub open spec fn working_order_spec(w: int) -> Face {
    if w == 0 {
        Face::Up
    } else if w == 1 {
        Face::Front
    } else if w == 2 {
        Face::Down
    } else if w == 3 {
        Face::Back
    } else if w == 4 {
        Face::Left
    } else {
        Face::Right
    }
}

/// The working faces in order of preference: Up, Front, Down, Back, Left, Right.
fn working_order(w: usize) -> (f: Face)
    requires
        w < 6,
    ensures
        f == working_order_spec(w as int),
{
    if w == 0 {
        Face::Up
    } else if w == 1 {
        Face::Front
    } else if w == 2 {
        Face::Down
    } else if w == 3 {
        Face::Back
    } else if w == 4 {
        Face::Left
    } else {
        Face::Right
    }
}

/// The colors of the first stickers found on the positions, in order (positions without a
/// sticker skipped).
pub open spec fn colors_on(fs: Seq<Facelet>, ps: Seq<IVec3>) -> Seq<Face>
    decreases ps.len(),
{
    if ps.len() == 0 {
        Seq::empty()
    } else {
        colors_on(fs, ps.drop_last()) + match find_coord(fs, ps.last()) {
            Some(f) => seq![f.color],
            None => Seq::empty(),
        }
    }
}

/// The colors on the orbit positions, in order (positions without a sticker skipped).
fn orbit_colors(state: &NxNState, orbit_pos: &Vec<IVec3>) -> (v: Vec<Face>)
    ensures
        v@ == colors_on(state.facelets@, orbit_pos@),
{
    let mut v: Vec<Face> = Vec::new();
    let mut i: usize = 0;
    proof {
        assert(orbit_pos@.subrange(0, 0) =~= Seq::<IVec3>::empty());
    }
    while i < orbit_pos.len()
        invariant
            i <= orbit_pos@.len(),
            v@ == colors_on(state.facelets@, orbit_pos@.subrange(0, i as int)),
        decreases orbit_pos@.len() - i,
    {
        let ghost ps = orbit_pos@.subrange(0, i as int + 1);
        assert(ps.drop_last() =~= orbit_pos@.subrange(0, i as int));
        assert(ps.last() == orbit_pos@[i as int]);
        match find_by_coord(state, orbit_pos[i]) {
            Some(f) => {
                v.push(f.color);
                assert(v@ =~= colors_on(state.facelets@, ps));
            },
            None => {
                assert(v@ =~= colors_on(state.facelets@, ps));
            },
        }
        i = i + 1;
    }
    proof {
        assert(orbit_pos@.subrange(0, orbit_pos@.len() as int) =~= orbit_pos@);
    }
    v
}

/// Whether two color lists are equal.
fn same_faces(a: &Vec<Face>, b: &Vec<Face>) -> (r: bool)
    ensures
        r == (a@ == b@),
{
    if a.len() != b.len() {
        return false;
    }
    let mut i: usize = 0;
    while i < a.len()
        invariant
            i <= a@.len(),
            a@.len() == b@.len(),
            forall|j: int| 0 <= j < i ==> a@[j] == b@[j],
        decreases a@.len() - i,
    {
        if a[i] != b[i] {
            return false;
        }
        i = i + 1;
    }
    assert(a@ =~= b@);
    true
}

/// Whether the color list was seen.
fn seen_colors(visited: &Vec<Vec<Face>>, c: &Vec<Face>) -> (r: bool)
    ensures
        r == exists|i: int| 0 <= i < visited@.len() && (#[trigger] visited@[i])@ == c@,
{
    let mut i: usize = 0;
    while i < visited.len()
        invariant
            i <= visited@.len(),
            forall|j: int| 0 <= j < i ==> (#[trigger] visited@[j])@ != c@,
        decreases visited@.len() - i,
    {
        if same_faces(&visited[i], c) {
            return true;
        }
        i = i + 1;
    }
    false
}

/// Whether the position shows the color of its face (or holds no sticker).
pub open spec fn shows_own_color(fs: Seq<Facelet>, p: IVec3, s: int) -> bool {
    match find_coord(fs, p) {
        Some(f) => f.color == face_of_coord(p, s).unwrap(),
        None => true,
    }
}

/// Whether each orbit position shows the color of its face.
fn is_orbit_solved(state: &NxNState, orbit_pos: &Vec<IVec3>) -> (b: bool)
    requires
        state.size >= 1,
        state.size <= i32::MAX,
        forall|i: int| 0 <= i < orbit_pos@.len() ==> face_of_coord(#[trigger] orbit_pos@[i], state.size as int) is Some,
    ensures
        b == forall|i: int| 0 <= i < orbit_pos@.len() ==> shows_own_color(state.facelets@, #[trigger] orbit_pos@[i], state.size as int),
{
    let mut i: usize = 0;
    while i < orbit_pos.len()
        invariant
            i <= orbit_pos@.len(),
            state.size >= 1,
            state.size <= i32::MAX,
            forall|i: int| 0 <= i < orbit_pos@.len() ==> face_of_coord(#[trigger] orbit_pos@[i], state.size as int) is Some,
            forall|j: int| 0 <= j < i ==> shows_own_color(state.facelets@, #[trigger] orbit_pos@[j], state.size as int),
        decreases orbit_pos@.len() - i,
    {
        let pos = orbit_pos[i];
        let face = get_face_of_coord(pos, state.size as i32).unwrap();
        match find_by_coord(state, pos) {
            Some(f) => {
                if f.color != face {
                    return false;
                }
            },
            None => {},
        }
        i = i + 1;
    }
    true
}

/// The exchange commutator of the last two centers for inner column `col`: the middle one on
/// the middle column of an odd cube, the left one left of the middle, the right one otherwise.
pub open spec fn l2c_comm(s: int, col: int) -> Seq<RotationMove> {
    if s % 2 == 1 && col == s / 2 {
        seq![
            m_turn(s, cw()), u_turn(s, cw()), u_turn(s, cw()), m_turn(s, ccw()), u_turn(s, ccw()),
            m_turn(s, cw()), u_turn(s, ccw()), m_turn(s, ccw()),
        ]
    } else if col < s / 2 {
        seq![
            l_turn(ccw()), u_turn(s, cw()), u_turn(s, cw()), l_turn(cw()), u_turn(s, cw()), l_turn(ccw()),
            u_turn(s, cw()), l_turn(cw()),
        ]
    } else {
        seq![
            r_turn(s, cw()), u_turn(s, cw()), u_turn(s, cw()), r_turn(s, ccw()), u_turn(s, ccw()),
            r_turn(s, cw()), u_turn(s, ccw()), r_turn(s, ccw()),
        ]
    }
}

/// The commutators of inner columns 1 .. k - 1.
pub open spec fn l2c_column_comms(s: int, k: int) -> Seq<Seq<RotationMove>>
    decreases k,
{
    if k <= 1 {
        Seq::empty()
    } else {
        l2c_column_comms(s, k - 1).push(l2c_comm(s, k - 1))
    }
}

/// The generators of the last-two-centers search: a commutator per inner column, then U, U',
/// F, F' as single turns.
pub open spec fn l2c_generators(s: int) -> Seq<Seq<RotationMove>> {
    l2c_column_comms(s, s - 1) + seq![
        seq![turn(RotationAxis::Y, s - 1, cw())],
        seq![turn(RotationAxis::Y, s - 1, ccw())],
        seq![turn(RotationAxis::Z, s - 1, cw())],
        seq![turn(RotationAxis::Z, s - 1, ccw())],
    ]
}

/// The exchange commutators of the last two centers, one per inner column (the middle one,
/// a left one or a right one), then U, U', F, F' as single turns.
fn get_l2c_generators(size: usize) -> (comms: Vec<Vec<RotationMove>>)
    requires
        1 <= size <= i32::MAX,
    ensures
        comms@.map_values(|v: Vec<RotationMove>| v@) == l2c_generators(size as int),
        forall|i: int| 0 <= i < comms@.len() ==> (#[trigger] comms@[i])@.len() >= 1,
{
    let ghost sz = size as int;
    let mut comms: Vec<Vec<RotationMove>> = Vec::new();
    let mut col: usize = 1;
    while col + 1 < size
        invariant
            1 <= col <= size,
            col == 1 || col + 1 <= size,
            sz == size,
            1 <= size <= i32::MAX,
            comms@.map_values(|v: Vec<RotationMove>| v@) == l2c_column_comms(sz, col as int),
            forall|i: int| 0 <= i < comms@.len() ==> (#[trigger] comms@[i])@.len() >= 1,
        decreases size - col,
    {
        let ghost before = comms@;
        if size % 2 == 1 && col == size / 2 {
            comms.push(get_center_l2c_mid(size));
        } else if col < size / 2 {
            comms.push(get_center_l2c_left(size));
        } else {
            comms.push(get_center_l2c_right(size));
        }
        proof {
            assert(comms@.map_values(|v: Vec<RotationMove>| v@) =~= before.map_values(|v: Vec<RotationMove>| v@).push(
                l2c_comm(sz, col as int),
            ));
        }
        col = col + 1;
    }
    proof {
        if sz <= 2 {
            assert(l2c_column_comms(sz, col as int) =~= Seq::<Seq<RotationMove>>::empty());
            assert(l2c_column_comms(sz, sz - 1) =~= Seq::<Seq<RotationMove>>::empty());
        } else {
            assert(col == sz - 1);
        }
    }
    let ghost cols = comms@;
    let s = size as i32;
    let u1 = vec![RotationMove { axis: RotationAxis::Y, index: s - 1, direction: Direction::Clockwise, add_to_history: true }];
    let u2 = vec![RotationMove { axis: RotationAxis::Y, index: s - 1, direction: Direction::CounterClockwise, add_to_history: true }];
    let f1 = vec![RotationMove { axis: RotationAxis::Z, index: s - 1, direction: Direction::Clockwise, add_to_history: true }];
    let f2 = vec![RotationMove { axis: RotationAxis::Z, index: s - 1, direction: Direction::CounterClockwise, add_to_history: true }];
    proof {
        assert(u1@ =~= seq![turn(RotationAxis::Y, sz - 1, cw())]);
        assert(u2@ =~= seq![turn(RotationAxis::Y, sz - 1, ccw())]);
        assert(f1@ =~= seq![turn(RotationAxis::Z, sz - 1, cw())]);
        assert(f2@ =~= seq![turn(RotationAxis::Z, sz - 1, ccw())]);
    }
    comms.push(u1);
    comms.push(u2);
    comms.push(f1);
    comms.push(f2);
    proof {
        let m = comms@.map_values(|v: Vec<RotationMove>| v@);
        let g = l2c_generators(sz);
        assert(m.len() == g.len());
        assert forall|i: int| 0 <= i < m.len() implies m[i] == g[i] by {
            if i < cols.len() {
                assert(m[i] == cols.map_values(|v: Vec<RotationMove>| v@)[i]);
            }
        }
        assert(m =~= g);
    }
    comms
}

/// Breadth-first search over the last-two-centers generators (expanding sequences of fewer than
/// five moves, skipping orbit colorings seen before) for moves that solve the orbit positions.
fn solve_orbit_l2c(state: &NxNState, orbit_pos: &Vec<IVec3>, _f1: Face, _f2: Face) -> (r: Option<Vec<RotationMove>>)
    requires
        ready(state),
        forall|i: int| 0 <= i < orbit_pos@.len() ==> face_of_coord(#[trigger] orbit_pos@[i], state.size as int) is Some,
    ensures
        r matches Some(ms) ==> forall|i: int|
            0 <= i < orbit_pos@.len() ==> shows_own_color(
                after_moves(state.facelets@, ms@, state.size as int),
                #[trigger] orbit_pos@[i],
                state.size as int,
            ),
        (forall|i: int|
            0 <= i < orbit_pos@.len() ==> shows_own_color(state.facelets@, #[trigger] orbit_pos@[i], state.size as int))
            ==> (r matches Some(ms) && ms@.len() == 0),
{
    let ghost fs = state.facelets@;
    let ghost sz = state.size as int;
    let ghost solved0 = forall|i: int|
        0 <= i < orbit_pos@.len() ==> shows_own_color(fs, #[trigger] orbit_pos@[i], sz);
    let size = state.size;
    let generators = get_l2c_generators(size);
    let mut visited: Vec<Vec<Face>> = vec![orbit_colors(state, orbit_pos)];
    let mut layer: Vec<Vec<RotationMove>> = vec![Vec::new()];
    let mut depth: usize = 0;
    while layer.len() > 0
        invariant
            ready(state),
            size == state.size,
            fs == state.facelets@,
            sz == size,
            solved0 == forall|i: int| 0 <= i < orbit_pos@.len() ==> shows_own_color(fs, #[trigger] orbit_pos@[i], sz),
            solved0 ==> depth == 0 && layer@.len() == 1 && layer@[0]@.len() == 0,
            depth <= 6,
            depth == 6 ==> layer@.len() == 0,
            forall|i: int| 0 <= i < layer@.len() ==> (#[trigger] layer@[i])@.len() >= depth,
            forall|i: int| 0 <= i < generators@.len() ==> (#[trigger] generators@[i])@.len() >= 1,
            forall|i: int| 0 <= i < orbit_pos@.len() ==> face_of_coord(#[trigger] orbit_pos@[i], state.size as int) is Some,
        decreases 6 - depth,
    {
        let mut next: Vec<Vec<RotationMove>> = Vec::new();
        let mut li: usize = 0;
        while li < layer.len()
            invariant
                li <= layer@.len(),
                ready(state),
                size == state.size,
                fs == state.facelets@,
                sz == size,
                solved0 == forall|i: int| 0 <= i < orbit_pos@.len() ==> shows_own_color(fs, #[trigger] orbit_pos@[i], sz),
                solved0 ==> depth == 0 && li == 0 && layer@.len() == 1 && layer@[0]@.len() == 0,
                depth <= 5,
                forall|i: int| 0 <= i < layer@.len() ==> (#[trigger] layer@[i])@.len() >= depth,
                forall|i: int| 0 <= i < next@.len() ==> (#[trigger] next@[i])@.len() >= depth + 1,
                depth == 5 ==> next@.len() == 0,
                forall|i: int| 0 <= i < generators@.len() ==> (#[trigger] generators@[i])@.len() >= 1,
                forall|i: int| 0 <= i < orbit_pos@.len() ==> face_of_coord(#[trigger] orbit_pos@[i], state.size as int) is Some,
            decreases layer@.len() - li,
        {
            let moves = &layer[li];
            let test_state = simulate(state, moves);
            proof {
                if solved0 {
                    assert(moves@ =~= Seq::<RotationMove>::empty());
                    assert(test_state.facelets@ == fs);
                    assert forall|i: int| 0 <= i < orbit_pos@.len() implies shows_own_color(
                        test_state.facelets@,
                        #[trigger] orbit_pos@[i],
                        test_state.size as int,
                    ) by {
                        assert(shows_own_color(fs, orbit_pos@[i], sz));
                    }
                }
            }
            if is_orbit_solved(&test_state, orbit_pos) {
                let ms = copy_moves(moves);
                return Some(ms);
            }
            if moves.len() < 5 {
                let mut g: usize = 0;
                while g < generators.len()
                    invariant
                        g <= generators@.len(),
                        li < layer@.len(),
                        ready(state),
                        size == state.size,
                        test_state.valid(),
                        test_state.size == size,
                        moves@.len() >= depth,
                        moves@.len() < 5,
                        depth <= 5,
                        forall|i: int| 0 <= i < next@.len() ==> (#[trigger] next@[i])@.len() >= depth + 1,
                                forall|i: int| 0 <= i < generators@.len() ==> (#[trigger] generators@[i])@.len() >= 1,
                    decreases generators@.len() - g,
                {
                    let comm = &generators[g];
                    let mut next_moves = copy_moves(moves);
                    extend_moves(&mut next_moves, comm);
                    let next_state = simulate(&test_state, comm);
                    let key = orbit_colors(&next_state, orbit_pos);
                    if !seen_colors(&visited, &key) {
                        visited.push(key);
                        next.push(next_moves);
                    }
                    g = g + 1;
                }
            }
            li = li + 1;
        }
        proof {
            if depth == 5 {
                assert(next@.len() == 0);
            }
        }
        layer = next;
        depth = depth + 1;
    }
    None
}

/// The last-two-centers step is stuck in state `fs`: some position of the center orbits lies
/// on no face, or does not show its own color.
pub open spec fn l2c_stuck(fs: Seq<Facelet>, s: int) -> bool {
    exists|k: int, i: int|
        0 <= k < orbits_spec(s).len() && 0 <= i < orbits_spec(s)[k].len() && (face_of_coord(#[trigger] orbits_spec(s)[k][i], s)
            is None || !shows_own_color(fs, orbits_spec(s)[k][i], s))
}

/// Solves Up and Front orbit by orbit with the last-two-centers search; the moves are applied
/// and returned.
fn solve_l2c(state: &mut NxNState, f1: Face, f2: Face, Ghost(start): Ghost<Seq<Facelet>>) -> (r: Option<Vec<RotationMove>>)
    requires
        ready(old(state)),
        reachable(start, old(state).facelets@, old(state).size as int),
    ensures
        ready(final(state)),
        final(state).size == old(state).size,
        reachable(start, final(state).facelets@, final(state).size as int),
        r matches Some(ms) ==> final(state).facelets@ == after_moves(old(state).facelets@, ms@, old(state).size as int),
        old(state).size < 3 ==> (r matches Some(ms) && ms@.len() == 0),
        r is None ==> l2c_stuck(final(state).facelets@, final(state).size as int),
{
    let size = state.size;
    let ghost fs0 = state.facelets@;
    let ghost sz = size as int;
    let mut all_moves: Vec<RotationMove> = Vec::new();
    proof {
        assert(after_moves(fs0, all_moves@, sz) == fs0);
    }
    let orbits = get_orbits(size);
    proof {
        if sz < 3 {
            assert(scan_len(sz) == 0);
            assert(orbits_spec(sz).len() == 0);
            assert(orbits@.map_values(|o: Orbit| o.positions@).len() == 0);
        }
    }
    let mut k: usize = 0;
    while k < orbits.len()
        invariant
            k <= orbits@.len(),
            size == state.size,
            size == old(state).size,
            sz == size,
            fs0 == old(state).facelets@,
            state.facelets@ == after_moves(fs0, all_moves@, sz),
            sz < 3 ==> orbits@.len() == 0 && all_moves@.len() == 0,
            ready(state),
            reachable(start, state.facelets@, size as int),
            orbits@.map_values(|o: Orbit| o.positions@) == orbits_spec(sz),
        decreases orbits@.len() - k,
    {
        assert(orbits@.map_values(|o: Orbit| o.positions@)[k as int] == orbits@[k as int].positions@);
        let mut orbit_pos: Vec<IVec3> = Vec::new();
        let positions = &orbits[k].positions;
        let mut i: usize = 0;
        while i < positions.len()
            invariant
                i <= positions@.len(),
                k < orbits@.len(),
                sz == size,
                sz < 3 ==> orbits@.len() == 0,
                size == state.size,
                size == old(state).size,
                state.facelets@ == after_moves(fs0, all_moves@, sz),
                reachable(start, state.facelets@, size as int),
                ready(state),
                forall|j: int| 0 <= j < orbit_pos@.len() ==> face_of_coord(#[trigger] orbit_pos@[j], size as int) is Some,
                positions == &orbits@[k as int].positions,
                orbits@.map_values(|o: Orbit| o.positions@) == orbits_spec(sz),
                orbits_spec(sz)[k as int] == positions@,
                forall|j: int| 0 <= j < orbit_pos@.len() ==> exists|q: int| 0 <= q < positions@.len() && #[trigger] orbit_pos@[j]
                    == positions@[q],
            decreases positions@.len() - i,
        {
            let p = positions[i];
            match get_face_of_coord(p, size as i32) {
                Some(f) => {
                    if f == f1 || f == f2 {
                        orbit_pos.push(p);
                    }
                },
                None => {
                    assert(face_of_coord(orbits_spec(sz)[k as int][i as int], sz) is None);
                    return None;
                },
            }
            i = i + 1;
        }
        let moves = match solve_orbit_l2c(state, &orbit_pos, f1, f2) {
            Some(m) => m,
            None => {
                proof {
                    let j = choose|j: int| 0 <= j < orbit_pos@.len() && !shows_own_color(state.facelets@, #[trigger] orbit_pos@[j], sz);
                    let q = choose|q: int| 0 <= q < positions@.len() && #[trigger] orbit_pos@[j] == positions@[q];
                    assert(!shows_own_color(state.facelets@, orbits_spec(sz)[k as int][q], sz));
                }
                return None;
            },
        };
        let ghost before = all_moves@;
        apply_tracked(state, &moves, Ghost(start));
        extend_moves(&mut all_moves, &moves);
        proof {
            lemma_after_moves_concat(fs0, before, moves@, sz);
        }
        k = k + 1;
    }
    Some(all_moves)
}

/// The faces solved bar by bar, in order: Left, Right, Down, Back.
pub open spec fn bar_target(i: int) -> Face {
    if i == 0 {
        Face::Left
    } else if i == 1 {
        Face::Right
    } else if i == 2 {
        Face::Down
    } else {
        Face::Back
    }
}

/// The faces solved before the i-th.
pub open spec fn solved_before(i: int) -> Seq<Face> {
    Seq::new(i as nat, |j: int| bar_target(j))
}

/// The centers step is stuck in state `fs`: solving one of the bar faces, with the faces before
/// it solved, is stuck, or the last-two-centers step is.
pub open spec fn centers_stuck(fs: Seq<Facelet>, s: int) -> bool {
    (exists|i: int| 0 <= i < 4 && #[trigger] face_step_stuck(fs, s, bar_target(i), solved_before(i))) || l2c_stuck(fs, s)
}

/// Solves the centers: Left, Right, Down and Back bar by bar, then Up and Front with the
/// last-two-centers search. Returns the moves, or `None` when a search fails; the state is
/// left after the moves made, which the search applies as it goes.
pub fn solve_centers(state: &mut NxNState) -> (r: Option<Vec<RotationMove>>)
    requires
        ready(old(state)),
    ensures
        ready(final(state)),
        final(state).size == old(state).size,
        reachable(old(state).facelets@, final(state).facelets@, old(state).size as int),
        old(state).size < 3 ==> (r matches Some(ms) && ms@.len() == 0) && final(state).facelets@ == old(state).facelets@,
        r matches Some(ms) ==> exists|steps: Seq<(Seq<RotationMove>, Seq<RotationMove>)>, tail: Seq<RotationMove>|
            ms@ == bars_recorded(steps) + tail && final(state).facelets@ == #[trigger] after_moves(
                old(state).facelets@,
                bars_applied(steps) + tail,
                old(state).size as int,
            ),
        r is None ==> centers_stuck(final(state).facelets@, final(state).size as int),
{
    let ghost start = state.facelets@;
    let ghost sz = state.size as int;
    let ghost mut all_steps: Seq<(Seq<RotationMove>, Seq<RotationMove>)> = Seq::empty();
    proof {
        lemma_reach_self(start, state.size as int);
    }
    let mut all_moves: Vec<RotationMove> = Vec::new();
    let mut solved_faces: Vec<Face> = Vec::new();
    let mut i: usize = 0;
    while i < 4
        invariant
            i <= 4,
            start == old(state).facelets@,
            state.size == old(state).size,
            ready(state),
            reachable(start, state.facelets@, state.size as int),
            sz == state.size,
            all_moves@ == bars_recorded(all_steps),
            state.facelets@ == after_moves(start, bars_applied(all_steps), sz),
            sz < 3 ==> all_moves@.len() == 0 && state.facelets@ == start,
            solved_faces@ == solved_before(i as int),
        decreases 4 - i,
    {
        let target_face = if i == 0 {
            Face::Left
        } else if i == 1 {
            Face::Right
        } else if i == 2 {
            Face::Down
        } else {
            Face::Back
        };
        let ghost before = state.facelets@;
        assert(target_face == bar_target(i as int));
        let moves = match solve_face_with_bars(state, target_face, &solved_faces, Ghost(start)) {
            Some(m) => m,
            None => {
                assert(face_step_stuck(state.facelets@, sz, bar_target(i as int), solved_before(i as int)));
                return None;
            },
        };
        let ghost old_moves = all_moves@;
        extend_moves(&mut all_moves, &moves);
        proof {
            let st = choose|st: Seq<(Seq<RotationMove>, Seq<RotationMove>)>|
                moves@ == #[trigger] bars_recorded(st) && state.facelets@ == after_moves(before, bars_applied(st), sz);
            lemma_bars_concat(all_steps, st);
            lemma_after_moves_concat(start, bars_applied(all_steps), bars_applied(st), sz);
            all_steps = all_steps + st;
        }
        solved_faces.push(target_face);
        assert(solved_faces@ =~= solved_before(i as int + 1));
        i = i + 1;
    }
    let ghost before = state.facelets@;
    let l2c_moves = match solve_l2c(state, Face::Up, Face::Front, Ghost(start)) {
        Some(m) => m,
        None => {
            return None;
        },
    };
    extend_moves(&mut all_moves, &l2c_moves);
    proof {
        lemma_after_moves_concat(start, bars_applied(all_steps), l2c_moves@, sz);
        assert(all_moves@ == bars_recorded(all_steps) + l2c_moves@);
        if sz < 3 {
            assert(all_moves@ =~= Seq::<RotationMove>::empty());
        }
    }
    Some(all_moves)
}

} // verus!
